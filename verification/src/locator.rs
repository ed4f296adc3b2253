//! Locating candidate input files. The unverified walker reports what the
//! filesystem holds (the kind of the root, and the objects under a directory
//! root); this module decides which of those are target-format files and puts
//! them into a deterministic order.

use crate::order::{lex_leq, sort_paths, views_of};
use crate::paths::{is_parquet_file, is_parquet_path};
use vstd::prelude::*;
use vstd::relations::sorted_by;
use vstd::seq_lib::{
    lemma_multiset_commutative, lemma_sorted_unique, to_multiset_build, to_multiset_contains,
    to_multiset_remove,
};

verus! {

/// One filesystem object reported by a directory walk.
#[derive(Debug)]
pub struct WalkEntry {
    pub path: String,
    /// Whether the object is a regular file; directories and other objects
    /// are never selected.
    pub is_file: bool,
}

/// The mathematical value of a `WalkEntry`.
pub struct WalkEntryV {
    pub path: Seq<char>,
    pub is_file: bool,
}

impl View for WalkEntry {
    type V = WalkEntryV;

    open spec fn view(&self) -> WalkEntryV {
        WalkEntryV { path: self.path@, is_file: self.is_file }
    }
}

/// What probing the root path itself found.
#[derive(Clone, Copy, Debug)]
pub enum RootKind {
    /// The root path does not exist.
    Missing,
    /// The root path is a regular file.
    File,
    /// The root path is a directory.
    Directory,
}

/// Why locating candidate files failed.
#[derive(Debug)]
pub enum LocateError {
    /// The root path does not exist.
    PathNotFound { path: String },
    /// The root path is a regular file, but not of the target format.
    NotTargetFormat { path: String },
}

/// Whether a walk entry is selected: a regular file whose extension marks the
/// target format.
pub open spec fn selected_pred() -> spec_fn(WalkEntryV) -> bool {
    |e: WalkEntryV| e.is_file && is_parquet_path(e.path)
}

/// The path of a walk entry.
pub open spec fn path_of() -> spec_fn(WalkEntryV) -> Seq<char> {
    |e: WalkEntryV| e.path
}

/// The paths of the selected entries, in walk order.
pub open spec fn selected_paths(entries: Seq<WalkEntryV>) -> Seq<Seq<char>> {
    entries.filter(selected_pred()).map_values(path_of())
}

/// The views of a sequence of walk entries.
pub open spec fn entry_views(entries: Seq<WalkEntry>) -> Seq<WalkEntryV> {
    entries.map_values(|e: WalkEntry| e@)
}

proof fn lemma_map_path_push(s: Seq<WalkEntryV>, x: WalkEntryV)
    ensures
        s.push(x).map_values(path_of()) =~= s.map_values(path_of()).push(path_of()(x)),
{
}

proof fn lemma_selected_push(s: Seq<WalkEntryV>, x: WalkEntryV)
    ensures
        selected_paths(s.push(x)) =~= if selected_pred()(x) {
            selected_paths(s).push(path_of()(x))
        } else {
            selected_paths(s)
        },
{
    s.lemma_filter_push(x, selected_pred());
    if selected_pred()(x) {
        lemma_map_path_push(s.filter(selected_pred()), x);
    }
}

proof fn lemma_selected_distributes(a: Seq<WalkEntryV>, b: Seq<WalkEntryV>)
    ensures
        selected_paths(a + b) =~= selected_paths(a) + selected_paths(b),
{
    Seq::filter_distributes_over_add(a, b, selected_pred());
    let fa = a.filter(selected_pred());
    let fb = b.filter(selected_pred());
    assert((fa + fb).map_values(path_of()) =~= fa.map_values(path_of()) + fb.map_values(
        path_of(),
    ));
}

proof fn lemma_selected_singleton(x: WalkEntryV)
    ensures
        selected_paths(seq![x]) =~= if selected_pred()(x) {
            seq![path_of()(x)]
        } else {
            Seq::<Seq<char>>::empty()
        },
{
    let e = Seq::<WalkEntryV>::empty();
    assert(seq![x] =~= e.push(x));
    e.lemma_filter_len(selected_pred());
    assert(e.filter(selected_pred()) =~= e);
    lemma_selected_push(e, x);
    assert(selected_paths(e) =~= Seq::<Seq<char>>::empty());
}

/// Which paths are selected depends only on which entries the walk reported,
/// not on the order it reported them in.
proof fn lemma_selected_permutation(a: Seq<WalkEntryV>, b: Seq<WalkEntryV>)
    requires
        a.to_multiset() == b.to_multiset(),
    ensures
        selected_paths(a).to_multiset() == selected_paths(b).to_multiset(),
    decreases a.len(),
{
    broadcast use vstd::seq_lib::group_to_multiset_ensures;
    broadcast use vstd::multiset::group_multiset_axioms;

    if a.len() == 0 {
        vstd::seq_lib::to_multiset_len(a);
        vstd::seq_lib::to_multiset_len(b);
        assert(b.len() == 0);
        assert(b =~= a);
    } else {
        let x = a.last();
        let a1 = a.drop_last();
        assert(a =~= a1.push(x));
        assert(a.contains(x));
        to_multiset_contains(a, x);
        to_multiset_contains(b, x);
        let i = choose|i: int| 0 <= i < b.len() && b[i] == x;
        let b1 = b.remove(i);
        to_multiset_remove(b, i);
        to_multiset_build(a1, x);
        assert(a1.to_multiset() =~= b1.to_multiset());
        lemma_selected_permutation(a1, b1);

        lemma_selected_push(a1, x);

        let b0 = b.subrange(0, i);
        let b2 = b.subrange(i + 1, b.len() as int);
        assert(b =~= (b0 + seq![x]) + b2);
        assert(b1 =~= b0 + b2);
        lemma_selected_distributes(b0 + seq![x], b2);
        lemma_selected_distributes(b0, seq![x]);
        lemma_selected_distributes(b0, b2);
        lemma_selected_singleton(x);

        lemma_multiset_commutative(selected_paths(b0 + seq![x]), selected_paths(b2));
        lemma_multiset_commutative(selected_paths(b0), selected_paths(seq![x]));
        lemma_multiset_commutative(selected_paths(b0), selected_paths(b2));
        if selected_pred()(x) {
            to_multiset_build(selected_paths(a1), path_of()(x));
            to_multiset_build(selected_paths(b0), path_of()(x));
            assert(selected_paths(b0) + seq![path_of()(x)] =~= selected_paths(b0).push(
                path_of()(x),
            ));
        }
        assert(selected_paths(a).to_multiset() =~= selected_paths(b).to_multiset());
    }
}

/// Select the target-format files among the reported entries, in walk order.
fn matching_paths(entries: &Vec<WalkEntry>) -> (r: Vec<String>)
    ensures
        views_of(r@) == selected_paths(entry_views(entries@)),
{
    let ghost ev = entry_views(entries@);
    let mut out: Vec<String> = Vec::new();
    let mut i: usize = 0;
    assert(views_of(out@) =~= selected_paths(ev.take(0)));
    while i < entries.len()
        invariant
            i <= entries@.len(),
            ev == entry_views(entries@),
            views_of(out@) == selected_paths(ev.take(i as int)),
        decreases entries@.len() - i,
    {
        let e = &entries[i];
        let ghost prev = views_of(out@);
        if e.is_file && is_parquet_file(e.path.as_str()) {
            out.push(e.path.clone());
            assert(views_of(out@) =~= prev.push(e.path@));
        }
        proof {
            assert(ev.take(i + 1) =~= ev.take(i as int).push(ev[i as int]));
            lemma_selected_push(ev.take(i as int), ev[i as int]);
        }
        i = i + 1;
    }
    proof {
        assert(ev.take(ev.len() as int) =~= ev);
    }
    out
}

/// Locate the target-format files under a root path.
///
/// The unverified walker probes the root (`kind`) and, for a directory root,
/// reports every object it could reach (`entries`), in whatever order the
/// filesystem yielded them. A missing root fails; a file root must itself be
/// of the target format; a directory root yields every selected entry, sorted
/// into lexicographic order so that the result is reproducible whatever order
/// the walk used.
pub fn locate(root: &str, kind: RootKind, entries: Vec<WalkEntry>) -> (r: Result<
    Vec<String>,
    LocateError,
>)
    ensures
        match r {
            Ok(paths) => match kind {
                RootKind::Missing => false,
                RootKind::File => is_parquet_path(root@) && views_of(paths@) == seq![root@],
                RootKind::Directory => sorted_by(views_of(paths@), lex_leq()) && views_of(
                    paths@,
                ).to_multiset() == selected_paths(entry_views(entries@)).to_multiset(),
            },
            Err(LocateError::PathNotFound { path }) => kind is Missing && path@ == root@,
            Err(LocateError::NotTargetFormat { path }) => kind is File && !is_parquet_path(root@)
                && path@ == root@,
        },
{
    match kind {
        RootKind::Missing => Err(LocateError::PathNotFound { path: root.to_owned() }),
        RootKind::File => {
            if is_parquet_file(root) {
                let mut paths: Vec<String> = Vec::new();
                paths.push(root.to_owned());
                assert(views_of(paths@) =~= seq![root@]);
                Ok(paths)
            } else {
                Err(LocateError::NotTargetFormat { path: root.to_owned() })
            }
        },
        RootKind::Directory => {
            let matched = matching_paths(&entries);
            Ok(sort_paths(matched))
        },
    }
}

/// Locator determinism: two walks over an unchanged tree that report the same
/// entries, in whatever orders, locate identical ordered lists.
pub proof fn lemma_locate_deterministic(
    a: Seq<WalkEntryV>,
    b: Seq<WalkEntryV>,
    ra: Seq<Seq<char>>,
    rb: Seq<Seq<char>>,
)
    requires
        a.to_multiset() == b.to_multiset(),
        sorted_by(ra, lex_leq()),
        ra.to_multiset() == selected_paths(a).to_multiset(),
        sorted_by(rb, lex_leq()),
        rb.to_multiset() == selected_paths(b).to_multiset(),
    ensures
        ra == rb,
{
    lemma_selected_permutation(a, b);
    crate::order::lemma_lex_total_ordering();
    lemma_sorted_unique(ra, rb, lex_leq());
}

/// Recursive superset: a walk that reports every entry a shallower walk
/// reports (and possibly more) locates every path the shallower walk locates.
pub proof fn lemma_recursive_walk_superset(
    shallow: Seq<WalkEntryV>,
    deep: Seq<WalkEntryV>,
    rs: Seq<Seq<char>>,
    rd: Seq<Seq<char>>,
)
    requires
        forall|k: int| 0 <= k < shallow.len() ==> deep.contains(shallow[k]),
        rs.to_multiset() == selected_paths(shallow).to_multiset(),
        rd.to_multiset() == selected_paths(deep).to_multiset(),
    ensures
        forall|p: Seq<char>| rs.contains(p) ==> rd.contains(p),
{
    let pred = selected_pred();
    let fs = shallow.filter(pred);
    let fd = deep.filter(pred);
    assert forall|p: Seq<char>| rs.contains(p) implies rd.contains(p) by {
        to_multiset_contains(rs, p);
        to_multiset_contains(selected_paths(shallow), p);
        // p comes from some selected entry of the shallow walk
        let j = choose|j: int| 0 <= j < selected_paths(shallow).len() && selected_paths(
            shallow,
        )[j] == p;
        let e = fs[j];
        shallow.lemma_filter_pred(pred, j);
        shallow.lemma_filter_contains_rev(pred, e);
        assert(shallow.contains(e));
        let k = choose|k: int| 0 <= k < shallow.len() && shallow[k] == e;
        assert(deep.contains(e));
        let m = choose|m: int| 0 <= m < deep.len() && deep[m] == e;
        deep.lemma_filter_contains(pred, m);
        let q = choose|q: int| 0 <= q < fd.len() && fd[q] == e;
        assert(selected_paths(deep)[q] == p);
        assert(selected_paths(deep).contains(p));
        to_multiset_contains(selected_paths(deep), p);
        to_multiset_contains(rd, p);
    }
}

} // verus!
