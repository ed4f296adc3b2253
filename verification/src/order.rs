//! A deterministic order for discovered paths: lexicographic comparison of
//! character sequences by code point, and a sort that puts a list of paths
//! into that order.

use vstd::multiset::Multiset;
use vstd::prelude::*;
use vstd::relations::{sorted_by, total_ordering};
use vstd::string::*;

verus! {

/// Lexicographic order on character sequences, by code point.
pub open spec fn lex_le(a: Seq<char>, b: Seq<char>) -> bool
    decreases a.len(),
{
    if a.len() == 0 {
        true
    } else if b.len() == 0 {
        false
    } else if a[0] == b[0] {
        lex_le(a.drop_first(), b.drop_first())
    } else {
        (a[0] as int) < (b[0] as int)
    }
}

/// The same order as a relation value, for vstd's ordering vocabulary.
pub open spec fn lex_leq() -> spec_fn(Seq<char>, Seq<char>) -> bool {
    |a: Seq<char>, b: Seq<char>| lex_le(a, b)
}

pub proof fn lemma_lex_le_reflexive(a: Seq<char>)
    ensures
        lex_le(a, a),
    decreases a.len(),
{
    if a.len() > 0 {
        lemma_lex_le_reflexive(a.drop_first());
    }
}

pub proof fn lemma_lex_le_total(a: Seq<char>, b: Seq<char>)
    ensures
        lex_le(a, b) || lex_le(b, a),
    decreases a.len(),
{
    if a.len() > 0 && b.len() > 0 && a[0] == b[0] {
        lemma_lex_le_total(a.drop_first(), b.drop_first());
    }
}

pub proof fn lemma_lex_le_antisymmetric(a: Seq<char>, b: Seq<char>)
    requires
        lex_le(a, b),
        lex_le(b, a),
    ensures
        a == b,
    decreases a.len(),
{
    if a.len() > 0 && b.len() > 0 && a[0] == b[0] {
        lemma_lex_le_antisymmetric(a.drop_first(), b.drop_first());
        assert forall|i: int| 0 <= i < a.len() implies a[i] == b[i] by {
            if i > 0 {
                assert(a[i] == a.drop_first()[i - 1]);
                assert(b[i] == b.drop_first()[i - 1]);
            }
        }
        assert(a =~= b);
    } else if a.len() == 0 {
        assert(b.len() == 0);
        assert(a =~= b);
    } else if b.len() == 0 {
        assert(!lex_le(a, b));
        assert(a =~= b);
    } else {
        assert((a[0] as int) < (b[0] as int));
        assert((b[0] as int) < (a[0] as int));
        assert(a =~= b);
    }
}

pub proof fn lemma_lex_le_transitive(a: Seq<char>, b: Seq<char>, c: Seq<char>)
    requires
        lex_le(a, b),
        lex_le(b, c),
    ensures
        lex_le(a, c),
    decreases a.len(),
{
    if a.len() > 0 && b.len() > 0 && c.len() > 0 && a[0] == b[0] && b[0] == c[0] {
        lemma_lex_le_transitive(a.drop_first(), b.drop_first(), c.drop_first());
    }
}

/// The lexicographic order is a total ordering in vstd's sense.
pub proof fn lemma_lex_total_ordering()
    ensures
        total_ordering(lex_leq()),
{
    assert forall|a: Seq<char>| #[trigger] lex_leq()(a, a) by {
        lemma_lex_le_reflexive(a);
    }
    assert forall|a: Seq<char>, b: Seq<char>|
        #[trigger] lex_leq()(a, b) && #[trigger] lex_leq()(b, a) implies a == b by {
        lemma_lex_le_antisymmetric(a, b);
    }
    assert forall|a: Seq<char>, b: Seq<char>, c: Seq<char>|
        #[trigger] lex_leq()(a, b) && #[trigger] lex_leq()(b, c) implies lex_leq()(a, c) by {
        lemma_lex_le_transitive(a, b, c);
    }
    assert forall|a: Seq<char>, b: Seq<char>|
        #[trigger] lex_leq()(a, b) || #[trigger] lex_leq()(b, a) by {
        lemma_lex_le_total(a, b);
    }
}

proof fn lemma_lex_le_step(a: Seq<char>, b: Seq<char>)
    requires
        a.len() > 0,
        b.len() > 0,
        a[0] == b[0],
    ensures
        lex_le(a, b) == lex_le(a.drop_first(), b.drop_first()),
{
}

/// Executable lexicographic comparison of two strings.
pub fn str_lex_le(a: &str, b: &str) -> (r: bool)
    ensures
        r == lex_le(a@, b@),
{
    let na: usize = a.unicode_len();
    let nb: usize = b.unicode_len();
    let mut i: usize = 0;
    proof {
        assert(a@.skip(0) =~= a@);
        assert(b@.skip(0) =~= b@);
    }
    while i < na && i < nb
        invariant
            i <= na,
            i <= nb,
            na == a@.len(),
            nb == b@.len(),
            lex_le(a@, b@) == lex_le(a@.skip(i as int), b@.skip(i as int)),
        decreases na - i,
    {
        let ca = a.get_char(i);
        let cb = b.get_char(i);
        if ca != cb {
            return ca < cb;
        }
        proof {
            lemma_lex_le_step(a@.skip(i as int), b@.skip(i as int));
            assert(a@.skip(i as int).drop_first() =~= a@.skip(i + 1));
            assert(b@.skip(i as int).drop_first() =~= b@.skip(i + 1));
        }
        i = i + 1;
    }
    na <= nb
}

/// The views of a sequence of strings.
pub open spec fn views_of(s: Seq<String>) -> Seq<Seq<char>> {
    s.map_values(|x: String| x@)
}

proof fn lemma_views_insert(s: Seq<String>, i: int, x: String)
    requires
        0 <= i <= s.len(),
    ensures
        views_of(s.insert(i, x)) =~= views_of(s).insert(i, x@),
{
    s.insert_ensures(i, x);
    views_of(s).insert_ensures(i, x@);
}

/// Sort a list of paths into lexicographic order. The result holds exactly
/// the given paths (as a multiset), in sorted order.
pub fn sort_paths(input: Vec<String>) -> (r: Vec<String>)
    ensures
        sorted_by(views_of(r@), lex_leq()),
        views_of(r@).to_multiset() == views_of(input@).to_multiset(),
{
    broadcast use vstd::seq_lib::group_to_multiset_ensures;
    broadcast use vstd::multiset::group_multiset_axioms;

    let mut rest = input;
    let mut out: Vec<String> = Vec::new();
    let ghost all: Seq<Seq<char>> = views_of(rest@);
    while rest.len() > 0
        invariant
            sorted_by(views_of(out@), lex_leq()),
            views_of(out@).to_multiset().add(views_of(rest@).to_multiset())
                =~= all.to_multiset(),
        decreases rest.len(),
    {
        let ghost old_rest: Seq<Seq<char>> = views_of(rest@);
        let ghost pre: Seq<Seq<char>> = views_of(out@);
        let x = rest.pop().unwrap();
        proof {
            assert(old_rest =~= views_of(rest@).push(x@));
            vstd::seq_lib::to_multiset_build(views_of(rest@), x@);
            assert(old_rest.to_multiset()
                =~= views_of(rest@).to_multiset().insert(x@));
        }

        // Find the insertion position: the first element that x precedes.
        let mut p: usize = 0;
        while p < out.len() && str_lex_le(out[p].as_str(), x.as_str())
            invariant
                p <= out@.len(),
                views_of(out@) == pre,
                forall|k: int| 0 <= k < p ==> lex_le(pre[k], x@),
            decreases out@.len() - p,
        {
            p = p + 1;
        }

        proof {
            if p < pre.len() {
                lemma_lex_le_total(pre[p as int], x@);
            }
            assert forall|k: int| p <= k < pre.len() implies lex_le(x@, pre[k]) by {
                if k > p {
                    assert(lex_leq()(pre[p as int], pre[k]));
                    lemma_lex_le_transitive(x@, pre[p as int], pre[k]);
                }
            }
            lemma_views_insert(out@, p as int, x);
            pre.insert_ensures(p as int, x@);
        }
        out.insert(p, x);
        proof {
            let newv = views_of(out@);
            assert(newv =~= pre.insert(p as int, x@));
            assert forall|i1: int, j1: int|
                0 <= i1 < j1 < newv.len() implies #[trigger] lex_leq()(newv[i1], newv[j1]) by {
                let iold: int = if i1 < p { i1 } else { i1 - 1 };
                let jold: int = if j1 <= p { j1 } else { j1 - 1 };
                if i1 != p && j1 != p {
                    assert(lex_leq()(pre[iold], pre[jold]));
                }
            }
            vstd::seq_lib::to_multiset_insert(pre, p as int, x@);
            assert(newv.to_multiset() =~= pre.to_multiset().insert(x@));
            assert(newv.to_multiset().add(views_of(rest@).to_multiset())
                =~= all.to_multiset());
        }
    }
    proof {
        assert(views_of(rest@) =~= Seq::<Seq<char>>::empty());
        assert(views_of(rest@).to_multiset() =~= Multiset::empty());
        assert(views_of(out@).to_multiset() =~= all.to_multiset());
    }
    out
}

} // verus!
