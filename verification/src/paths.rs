//! Path text: the file-name component of a slash-separated path, its
//! extension, and the case-insensitive test for the target format's
//! extension.

use vstd::prelude::*;
use vstd::string::*;

verus! {

/// The file-name component of a path: the characters after the last `/`,
/// or the whole path when it has no separator.
pub open spec fn file_name_of(path: Seq<char>) -> Seq<char>
    decreases path.len(),
{
    if path.len() == 0 {
        path
    } else if path.last() == '/' {
        Seq::<char>::empty()
    } else {
        file_name_of(path.drop_last()).push(path.last())
    }
}

/// The extension of a file name: the characters after the last `.`, provided
/// that dot is not the leading character (a name such as `.config` has none).
pub open spec fn extension_of(name: Seq<char>) -> Option<Seq<char>>
    decreases name.len(),
{
    if name.len() <= 1 {
        None
    } else if name.last() == '.' {
        Some(Seq::<char>::empty())
    } else {
        match extension_of(name.drop_last()) {
            Some(e) => Some(e.push(name.last())),
            None => None,
        }
    }
}

/// ASCII-lowercase a single character; all other characters are unchanged.
pub open spec fn lower_char(c: char) -> char {
    if 'A' <= c && c <= 'Z' {
        ((c as u8) + 32) as char
    } else {
        c
    }
}

/// A character sequence, ASCII-lowercased pointwise.
pub open spec fn lower_seq(s: Seq<char>) -> Seq<char> {
    s.map_values(|c: char| lower_char(c))
}

/// The extension that marks a file as being in the target columnar format.
pub open spec fn target_extension() -> Seq<char> {
    seq!['p', 'a', 'r', 'q', 'u', 'e', 't']
}

/// The extension of a path's file name, lowercased; `None` when the name has
/// no extension.
pub open spec fn lower_extension_of(path: Seq<char>) -> Option<Seq<char>> {
    match extension_of(file_name_of(path)) {
        Some(e) => Some(lower_seq(e)),
        None => None,
    }
}

/// Whether a path names a file of the target format: its file name has an
/// extension that, lowercased, equals `target_extension()`.
pub open spec fn is_parquet_path(path: Seq<char>) -> bool {
    lower_extension_of(path) == Some(target_extension())
}

/// The match decision is a function of the lowercased extension alone: two
/// paths whose lowercased extensions agree (including both having none) are
/// either both of the target format or both not.
pub proof fn lemma_match_depends_only_on_lowercased_extension(a: Seq<char>, b: Seq<char>)
    requires
        lower_extension_of(a) == lower_extension_of(b),
    ensures
        is_parquet_path(a) == is_parquet_path(b),
{
}

proof fn lemma_file_name_after_last_slash(path: Seq<char>, k: int)
    requires
        0 <= k < path.len(),
        path[k] == '/',
        forall|j: int| k < j < path.len() ==> path[j] != '/',
    ensures
        file_name_of(path) =~= path.subrange(k + 1, path.len() as int),
    decreases path.len(),
{
    if k < path.len() - 1 {
        lemma_file_name_after_last_slash(path.drop_last(), k);
    }
}

proof fn lemma_file_name_no_slash(path: Seq<char>)
    requires
        forall|j: int| 0 <= j < path.len() ==> path[j] != '/',
    ensures
        file_name_of(path) =~= path,
    decreases path.len(),
{
    if path.len() > 0 {
        lemma_file_name_no_slash(path.drop_last());
    }
}

proof fn lemma_extension_after_last_dot(name: Seq<char>, d: int)
    requires
        1 <= d < name.len(),
        name[d] == '.',
        forall|j: int| d < j < name.len() ==> name[j] != '.',
    ensures
        extension_of(name) matches Some(e) && e =~= name.subrange(d + 1, name.len() as int),
    decreases name.len(),
{
    if d < name.len() - 1 {
        lemma_extension_after_last_dot(name.drop_last(), d);
    }
}

proof fn lemma_extension_no_dot(name: Seq<char>)
    requires
        forall|j: int| 1 <= j < name.len() ==> name[j] != '.',
    ensures
        extension_of(name) is None,
    decreases name.len(),
{
    if name.len() > 1 {
        lemma_extension_no_dot(name.drop_last());
    }
}

/// Executable ASCII lowercasing, matching `lower_char`.
fn to_lower_ascii(c: char) -> (r: char)
    ensures
        r == lower_char(c),
{
    if 'A' <= c && c <= 'Z' {
        ((c as u8) + 32) as char
    } else {
        c
    }
}

/// The character at a given position of `target_extension()`.
fn target_extension_char(j: usize) -> (c: char)
    requires
        j < 7,
    ensures
        c == target_extension()[j as int],
{
    if j == 0 {
        'p'
    } else if j == 1 {
        'a'
    } else if j == 2 {
        'r'
    } else if j == 3 {
        'q'
    } else if j == 4 {
        'u'
    } else if j == 5 {
        'e'
    } else {
        't'
    }
}

/// Whether a path names a file of the target columnar format, judged by its
/// extension alone, case-insensitively.
pub fn is_parquet_file(path: &str) -> (r: bool)
    ensures
        r == is_parquet_path(path@),
{
    let n: usize = path.unicode_len();

    // The index right after the last `/`, or 0 when there is none: the file
    // name occupies positions start..n.
    let mut start: usize = 0;
    let mut i: usize = 0;
    while i < n
        invariant
            start <= i <= n,
            n == path@.len(),
            forall|j: int| start <= j < i ==> path@[j] != '/',
            start > 0 ==> start - 1 < n && path@[start - 1] == '/',
        decreases n - i,
    {
        if path.get_char(i) == '/' {
            start = i + 1;
        }
        i = i + 1;
    }

    proof {
        if start > 0 {
            lemma_file_name_after_last_slash(path@, start - 1);
        } else {
            lemma_file_name_no_slash(path@);
        }
    }
    let ghost name: Seq<char> = path@.subrange(start as int, n as int);
    assert(file_name_of(path@) =~= name);

    if start == n {
        // Empty file name: no extension.
        return false;
    }

    // The index of the last `.` strictly after the name's first character.
    let mut dot: usize = 0;
    let mut have_dot: bool = false;
    let mut k: usize = start + 1;
    while k < n
        invariant
            start + 1 <= k <= n,
            n == path@.len(),
            have_dot ==> start + 1 <= dot < k && path@[dot as int] == '.',
            have_dot ==> forall|j: int| dot < j < k ==> path@[j] != '.',
            !have_dot ==> forall|j: int| start + 1 <= j < k ==> path@[j] != '.',
        decreases n - k,
    {
        if path.get_char(k) == '.' {
            dot = k;
            have_dot = true;
        }
        k = k + 1;
    }

    if !have_dot {
        proof {
            lemma_extension_no_dot(name);
        }
        return false;
    }

    proof {
        lemma_extension_after_last_dot(name, dot - start);
    }
    let ghost ext: Seq<char> = path@.subrange(dot + 1, n as int);
    assert(extension_of(name) matches Some(e) && e =~= ext);

    if n - dot - 1 != 7 {
        assert(lower_seq(ext).len() != 7);
        return false;
    }

    let mut all_match: bool = true;
    let mut j: usize = 0;
    while j < 7
        invariant
            j <= 7,
            n == path@.len(),
            dot + 8 == n,
            start + 1 <= dot < n,
            ext == path@.subrange(dot + 1, n as int),
            all_match <==> (forall|m: int|
                0 <= m < j ==> lower_char(ext[m]) == target_extension()[m]),
        decreases 7 - j,
    {
        let c = to_lower_ascii(path.get_char(dot + 1 + j));
        let t = target_extension_char(j);
        all_match = all_match && (c == t);
        j = j + 1;
    }

    proof {
        if all_match {
            assert(lower_seq(ext) =~= target_extension());
        } else {
            let m = choose|m: int|
                0 <= m < 7 && lower_char(ext[m]) != target_extension()[m];
            assert(lower_seq(ext)[m] != target_extension()[m]);
        }
    }
    all_match
}

} // verus!
