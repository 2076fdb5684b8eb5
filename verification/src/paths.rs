//! Path component logic on plain strings.
//!
//! A path is modelled as a sequence of characters in which `'/'` separates
//! components; the paths handed in by directory enumeration have this shape
//! (no trailing separator, no empty components). The file name is what
//! follows the last separator, the parent is what precedes it, and the
//! extension is what follows the last `'.'` of the file name unless that dot
//! starts the name.

use vstd::prelude::*;

verus! {

/// Index of the last occurrence of `c` in `s`, or -1 when `c` does not occur.
pub open spec fn last_index_of(s: Seq<char>, c: char) -> int
    decreases s.len(),
{
    if s.len() == 0 {
        -1
    } else if s[s.len() - 1] == c {
        s.len() - 1
    } else {
        last_index_of(s.drop_last(), c)
    }
}

/// What `last_index_of` returns: the index of `c`'s last occurrence, with
/// nothing but other characters after it, or -1 when `c` is absent.
pub proof fn lemma_last_index_of(s: Seq<char>, c: char)
    ensures
        -1 <= last_index_of(s, c) < s.len(),
        last_index_of(s, c) >= 0 ==> s[last_index_of(s, c)] == c,
        forall|j: int| last_index_of(s, c) < j < s.len() ==> s[j] != c,
    decreases s.len(),
{
    if s.len() > 0 && s[s.len() - 1] != c {
        lemma_last_index_of(s.drop_last(), c);
        assert forall|j: int| last_index_of(s, c) < j < s.len() implies s[j] != c by {
            if j < s.len() - 1 {
                assert(s.drop_last()[j] == s[j]);
            }
        }
    }
}

/// The last occurrence is pinned down by its characterization: if `s[k] == c`
/// and no later position holds `c`, then `k` is the last occurrence.
pub proof fn lemma_last_index_of_unique(s: Seq<char>, c: char, k: int)
    requires
        0 <= k < s.len(),
        s[k] == c,
        forall|j: int| k < j < s.len() ==> s[j] != c,
    ensures
        last_index_of(s, c) == k,
{
    lemma_last_index_of(s, c);
    let l = last_index_of(s, c);
    if l < k {
        assert(s[k] != c);
    }
}

/// Everything after the last separator; the whole of `s` when there is none.
pub open spec fn base_part(s: Seq<char>) -> Seq<char> {
    s.subrange(last_index_of(s, '/') + 1, s.len() as int)
}

/// The file name: the non-empty part after the last separator.
pub open spec fn file_name_spec(s: Seq<char>) -> Option<Seq<char>> {
    if base_part(s).len() == 0 {
        None
    } else {
        Some(base_part(s))
    }
}

/// The parent: what precedes the last separator, when there is one.
pub open spec fn parent_spec(s: Seq<char>) -> Option<Seq<char>> {
    if last_index_of(s, '/') >= 0 {
        Some(s.subrange(0, last_index_of(s, '/')))
    } else {
        None
    }
}

/// The extension of the file name: what follows its last `'.'`, unless that
/// dot is the name's first character or the name has none.
pub open spec fn extension_spec(s: Seq<char>) -> Option<Seq<char>> {
    match file_name_spec(s) {
        None => None,
        Some(name) => {
            if last_index_of(name, '.') >= 1 {
                Some(name.subrange(last_index_of(name, '.') + 1, name.len() as int))
            } else {
                None
            }
        },
    }
}

/// Index of the last occurrence of `c` in `s`, scanning from the end.
fn rfind_char(s: &str, c: char) -> (r: Option<usize>)
    ensures
        match r {
            Some(i) => i == last_index_of(s@, c) && i < s@.len(),
            None => last_index_of(s@, c) == -1,
        },
{
    let n = s.unicode_len();
    let mut i = n;
    while i > 0
        invariant
            i <= n,
            n == s@.len(),
            forall|j: int| i <= j < s@.len() ==> s@[j] != c,
        decreases i,
    {
        i = i - 1;
        if s.get_char(i) == c {
            proof {
                lemma_last_index_of_unique(s@, c, i as int);
            }
            return Some(i);
        }
    }
    proof {
        lemma_last_index_of(s@, c);
    }
    None
}

/// The file name of `path`: the non-empty part after the last separator.
pub fn file_name_of(path: &str) -> (r: Option<&str>)
    ensures
        r is Some <==> file_name_spec(path@) is Some,
        r is Some ==> r.unwrap()@ == file_name_spec(path@).unwrap(),
{
    let n = path.unicode_len();
    let base = match rfind_char(path, '/') {
        Some(i) => path.substring_char(i + 1, n),
        None => path,
    };
    proof {
        lemma_last_index_of(path@, '/');
        assert(base@ =~= base_part(path@));
    }
    if base.unicode_len() == 0 {
        None
    } else {
        Some(base)
    }
}

/// The parent of `path`: what precedes the last separator, when there is one.
pub fn parent_of(path: &str) -> (r: Option<&str>)
    ensures
        r is Some <==> parent_spec(path@) is Some,
        r is Some ==> r.unwrap()@ == parent_spec(path@).unwrap(),
{
    match rfind_char(path, '/') {
        Some(i) => Some(path.substring_char(0, i)),
        None => None,
    }
}

/// The extension of `path`'s file name, when it has one.
pub fn extension_of(path: &str) -> (r: Option<&str>)
    ensures
        r is Some <==> extension_spec(path@) is Some,
        r is Some ==> r.unwrap()@ == extension_spec(path@).unwrap(),
{
    match file_name_of(path) {
        None => None,
        Some(name) => {
            let m = name.unicode_len();
            match rfind_char(name, '.') {
                Some(i) => {
                    if i >= 1 {
                        Some(name.substring_char(i + 1, m))
                    } else {
                        None
                    }
                },
                None => None,
            }
        },
    }
}

/// Joining a component onto a base path: an empty side leaves the other
/// unchanged, otherwise a separator stands between them.
pub open spec fn join_spec(base: Seq<char>, comp: Seq<char>) -> Seq<char> {
    if base.len() == 0 {
        comp
    } else if comp.len() == 0 {
        base
    } else {
        base + seq!['/'] + comp
    }
}

/// The synthetic parent label for files that have no parent directory.
pub open spec fn root_label() -> Seq<char> {
    seq!['r', 'o', 'o', 't']
}

/// The name of `path`'s grandparent directory, or empty when there is none
/// (or it has no name of its own).
pub open spec fn grandparent_label(path: Seq<char>) -> Seq<char> {
    match parent_spec(path) {
        None => Seq::empty(),
        Some(p) => match parent_spec(p) {
            None => Seq::empty(),
            Some(g) => match file_name_spec(g) {
                None => Seq::empty(),
                Some(n) => n,
            },
        },
    }
}

/// The name of `path`'s parent directory, or the literal `root` when the path
/// is a bare file name (or the parent has no name of its own).
pub open spec fn parent_label(path: Seq<char>) -> Seq<char> {
    match parent_spec(path) {
        None => root_label(),
        Some(p) => match file_name_spec(p) {
            None => root_label(),
            Some(n) => n,
        },
    }
}

/// The destination a copied file is routed to: its two nearest ancestor
/// directory names under the output root, then its file name. Arbitrarily
/// deep source trees collapse to two levels; intermediate ancestors are
/// dropped. A function of the two arguments alone, so the derivation is
/// deterministic. `None` exactly when the path has no file name.
pub open spec fn derived_path(path: Seq<char>, output_dir: Seq<char>) -> Option<Seq<char>> {
    match file_name_spec(path) {
        None => None,
        Some(name) => Some(
            join_spec(
                join_spec(join_spec(output_dir, grandparent_label(path)), parent_label(path)),
                name,
            ),
        ),
    }
}

/// Join one component onto a base path.
pub fn join_path(base: &str, comp: &str) -> (r: String)
    ensures
        r@ == join_spec(base@, comp@),
{
    if base.unicode_len() == 0 {
        String::from_str(comp)
    } else if comp.unicode_len() == 0 {
        String::from_str(base)
    } else {
        let mut s = String::from_str(base);
        s.append("/");
        s.append(comp);
        proof {
            reveal_strlit("/");
            assert(s@ =~= base@ + seq!['/'] + comp@);
        }
        s
    }
}

/// The string `root`, the parent label of bare file names.
fn root_string() -> (r: String)
    ensures
        r@ == root_label(),
{
    let r = String::from_str("root");
    proof {
        reveal_strlit("root");
        assert(r@ =~= root_label());
    }
    r
}

/// The destination path for `path` under `output_dir`: the grandparent and
/// parent directory names, then the file name, joined under the output root.
pub fn get_new_filepath(path: &str, output_dir: &str) -> (r: Option<String>)
    ensures
        r is Some <==> derived_path(path@, output_dir@) is Some,
        r is Some ==> r.unwrap()@ == derived_path(path@, output_dir@).unwrap(),
{
    let name = match file_name_of(path) {
        None => { return None; },
        Some(n) => n,
    };
    let grandparent = match parent_of(path) {
        None => String::new(),
        Some(p) => match parent_of(p) {
            None => String::new(),
            Some(g) => match file_name_of(g) {
                None => String::new(),
                Some(n) => String::from_str(n),
            },
        },
    };
    let parent = match parent_of(path) {
        None => root_string(),
        Some(p) => match file_name_of(p) {
            None => root_string(),
            Some(n) => String::from_str(n),
        },
    };
    proof {
        assert(grandparent@ =~= grandparent_label(path@));
        assert(parent@ =~= parent_label(path@));
    }
    let step1 = join_path(output_dir, grandparent.as_str());
    let step2 = join_path(step1.as_str(), parent.as_str());
    Some(join_path(step2.as_str(), name))
}

/// In a concatenation whose right part holds `c`, the last occurrence lies
/// in the right part.
proof fn lemma_last_index_concat(a: Seq<char>, b: Seq<char>, c: char)
    requires
        last_index_of(b, c) >= 0,
    ensures
        last_index_of(a + b, c) == a.len() + last_index_of(b, c),
{
    lemma_last_index_of(b, c);
    let l = last_index_of(b, c);
    assert((a + b)[a.len() + l] == c);
    assert forall|j: int| a.len() + l < j < (a + b).len() implies (a + b)[j] != c by {
        assert((a + b)[j] == b[j - a.len()]);
    }
    lemma_last_index_of_unique(a + b, c, a.len() + l);
}

/// When the part after a freshly added separator holds none itself, that
/// separator is the last one.
proof fn lemma_last_index_fresh_sep(a: Seq<char>, b: Seq<char>)
    requires
        last_index_of(b, '/') == -1,
    ensures
        last_index_of(a + seq!['/'] + b, '/') == a.len(),
{
    lemma_last_index_of(b, '/');
    let t = a + seq!['/'] + b;
    assert(t[a.len() as int] == '/');
    assert forall|j: int| a.len() < j < t.len() implies t[j] != '/' by {
        assert(t[j] == b[j - a.len() - 1]);
    }
    lemma_last_index_of_unique(t, '/', a.len() as int);
}

/// The file name does not change when ancestors are prepended.
proof fn lemma_file_name_prepend(a: Seq<char>, b: Seq<char>)
    ensures
        file_name_spec(a + seq!['/'] + b) == file_name_spec(b),
{
    let t = a + seq!['/'] + b;
    lemma_last_index_of(b, '/');
    if last_index_of(b, '/') >= 0 {
        lemma_last_index_concat(a + seq!['/'], b, '/');
        assert(base_part(t) =~= base_part(b));
    } else {
        lemma_last_index_fresh_sep(a, b);
        assert(base_part(t) =~= b);
        assert(base_part(b) =~= b);
    }
}

/// Prepending ancestors to a path that has a parent prepends them to the
/// parent.
proof fn lemma_parent_prepend(a: Seq<char>, b: Seq<char>)
    requires
        last_index_of(b, '/') >= 0,
    ensures
        parent_spec(a + seq!['/'] + b) is Some,
        parent_spec(a + seq!['/'] + b).unwrap() == a + seq!['/'] + parent_spec(b).unwrap(),
{
    lemma_last_index_of(b, '/');
    lemma_last_index_concat(a + seq!['/'], b, '/');
    let t = a + seq!['/'] + b;
    let l = last_index_of(b, '/');
    assert(t.subrange(0, a.len() + 1 + l) =~= a + seq!['/'] + b.subrange(0, l));
}

/// Source depth beyond two levels collapses: a path that already has a
/// parent and a grandparent derives the same destination after any further
/// ancestors are prepended — the intermediate ancestors are dropped, not
/// kept and not an error.
pub proof fn lemma_derived_path_collapses(
    ancestors: Seq<char>,
    path: Seq<char>,
    output_dir: Seq<char>,
)
    requires
        last_index_of(path, '/') >= 0,
        last_index_of(path.subrange(0, last_index_of(path, '/')), '/') >= 0,
    ensures
        derived_path(ancestors + seq!['/'] + path, output_dir) == derived_path(path, output_dir),
{
    let t = ancestors + seq!['/'] + path;
    let p1 = path.subrange(0, last_index_of(path, '/'));
    let p2 = p1.subrange(0, last_index_of(p1, '/'));
    lemma_file_name_prepend(ancestors, path);
    lemma_parent_prepend(ancestors, path);
    lemma_file_name_prepend(ancestors, p1);
    lemma_parent_prepend(ancestors, p1);
    lemma_file_name_prepend(ancestors, p2);
    assert(parent_spec(t).unwrap() == ancestors + seq!['/'] + p1);
    assert(parent_label(t) == parent_label(path));
    assert(parent_spec(ancestors + seq!['/'] + p1).unwrap() == ancestors + seq!['/'] + p2);
    assert(grandparent_label(t) == grandparent_label(path));
}

} // verus!
