//! The pattern counter: how many enumerated entries have a file name that
//! matches a glob pattern. Directories count too when their names match —
//! the counter applies no directory filter, unlike the tally and the copier.

use vstd::prelude::*;

use crate::entry::DirEntry;
use crate::paths::file_name_spec;
use crate::paths::file_name_of;

verus! {

/// Whether a glob pattern compiles: a function of the pattern text alone.
pub uninterp spec fn pattern_ok(pattern: Seq<char>) -> bool;

/// Whether a name matches a glob pattern, under the default match options: a
/// function of the two texts alone.
pub uninterp spec fn glob_match(pattern: Seq<char>, name: Seq<char>) -> bool;

/// Relies on glob::Pattern::new: compiling a pattern succeeds or fails on the
/// pattern text alone, and never panics.
#[verifier::external_body]
fn pattern_is_ok(pattern: &str) -> (r: bool)
    ensures
        r == pattern_ok(pattern@),
{
    glob::Pattern::new(pattern).is_ok()
}

/// Relies on glob::Pattern::new and glob::Pattern::matches: whether `name`
/// matches a valid pattern depends on the two texts alone (the pattern is
/// compiled here rather than carried, since a compiled pattern is opaque to
/// the contracts).
#[verifier::external_body]
fn pattern_matches(pattern: &str, name: &str) -> (r: bool)
    requires
        pattern_ok(pattern@),
    ensures
        r == glob_match(pattern@, name@),
{
    match glob::Pattern::new(pattern) {
        Ok(p) => p.matches(name),
        Err(_) => false,
    }
}

/// Whether an entry counts: its file name matches the pattern.
pub open spec fn entry_matches(e: DirEntry, pattern: Seq<char>) -> bool {
    match file_name_spec(e.path@) {
        Some(name) => glob_match(pattern, name),
        None => false,
    }
}

/// How many entries have a file name matching the pattern.
pub open spec fn match_count(entries: Seq<DirEntry>, pattern: Seq<char>) -> int
    decreases entries.len(),
{
    if entries.len() == 0 {
        0
    } else {
        match_count(entries.drop_last(), pattern) + if entry_matches(entries.last(), pattern) {
            1int
        } else {
            0int
        }
    }
}

/// Appending one entry raises the count exactly when its name matches.
proof fn lemma_match_count_push(s: Seq<DirEntry>, e: DirEntry, pattern: Seq<char>)
    ensures
        match_count(s.push(e), pattern) == match_count(s, pattern) + if entry_matches(e, pattern) {
            1int
        } else {
            0int
        },
{
    assert(s.push(e).drop_last() =~= s);
    assert(s.push(e).last() == e);
}

/// The count never exceeds the number of entries.
proof fn lemma_match_count_bounds(s: Seq<DirEntry>, pattern: Seq<char>)
    ensures
        0 <= match_count(s, pattern) <= s.len(),
    decreases s.len(),
{
    if s.len() > 0 {
        lemma_match_count_bounds(s.drop_last(), pattern);
    }
}

/// Count the entries whose file name matches `search`.
///
/// `None` exactly when the pattern does not compile — the fatal case; on a
/// valid pattern the result is the number of matching entries, directories
/// included.
pub fn count(entries: &Vec<DirEntry>, search: &str) -> (r: Option<usize>)
    ensures
        r is Some <==> pattern_ok(search@),
        r is Some ==> r.unwrap() as int == match_count(entries@, search@),
{
    if !pattern_is_ok(search) {
        return None;
    }
    let n = entries.len();
    let mut total: usize = 0;
    let mut k: usize = 0;
    while k < n
        invariant
            k <= n,
            n == entries@.len(),
            pattern_ok(search@),
            total as int == match_count(entries@.take(k as int), search@),
        decreases n - k,
    {
        proof {
            assert(entries@.take(k as int + 1) =~= entries@.take(k as int).push(
                entries@[k as int],
            ));
            lemma_match_count_push(entries@.take(k as int), entries@[k as int], search@);
            lemma_match_count_bounds(entries@.take(k as int), search@);
        }
        let e = &entries[k];
        match file_name_of(e.path.as_str()) {
            Some(name) => {
                if pattern_matches(search, name) {
                    total = total + 1;
                }
            },
            None => {},
        }
        k = k + 1;
    }
    proof {
        assert(entries@.take(n as int) =~= entries@);
    }
    Some(total)
}

} // verus!
