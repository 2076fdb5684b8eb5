//! The extension tally: group the enumerated non-directory entries by
//! extension and count each group. Entries without an extension are tallied
//! under the literal label `Unknown`. The tally is a list of distinct
//! `(label, count)` pairs whose counts sum to the number of files visited.

use vstd::prelude::*;

use crate::entry::DirEntry;
use crate::paths::extension_spec;
use crate::paths::extension_of;

verus! {

/// The label files without an extension are tallied under.
pub open spec fn unknown_label() -> Seq<char> {
    seq!['U', 'n', 'k', 'n', 'o', 'w', 'n']
}

/// The label an entry is tallied under: its extension, or `Unknown`.
pub open spec fn entry_label(path: Seq<char>) -> Seq<char> {
    match extension_spec(path) {
        Some(e) => e,
        None => unknown_label(),
    }
}

/// How many non-directory entries carry `label`.
pub open spec fn label_count(entries: Seq<DirEntry>, label: Seq<char>) -> int
    decreases entries.len(),
{
    if entries.len() == 0 {
        0
    } else {
        label_count(entries.drop_last(), label) + if !entries.last().is_dir && entry_label(
            entries.last().path@,
        ) == label {
            1int
        } else {
            0int
        }
    }
}

/// How many entries are not directories.
pub open spec fn file_count(entries: Seq<DirEntry>) -> int
    decreases entries.len(),
{
    if entries.len() == 0 {
        0
    } else {
        file_count(entries.drop_last()) + if !entries.last().is_dir {
            1int
        } else {
            0int
        }
    }
}

/// The sum of the counts of a tally.
pub open spec fn sum_counts(tally: Seq<(String, usize)>) -> int
    decreases tally.len(),
{
    if tally.len() == 0 {
        0
    } else {
        sum_counts(tally.drop_last()) + tally.last().1
    }
}

/// Appending one entry raises exactly the count of its own label, and only
/// when the entry is a file.
proof fn lemma_label_count_push(s: Seq<DirEntry>, e: DirEntry, label: Seq<char>)
    ensures
        label_count(s.push(e), label) == label_count(s, label) + if !e.is_dir && entry_label(e.path@)
            == label {
            1int
        } else {
            0int
        },
{
    assert(s.push(e).drop_last() =~= s);
    assert(s.push(e).last() == e);
}

/// Appending one entry raises the file count exactly when it is a file.
proof fn lemma_file_count_push(s: Seq<DirEntry>, e: DirEntry)
    ensures
        file_count(s.push(e)) == file_count(s) + if !e.is_dir {
            1int
        } else {
            0int
        },
{
    assert(s.push(e).drop_last() =~= s);
    assert(s.push(e).last() == e);
}

/// A label's count lies between zero and the number of entries.
proof fn lemma_label_count_bounds(s: Seq<DirEntry>, label: Seq<char>)
    ensures
        0 <= label_count(s, label) <= s.len(),
    decreases s.len(),
{
    if s.len() > 0 {
        lemma_label_count_bounds(s.drop_last(), label);
    }
}

/// A positive count names a witness: some non-directory entry carries the
/// label.
proof fn lemma_label_count_pos(s: Seq<DirEntry>, label: Seq<char>)
    requires
        label_count(s, label) > 0,
    ensures
        exists|j: int|
            0 <= j < s.len() && !s[j].is_dir && entry_label(s[j].path@) == label,
    decreases s.len(),
{
    if !s.last().is_dir && entry_label(s.last().path@) == label {
        assert(0 <= s.len() - 1 < s.len() && !s[s.len() - 1].is_dir && entry_label(
            s[s.len() - 1].path@,
        ) == label);
    } else {
        lemma_label_count_pos(s.drop_last(), label);
        let j = choose|j: int|
            0 <= j < s.drop_last().len() && !s.drop_last()[j].is_dir && entry_label(
                s.drop_last()[j].path@,
            ) == label;
        assert(0 <= j < s.len() && !s[j].is_dir && entry_label(s[j].path@) == label);
    }
}

/// Replacing one pair of a tally moves its sum by the difference of the
/// counts.
proof fn lemma_sum_counts_update(tally: Seq<(String, usize)>, i: int, p: (String, usize))
    requires
        0 <= i < tally.len(),
    ensures
        sum_counts(tally.update(i, p)) == sum_counts(tally) - tally[i].1 + p.1,
    decreases tally.len(),
{
    if i == tally.len() - 1 {
        assert(tally.update(i, p).drop_last() =~= tally.drop_last());
        assert(tally.update(i, p).last() == p);
    } else {
        assert(tally.update(i, p).drop_last() =~= tally.drop_last().update(i, p));
        assert(tally.update(i, p).last() == tally.last());
        lemma_sum_counts_update(tally.drop_last(), i, p);
    }
}

/// Appending one pair adds its count to the sum.
proof fn lemma_sum_counts_push(tally: Seq<(String, usize)>, p: (String, usize))
    ensures
        sum_counts(tally.push(p)) == sum_counts(tally) + p.1,
{
    assert(tally.push(p).drop_last() =~= tally);
    assert(tally.push(p).last() == p);
}

/// The string `Unknown`.
fn unknown_string() -> (r: String)
    ensures
        r@ == unknown_label(),
{
    let r = String::from_str("Unknown");
    proof {
        reveal_strlit("Unknown");
        assert(r@ =~= unknown_label());
    }
    r
}

/// The label `path` is tallied under: its extension, or `Unknown`.
pub fn entry_label_of(path: &str) -> (r: String)
    ensures
        r@ == entry_label(path@),
{
    match extension_of(path) {
        Some(e) => String::from_str(e),
        None => unknown_string(),
    }
}

/// Tally the extensions of the non-directory entries.
///
/// The labels of the result are distinct; each carries exactly the number of
/// files tallied under it, and so at least one; every file's label appears;
/// and the counts sum to the number of non-directory entries.
pub fn get_common_filetypes(entries: &Vec<DirEntry>) -> (r: Vec<(String, usize)>)
    ensures
        forall|i: int, j: int| 0 <= i < j < r@.len() ==> r@[i].0@ != r@[j].0@,
        forall|i: int|
            0 <= i < r@.len() ==> #[trigger] r@[i].1 as int == label_count(entries@, r@[i].0@)
                && r@[i].1 >= 1,
        forall|k: int|
            0 <= k < entries@.len() && !(#[trigger] entries@[k]).is_dir ==> exists|i: int|
                0 <= i < r@.len() && r@[i].0@ == entry_label(entries@[k].path@),
        sum_counts(r@) == file_count(entries@),
{
    let mut out: Vec<(String, usize)> = Vec::new();
    let n = entries.len();
    let mut k: usize = 0;
    while k < n
        invariant
            k <= n,
            n == entries@.len(),
            forall|i: int, j: int| 0 <= i < j < out@.len() ==> out@[i].0@ != out@[j].0@,
            forall|i: int|
                0 <= i < out@.len() ==> #[trigger] out@[i].1 as int == label_count(
                    entries@.take(k as int),
                    out@[i].0@,
                ) && out@[i].1 >= 1,
            forall|k2: int|
                0 <= k2 < k && !(#[trigger] entries@[k2]).is_dir ==> exists|i: int|
                    0 <= i < out@.len() && out@[i].0@ == entry_label(entries@[k2].path@),
            sum_counts(out@) == file_count(entries@.take(k as int)),
        decreases n - k,
    {
        let ghost prefix = entries@.take(k as int);
        let ghost e_spec = entries@[k as int];
        proof {
            assert(entries@.take(k as int + 1) =~= prefix.push(e_spec));
            lemma_file_count_push(prefix, e_spec);
        }
        let e = &entries[k];
        if !e.is_dir {
            let lab = entry_label_of(e.path.as_str());
            let m = out.len();
            let mut i: usize = 0;
            let mut idx: Option<usize> = None;
            while i < m
                invariant
                    i <= m,
                    m == out@.len(),
                    match idx {
                        None => forall|j: int| 0 <= j < i ==> out@[j].0@ != lab@,
                        Some(t) => 0 <= t < m && out@[t as int].0@ == lab@,
                    },
                decreases m - i,
            {
                if out[i].0 == lab {
                    idx = Some(i);
                }
                i = i + 1;
            }
            proof {
                lemma_label_count_bounds(prefix, lab@);
            }
            match idx {
                Some(t) => {
                    let ghost orig = out@;
                    let pair = out.remove(t);
                    let new_count = pair.1 + 1;
                    out.insert(t, (pair.0, new_count));
                    proof {
                        assert(out@ =~= orig.update(t as int, (pair.0, new_count)));
                        lemma_sum_counts_update(orig, t as int, (pair.0, new_count));
                        assert forall|i2: int| 0 <= i2 < out@.len() implies #[trigger] out@[i2].1
                            as int == label_count(entries@.take(k as int + 1), out@[i2].0@)
                            && out@[i2].1 >= 1 by {
                            lemma_label_count_push(prefix, e_spec, out@[i2].0@);
                            if i2 != t {
                                assert(out@[i2] == orig[i2]);
                                assert(orig[i2].0@ != orig[t as int].0@);
                            }
                        }
                        assert forall|k2: int|
                            0 <= k2 < k + 1 && !(#[trigger] entries@[k2]).is_dir implies exists|
                            i2: int,
                        |
                            0 <= i2 < out@.len() && out@[i2].0@ == entry_label(
                                entries@[k2].path@,
                            ) by {
                            if k2 < k {
                                let w = choose|i2: int|
                                    0 <= i2 < orig.len() && orig[i2].0@ == entry_label(
                                        entries@[k2].path@,
                                    );
                                assert(out@[w].0@ == orig[w].0@);
                            } else {
                                assert(out@[t as int].0@ == entry_label(entries@[k2].path@));
                            }
                        }
                    }
                },
                None => {
                    let ghost orig = out@;
                    proof {
                        if label_count(prefix, lab@) > 0 {
                            lemma_label_count_pos(prefix, lab@);
                            let j = choose|j: int|
                                0 <= j < prefix.len() && !prefix[j].is_dir && entry_label(
                                    prefix[j].path@,
                                ) == lab@;
                            assert(!entries@[j].is_dir && entry_label(entries@[j].path@) == lab@);
                            assert(false);
                        }
                        lemma_sum_counts_push(orig, (lab, 1));
                    }
                    out.push((lab, 1));
                    proof {
                        assert forall|i2: int| 0 <= i2 < out@.len() implies #[trigger] out@[i2].1
                            as int == label_count(entries@.take(k as int + 1), out@[i2].0@)
                            && out@[i2].1 >= 1 by {
                            lemma_label_count_push(prefix, e_spec, out@[i2].0@);
                        }
                        assert forall|k2: int|
                            0 <= k2 < k + 1 && !(#[trigger] entries@[k2]).is_dir implies exists|
                            i2: int,
                        |
                            0 <= i2 < out@.len() && out@[i2].0@ == entry_label(
                                entries@[k2].path@,
                            ) by {
                            if k2 < k {
                                let w = choose|i2: int|
                                    0 <= i2 < orig.len() && orig[i2].0@ == entry_label(
                                        entries@[k2].path@,
                                    );
                                assert(out@[w].0@ == entry_label(entries@[k2].path@));
                            } else {
                                assert(out@[orig.len() as int].0@ == entry_label(
                                    entries@[k2].path@,
                                ));
                            }
                        }
                    }
                },
            }
        } else {
            proof {
                assert forall|i2: int| 0 <= i2 < out@.len() implies #[trigger] out@[i2].1 as int
                    == label_count(entries@.take(k as int + 1), out@[i2].0@) && out@[i2].1
                    >= 1 by {
                    lemma_label_count_push(prefix, e_spec, out@[i2].0@);
                }
            }
        }
        k = k + 1;
    }
    proof {
        assert(entries@.take(n as int) =~= entries@);
    }
    out
}

} // verus!
