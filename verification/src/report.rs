//! Turning a tally into the reported table: order the pairs by descending
//! count, keep the most common five, render one `label<TAB>count` row per
//! pair, and align the rows into columns.

use vstd::prelude::*;
use vstd::seq_lib::to_multiset_insert;
use vstd::seq_lib::to_multiset_remove;
use vstd::seq_lib::to_multiset_len;
use vstd::seq_lib::to_multiset_contains;
use vstd::multiset::Multiset;

verus! {

/// Sorted by count, largest first.
pub open spec fn sorted_desc(s: Seq<(String, usize)>) -> bool {
    forall|i: int, j: int| 0 <= i < j < s.len() ==> s[i].1 >= s[j].1
}

/// `x` placed behind every pair whose count is at least as large: the
/// insertion step of a stable descending insertion sort.
pub open spec fn insert_desc(s: Seq<(String, usize)>, x: (String, usize)) -> Seq<(String, usize)>
    decreases s.len(),
{
    if s.len() == 0 {
        seq![x]
    } else if s[0].1 >= x.1 {
        seq![s[0]] + insert_desc(s.drop_first(), x)
    } else {
        seq![x] + s
    }
}

/// The stable descending sort of a tally, pair by pair. This pins the result
/// completely, ties included: pairs of equal count keep their arrival order.
pub open spec fn sort_desc(s: Seq<(String, usize)>) -> Seq<(String, usize)>
    decreases s.len(),
{
    if s.len() == 0 {
        Seq::empty()
    } else {
        insert_desc(sort_desc(s.drop_last()), s.last())
    }
}

/// Inserting at the first position whose count is smaller is what
/// `insert_desc` does.
proof fn lemma_insert_desc_at(s: Seq<(String, usize)>, x: (String, usize), idx: int)
    requires
        0 <= idx <= s.len(),
        forall|j: int| 0 <= j < idx ==> s[j].1 >= x.1,
        idx == s.len() || s[idx].1 < x.1,
    ensures
        insert_desc(s, x) == s.insert(idx, x),
    decreases s.len(),
{
    if s.len() == 0 {
        assert(insert_desc(s, x) =~= s.insert(idx, x));
    } else if idx == 0 {
        assert(insert_desc(s, x) =~= s.insert(idx, x));
    } else {
        lemma_insert_desc_at(s.drop_first(), x, idx - 1);
        assert(insert_desc(s, x) =~= s.insert(idx, x));
    }
}

/// Reorder a tally by descending count.
///
/// The result holds exactly the pairs of the input, sorted by count with the
/// largest first. Pairs of equal count keep the order they arrived in, so
/// repeated runs over the same tally rank ties the same way.
pub fn order_file_types(file_types: Vec<(String, usize)>) -> (r: Vec<(String, usize)>)
    ensures
        r@ == sort_desc(file_types@),
        r@.to_multiset() == file_types@.to_multiset(),
        r@.len() == file_types@.len(),
        sorted_desc(r@),
{
    broadcast use to_multiset_insert, to_multiset_remove, to_multiset_len, to_multiset_contains,
        vstd::multiset::group_multiset_axioms;

    let mut rest = file_types;
    let mut out: Vec<(String, usize)> = Vec::new();
    let ghost whole = rest@;
    while rest.len() > 0
        invariant
            out@.to_multiset().add(rest@.to_multiset()) == whole.to_multiset(),
            out@.len() + rest@.len() == whole.len(),
            rest@ == whole.skip(out@.len() as int),
            out@ == sort_desc(whole.take(out@.len() as int)),
            sorted_desc(out@),
        decreases rest@.len(),
    {
        let ghost rest0 = rest@;
        let ghost out0 = out@;
        let ghost k = out0.len() as int;
        let x = rest.remove(0);
        let count = x.1;
        let m = out.len();
        let mut idx: usize = 0;
        while idx < m && out[idx].1 >= count
            invariant
                idx <= m,
                m == out@.len(),
                forall|j: int| 0 <= j < idx ==> out@[j].1 >= count,
            decreases m - idx,
        {
            idx = idx + 1;
        }
        let ghost out_before = out@;
        out.insert(idx, x);
        proof {
            assert(rest0[0] == x);
            assert(rest0.contains(x));
            to_multiset_insert(out_before, idx as int, x);
            to_multiset_remove(rest0, 0);
            to_multiset_contains(rest0, x);
            assert(rest0.to_multiset().count(x) > 0);
            assert(out@.to_multiset() =~= out_before.to_multiset().insert(x));
            assert(rest@.to_multiset() =~= rest0.to_multiset().remove(x));
            assert(out@.to_multiset().add(rest@.to_multiset()) =~= whole.to_multiset());
            assert(x == whole[k]);
            assert(rest@ =~= whole.skip(k + 1));
            lemma_insert_desc_at(out_before, x, idx as int);
            assert(whole.take(k + 1).drop_last() =~= whole.take(k));
            assert(whole.take(k + 1).last() == whole[k]);
            assert(out@ == sort_desc(whole.take(k + 1)));
            assert forall|i: int, j: int| 0 <= i < j < out@.len() implies out@[i].1 >= out@[j].1 by {
                if j < idx {
                    assert(out@[i] == out_before[i] && out@[j] == out_before[j]);
                } else if i < idx && j == idx {
                    assert(out@[i] == out_before[i]);
                } else if i < idx && j > idx {
                    assert(out@[i] == out_before[i] && out@[j] == out_before[j - 1]);
                } else if i == idx {
                    assert(out@[j] == out_before[j - 1]);
                    if idx < out_before.len() {
                        assert(out_before[idx as int].1 < count || idx == m);
                    }
                } else {
                    assert(out@[i] == out_before[i - 1] && out@[j] == out_before[j - 1]);
                }
            }
        }
    }
    proof {
        assert(rest@.to_multiset() =~= Multiset::<(String, usize)>::empty());
        assert(out@.to_multiset() =~= whole.to_multiset());
        assert(whole.take(out@.len() as int) =~= whole);
    }
    out
}

/// The first `n` pairs of an ordered tally, or all of them when there are
/// fewer.
pub fn take_top(file_types: &Vec<(String, usize)>, n: usize) -> (r: Vec<(String, usize)>)
    ensures
        r@.len() == if file_types@.len() < n {
            file_types@.len() as int
        } else {
            n as int
        },
        forall|i: int| 0 <= i < r@.len() ==> r@[i] == file_types@[i],
{
    let mut out: Vec<(String, usize)> = Vec::new();
    let stop = if file_types.len() < n {
        file_types.len()
    } else {
        n
    };
    let mut i: usize = 0;
    while i < stop
        invariant
            i <= stop,
            stop == if file_types@.len() < n {
                file_types@.len() as int
            } else {
                n as int
            },
            out@.len() == i,
            forall|j: int| 0 <= j < i ==> out@[j] == file_types@[j],
        decreases stop - i,
    {
        let label = file_types[i].0.clone();
        let count = file_types[i].1;
        proof {
            assert((label, count) == file_types@[i as int]);
        }
        out.push((label, count));
        i = i + 1;
    }
    out
}

/// The character of a single decimal digit.
pub open spec fn digit_char(d: int) -> char {
    if d == 0 {
        '0'
    } else if d == 1 {
        '1'
    } else if d == 2 {
        '2'
    } else if d == 3 {
        '3'
    } else if d == 4 {
        '4'
    } else if d == 5 {
        '5'
    } else if d == 6 {
        '6'
    } else if d == 7 {
        '7'
    } else if d == 8 {
        '8'
    } else {
        '9'
    }
}

/// The decimal numeral of `n`, most significant digit first.
pub open spec fn dec_digits(n: int) -> Seq<char>
    decreases n,
{
    if n < 10 {
        seq![digit_char(n)]
    } else {
        dec_digits(n / 10) + seq![digit_char(n % 10)]
    }
}

/// The character of one digit, as a string.
fn digit_string(d: usize) -> (r: String)
    requires
        d < 10,
    ensures
        r@ == seq![digit_char(d as int)],
{
    let r = if d == 0 {
        String::from_str("0")
    } else if d == 1 {
        String::from_str("1")
    } else if d == 2 {
        String::from_str("2")
    } else if d == 3 {
        String::from_str("3")
    } else if d == 4 {
        String::from_str("4")
    } else if d == 5 {
        String::from_str("5")
    } else if d == 6 {
        String::from_str("6")
    } else if d == 7 {
        String::from_str("7")
    } else if d == 8 {
        String::from_str("8")
    } else {
        String::from_str("9")
    };
    proof {
        reveal_strlit("0");
        reveal_strlit("1");
        reveal_strlit("2");
        reveal_strlit("3");
        reveal_strlit("4");
        reveal_strlit("5");
        reveal_strlit("6");
        reveal_strlit("7");
        reveal_strlit("8");
        reveal_strlit("9");
        assert(r@ =~= seq![digit_char(d as int)]);
    }
    r
}

/// The decimal numeral of `n`.
pub fn dec_string(n: usize) -> (r: String)
    ensures
        r@ == dec_digits(n as int),
    decreases n,
{
    if n < 10 {
        digit_string(n)
    } else {
        let mut s = dec_string(n / 10);
        let d = digit_string(n % 10);
        s.append(d.as_str());
        proof {
            assert(s@ =~= dec_digits(n as int));
        }
        s
    }
}

/// One reported row: the label, a tab, the count.
pub open spec fn row_chars(p: (String, usize)) -> Seq<char> {
    p.0@ + seq!['\t'] + dec_digits(p.1 as int)
}

/// The reported rows, one per pair, joined by newlines (none at the end).
pub open spec fn rows_chars(s: Seq<(String, usize)>) -> Seq<char>
    decreases s.len(),
{
    if s.len() == 0 {
        Seq::empty()
    } else if s.len() == 1 {
        row_chars(s[0])
    } else {
        rows_chars(s.drop_last()) + seq!['\n'] + row_chars(s.last())
    }
}

/// Render a tally as text: one `label<TAB>count` row per pair, newline
/// separated.
pub fn format_file_types(file_types: Vec<(String, usize)>) -> (r: String)
    ensures
        r@ == rows_chars(file_types@),
{
    let mut s = String::new();
    let n = file_types.len();
    let mut i: usize = 0;
    while i < n
        invariant
            i <= n,
            n == file_types@.len(),
            s@ == rows_chars(file_types@.take(i as int)),
        decreases n - i,
    {
        if i > 0 {
            s.append("\n");
        }
        s.append(file_types[i].0.as_str());
        s.append("\t");
        let d = dec_string(file_types[i].1);
        s.append(d.as_str());
        proof {
            reveal_strlit("\n");
            reveal_strlit("\t");
            assert(seq!['\n'] =~= "\n"@);
            assert(seq!['\t'] =~= "\t"@);
            let prefix = file_types@.take(i as int + 1);
            assert(prefix.drop_last() =~= file_types@.take(i as int));
            assert(prefix.last() == file_types@[i as int]);
            assert(s@ =~= rows_chars(prefix));
        }
        i = i + 1;
    }
    proof {
        assert(file_types@.take(n as int) =~= file_types@);
    }
    s
}

/// What tabwriter makes of a piece of tab-separated text: the same rows with
/// each tab-delimited column padded to a common width. A function of the text
/// alone.
pub uninterp spec fn tab_aligned(text: Seq<char>) -> Seq<char>;

/// Relies on tabwriter::TabWriter (writing through std::io::Write into an
/// in-memory buffer, which cannot fail): `into_inner` returns the written
/// rows with the tab-delimited columns aligned by spaces, a function of the
/// written text alone.
#[verifier::external_body]
fn tab_align(text: &str) -> (r: String)
    ensures
        r@ == tab_aligned(text@),
{
    let mut tw = tabwriter::TabWriter::new(Vec::new());
    let _ = std::io::Write::write_all(&mut tw, text.as_bytes());
    match tw.into_inner() {
        Ok(buf) => String::from_utf8(buf).unwrap_or_default(),
        Err(_) => String::new(),
    }
}

/// Render a tally as the aligned two-column table the tool prints.
pub fn render_report(file_types: Vec<(String, usize)>) -> (r: String)
    ensures
        r@ == tab_aligned(rows_chars(file_types@)),
{
    let text = format_file_types(file_types);
    tab_align(text.as_str())
}

} // verus!
