//! The pull decision: which enumerated entries are worth copying, and where
//! to. An entry is selected when it is a file, its name is not on the
//! exclusion list, and the content type guessed from its extension is an
//! image or a video; the destination is the derived two-level path.

use vstd::prelude::*;

use crate::entry::DirEntry;
use crate::paths::derived_path;
use crate::paths::extension_spec;
use crate::paths::extension_of;
use crate::paths::file_name_spec;
use crate::paths::file_name_of;
use crate::paths::get_new_filepath;

verus! {

/// The one excluded file name: macOS folder metadata.
pub open spec fn excluded_name() -> Seq<char> {
    seq!['.', 'D', 'S', '_', 'S', 't', 'o', 'r', 'e']
}

/// Whether the content type guessed for a file extension is an image or a
/// video. A function of the extension alone: the guess is a fixed,
/// case-insensitive table from extensions to media types.
pub uninterp spec fn is_media_ext(ext: Seq<char>) -> bool;

/// Relies on mime_guess::from_ext (a fixed case-insensitive table from
/// extension to media types, no disk access) and mime::Mime::type_: returns
/// whether the first guessed type for this extension is image or video, which
/// depends on the extension text alone. An empty or unknown extension yields
/// no guess, hence false.
#[verifier::external_body]
fn ext_is_media(ext: &str) -> (r: bool)
    ensures
        r == is_media_ext(ext@),
{
    match mime_guess::from_ext(ext).first() {
        Some(m) => {
            m.type_() == mime_guess::mime::IMAGE || m.type_() == mime_guess::mime::VIDEO
        },
        None => false,
    }
}

/// Whether `name` is the excluded file name.
fn is_excluded(name: &str) -> (r: bool)
    ensures
        r == (name@ == excluded_name()),
{
    let a = String::from_str(name);
    let b = String::from_str(".DS_Store");
    let r = a == b;
    proof {
        reveal_strlit(".DS_Store");
        assert(".DS_Store"@ =~= excluded_name());
    }
    r
}

/// Whether the copier picks this entry: a file, not excluded by name, whose
/// extension is guessed as image or video. Files without an extension get no
/// guess and are never picked.
pub open spec fn pull_selected(path: Seq<char>, is_dir: bool) -> bool {
    &&& !is_dir
    &&& match file_name_spec(path) {
        Some(name) => name != excluded_name(),
        None => true,
    }
    &&& match extension_spec(path) {
        Some(ext) => is_media_ext(ext),
        None => false,
    }
}

/// Decide one entry of the pull operation: `Some(destination)` exactly when
/// the entry is selected, with the destination derived from the entry's two
/// nearest ancestor directory names under `output_dir`.
pub fn select_destination(path: &str, is_dir: bool, output_dir: &str) -> (r: Option<String>)
    ensures
        r is Some <==> pull_selected(path@, is_dir),
        r is Some ==> derived_path(path@, output_dir@) is Some && r.unwrap()@ == derived_path(
            path@,
            output_dir@,
        ).unwrap(),
{
    if is_dir {
        return None;
    }
    match file_name_of(path) {
        Some(name) => {
            if is_excluded(name) {
                return None;
            }
        },
        None => {},
    }
    match extension_of(path) {
        None => None,
        Some(ext) => {
            if ext_is_media(ext) {
                get_new_filepath(path, output_dir)
            } else {
                None
            }
        },
    }
}

/// The copies the pull operation performs: one `(source, destination)` pair
/// per selected entry, in enumeration order. A function of the entries and
/// the output root alone, so re-running over an unchanged tree plans the
/// same copies.
pub open spec fn pull_plan(entries: Seq<DirEntry>, output_dir: Seq<char>) -> Seq<
    (Seq<char>, Seq<char>),
>
    decreases entries.len(),
{
    if entries.len() == 0 {
        Seq::empty()
    } else {
        let rest = pull_plan(entries.drop_last(), output_dir);
        let e = entries.last();
        if pull_selected(e.path@, e.is_dir) {
            rest.push((e.path@, derived_path(e.path@, output_dir).unwrap()))
        } else {
            rest
        }
    }
}

/// Appending one entry extends the plan exactly when the entry is selected.
proof fn lemma_pull_plan_push(s: Seq<DirEntry>, e: DirEntry, output_dir: Seq<char>)
    ensures
        pull_plan(s.push(e), output_dir) == if pull_selected(e.path@, e.is_dir) {
            pull_plan(s, output_dir).push((e.path@, derived_path(e.path@, output_dir).unwrap()))
        } else {
            pull_plan(s, output_dir)
        },
{
    assert(s.push(e).drop_last() =~= s);
    assert(s.push(e).last() == e);
}

/// Decide the whole pull operation: the `(source, destination)` pairs to
/// copy, one per selected entry, in enumeration order.
pub fn pull_files(entries: &Vec<DirEntry>, output_dir: &str) -> (r: Vec<(String, String)>)
    ensures
        r@.len() == pull_plan(entries@, output_dir@).len(),
        forall|i: int|
            0 <= i < r@.len() ==> (#[trigger] r@[i]).0@ == pull_plan(entries@, output_dir@)[i].0
                && r@[i].1@ == pull_plan(entries@, output_dir@)[i].1,
{
    let mut out: Vec<(String, String)> = Vec::new();
    let n = entries.len();
    let mut k: usize = 0;
    while k < n
        invariant
            k <= n,
            n == entries@.len(),
            out@.len() == pull_plan(entries@.take(k as int), output_dir@).len(),
            forall|i: int|
                0 <= i < out@.len() ==> (#[trigger] out@[i]).0@ == pull_plan(
                    entries@.take(k as int),
                    output_dir@,
                )[i].0 && out@[i].1@ == pull_plan(entries@.take(k as int), output_dir@)[i].1,
        decreases n - k,
    {
        proof {
            assert(entries@.take(k as int + 1) =~= entries@.take(k as int).push(
                entries@[k as int],
            ));
            lemma_pull_plan_push(entries@.take(k as int), entries@[k as int], output_dir@);
        }
        let e = &entries[k];
        match select_destination(e.path.as_str(), e.is_dir, output_dir) {
            Some(dest) => {
                let source = e.path.clone();
                out.push((source, dest));
            },
            None => {},
        }
        k = k + 1;
    }
    proof {
        assert(entries@.take(n as int) =~= entries@);
    }
    out
}

} // verus!
