//! An enumerated filesystem entry, as plain values. Enumeration itself (the
//! recursive directory walk) happens outside the library and hands in one
//! `DirEntry` per path it could read; entries it could not read are skipped
//! there and never reach the library.

use vstd::prelude::*;

verus! {

/// One enumerated path and whether it names a directory.
pub struct DirEntry {
    /// The path, with `'/'` separating its components.
    pub path: String,
    /// Whether the path names a directory rather than a file.
    pub is_dir: bool,
}

} // verus!
