//! The command-line surface of the tool as plain data: one of three
//! operations, each with its arguments. Argument parsing itself lives with the
//! binary; these types only carry the parsed values.

use vstd::prelude::*;

verus! {

/// A full invocation: exactly one command.
pub struct PlecoArgs {
    pub command: Command,
}

/// The three operations the tool offers.
pub enum Command {
    /// Tally file extensions under a directory and report the most common.
    ListCommon(ListCommonFiles),
    /// Count entries whose file name matches a pattern.
    Count(Count),
    /// Copy image and video files into a flattened output directory.
    PullFiles(PullFiles),
}

/// Arguments of the copy operation.
pub struct PullFiles {
    /// Root of the tree to scan.
    pub filepath: String,
    /// Directory the selected files are copied under.
    pub output_dir: String,
}

/// Arguments of the extension tally.
pub struct ListCommonFiles {
    /// Root of the tree to scan.
    pub filepath: String,
}

/// Arguments of the pattern counter.
pub struct Count {
    /// File name or glob fragment to search for.
    pub search: String,
    /// Root of the tree to scan.
    pub filepath: String,
}

} // verus!
