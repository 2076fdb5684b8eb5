//! Directory inspection utilities: tally file extensions, count entries whose
//! names match a glob pattern, and pick image/video files together with the
//! flattened destination paths they should be copied to.

pub mod args;
pub mod classify;
pub mod entry;
pub mod matching;
pub mod paths;
pub mod report;
pub mod tally;
