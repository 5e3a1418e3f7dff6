//! The validated run configuration, as argument parsing hands it over.

use vstd::prelude::*;

verus! {

/// The run configuration: extension strings without their leading dot,
/// and the root directories to walk. An empty extension list excludes
/// every file, since the membership test can never succeed.
pub struct Args {
    /// The file extensions to report on.
    pub extensions: Vec<String>,
    /// The directories to report on.
    pub paths: Vec<String>,
}

} // verus!
