//! Writing a file: the arguments of the tool.
use vstd::prelude::*;

verus! {

/// The arguments of a write: the path and the whole new content.
pub struct WriteFileArgs {
    pub path: String,
    pub content: String,
}

/// The write tool; relative paths are taken from `working_dir`.
pub struct WriteFile {
    pub working_dir: Option<String>,
}

} // verus!
