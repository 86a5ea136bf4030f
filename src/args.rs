use vstd::prelude::*;

verus! {

/// The settings of one run: the lengths of the work and break intervals in
/// minutes, the directory to watch (the working directory when absent), and
/// an optional saved snapshot to start from instead of a fresh capture.
#[derive(Debug)]
pub struct Args {
    pub work_duration: u64,
    pub break_duration: u64,
    pub directory: Option<String>,
    pub initial_snapshot: Option<String>,
}

} // verus!
