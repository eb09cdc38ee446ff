//! Running a PowerShell command: the arguments and the time limit.
use vstd::prelude::*;

verus! {

/// The time limit of a command when none is asked for, in seconds.
pub const DEFAULT_TIMEOUT_SECS: u64 = 120;

/// The arguments of a command run.
pub struct PowerShellArgs {
    pub command: String,
    pub timeout: Option<u64>,
}

/// The PowerShell tool; commands run in `working_dir` when there is one.
pub struct PowerShellTool {
    pub working_dir: Option<String>,
}

impl PowerShellArgs {
    /// The time limit asked for, else `DEFAULT_TIMEOUT_SECS`.
    pub fn timeout_secs(&self) -> (r: u64)
        ensures
            r == match self.timeout {
                Some(t) => t,
                None => DEFAULT_TIMEOUT_SECS,
            },
    {
        match self.timeout {
            Some(t) => t,
            None => DEFAULT_TIMEOUT_SECS,
        }
    }
}

} // verus!
