use vstd::prelude::*;

verus! {

/// The group that sing-box's process is attached to, so that it ends
/// together with the application. Outside Windows there is no such OS
/// object and the group holds nothing.
pub struct ProcessJob;

impl ProcessJob {
    /// Creates the group; without an OS job object this always succeeds.
    pub fn new() -> (r: Result<ProcessJob, String>)
        ensures
            r is Ok,
    {
        Ok(ProcessJob)
    }
}

} // verus!
