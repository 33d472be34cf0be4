//! The OS trash, through the host.

use vstd::prelude::*;

verus! {

/// The host's `desktop` interface.
pub struct HostDesktop;

impl HostDesktop {
    /// Outside the sandbox there is no OS trash to move anything to.
    pub fn trash(&self, path: &str) -> (r: Result<(), String>)
        ensures
            r matches Err(e) && e@ == "no OS trash outside the sandbox"@,
    {
        Err("no OS trash outside the sandbox".to_owned())
    }

    /// Outside the sandbox there is no OS trash to restore anything from.
    pub fn restore(&self, path: &str) -> (r: Result<(), String>)
        ensures
            r matches Err(e) && e@ == "no OS trash outside the sandbox"@,
    {
        Err("no OS trash outside the sandbox".to_owned())
    }
}

} // verus!
