//! Operating-system identities.
use vstd::prelude::*;

verus! {

/// A system-wide thread id.
#[derive(PartialEq, Eq, Structural, Clone, Copy)]
pub struct SysThreadId(pub u64);

impl SysThreadId {
    /// The id of the thread whose system id is `tid`.
    pub fn from_raw(tid: u64) -> (r: SysThreadId)
        ensures
            r.0 == tid,
    {
        SysThreadId(tid)
    }
}

} // verus!
