//! The error of a reader behind a weak pointer to an atomically counted
//! payload.
use vstd::prelude::*;

verus! {

/// The payload is gone: its last owner was dropped.
#[derive(Clone, Copy, Debug, PartialEq, Eq, Structural)]
pub struct ArcUpgradeError;

impl ArcUpgradeError {
    /// What the error says.
    pub fn message(&self) -> (message: &'static str)
        ensures
            message@ == "Cannot upgrade a dangling weak to an Rc"@,
    {
        "Cannot upgrade a dangling weak to an Rc"
    }
}

} // verus!
