//! Errors of the packet receiving side.
use vstd::prelude::*;

verus! {

/// Why a received packet could not be handled.
#[derive(Debug, Clone, Copy, PartialEq, Eq, Structural)]
pub enum ReceiveError {
    PlayerNotFound,
}

impl ReceiveError {
    /// The error's message.
    pub fn message(&self) -> (r: &'static str)
        ensures
            r@ == "The player could not be found"@,
    {
        proof {
            reveal_strlit("The player could not be found");
        }
        "The player could not be found"
    }
}

} // verus!
