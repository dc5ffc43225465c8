//! Stand-ins for connections, for code that needs a `Sender`.
pub use super::traits::Sender;
use vstd::prelude::*;

verus! {

/// A sender whose every send succeeds.
pub struct SuccessfulSender;

impl Sender for SuccessfulSender {
    fn send_to(self) -> (sent: bool)
        ensures
            sent,
    {
        true
    }
}

} // verus!
