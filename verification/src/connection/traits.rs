//! What a connection can do, as traits for its users to implement.
use vstd::prelude::*;

verus! {

/// Something that sends a datagram and tells whether it went out.
pub trait Sender {
    fn send_to(self) -> bool;
}

/// Something that receives a datagram.
pub(crate) trait Receiver {
    fn recv_from();
}

/// Something that can connect to a peer.
pub trait Connectable {

}

} // verus!
