//! What a client does with a datagram from the server: audio is played,
//! everything else is passed over.
use crate::messages::{message_from_bytes, Message, MessageType};
use vstd::prelude::*;

verus! {

/// The samples that a client plays on receiving `message`: those of an
/// audio message, and none for any other kind.
fn samples_to_play(message: Message) -> (samples: Option<Vec<i16>>)
    ensures
        samples is Some <==> message.message_type == MessageType::Audio,
        samples matches Some(s) ==> s@ == message.data@,
{
    if message.message_type == MessageType::Audio {
        Some(message.data)
    } else {
        None
    }
}

/// The samples that a client plays on receiving the datagram `datagram`:
/// `None` where it holds no message, `Some(None)` where it holds one that is
/// not audio.
pub fn playback(datagram: &[u8]) -> (samples: Option<Option<Vec<i16>>>)
    ensures
        samples is None <==> message_from_bytes(datagram@) is None,
        samples matches Some(s) ==> {
            let m = message_from_bytes(datagram@).unwrap();
            &&& s is Some <==> m.message_type == MessageType::Audio
            &&& s matches Some(d) ==> d@ == m.data
        },
{
    match Message::try_decoded(datagram) {
        Some(message) => Some(samples_to_play(message)),
        None => None,
    }
}

} // verus!
