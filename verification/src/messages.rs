//! The messages that clients and the server exchange: a kind and a block of
//! 16-bit audio samples.
use crate::wire::{
    deserialize_tagged_i16s, i16_bits, i16_from_bits, le_value, lemma_i16s_layout,
    lemma_le_bytes_small, lemma_tagged_i16s_layout, lemma_tagged_i16s_canonical, lemma_tagged_i16s_roundtrip,
    serialize_tagged_i16s, tagged_i16s_bytes, tagged_i16s_from_bytes,
};
use vstd::prelude::*;

verus! {

/// What a message announces.
#[derive(PartialEq, Eq, Structural, Debug, Clone, Copy)]
pub enum MessageType {
    Connect,
    Disconnect,
    Audio,
}

/// A message: its kind and the samples it carries (none for most kinds).
#[derive(PartialEq, Debug)]
pub struct Message {
    pub message_type: MessageType,
    pub data: Vec<i16>,
}

/// A message as a mathematical value.
pub struct MessageView {
    pub message_type: MessageType,
    pub data: Seq<i16>,
}

impl View for Message {
    type V = MessageView;

    open spec fn view(&self) -> MessageView {
        MessageView { message_type: self.message_type, data: self.data@ }
    }
}

/// The number that stands for a kind on the wire: its place in the list.
pub open spec fn type_tag(t: MessageType) -> u32 {
    match t {
        MessageType::Connect => 0,
        MessageType::Disconnect => 1,
        MessageType::Audio => 2,
    }
}

/// The kind that a number stands for on the wire, if any.
pub open spec fn type_of_tag(tag: u32) -> Option<MessageType> {
    if tag == 0 {
        Some(MessageType::Connect)
    } else if tag == 1 {
        Some(MessageType::Disconnect)
    } else if tag == 2 {
        Some(MessageType::Audio)
    } else {
        None
    }
}

/// The samples that `Message::new` keeps: those given, or none.
pub open spec fn data_or_empty(data: Option<Vec<i16>>) -> Seq<i16> {
    match data {
        Some(d) => d@,
        None => Seq::empty(),
    }
}

/// The bytes of a message on the wire.
pub open spec fn message_bytes(m: MessageView) -> Seq<u8> {
    tagged_i16s_bytes(type_tag(m.message_type), m.data)
}

/// The message at the front of `s`, if `s` begins with one.
pub open spec fn message_from_bytes(s: Seq<u8>) -> Option<MessageView> {
    match tagged_i16s_from_bytes(s) {
        Some((tag, data)) => match type_of_tag(tag) {
            Some(t) => Some(MessageView { message_type: t, data }),
            None => None,
        },
        None => None,
    }
}

impl MessageType {
    /// The number that stands for this kind on the wire.
    fn tag(&self) -> (tag: u32)
        ensures
            tag == type_tag(*self),
    {
        match self {
            MessageType::Connect => 0,
            MessageType::Disconnect => 1,
            MessageType::Audio => 2,
        }
    }

    /// The kind that `tag` stands for on the wire, if any.
    fn from_tag(tag: u32) -> (t: Option<MessageType>)
        ensures
            t == type_of_tag(tag),
    {
        if tag == 0 {
            Some(MessageType::Connect)
        } else if tag == 1 {
            Some(MessageType::Disconnect)
        } else if tag == 2 {
            Some(MessageType::Audio)
        } else {
            None
        }
    }
}

impl Message {
    /// A message of the given kind carrying `data`, or no samples.
    pub fn new(message_type: MessageType, data: Option<Vec<i16>>) -> (m: Message)
        ensures
            m.message_type == message_type,
            m.data@ == data_or_empty(data),
            data matches Some(d) ==> m.data@ == d@,
            data is None ==> m.data@.len() == 0,
    {
        let data = match data {
            Some(d) => d,
            None => Vec::new(),
        };
        Message { message_type, data }
    }

    /// The bytes on the wire of the message `Message::new(message_type, data)`.
    pub fn encoded(message_type: MessageType, data: Option<Vec<i16>>) -> (bytes: Vec<u8>)
        ensures
            bytes@ == message_bytes(MessageView { message_type, data: data_or_empty(data) }),
            bytes@.len() == 12 + 2 * data_or_empty(data).len(),
            bytes@[0] == type_tag(message_type),
            le_value(bytes@.subrange(4, 12)) == data_or_empty(data).len(),
            forall|i: int|
                0 <= i < data_or_empty(data).len() ==> {
                    &&& bytes@[12 + 2 * i] == i16_bits(#[trigger] data_or_empty(data)[i]) % 256
                    &&& bytes@[12 + 2 * i + 1] == i16_bits(data_or_empty(data)[i]) / 256
                },
    {
        let message = Message::new(message_type, data);
        proof {
            assert(message.data@.len() == message.data.len());
            lemma_message_layout(message@);
        }
        match serialize_tagged_i16s(message.message_type.tag(), &message.data) {
            Some(bytes) => bytes,
            None => {
                proof {
                    assert(false);
                }
                Vec::new()
            },
        }
    }

    /// The message at the front of `buffer`, or `None` where `buffer` does not
    /// begin with one: it ends too early, or its kind is unknown.
    pub fn try_decoded(buffer: &[u8]) -> (m: Option<Message>)
        ensures
            match m {
                Some(m) => message_from_bytes(buffer@) == Some(m@),
                None => message_from_bytes(buffer@) is None,
            },
    {
        match deserialize_tagged_i16s(buffer) {
            Some((tag, data)) => match MessageType::from_tag(tag) {
                Some(message_type) => Some(Message { message_type, data }),
                None => None,
            },
            None => None,
        }
    }

    /// The message at the front of `buffer`, which must begin with one.
    pub fn decoded(buffer: &[u8]) -> (m: Message)
        requires
            message_from_bytes(buffer@) is Some,
        ensures
            message_from_bytes(buffer@) == Some(m@),
    {
        match Message::try_decoded(buffer) {
            Some(m) => m,
            None => {
                proof {
                    assert(false);
                }
                Message::new(MessageType::Connect, None)
            },
        }
    }
}

/// A message made from given samples keeps every one of them, in order; a
/// message made from none carries none.
pub proof fn lemma_data_or_empty(data: Option<Vec<i16>>)
    ensures
        data matches Some(d) ==> data_or_empty(data) == d@,
        data is None ==> data_or_empty(data).len() == 0,
{
}

/// Where everything sits in the bytes of a message: the kind's number
/// (Connect 0, Disconnect 1, Audio 2) in the first byte and zeros in the
/// next three, the number of samples in bytes 4 to 11, then sample `i` in
/// bytes `12 + 2 * i` (low byte) and `13 + 2 * i` (high byte), in the order
/// of the samples; those two bytes give the sample back.
pub proof fn lemma_message_layout(m: MessageView)
    requires
        m.data.len() <= usize::MAX,
    ensures
        message_bytes(m).len() == 12 + 2 * m.data.len(),
        m.message_type == MessageType::Connect ==> message_bytes(m)[0] == 0,
        m.message_type == MessageType::Disconnect ==> message_bytes(m)[0] == 1,
        m.message_type == MessageType::Audio ==> message_bytes(m)[0] == 2,
        message_bytes(m)[0] == type_tag(m.message_type),
        message_bytes(m)[1] == 0 && message_bytes(m)[2] == 0 && message_bytes(m)[3] == 0,
        le_value(message_bytes(m).subrange(4, 12)) == m.data.len(),
        forall|i: int|
            0 <= i < m.data.len() ==> {
                &&& message_bytes(m)[12 + 2 * i] == i16_bits(#[trigger] m.data[i]) % 256
                &&& message_bytes(m)[12 + 2 * i + 1] == i16_bits(m.data[i]) / 256
                &&& i16_from_bits(
                    (message_bytes(m)[12 + 2 * i] + 256 * message_bytes(m)[12 + 2 * i + 1]) as nat,
                ) == m.data[i]
            },
{
    let tag = type_tag(m.message_type);
    let b = message_bytes(m);
    lemma_tagged_i16s_layout(tag, m.data);
    lemma_i16s_layout(m.data);
    lemma_le_bytes_small(tag as nat);
    crate::wire::lemma_le_bytes_len(m.data.len(), 8);
    assert(b.subrange(0, 4) =~= seq![tag as u8, 0u8, 0u8, 0u8]);
    assert(b[0] == b.subrange(0, 4)[0] && b[1] == b.subrange(0, 4)[1] && b[2] == b.subrange(
        0,
        4,
    )[2] && b[3] == b.subrange(0, 4)[3]);
    assert forall|i: int| 0 <= i < m.data.len() implies #[trigger] m.data[i] == m.data[i] && b[12
        + 2 * i] == b.skip(12)[2 * i] && b[12 + 2 * i + 1] == b.skip(12)[2 * i + 1] by {}
}

/// Decoding what was encoded gives back the message, whatever bytes follow
/// it in the buffer.
pub proof fn lemma_decoded_encoded(m: MessageView, rest: Seq<u8>)
    requires
        m.data.len() <= usize::MAX,
    ensures
        message_from_bytes(message_bytes(m) + rest) == Some(m),
{
    lemma_tagged_i16s_roundtrip(type_tag(m.message_type), m.data, rest);
}

/// A buffer that decodes to a message begins with the encoding of that
/// message: each message has a single encoding.
pub proof fn lemma_encoded_decoded(s: Seq<u8>)
    requires
        message_from_bytes(s) is Some,
    ensures
        message_bytes(message_from_bytes(s).unwrap()) =~= s.take(
            message_bytes(message_from_bytes(s).unwrap()).len() as int,
        ),
{
    lemma_tagged_i16s_canonical(s);
    let (tag, d) = tagged_i16s_from_bytes(s).unwrap();
    let m = message_from_bytes(s).unwrap();
    assert(type_tag(m.message_type) == tag);
    crate::wire::lemma_le_bytes_len(tag as nat, 4);
    crate::wire::lemma_le_bytes_len(d.len(), 8);
    crate::wire::lemma_i16s_roundtrip(d, Seq::empty());
}

} // verus!
