//! The datagram codec of the voice program: each datagram carries one audio
//! frame, a running count and the raw sample bytes.
use crate::wire::{
    deserialize_tagged_counted, le_value, lemma_le_bytes_small, lemma_tagged_counted_layout, lemma_tagged_counted_canonical, lemma_tagged_counted_roundtrip,
    serialize_tagged_counted, tagged_counted_bytes, tagged_counted_from_bytes,
};
use vstd::prelude::*;

verus! {

/// A datagram of the voice program.
#[derive(PartialEq, Debug)]
pub enum Message {
    /// A frame number and the captured sample bytes.
    Audio(usize, Vec<u8>),
}

/// A datagram as a mathematical value: the frame number and the bytes.
pub struct AudioView {
    pub count: usize,
    pub data: Seq<u8>,
}

impl View for Message {
    type V = AudioView;

    open spec fn view(&self) -> AudioView {
        match self {
            Message::Audio(count, data) => AudioView { count: *count, data: data@ },
        }
    }
}

/// The bytes on the wire of an audio frame: the variant's number (0), the
/// frame number in 8 bytes, then the sample bytes with their count.
pub open spec fn frame_bytes(m: AudioView) -> Seq<u8> {
    tagged_counted_bytes(0, m.count as u64, m.data)
}

/// The frame at the front of `s`, if `s` begins with one: the variant's
/// number must be 0 and the frame number must fit in a `usize`.
pub open spec fn frame_from_bytes(s: Seq<u8>) -> Option<AudioView> {
    match tagged_counted_from_bytes(s) {
        Some((tag, count, data)) => if tag == 0 && count <= usize::MAX {
            Some(AudioView { count: count as usize, data })
        } else {
            None
        },
        None => None,
    }
}

/// Turns datagrams into messages and back.
#[derive(Copy, Clone, Debug, Eq, PartialEq, Ord, PartialOrd, Hash)]
pub struct GurkCodec;

impl GurkCodec {
    /// The message that the datagram `buf` carries, or `None` where `buf`
    /// does not begin with one.
    pub fn decode(&mut self, buf: &[u8]) -> (m: Option<Message>)
        ensures
            m matches Some(m) ==> frame_from_bytes(buf@) == Some(m@),
            m is None <==> frame_from_bytes(buf@) is None,
    {
        match deserialize_tagged_counted(buf) {
            Some((tag, count, data)) => {
                if tag == 0 && count <= usize::MAX as u64 {
                    Some(Message::Audio(count as usize, data))
                } else {
                    None
                }
            },
            None => None,
        }
    }

    /// Appends the bytes of `data` to `buf`.
    pub fn encode(&mut self, data: Message, buf: &mut Vec<u8>)
        ensures
            final(buf)@ == old(buf)@ + frame_bytes(data@),
            final(buf)@.len() == old(buf)@.len() + 20 + data@.data.len(),
            final(buf)@.subrange(0, old(buf)@.len() as int) == old(buf)@,
            final(buf)@.subrange(old(buf)@.len() as int, old(buf)@.len() as int + 4) == seq![
                0u8,
                0u8,
                0u8,
                0u8,
            ],
            le_value(final(buf)@.subrange(old(buf)@.len() as int + 4, old(buf)@.len() as int + 12))
                == data@.count,
            le_value(final(buf)@.subrange(old(buf)@.len() as int + 12, old(buf)@.len() as int + 20))
                == data@.data.len(),
            final(buf)@.skip(old(buf)@.len() as int + 20) == data@.data,
    {
        proof {
            let Message::Audio(_, d) = &data;
            assert(d@.len() == d.len());
            lemma_frame_layout(data@);
            let b = frame_bytes(data@);
            let all = old(buf)@ + b;
            assert(all.subrange(0, old(buf)@.len() as int) =~= old(buf)@);
            assert(all.subrange(old(buf)@.len() as int, old(buf)@.len() as int + 4) =~= b.subrange(0, 4));
            assert(all.subrange(old(buf)@.len() as int + 4, old(buf)@.len() as int + 12) =~= b.subrange(4, 12));
            assert(all.subrange(old(buf)@.len() as int + 12, old(buf)@.len() as int + 20) =~= b.subrange(12, 20));
            assert(all.skip(old(buf)@.len() as int + 20) =~= b.skip(20));
        }
        let Message::Audio(count, samples) = data;
        match serialize_tagged_counted(0, count as u64, &samples) {
            Some(mut bytes) => buf.append(&mut bytes),
            None => {
                proof {
                    assert(false);
                }
            },
        }
    }
}

/// Where everything sits in the bytes of a frame: four zero bytes (the only
/// variant), the frame number in the next 8, the number of sample bytes in
/// the next 8, then the sample bytes themselves, unchanged and in order.
pub proof fn lemma_frame_layout(m: AudioView)
    requires
        m.data.len() <= usize::MAX,
    ensures
        frame_bytes(m).len() == 20 + m.data.len(),
        frame_bytes(m).subrange(0, 4) == seq![0u8, 0u8, 0u8, 0u8],
        le_value(frame_bytes(m).subrange(4, 12)) == m.count,
        le_value(frame_bytes(m).subrange(12, 20)) == m.data.len(),
        frame_bytes(m).skip(20) == m.data,
        forall|i: int| 0 <= i < m.data.len() ==> frame_bytes(m)[20 + i] == #[trigger] m.data[i],
{
    lemma_tagged_counted_layout(0, m.count as u64, m.data);
    lemma_le_bytes_small(0);
    let b = frame_bytes(m);
    assert(b.subrange(0, 4) =~= crate::wire::le_bytes(0, 4));
    assert forall|i: int| 0 <= i < m.data.len() implies b[20 + i] == #[trigger] m.data[i] by {
        assert(b.skip(20)[i] == b[20 + i]);
    }
}

/// Decoding an encoded frame gives the frame back, whatever bytes follow it.
pub proof fn lemma_decode_encode(m: AudioView, rest: Seq<u8>)
    requires
        m.data.len() <= usize::MAX,
    ensures
        frame_from_bytes(frame_bytes(m) + rest) == Some(m),
{
    lemma_tagged_counted_roundtrip(0, m.count as u64, m.data, rest);
}

/// A buffer that decodes to a frame begins with the encoding of that frame.
pub proof fn lemma_encode_decode(s: Seq<u8>)
    requires
        frame_from_bytes(s) is Some,
    ensures
        frame_bytes(frame_from_bytes(s).unwrap()) =~= s.take(
            frame_bytes(frame_from_bytes(s).unwrap()).len() as int,
        ),
{
    lemma_tagged_counted_canonical(s);
    let (tag, count, d) = tagged_counted_from_bytes(s).unwrap();
    crate::wire::lemma_le_bytes_len(0, 4);
    crate::wire::lemma_le_bytes_len(count as nat, 8);
    crate::wire::lemma_le_bytes_len(d.len(), 8);
}

} // verus!
