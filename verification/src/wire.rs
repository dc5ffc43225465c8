//! Byte layout of the datagrams: little-endian fixed-width integers, and
//! sequences written as a 64-bit element count followed by the elements.
//! The encoding itself is done by `bincode`; this module states what it
//! produces and proves that reading back what was written gives the value.
use vstd::prelude::*;

verus! {

/// The number of values that `n` bytes can hold: 256 to the power `n`.
pub open spec fn byte_span(n: nat) -> nat
    decreases n,
{
    if n == 0 {
        1
    } else {
        256 * byte_span((n - 1) as nat)
    }
}

/// The `n` little-endian bytes of `v`, least significant first; what does
/// not fit in `n` bytes is dropped.
pub open spec fn le_bytes(v: nat, n: nat) -> Seq<u8>
    decreases n,
{
    if n == 0 {
        Seq::empty()
    } else {
        seq![(v % 256) as u8] + le_bytes(v / 256, (n - 1) as nat)
    }
}

/// The number that the little-endian bytes `s` spell.
pub open spec fn le_value(s: Seq<u8>) -> nat
    decreases s.len(),
{
    if s.len() == 0 {
        0
    } else {
        (s[0] + 256 * le_value(s.drop_first())) as nat
    }
}

/// The two's-complement bit pattern of a 16-bit signed value, as a number.
pub open spec fn i16_bits(v: i16) -> nat {
    if v < 0 {
        (v + 65536) as nat
    } else {
        v as nat
    }
}

/// The 16-bit signed value whose two's-complement bit pattern is `u`.
pub open spec fn i16_from_bits(u: nat) -> i16 {
    if u >= 32768 {
        (u - 65536) as i16
    } else {
        u as i16
    }
}

/// The elements of a sequence of 16-bit samples, two little-endian bytes each.
pub open spec fn i16s_bytes(d: Seq<i16>) -> Seq<u8> {
    Seq::new(2 * d.len(), |j: int| le_bytes(i16_bits(d[j / 2]), 2)[j % 2])
}

/// Reads `n` 16-bit samples, two little-endian bytes each, from the front of `s`.
pub open spec fn i16s_from_bytes(s: Seq<u8>, n: nat) -> Seq<i16> {
    Seq::new(n, |i: int| i16_from_bits(le_value(s.subrange(2 * i, 2 * i + 2))))
}

/// The bytes of the pair (`tag`, `d`): a 32-bit tag, a 64-bit count, the samples.
pub open spec fn tagged_i16s_bytes(tag: u32, d: Seq<i16>) -> Seq<u8> {
    le_bytes(tag as nat, 4) + le_bytes(d.len(), 8) + i16s_bytes(d)
}

/// Reads a pair (32-bit tag, samples) from the front of `s`; `None` where `s`
/// ends before the count says.  Bytes after the pair are not looked at.
pub open spec fn tagged_i16s_from_bytes(s: Seq<u8>) -> Option<(u32, Seq<i16>)> {
    if s.len() < 12 {
        None
    } else {
        let n = le_value(s.subrange(4, 12));
        if s.len() - 12 < 2 * n {
            None
        } else {
            Some((le_value(s.subrange(0, 4)) as u32, i16s_from_bytes(s.skip(12), n)))
        }
    }
}

/// The bytes of the triple (`tag`, `count`, `d`): a 32-bit tag, a 64-bit
/// number, a 64-bit count and the bytes of `d`.
pub open spec fn tagged_counted_bytes(tag: u32, count: u64, d: Seq<u8>) -> Seq<u8> {
    le_bytes(tag as nat, 4) + le_bytes(count as nat, 8) + le_bytes(d.len(), 8) + d
}

/// Reads a triple (32-bit tag, 64-bit number, bytes) from the front of `s`;
/// `None` where `s` ends before the count says.
pub open spec fn tagged_counted_from_bytes(s: Seq<u8>) -> Option<(u32, u64, Seq<u8>)> {
    if s.len() < 20 {
        None
    } else {
        let n = le_value(s.subrange(12, 20));
        if s.len() - 20 < n {
            None
        } else {
            Some(
                (
                    le_value(s.subrange(0, 4)) as u32,
                    le_value(s.subrange(4, 12)) as u64,
                    s.subrange(20, 20 + n as int),
                ),
            )
        }
    }
}

/// `le_bytes` gives exactly `n` bytes.
pub proof fn lemma_le_bytes_len(v: nat, n: nat)
    ensures
        le_bytes(v, n).len() == n,
    decreases n,
{
    if n > 0 {
        lemma_le_bytes_len(v / 256, (n - 1) as nat);
    }
}

/// Reading back `n` little-endian bytes of `v` gives `v` modulo 256^n.
pub proof fn lemma_le_value_of_bytes(v: nat, n: nat)
    ensures
        le_value(le_bytes(v, n)) == v % byte_span(n),
        byte_span(n) > 0,
    decreases n,
{
    if n > 0 {
        let m = (n - 1) as nat;
        lemma_le_value_of_bytes(v / 256, m);
        lemma_le_bytes_len(v / 256, m);
        let s = le_bytes(v, n);
        assert(s.drop_first() =~= le_bytes(v / 256, m));
        vstd::arithmetic::div_mod::lemma_mod_breakdown(v as int, 256, byte_span(m) as int);
    }
}

/// The little-endian bytes of the number that `s` spells are `s` again.
pub proof fn lemma_le_bytes_of_value(s: Seq<u8>)
    ensures
        le_bytes(le_value(s), s.len()) =~= s,
        le_value(s) < byte_span(s.len()),
    decreases s.len(),
{
    if s.len() > 0 {
        let r = le_value(s.drop_first());
        let a = s[0] as int;
        lemma_le_bytes_of_value(s.drop_first());
        let v = le_value(s);
        assert(v == a + 256 * r);
        assert((a + 256 * r) % 256 == a && (a + 256 * r) / 256 == r) by (nonlinear_arith)
            requires
                0 <= a < 256,
                r >= 0,
        ;
        assert(v < byte_span(s.len())) by (nonlinear_arith)
            requires
                v == a + 256 * r,
                0 <= a < 256,
                r < byte_span(s.drop_first().len()),
                byte_span(s.len()) == 256 * byte_span(s.drop_first().len()),
        ;
        assert(le_bytes(v, s.len()) =~= seq![s[0]] + le_bytes(r, s.drop_first().len()));
    }
}

/// Concrete sizes of the fixed-width fields.
pub proof fn lemma_byte_spans()
    ensures
        byte_span(2) == 0x1_0000,
        byte_span(4) == 0x1_0000_0000,
        byte_span(8) == 0x1_0000_0000_0000_0000,
{
    reveal_with_fuel(byte_span, 9);
}

/// A 16-bit sample survives the trip through its two-byte pattern.
pub proof fn lemma_i16_bits_roundtrip(v: i16)
    ensures
        i16_bits(v) < 0x1_0000,
        i16_from_bits(i16_bits(v)) == v,
{
}

/// A bit pattern below 2^16 survives the trip through the sample it denotes.
pub proof fn lemma_i16_from_bits_roundtrip(u: nat)
    requires
        u < 0x1_0000,
    ensures
        i16_bits(i16_from_bits(u)) == u,
{
}

/// The samples are read back from their bytes, whatever follows them.
pub proof fn lemma_i16s_roundtrip(d: Seq<i16>, rest: Seq<u8>)
    ensures
        i16s_bytes(d).len() == 2 * d.len(),
        i16s_from_bytes(i16s_bytes(d) + rest, d.len()) =~= d,
{
    let b = i16s_bytes(d) + rest;
    assert forall|i: int| 0 <= i < d.len() implies #[trigger] i16s_from_bytes(b, d.len())[i]
        == d[i] by {
        let x = i16_bits(d[i]);
        lemma_i16_bits_roundtrip(d[i]);
        lemma_le_bytes_len(x, 2);
        assert((2 * i) / 2 == i && (2 * i) % 2 == 0 && (2 * i + 1) / 2 == i && (2 * i + 1) % 2
            == 1);
        assert(b.subrange(2 * i, 2 * i + 2) =~= le_bytes(x, 2));
        lemma_le_value_of_bytes(x, 2);
        lemma_byte_spans();
    }
}

/// Each sample read from bytes, written back, gives those bytes again.
pub proof fn lemma_i16s_canonical(s: Seq<u8>, n: nat)
    requires
        2 * n <= s.len(),
    ensures
        i16s_bytes(i16s_from_bytes(s, n)) =~= s.take(2 * n as int),
{
    let d = i16s_from_bytes(s, n);
    assert forall|j: int| 0 <= j < 2 * n implies #[trigger] i16s_bytes(d)[j] == s[j] by {
        let i = j / 2;
        let k = j % 2;
        assert(0 <= i < n && 0 <= k < 2 && j == 2 * i + k);
        let sub = s.subrange(2 * i, 2 * i + 2);
        lemma_le_bytes_of_value(sub);
        lemma_byte_spans();
        lemma_i16_from_bits_roundtrip(le_value(sub));
        assert(sub[k] == s[j]);
    }
}

/// A (tag, samples) pair is read back from its bytes, whatever follows them.
pub proof fn lemma_tagged_i16s_roundtrip(tag: u32, d: Seq<i16>, rest: Seq<u8>)
    requires
        d.len() <= usize::MAX,
    ensures
        tagged_i16s_from_bytes(tagged_i16s_bytes(tag, d) + rest) == Some((tag, d)),
{
    let s = tagged_i16s_bytes(tag, d) + rest;
    lemma_le_bytes_len(tag as nat, 4);
    lemma_le_bytes_len(d.len(), 8);
    lemma_i16s_roundtrip(d, rest);
    lemma_le_value_of_bytes(tag as nat, 4);
    lemma_le_value_of_bytes(d.len(), 8);
    lemma_byte_spans();
    assert(s.subrange(0, 4) =~= le_bytes(tag as nat, 4));
    assert(s.subrange(4, 12) =~= le_bytes(d.len(), 8));
    assert(s.skip(12) =~= i16s_bytes(d) + rest);
}

/// A (tag, samples) pair read from bytes, written back, gives the bytes it
/// was read from.
pub proof fn lemma_tagged_i16s_canonical(s: Seq<u8>)
    requires
        tagged_i16s_from_bytes(s) is Some,
    ensures
        ({
            let (tag, d) = tagged_i16s_from_bytes(s).unwrap();
            tagged_i16s_bytes(tag, d) =~= s.take(12 + 2 * d.len() as int)
        }),
{
    let (tag, d) = tagged_i16s_from_bytes(s).unwrap();
    let n = le_value(s.subrange(4, 12));
    lemma_byte_spans();
    lemma_le_bytes_of_value(s.subrange(0, 4));
    lemma_le_bytes_of_value(s.subrange(4, 12));
    lemma_i16s_canonical(s.skip(12), n);
    assert(s.take(12 + 2 * n as int) =~= s.subrange(0, 4) + s.subrange(4, 12) + s.skip(12).take(
        2 * n as int,
    ));
}

/// A (tag, number, bytes) triple is read back from its bytes, whatever follows them.
pub proof fn lemma_tagged_counted_roundtrip(tag: u32, count: u64, d: Seq<u8>, rest: Seq<u8>)
    requires
        d.len() <= usize::MAX,
    ensures
        tagged_counted_from_bytes(tagged_counted_bytes(tag, count, d) + rest) == Some(
            (tag, count, d),
        ),
{
    let s = tagged_counted_bytes(tag, count, d) + rest;
    lemma_le_bytes_len(tag as nat, 4);
    lemma_le_bytes_len(count as nat, 8);
    lemma_le_bytes_len(d.len(), 8);
    lemma_le_value_of_bytes(tag as nat, 4);
    lemma_le_value_of_bytes(count as nat, 8);
    lemma_le_value_of_bytes(d.len(), 8);
    lemma_byte_spans();
    assert(s.subrange(0, 4) =~= le_bytes(tag as nat, 4));
    assert(s.subrange(4, 12) =~= le_bytes(count as nat, 8));
    assert(s.subrange(12, 20) =~= le_bytes(d.len(), 8));
    assert(s.subrange(20, 20 + d.len() as int) =~= d);
}

/// A (tag, number, bytes) triple read from bytes, written back, gives the
/// bytes it was read from.
pub proof fn lemma_tagged_counted_canonical(s: Seq<u8>)
    requires
        tagged_counted_from_bytes(s) is Some,
    ensures
        ({
            let (tag, count, d) = tagged_counted_from_bytes(s).unwrap();
            tagged_counted_bytes(tag, count, d) =~= s.take(20 + d.len() as int)
        }),
{
    let (tag, count, d) = tagged_counted_from_bytes(s).unwrap();
    lemma_byte_spans();
    lemma_le_bytes_of_value(s.subrange(0, 4));
    lemma_le_bytes_of_value(s.subrange(4, 12));
    lemma_le_bytes_of_value(s.subrange(12, 20));
}

/// The two little-endian bytes of a number below 2^16: low byte, then high byte.
pub proof fn lemma_le_bytes_two(v: nat)
    requires
        v < 0x1_0000,
    ensures
        le_bytes(v, 2) =~= seq![(v % 256) as u8, (v / 256) as u8],
{
    reveal_with_fuel(le_bytes, 3);
    assert((v / 256) % 256 == v / 256 && (v / 256) / 256 == 0) by (nonlinear_arith)
        requires
            v < 0x1_0000,
    ;
}

/// The four little-endian bytes of a number below 256: the number, then zeros.
pub proof fn lemma_le_bytes_small(v: nat)
    requires
        v < 256,
    ensures
        le_bytes(v, 4) =~= seq![v as u8, 0u8, 0u8, 0u8],
{
    reveal_with_fuel(le_bytes, 5);
}

/// Where each sample sits in a block of samples: sample `i` fills bytes
/// `2 * i` (low byte of its bit pattern) and `2 * i + 1` (high byte), so the
/// samples come out in order, and the two bytes give the sample back.
pub proof fn lemma_i16s_layout(d: Seq<i16>)
    ensures
        i16s_bytes(d).len() == 2 * d.len(),
        forall|i: int|
            0 <= i < d.len() ==> {
                &&& i16s_bytes(d)[2 * i] == i16_bits(#[trigger] d[i]) % 256
                &&& i16s_bytes(d)[2 * i + 1] == i16_bits(d[i]) / 256
                &&& i16_from_bits((i16s_bytes(d)[2 * i] + 256 * i16s_bytes(d)[2 * i + 1]) as nat)
                    == d[i]
            },
{
    assert forall|i: int| 0 <= i < d.len() implies {
        &&& i16s_bytes(d)[2 * i] == i16_bits(#[trigger] d[i]) % 256
        &&& i16s_bytes(d)[2 * i + 1] == i16_bits(d[i]) / 256
        &&& i16_from_bits((i16s_bytes(d)[2 * i] + 256 * i16s_bytes(d)[2 * i + 1]) as nat) == d[i]
    } by {
        let x = i16_bits(d[i]);
        lemma_i16_bits_roundtrip(d[i]);
        lemma_le_bytes_two(x);
        assert((2 * i) / 2 == i && (2 * i) % 2 == 0 && (2 * i + 1) / 2 == i && (2 * i + 1) % 2
            == 1);
        assert(x % 256 + 256 * (x / 256) == x) by (nonlinear_arith);
    }
}

/// The layout of a (tag, samples) pair: the tag's 4 bytes, the count's 8
/// bytes, then the samples in order, 2 bytes each.
pub proof fn lemma_tagged_i16s_layout(tag: u32, d: Seq<i16>)
    requires
        d.len() <= usize::MAX,
    ensures
        tagged_i16s_bytes(tag, d).len() == 12 + 2 * d.len(),
        le_value(tagged_i16s_bytes(tag, d).subrange(0, 4)) == tag,
        le_value(tagged_i16s_bytes(tag, d).subrange(4, 12)) == d.len(),
        tagged_i16s_bytes(tag, d).skip(12) == i16s_bytes(d),
{
    lemma_le_bytes_len(tag as nat, 4);
    lemma_le_bytes_len(d.len(), 8);
    lemma_le_value_of_bytes(tag as nat, 4);
    lemma_le_value_of_bytes(d.len(), 8);
    lemma_byte_spans();
    lemma_i16s_layout(d);
    let b = tagged_i16s_bytes(tag, d);
    assert(b.subrange(0, 4) =~= le_bytes(tag as nat, 4));
    assert(b.subrange(4, 12) =~= le_bytes(d.len(), 8));
    assert(b.skip(12) =~= i16s_bytes(d));
}

/// The layout of a (tag, number, bytes) triple: 4 bytes of tag, 8 of number,
/// 8 of count, then the bytes themselves, in order.
pub proof fn lemma_tagged_counted_layout(tag: u32, count: u64, d: Seq<u8>)
    requires
        d.len() <= usize::MAX,
    ensures
        tagged_counted_bytes(tag, count, d).len() == 20 + d.len(),
        le_value(tagged_counted_bytes(tag, count, d).subrange(0, 4)) == tag,
        le_value(tagged_counted_bytes(tag, count, d).subrange(4, 12)) == count,
        le_value(tagged_counted_bytes(tag, count, d).subrange(12, 20)) == d.len(),
        tagged_counted_bytes(tag, count, d).skip(20) == d,
{
    lemma_le_bytes_len(tag as nat, 4);
    lemma_le_bytes_len(count as nat, 8);
    lemma_le_bytes_len(d.len(), 8);
    lemma_le_value_of_bytes(tag as nat, 4);
    lemma_le_value_of_bytes(count as nat, 8);
    lemma_le_value_of_bytes(d.len(), 8);
    lemma_byte_spans();
    let b = tagged_counted_bytes(tag, count, d);
    assert(b.subrange(0, 4) =~= le_bytes(tag as nat, 4));
    assert(b.subrange(4, 12) =~= le_bytes(count as nat, 8));
    assert(b.subrange(12, 20) =~= le_bytes(d.len(), 8));
    assert(b.skip(20) =~= d);
}

/// Encodes the pair `(tag, data)` with `bincode::serialize`, with no size
/// limit.  bincode 0.9 writes a `u32` as 4 little-endian bytes, a sequence as
/// its length in 8 little-endian bytes followed by its elements, and an
/// `i16` as the 2 little-endian bytes of its bit pattern.  Writing into a
/// `Vec` does not fail and a `Vec` reports its length, so the call returns
/// `Ok`; the contract claims both.
#[verifier::external_body]
pub(crate) fn serialize_tagged_i16s(tag: u32, data: &Vec<i16>) -> (bytes: Option<Vec<u8>>)
    ensures
        bytes is Some,
        bytes matches Some(b) ==> b@ == tagged_i16s_bytes(tag, data@),
{
    bincode::serialize(&(tag, data), bincode::Infinite).ok()
}

/// Decodes a pair `(u32, Vec<i16>)` from the front of `buf` with
/// `bincode::deserialize`.  bincode reads the fields in the layout that
/// `serialize_tagged_i16s` describes, fails only where `buf` ends too early,
/// and ignores the bytes after the pair; the contract claims exactly that.
#[verifier::external_body]
pub(crate) fn deserialize_tagged_i16s(buf: &[u8]) -> (pair: Option<(u32, Vec<i16>)>)
    ensures
        pair matches Some((tag, data)) ==> tagged_i16s_from_bytes(buf@) == Some((tag, data@)),
        pair is None <==> tagged_i16s_from_bytes(buf@) is None,
{
    bincode::deserialize::<(u32, Vec<i16>)>(buf).ok()
}

/// Encodes the triple `(tag, count, data)` with `bincode::serialize`, with no
/// size limit: 4 little-endian bytes, 8 little-endian bytes, then the length
/// of `data` in 8 little-endian bytes and its bytes one by one.  As for
/// `serialize_tagged_i16s`, the call returns `Ok`, and the contract claims it.
#[verifier::external_body]
pub(crate) fn serialize_tagged_counted(tag: u32, count: u64, data: &Vec<u8>) -> (bytes: Option<
    Vec<u8>,
>)
    ensures
        bytes is Some,
        bytes matches Some(b) ==> b@ == tagged_counted_bytes(tag, count, data@),
{
    bincode::serialize(&(tag, count, data), bincode::Infinite).ok()
}

/// Decodes a triple `(u32, u64, Vec<u8>)` from the front of `buf` with
/// `bincode::deserialize`; it fails only where `buf` ends too early, and the
/// bytes after the triple are ignored.
#[verifier::external_body]
pub(crate) fn deserialize_tagged_counted(buf: &[u8]) -> (triple: Option<(u32, u64, Vec<u8>)>)
    ensures
        triple matches Some((tag, count, data)) ==> tagged_counted_from_bytes(buf@) == Some(
            (tag, count, data@),
        ),
        triple is None <==> tagged_counted_from_bytes(buf@) is None,
{
    bincode::deserialize::<(u32, u64, Vec<u8>)>(buf).ok()
}

} // verus!
