//! Little-endian encoding and decoding of 16-bit and 32-bit integers.

use vstd::prelude::*;

verus! {

/// The 32-bit value held by four consecutive bytes of `s`, least
/// significant byte first.
pub open spec fn le32_at(s: Seq<u8>, i: int) -> u32
    recommends
        0 <= i,
        i + 4 <= s.len(),
{
    (s[i] + s[i + 1] * 0x100 + s[i + 2] * 0x10000 + s[i + 3] * 0x1000000) as u32
}

/// The 16-bit value held by two consecutive bytes of `s`, least
/// significant byte first.
pub open spec fn le16_at(s: Seq<u8>, i: int) -> u16
    recommends
        0 <= i,
        i + 2 <= s.len(),
{
    (s[i] + s[i + 1] * 0x100) as u16
}

/// The four bytes of `v` in little-endian order.
pub open spec fn le32_bytes(v: u32) -> Seq<u8> {
    seq![
        (v % 0x100) as u8,
        ((v / 0x100) % 0x100) as u8,
        ((v / 0x10000) % 0x100) as u8,
        ((v / 0x1000000) % 0x100) as u8,
    ]
}

/// The two bytes of `v` in little-endian order.
pub open spec fn le16_bytes(v: u16) -> Seq<u8> {
    seq![(v % 0x100) as u8, ((v / 0x100) % 0x100) as u8]
}

/// Decoding four little-endian bytes undoes encoding.
pub proof fn lemma_le32_round_trip(v: u32)
    ensures
        le32_at(le32_bytes(v), 0) == v,
{
    assert(v % 0x100 + (v / 0x100) % 0x100 * 0x100 + (v / 0x10000) % 0x100 * 0x10000 + (v
        / 0x1000000) % 0x100 * 0x1000000 == v) by (bit_vector);
}

/// Decoding two little-endian bytes undoes encoding.
pub proof fn lemma_le16_round_trip(v: u16)
    ensures
        le16_at(le16_bytes(v), 0) == v,
{
    assert(v % 0x100 + (v / 0x100) % 0x100 * 0x100 == v) by (bit_vector);
}

/// Encoding the value read from four bytes reproduces those bytes.
pub proof fn lemma_le32_bytes_exact(s: Seq<u8>, i: int)
    requires
        0 <= i,
        i + 4 <= s.len(),
    ensures
        le32_bytes(le32_at(s, i)) == s.subrange(i, i + 4),
{
    let b0 = s[i];
    let b1 = s[i + 1];
    let b2 = s[i + 2];
    let b3 = s[i + 3];
    let v = le32_at(s, i);
    assert(v == (b0 + b1 * 0x100 + b2 * 0x10000 + b3 * 0x1000000) as u32);
    assert((b0 + b1 * 0x100 + b2 * 0x10000 + b3 * 0x1000000) as u32 % 0x100 == b0)
        by (bit_vector);
    assert(((b0 + b1 * 0x100 + b2 * 0x10000 + b3 * 0x1000000) as u32 / 0x100) % 0x100 == b1)
        by (bit_vector);
    assert(((b0 + b1 * 0x100 + b2 * 0x10000 + b3 * 0x1000000) as u32 / 0x10000) % 0x100 == b2)
        by (bit_vector);
    assert(((b0 + b1 * 0x100 + b2 * 0x10000 + b3 * 0x1000000) as u32 / 0x1000000) % 0x100 == b3)
        by (bit_vector);
    assert(le32_bytes(v) =~= s.subrange(i, i + 4));
}

/// Encoding the value read from two bytes reproduces those bytes.
pub proof fn lemma_le16_bytes_exact(s: Seq<u8>, i: int)
    requires
        0 <= i,
        i + 2 <= s.len(),
    ensures
        le16_bytes(le16_at(s, i)) == s.subrange(i, i + 2),
{
    let b0 = s[i];
    let b1 = s[i + 1];
    let v = le16_at(s, i);
    assert(v == (b0 + b1 * 0x100) as u16);
    assert((b0 + b1 * 0x100) as u16 % 0x100 == b0) by (bit_vector);
    assert(((b0 + b1 * 0x100) as u16 / 0x100) % 0x100 == b1) by (bit_vector);
    assert(le16_bytes(v) =~= s.subrange(i, i + 2));
}

/// When four bytes of `s` are the encoding of `v`, the value read
/// there is `v`.
pub proof fn lemma_le32_eq_sub(s: Seq<u8>, i: int, v: u32)
    requires
        0 <= i,
        i + 4 <= s.len(),
        s.subrange(i, i + 4) == le32_bytes(v),
    ensures
        le32_at(s, i) == v,
{
    lemma_le32_round_trip(v);
    assert(s[i] == le32_bytes(v)[0]);
    assert(s[i + 1] == le32_bytes(v)[1]);
    assert(s[i + 2] == le32_bytes(v)[2]);
    assert(s[i + 3] == le32_bytes(v)[3]);
}

/// When two bytes of `s` are the encoding of `v`, the value read there
/// is `v`.
pub proof fn lemma_le16_eq_sub(s: Seq<u8>, i: int, v: u16)
    requires
        0 <= i,
        i + 2 <= s.len(),
        s.subrange(i, i + 2) == le16_bytes(v),
    ensures
        le16_at(s, i) == v,
{
    lemma_le16_round_trip(v);
    assert(s[i] == le16_bytes(v)[0]);
    assert(s[i + 1] == le16_bytes(v)[1]);
}

/// Reads the little-endian 32-bit value at offset `i` of `buf`.
pub fn read_u32_le(buf: &[u8], i: usize) -> (v: u32)
    requires
        i + 4 <= buf@.len(),
    ensures
        v == le32_at(buf@, i as int),
{
    let v: u32 = buf[i] as u32 + (buf[i + 1] as u32) * 0x100 + (buf[i + 2] as u32) * 0x10000 + (buf[
        i + 3] as u32) * 0x1000000;
    v
}

/// Reads the little-endian 16-bit value at offset `i` of `buf`.
pub fn read_u16_le(buf: &[u8], i: usize) -> (v: u16)
    requires
        i + 2 <= buf@.len(),
    ensures
        v == le16_at(buf@, i as int),
{
    let v: u16 = buf[i] as u16 + (buf[i + 1] as u16) * 0x100;
    v
}

/// Appends the four little-endian bytes of `v` to `out`.
pub fn write_u32_le(out: &mut Vec<u8>, v: u32)
    ensures
        final(out)@ == old(out)@ + le32_bytes(v),
{
    out.push((v % 0x100) as u8);
    out.push(((v / 0x100) % 0x100) as u8);
    out.push(((v / 0x10000) % 0x100) as u8);
    out.push(((v / 0x1000000) % 0x100) as u8);
    assert(out@ =~= old(out)@ + le32_bytes(v));
}

/// Appends the two little-endian bytes of `v` to `out`.
pub fn write_u16_le(out: &mut Vec<u8>, v: u16)
    ensures
        final(out)@ == old(out)@ + le16_bytes(v),
{
    out.push((v % 0x100) as u8);
    out.push(((v / 0x100) % 0x100) as u8);
    assert(out@ =~= old(out)@ + le16_bytes(v));
}

} // verus!
