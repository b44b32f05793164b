//! The fixed 24-byte global header: parsing, serialization, and the
//! byte-exact round trip.
//!
//! All multi-byte fields are little-endian. The last four bytes are a
//! packed trailer, read as one little-endian 32-bit value whose three
//! most significant bits hold the frame-check-sequence width indicator,
//! whose next bit holds a flag, and whose low 28 bits hold the
//! link-layer type code.

use vstd::prelude::*;

use crate::bytes::{
    le16_at, le16_bytes, le32_at, le32_bytes, lemma_le16_bytes_exact, lemma_le16_eq_sub,
    lemma_le32_bytes_exact, lemma_le32_eq_sub, read_u16_le, read_u32_le, write_u16_le,
    write_u32_le,
};
use crate::{PCAP_HEADER_LEN, PCAP_MAGIC};

verus! {

/// The global header of a capture file.
#[derive(Clone, Copy, Debug, PartialEq, Eq, Structural)]
pub struct PcapHeader {
    pub magic: u32,
    pub major: u16,
    pub minor: u16,
    pub resv1: u32,
    pub resv2: u32,
    pub snaplen: u32,
    /// Width indicator for the frame check sequence; three bits.
    pub fcs: u8,
    /// Single-bit flag packed beside `fcs`.
    pub f: u8,
    /// Link-layer type code; 28 bits.
    pub linktype: u32,
}

impl PcapHeader {
    /// The packed fields stay within their declared bit widths.
    pub open spec fn wf(self) -> bool {
        self.fcs < 8 && self.f < 2 && self.linktype < 0x1000_0000
    }
}

/// The packed trailer value: `fcs` in the three most significant bits,
/// `f` in the next bit, `linktype` in the low 28 bits.
pub open spec fn spec_pack_trailer(fcs: u8, f: u8, linktype: u32) -> u32
    recommends
        fcs < 8,
        f < 2,
        linktype < 0x1000_0000,
{
    (fcs * 0x2000_0000 + f * 0x1000_0000 + linktype) as u32
}

/// The three-bit field-width indicator held by a trailer value.
pub open spec fn spec_unpack_fcs(t: u32) -> u8 {
    (t / 0x2000_0000) as u8
}

/// The one-bit flag held by a trailer value.
pub open spec fn spec_unpack_flag(t: u32) -> u8 {
    ((t / 0x1000_0000) % 2) as u8
}

/// The 28-bit link-layer type held by a trailer value.
pub open spec fn spec_unpack_linktype(t: u32) -> u32 {
    t % 0x1000_0000
}

/// Repacking the three unpacked fields reproduces the trailer value.
pub proof fn lemma_trailer_repack(t: u32)
    ensures
        spec_unpack_fcs(t) < 8,
        spec_unpack_flag(t) < 2,
        spec_unpack_linktype(t) < 0x1000_0000,
        spec_pack_trailer(spec_unpack_fcs(t), spec_unpack_flag(t), spec_unpack_linktype(t)) == t,
{
    assert(t / 0x2000_0000 < 8) by (bit_vector);
    assert((t / 0x1000_0000) % 2 < 2) by (bit_vector);
    assert(t % 0x1000_0000 < 0x1000_0000) by (bit_vector);
    assert(t / 0x2000_0000 * 0x2000_0000 + ((t / 0x1000_0000) % 2) * 0x1000_0000 + t % 0x1000_0000
        == t) by (bit_vector);
}

/// Unpacking a packed trailer gives back the three fields.
pub proof fn lemma_trailer_unpack(fcs: u8, f: u8, linktype: u32)
    requires
        fcs < 8,
        f < 2,
        linktype < 0x1000_0000,
    ensures
        spec_unpack_fcs(spec_pack_trailer(fcs, f, linktype)) == fcs,
        spec_unpack_flag(spec_pack_trailer(fcs, f, linktype)) == f,
        spec_unpack_linktype(spec_pack_trailer(fcs, f, linktype)) == linktype,
{
    assert((fcs * 0x2000_0000 + f * 0x1000_0000 + linktype) as u32 / 0x2000_0000 == fcs)
        by (bit_vector)
        requires
            fcs < 8 && f < 2 && linktype < 0x1000_0000,
    ;
    assert(((fcs * 0x2000_0000 + f * 0x1000_0000 + linktype) as u32 / 0x1000_0000) % 2 == f)
        by (bit_vector)
        requires
            fcs < 8 && f < 2 && linktype < 0x1000_0000,
    ;
    assert((fcs * 0x2000_0000 + f * 0x1000_0000 + linktype) as u32 % 0x1000_0000 == linktype)
        by (bit_vector)
        requires
            fcs < 8 && f < 2 && linktype < 0x1000_0000,
    ;
}

/// The header encoded by the first 24 bytes of `b`, or `None` when the
/// buffer is too short or the magic marker does not match.
pub open spec fn spec_parse_header(b: Seq<u8>) -> Option<PcapHeader> {
    if b.len() < 24 {
        None
    } else if le32_at(b, 0) != PCAP_MAGIC {
        None
    } else {
        Some(
            PcapHeader {
                magic: le32_at(b, 0),
                major: le16_at(b, 4),
                minor: le16_at(b, 6),
                resv1: le32_at(b, 8),
                resv2: le32_at(b, 12),
                snaplen: le32_at(b, 16),
                fcs: spec_unpack_fcs(le32_at(b, 20)),
                f: spec_unpack_flag(le32_at(b, 20)),
                linktype: spec_unpack_linktype(le32_at(b, 20)),
            },
        )
    }
}

/// The 24-byte serialized form of a header.
pub open spec fn spec_header_bytes(h: PcapHeader) -> Seq<u8>
    recommends
        h.wf(),
{
    le32_bytes(h.magic) + le16_bytes(h.major) + le16_bytes(h.minor) + le32_bytes(h.resv1)
        + le32_bytes(h.resv2) + le32_bytes(h.snaplen) + le32_bytes(
        spec_pack_trailer(h.fcs, h.f, h.linktype),
    )
}

/// Serializing a parsed header reproduces the first 24 input bytes.
pub proof fn lemma_header_round_trip(b: Seq<u8>)
    requires
        spec_parse_header(b) is Some,
    ensures
        spec_header_bytes(spec_parse_header(b)->Some_0) == b.subrange(0, 24),
{
    let h = spec_parse_header(b)->Some_0;
    lemma_le32_bytes_exact(b, 0);
    lemma_le16_bytes_exact(b, 4);
    lemma_le16_bytes_exact(b, 6);
    lemma_le32_bytes_exact(b, 8);
    lemma_le32_bytes_exact(b, 12);
    lemma_le32_bytes_exact(b, 16);
    lemma_le32_bytes_exact(b, 20);
    lemma_trailer_repack(le32_at(b, 20));
    assert(spec_header_bytes(h) =~= b.subrange(0, 4) + b.subrange(4, 6) + b.subrange(6, 8)
        + b.subrange(8, 12) + b.subrange(12, 16) + b.subrange(16, 20) + b.subrange(20, 24));
    assert(b.subrange(0, 4) + b.subrange(4, 6) + b.subrange(6, 8) + b.subrange(8, 12) + b.subrange(
        12,
        16,
    ) + b.subrange(16, 20) + b.subrange(20, 24) =~= b.subrange(0, 24));
}

/// Parsing a serialized well-formed header with the right magic gives
/// back the header.
pub proof fn lemma_header_parse_serialized(h: PcapHeader)
    requires
        h.wf(),
        h.magic == PCAP_MAGIC,
    ensures
        spec_parse_header(spec_header_bytes(h)) == Some(h),
{
    let b = spec_header_bytes(h);
    assert(b.len() == 24);
    assert(b.subrange(0, 4) =~= le32_bytes(h.magic));
    assert(b.subrange(4, 6) =~= le16_bytes(h.major));
    assert(b.subrange(6, 8) =~= le16_bytes(h.minor));
    assert(b.subrange(8, 12) =~= le32_bytes(h.resv1));
    assert(b.subrange(12, 16) =~= le32_bytes(h.resv2));
    assert(b.subrange(16, 20) =~= le32_bytes(h.snaplen));
    assert(b.subrange(20, 24) =~= le32_bytes(spec_pack_trailer(h.fcs, h.f, h.linktype)));
    lemma_le32_eq_sub(b, 0, h.magic);
    lemma_le16_eq_sub(b, 4, h.major);
    lemma_le16_eq_sub(b, 6, h.minor);
    lemma_le32_eq_sub(b, 8, h.resv1);
    lemma_le32_eq_sub(b, 12, h.resv2);
    lemma_le32_eq_sub(b, 16, h.snaplen);
    lemma_le32_eq_sub(b, 20, spec_pack_trailer(h.fcs, h.f, h.linktype));
    lemma_trailer_unpack(h.fcs, h.f, h.linktype);
}

impl PcapHeader {
    /// Parses the global header from the start of `reader`, accepting
    /// the buffer only when it holds at least 24 bytes and starts with
    /// the format's magic marker.
    pub fn read(reader: &[u8]) -> (r: Option<PcapHeader>)
        ensures
            r == spec_parse_header(reader@),
            r is Some ==> r->Some_0.wf(),
    {
        if reader.len() < PCAP_HEADER_LEN {
            return None;
        }
        let magic = read_u32_le(reader, 0);
        if magic != PCAP_MAGIC {
            return None;
        }
        let trailer = read_u32_le(reader, 20);
        proof {
            lemma_trailer_repack(trailer);
        }
        let fcs = (trailer / 0x2000_0000) as u8;
        let f = ((trailer / 0x1000_0000) % 2) as u8;
        let linktype = trailer % 0x1000_0000;
        Some(
            PcapHeader {
                magic,
                major: read_u16_le(reader, 4),
                minor: read_u16_le(reader, 6),
                resv1: read_u32_le(reader, 8),
                resv2: read_u32_le(reader, 12),
                snaplen: read_u32_le(reader, 16),
                fcs,
                f,
                linktype,
            },
        )
    }

    /// Serializes the header to its exact 24-byte form.
    pub fn out(&self) -> (out: Vec<u8>)
        requires
            self.wf(),
        ensures
            out@ == spec_header_bytes(*self),
    {
        let mut out: Vec<u8> = Vec::new();
        write_u32_le(&mut out, self.magic);
        write_u16_le(&mut out, self.major);
        write_u16_le(&mut out, self.minor);
        write_u32_le(&mut out, self.resv1);
        write_u32_le(&mut out, self.resv2);
        write_u32_le(&mut out, self.snaplen);
        let trailer = (self.fcs as u32) * 0x2000_0000 + (self.f as u32) * 0x1000_0000
            + self.linktype;
        write_u32_le(&mut out, trailer);
        proof {
            assert(out@ =~= spec_header_bytes(*self));
        }
        out
    }
}

} // verus!
