//! Repair of truncated packet-capture files.
//!
//! A capture file is a fixed 24-byte global header followed by an ordered
//! sequence of length-prefixed records. Records whose stored payload is
//! shorter than the packet's declared on-the-wire length are restored to
//! full length by appending zero bytes. The codec (parsing and
//! serialization of the binary layout) and the repair transform are
//! verified; file reading and writing live outside the library.

pub mod bytes;
pub mod engine;
pub mod header;
pub mod record;

use vstd::prelude::*;

verus! {

/// The fixed byte marker that identifies the capture format.
pub const PCAP_MAGIC: u32 = 0xa1b2c3d4;

/// Length in bytes of the global header.
pub const PCAP_HEADER_LEN: usize = 24;

/// Length in bytes of a record header (the four 32-bit fields).
pub const RECORD_HEADER_LEN: usize = 16;

} // verus!
