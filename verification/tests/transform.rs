//! Tests for the repair transform and the whole-buffer pipeline.

use detrunc::engine::{process, PcapError, Summary};
use detrunc::record::PcapRecord;

fn le32(v: u32) -> Vec<u8> {
    vec![
        (v & 0xff) as u8,
        ((v >> 8) & 0xff) as u8,
        ((v >> 16) & 0xff) as u8,
        ((v >> 24) & 0xff) as u8,
    ]
}

fn header_bytes() -> Vec<u8> {
    let mut b = Vec::new();
    b.extend_from_slice(&le32(0xa1b2c3d4));
    b.extend_from_slice(&[2, 0, 4, 0]);
    b.extend_from_slice(&le32(0));
    b.extend_from_slice(&le32(0));
    b.extend_from_slice(&le32(65535));
    b.extend_from_slice(&le32(1));
    b
}

fn record_bytes(ts: u32, tn: u32, caplen: u32, origlen: u32, payload: &[u8]) -> Vec<u8> {
    let mut b = Vec::new();
    b.extend_from_slice(&le32(ts));
    b.extend_from_slice(&le32(tn));
    b.extend_from_slice(&le32(caplen));
    b.extend_from_slice(&le32(origlen));
    b.extend_from_slice(payload);
    b
}

fn rec(ts: u32, tn: u32, caplen: u32, origlen: u32, payload: &[u8]) -> PcapRecord {
    PcapRecord { ts, tn, caplen, origlen, data: payload.to_vec() }
}

#[test]
fn complete_record_passes_through() {
    let input = vec![rec(1, 2, 3, 3, &[7, 8, 9])];
    let (out, summary) = PcapRecord::detruncate(&input).expect("consistent records");
    assert_eq!(out.len(), 1);
    assert_eq!(out[0].ts, 1);
    assert_eq!(out[0].tn, 2);
    assert_eq!(out[0].caplen, 3);
    assert_eq!(out[0].origlen, 3);
    assert_eq!(out[0].data, vec![7, 8, 9]);
    assert_eq!(summary.repaired, 0);
    assert_eq!(summary.total, 1);
}

#[test]
fn truncated_record_is_padded_with_zeros() {
    // The captured prefix is kept verbatim; zero bytes are appended up
    // to the original length; caplen becomes origlen.
    let input = vec![rec(1000, 0, 4, 10, &[1, 2, 3, 4])];
    let (out, summary) = PcapRecord::detruncate(&input).expect("consistent records");
    assert_eq!(out.len(), 1);
    assert_eq!(out[0].caplen, 10);
    assert_eq!(out[0].origlen, 10);
    assert_eq!(out[0].data, vec![1, 2, 3, 4, 0, 0, 0, 0, 0, 0]);
    assert_eq!(summary.repaired, 1);
}

#[test]
fn inconsistent_lengths_abort_the_run() {
    // caplen > origlen is fatal: no output at all, a distinct error.
    let input = vec![
        rec(1, 0, 2, 2, &[5, 6]),
        rec(2, 0, 20, 10, &[0; 20]),
        rec(3, 0, 1, 4, &[9]),
    ];
    let r = PcapRecord::detruncate(&input);
    assert_eq!(r.unwrap_err(), PcapError::InvalidRecordLength);
}

#[test]
fn transform_preserves_order_and_count() {
    let input = vec![
        rec(1, 0, 1, 3, &[0xaa]),
        rec(2, 0, 2, 2, &[0xbb, 0xcc]),
        rec(3, 0, 0, 1, &[]),
    ];
    let (out, summary) = PcapRecord::detruncate(&input).expect("consistent records");
    assert_eq!(out.len(), 3);
    assert_eq!(out[0].ts, 1);
    assert_eq!(out[1].ts, 2);
    assert_eq!(out[2].ts, 3);
    assert_eq!(out[0].data, vec![0xaa, 0, 0]);
    assert_eq!(out[1].data, vec![0xbb, 0xcc]);
    assert_eq!(out[2].data, vec![0]);
    assert_eq!(summary.total, 3);
    assert_eq!(summary.repaired, 2);
}

#[test]
fn transform_output_is_complete() {
    // After the transform every record has caplen == origlen and a
    // payload of exactly that many bytes.
    let input = vec![rec(1, 0, 1, 3, &[0xaa]), rec(2, 0, 2, 2, &[0xbb, 0xcc])];
    let (out, _) = PcapRecord::detruncate(&input).expect("consistent records");
    for r in &out {
        assert_eq!(r.caplen, r.origlen);
        assert_eq!(r.data.len(), r.origlen as usize);
    }
}

#[test]
fn transform_is_idempotent() {
    // A second pass changes nothing and reports zero repairs.
    let input = vec![rec(1, 0, 1, 3, &[0xaa]), rec(2, 0, 2, 2, &[0xbb, 0xcc])];
    let (once, _) = PcapRecord::detruncate(&input).expect("consistent records");
    let (twice, summary) = PcapRecord::detruncate(&once).expect("repaired records stay consistent");
    assert_eq!(summary.repaired, 0);
    assert_eq!(twice.len(), once.len());
    for (a, b) in once.iter().zip(twice.iter()) {
        assert_eq!(a.ts, b.ts);
        assert_eq!(a.tn, b.tn);
        assert_eq!(a.caplen, b.caplen);
        assert_eq!(a.origlen, b.origlen);
        assert_eq!(a.data, b.data);
    }
}

#[test]
fn summary_reports_byte_totals() {
    // One record of 4 stored bytes grows to 10: input is 24 + 16 + 4,
    // output is 24 + 16 + 10.
    let input = vec![rec(1000, 0, 4, 10, &[1, 2, 3, 4])];
    let (_, summary) = PcapRecord::detruncate(&input).expect("consistent records");
    assert_eq!(
        summary,
        Summary { total: 1, repaired: 1, orig_size: 44, out_size: 50 }
    );
}

#[test]
fn identity_stream_round_trips_byte_exact() {
    // Three complete records: the output bytes equal the input bytes.
    let mut input = header_bytes();
    input.extend_from_slice(&record_bytes(1, 0, 2, 2, &[0x10, 0x20]));
    input.extend_from_slice(&record_bytes(2, 0, 3, 3, &[0x30, 0x40, 0x50]));
    input.extend_from_slice(&record_bytes(3, 0, 0, 0, &[]));
    let (out, summary) = process(&input).expect("recognized, consistent capture");
    assert_eq!(out, input);
    assert_eq!(summary.total, 3);
    assert_eq!(summary.repaired, 0);
}

#[test]
fn repair_scenario_produces_padded_output() {
    let mut input = header_bytes();
    input.extend_from_slice(&record_bytes(1000, 0, 4, 10, &[1, 2, 3, 4]));
    let (out, summary) = process(&input).expect("recognized, consistent capture");
    let mut expected = header_bytes();
    expected.extend_from_slice(&record_bytes(1000, 0, 10, 10, &[1, 2, 3, 4, 0, 0, 0, 0, 0, 0]));
    assert_eq!(out, expected);
    assert_eq!(summary.repaired, 1);
    assert_eq!(summary.orig_size, 44);
    assert_eq!(summary.out_size, 50);
}

#[test]
fn bad_magic_produces_no_output() {
    let mut input = header_bytes();
    input[0] = 0x00;
    input.extend_from_slice(&record_bytes(1, 0, 1, 1, &[9]));
    assert_eq!(process(&input).unwrap_err(), PcapError::UnrecognizedFormat);
}

#[test]
fn empty_and_short_buffers_are_not_recognized() {
    assert_eq!(process(&[]).unwrap_err(), PcapError::UnrecognizedFormat);
    let b = header_bytes();
    assert_eq!(process(&b[0..23]).unwrap_err(), PcapError::UnrecognizedFormat);
}

#[test]
fn malformed_record_aborts_without_output() {
    let mut input = header_bytes();
    input.extend_from_slice(&record_bytes(1, 0, 20, 10, &[0; 20]));
    assert_eq!(process(&input).unwrap_err(), PcapError::InvalidRecordLength);
}

#[test]
fn header_only_capture_round_trips() {
    let input = header_bytes();
    let (out, summary) = process(&input).expect("recognized capture");
    assert_eq!(out, input);
    assert_eq!(summary.total, 0);
    assert_eq!(summary.repaired, 0);
    assert_eq!(summary.orig_size, 24);
    assert_eq!(summary.out_size, 24);
}

#[test]
fn incomplete_trailing_record_is_dropped() {
    // The stream ends mid-record: the complete records are processed,
    // the incomplete tail terminates the stream cleanly.
    let mut input = header_bytes();
    input.extend_from_slice(&record_bytes(1, 0, 1, 2, &[0x55]));
    input.extend_from_slice(&record_bytes(2, 0, 8, 8, &[0x66; 3]));
    let (out, summary) = process(&input).expect("recognized capture");
    let mut expected = header_bytes();
    expected.extend_from_slice(&record_bytes(1, 0, 2, 2, &[0x55, 0]));
    assert_eq!(out, expected);
    assert_eq!(summary.total, 1);
    assert_eq!(summary.repaired, 1);
}
