//! The repair transform: every truncated record is extended to its
//! declared original length by appending zero bytes, complete records
//! pass through unchanged, and a record that claims more captured
//! bytes than original bytes aborts the whole run.

use vstd::prelude::*;

use crate::header::{spec_header_bytes, spec_parse_header, PcapHeader};
use crate::record::{
    record_models, spec_parse_records, spec_serialize_records, PcapRecord, RecModel,
};
use crate::PCAP_HEADER_LEN;
use vstd::slice::slice_index_get;

verus! {

/// Everything that can go wrong while repairing a capture buffer.
#[derive(Clone, Copy, Debug, PartialEq, Eq, Structural)]
pub enum PcapError {
    /// The buffer is too short for a global header or its magic marker
    /// does not match: not a recognized capture file.
    UnrecognizedFormat,
    /// A record declares more captured bytes than original bytes; the
    /// file's internal consistency is suspect and the run aborts.
    InvalidRecordLength,
    /// A record's original length cannot be represented as an
    /// allocation size on this platform.
    SizeConversion,
}

/// Reporting counters returned beside the repaired records. They
/// describe the run; they never influence the transform.
#[derive(Clone, Copy, Debug, PartialEq, Eq, Structural)]
pub struct Summary {
    /// Number of records seen.
    pub total: usize,
    /// Number of records that were extended.
    pub repaired: usize,
    /// Serialized size of the input, header included, saturating.
    pub orig_size: u64,
    /// Serialized size of the output, header included, saturating.
    pub out_size: u64,
}

/// The record's lengths are consistent: it stores no more bytes than
/// the packet had on the wire.
pub open spec fn spec_rec_valid(m: RecModel) -> bool {
    m.caplen <= m.origlen
}

/// The record's original length is representable as an allocation size.
pub open spec fn spec_rec_fits(m: RecModel) -> bool {
    m.origlen <= usize::MAX
}

/// The record can be repaired on this platform.
pub open spec fn spec_rec_ok(m: RecModel) -> bool {
    spec_rec_valid(m) && spec_rec_fits(m)
}

/// Every record of the stream can be repaired.
pub open spec fn spec_all_ok(rs: Seq<RecModel>) -> bool {
    forall|i: int| 0 <= i < rs.len() ==> spec_rec_ok(#[trigger] rs[i])
}

/// The error a single unrepairable record is charged with.
pub open spec fn spec_fail_kind(m: RecModel) -> PcapError
    recommends
        !spec_rec_ok(m),
{
    if !spec_rec_valid(m) {
        PcapError::InvalidRecordLength
    } else {
        PcapError::SizeConversion
    }
}

/// The error reported for a stream: the failure kind of its first
/// unrepairable record.
pub open spec fn spec_stream_error(rs: Seq<RecModel>) -> PcapError
    recommends
        !spec_all_ok(rs),
    decreases rs.len(),
{
    if rs.len() == 0 {
        arbitrary()
    } else if !spec_rec_ok(rs[0]) {
        spec_fail_kind(rs[0])
    } else {
        spec_stream_error(rs.skip(1))
    }
}

/// When the records before `i` are repairable and the record at `i` is
/// not, the stream's error is the failure kind of the record at `i`.
pub proof fn lemma_stream_error_at(rs: Seq<RecModel>, i: int)
    requires
        0 <= i < rs.len(),
        forall|j: int| 0 <= j < i ==> spec_rec_ok(#[trigger] rs[j]),
        !spec_rec_ok(rs[i]),
    ensures
        !spec_all_ok(rs),
        spec_stream_error(rs) == spec_fail_kind(rs[i]),
    decreases i,
{
    if i > 0 {
        assert forall|j: int| 0 <= j < i - 1 implies spec_rec_ok(#[trigger] rs.skip(1)[j]) by {
            assert(rs.skip(1)[j] == rs[j + 1]);
        }
        assert(rs.skip(1)[i - 1] == rs[i]);
        lemma_stream_error_at(rs.skip(1), i - 1);
    }
}

/// The repaired form of one record: the payload extended with zero
/// bytes to the original length, and the captured length updated.
pub open spec fn spec_repair(m: RecModel) -> RecModel
    recommends
        spec_rec_valid(m),
{
    RecModel {
        ts: m.ts,
        tn: m.tn,
        caplen: m.origlen,
        origlen: m.origlen,
        data: m.data + Seq::new((m.origlen - m.caplen) as nat, |j: int| 0u8),
    }
}

/// The repaired form of a stream, record by record, order preserved.
pub open spec fn spec_detrunc_seq(rs: Seq<RecModel>) -> Seq<RecModel> {
    rs.map(|i: int, m: RecModel| spec_repair(m))
}

/// How many records of the stream are truncated (and so get repaired).
pub open spec fn spec_repaired_count(rs: Seq<RecModel>) -> int
    decreases rs.len(),
{
    if rs.len() == 0 {
        0
    } else {
        spec_repaired_count(rs.drop_last()) + if rs.last().caplen < rs.last().origlen {
            1int
        } else {
            0int
        }
    }
}

/// Serialized size of the input stream, global header included.
pub open spec fn spec_in_size(rs: Seq<RecModel>) -> int
    decreases rs.len(),
{
    if rs.len() == 0 {
        24
    } else {
        spec_in_size(rs.drop_last()) + 16 + rs.last().data.len()
    }
}

/// Serialized size of the repaired stream, global header included.
pub open spec fn spec_out_size(rs: Seq<RecModel>) -> int
    decreases rs.len(),
{
    if rs.len() == 0 {
        24
    } else {
        spec_out_size(rs.drop_last()) + 16 + rs.last().origlen
    }
}

/// `x` clamped to the range of a 64-bit counter.
pub open spec fn sat64(x: int) -> u64 {
    if x > u64::MAX {
        u64::MAX
    } else if x < 0 {
        0
    } else {
        x as u64
    }
}

/// The summary truthfully describes the stream.
pub open spec fn spec_summary_of(rs: Seq<RecModel>, s: Summary) -> bool {
    &&& s.total == rs.len()
    &&& s.repaired == spec_repaired_count(rs)
    &&& s.orig_size == sat64(spec_in_size(rs))
    &&& s.out_size == sat64(spec_out_size(rs))
}

proof fn lemma_counter_bounds(rs: Seq<RecModel>)
    ensures
        spec_in_size(rs) >= 24,
        spec_out_size(rs) >= 24,
        0 <= spec_repaired_count(rs) <= rs.len(),
    decreases rs.len(),
{
    if rs.len() > 0 {
        lemma_counter_bounds(rs.drop_last());
    }
}

/// Saturating at each step loses nothing against saturating the exact
/// sum once, for non-negative terms.
proof fn lemma_sat64_step(x: int, b: u64)
    requires
        x >= 0,
    ensures
        sat64(sat64(x) + b) == sat64(x + b),
{
}

/// Saturating addition on the reporting counters.
fn sat_add_u64(a: u64, b: u64) -> (r: u64)
    ensures
        r == sat64(a + b),
{
    if a <= u64::MAX - b {
        a + b
    } else {
        u64::MAX
    }
}

impl PcapRecord {
    /// Repairs a stream of records, in order. Each record with
    /// `caplen == origlen` passes through unchanged; each record with
    /// `caplen < origlen` has `origlen - caplen` zero bytes appended
    /// and its `caplen` set to `origlen`; the first record with
    /// `caplen > origlen`, or whose `origlen` exceeds the platform's
    /// allocation limit, aborts the run with the matching error and no
    /// output.
    pub fn detruncate(records: &[PcapRecord]) -> (r: Result<(Vec<PcapRecord>, Summary), PcapError>)
        requires
            forall|i: int| 0 <= i < records@.len() ==> (#[trigger] records@[i])@.wf(),
        ensures
            spec_all_ok(record_models(records@)) <==> r is Ok,
            r is Ok ==> record_models(r->Ok_0.0@) == spec_detrunc_seq(record_models(records@)),
            r is Ok ==> forall|i: int|
                0 <= i < r->Ok_0.0@.len() ==> (#[trigger] r->Ok_0.0@[i])@.wf(),
            r is Ok ==> spec_summary_of(record_models(records@), r->Ok_0.1),
            r is Err ==> r->Err_0 == spec_stream_error(record_models(records@)),
            (exists|i: int|
                0 <= i < record_models(records@).len() && !spec_rec_valid(
                    #[trigger] record_models(records@)[i],
                )) ==> r is Err,
    {
        let ghost models = record_models(records@);
        let mut out: Vec<PcapRecord> = Vec::new();
        let mut repaired: usize = 0;
        let mut orig_size: u64 = 24;
        let mut out_size: u64 = 24;
        let total = records.len();
        let mut idx: usize = 0;
        proof {
            assert(models.take(0) =~= Seq::<RecModel>::empty());
            assert(record_models(out@) =~= spec_detrunc_seq(models.take(0)));
        }
        while idx < total
            invariant
                total == records@.len(),
                idx <= total,
                forall|i: int| 0 <= i < records@.len() ==> (#[trigger] records@[i])@.wf(),
                models == record_models(records@),
                forall|i: int| 0 <= i < idx ==> spec_rec_ok(#[trigger] models[i]),
                out@.len() == idx,
                record_models(out@) == spec_detrunc_seq(models.take(idx as int)),
                forall|i: int| 0 <= i < out@.len() ==> (#[trigger] out@[i])@.wf(),
                repaired <= idx,
                repaired == spec_repaired_count(models.take(idx as int)),
                orig_size == sat64(spec_in_size(models.take(idx as int))),
                out_size == sat64(spec_out_size(models.take(idx as int))),
            decreases total - idx,
        {
            let rec = slice_index_get(records, idx);
            proof {
                assert(models[idx as int] == records@[idx as int]@);
            }
            if rec.caplen > rec.origlen {
                proof {
                    lemma_stream_error_at(models, idx as int);
                }
                return Err(PcapError::InvalidRecordLength);
            }
            if (rec.origlen as u64) > (usize::MAX as u64) {
                proof {
                    lemma_stream_error_at(models, idx as int);
                }
                return Err(PcapError::SizeConversion);
            }
            let origlen_usize = rec.origlen as usize;
            let mut data: Vec<u8> = Vec::new();
            let mut j: usize = 0;
            while j < rec.data.len()
                invariant
                    j <= rec.data@.len(),
                    data@ == rec.data@.take(j as int),
                decreases rec.data@.len() - j,
            {
                data.push(rec.data[j]);
                proof {
                    assert(rec.data@.take(j + 1) =~= rec.data@.take(j as int).push(
                        rec.data@[j as int],
                    ));
                }
                j = j + 1;
            }
            proof {
                assert(rec.data@.take(rec.data@.len() as int) =~= rec.data@);
            }
            while data.len() < origlen_usize
                invariant
                    rec.data@.len() <= data@.len() <= origlen_usize,
                    rec.data@.len() == rec@.caplen,
                    rec@.caplen <= rec@.origlen,
                    origlen_usize == rec@.origlen,
                    data@ == rec.data@ + Seq::new((data@.len() - rec.data@.len()) as nat,
                        |q: int| 0u8,
                    ),
                decreases origlen_usize - data@.len(),
            {
                data.push(0u8);
                proof {
                    assert(rec.data@ + Seq::new((data@.len() - rec.data@.len()) as nat,
                        |q: int| 0u8,
                    ) =~= (rec.data@ + Seq::new(
                        (data@.len() - 1 - rec.data@.len()) as nat,
                        |q: int| 0u8,
                    )).push(0u8));
                }
            }
            let repaired_rec = PcapRecord {
                ts: rec.ts,
                tn: rec.tn,
                caplen: rec.origlen,
                origlen: rec.origlen,
                data,
            };
            proof {
                assert(repaired_rec@ =~= spec_repair(models[idx as int]));
            }
            let was_truncated: bool = rec.caplen < rec.origlen;
            let dlen = rec.data.len();
            let ghost out_pre = out@;
            out.push(repaired_rec);
            if was_truncated {
                repaired = repaired + 1;
            }
            proof {
                let pre = models.take(idx as int);
                let post = models.take(idx as int + 1);
                let m = models[idx as int];
                assert(out_pre.len() == idx);
                assert(out@ == out_pre.push(repaired_rec));
                assert(record_models(out_pre) == spec_detrunc_seq(pre));
                lemma_counter_bounds(pre);
                assert(post.drop_last() =~= pre);
                assert(post.last() == m);
                assert(spec_repaired_count(post) == spec_repaired_count(pre) + if m.caplen
                    < m.origlen {
                    1int
                } else {
                    0int
                });
                assert(spec_in_size(post) == spec_in_size(pre) + 16 + m.data.len());
                assert(spec_out_size(post) == spec_out_size(pre) + 16 + m.origlen);
                assert forall|k: int|
                    0 <= k < post.len() implies #[trigger] record_models(out@)[k]
                    == spec_detrunc_seq(post)[k] by {
                    assert(post[k] == models[k]);
                    assert(spec_detrunc_seq(post)[k] == spec_repair(post[k]));
                    assert(record_models(out@)[k] == out@[k]@);
                    if k < idx as int {
                        assert(out@[k] == out_pre[k]);
                        assert(record_models(out_pre)[k] == out_pre[k]@);
                        assert(record_models(out_pre)[k] == spec_detrunc_seq(pre)[k]);
                        assert(spec_detrunc_seq(pre)[k] == spec_repair(pre[k]));
                        assert(pre[k] == models[k]);
                    } else {
                        assert(out@[k] == repaired_rec);
                    }
                }
                assert(record_models(out@) =~= spec_detrunc_seq(post));
                lemma_sat64_step(spec_in_size(pre), 16);
                lemma_sat64_step(spec_in_size(pre) + 16, dlen as u64);
                lemma_sat64_step(spec_out_size(pre), 16);
                lemma_sat64_step(spec_out_size(pre) + 16, m.origlen as u64);
            }
            orig_size = sat_add_u64(orig_size, 16);
            orig_size = sat_add_u64(orig_size, dlen as u64);
            out_size = sat_add_u64(out_size, 16);
            out_size = sat_add_u64(out_size, rec.origlen as u64);
            idx = idx + 1;
        }
        proof {
            assert(models.take(total as int) =~= models);
        }
        let summary = Summary { total, repaired, orig_size, out_size };
        Ok((out, summary))
    }
}

/// After the transform every record is complete: its captured length
/// equals its original length and its payload holds exactly that many
/// bytes.
pub proof fn lemma_detrunc_invariant(rs: Seq<RecModel>)
    requires
        forall|i: int| 0 <= i < rs.len() ==> (#[trigger] rs[i]).wf(),
        spec_all_ok(rs),
    ensures
        spec_detrunc_seq(rs).len() == rs.len(),
        forall|i: int|
            0 <= i < rs.len() ==> {
                let m = #[trigger] spec_detrunc_seq(rs)[i];
                m.caplen == m.origlen && m.data.len() == m.origlen && m.wf()
            },
{
    assert forall|i: int| 0 <= i < rs.len() implies {
        let m = #[trigger] spec_detrunc_seq(rs)[i];
        m.caplen == m.origlen && m.data.len() == m.origlen && m.wf()
    } by {
        assert(spec_detrunc_seq(rs)[i] == spec_repair(rs[i]));
        assert(spec_rec_ok(rs[i]));
    }
}

/// The padding law: repairing a truncated record appends exactly
/// `origlen - caplen` zero bytes and alters no existing byte.
pub proof fn lemma_repair_padding(m: RecModel)
    requires
        m.wf(),
        m.caplen <= m.origlen,
    ensures
        spec_repair(m).data.len() == m.origlen,
        spec_repair(m).data.subrange(0, m.caplen as int) == m.data,
        forall|j: int| m.caplen <= j < m.origlen ==> spec_repair(m).data[j] == 0,
        spec_repair(m).data == m.data + Seq::new((m.origlen - m.caplen) as nat, |j: int| 0u8),
{
    assert(spec_repair(m).data.subrange(0, m.caplen as int) =~= m.data);
}

proof fn lemma_repaired_count_zero(rs: Seq<RecModel>)
    requires
        forall|i: int| 0 <= i < rs.len() ==> (#[trigger] rs[i]).caplen == rs[i].origlen,
    ensures
        spec_repaired_count(rs) == 0,
    decreases rs.len(),
{
    if rs.len() > 0 {
        lemma_repaired_count_zero(rs.drop_last());
    }
}

/// Idempotence: repairing an already repaired stream changes nothing,
/// and a second pass counts zero repairs.
pub proof fn lemma_detrunc_idempotent(rs: Seq<RecModel>)
    requires
        forall|i: int| 0 <= i < rs.len() ==> (#[trigger] rs[i]).wf(),
        spec_all_ok(rs),
    ensures
        spec_detrunc_seq(spec_detrunc_seq(rs)) == spec_detrunc_seq(rs),
        spec_repaired_count(spec_detrunc_seq(rs)) == 0,
        spec_all_ok(spec_detrunc_seq(rs)),
        forall|i: int|
            0 <= i < spec_detrunc_seq(rs).len() ==> (#[trigger] spec_detrunc_seq(rs)[i]).wf(),
{
    let out = spec_detrunc_seq(rs);
    lemma_detrunc_invariant(rs);
    assert forall|i: int| 0 <= i < out.len() implies spec_rec_ok(#[trigger] out[i]) by {
        assert(out[i] == spec_repair(rs[i]));
        assert(rs[i].origlen <= usize::MAX) by {
            assert(spec_rec_ok(rs[i]));
        }
    }
    assert forall|i: int| 0 <= i < out.len() implies #[trigger] spec_detrunc_seq(out)[i] == out[i] by {
        assert(out[i] == spec_repair(rs[i]));
        assert(spec_detrunc_seq(out)[i] == spec_repair(out[i]));
        assert(spec_repair(out[i]).data =~= out[i].data);
        assert(spec_repair(out[i]) =~= out[i]);
    }
    assert(spec_detrunc_seq(out) =~= out);
    assert forall|i: int| 0 <= i < out.len() implies (#[trigger] out[i]).caplen == out[i].origlen by {
        assert(out[i] == spec_repair(rs[i]));
    }
    lemma_repaired_count_zero(out);
}

/// Repairs a whole capture buffer.
///
/// The result is the serialized global header followed by the
/// serialized repaired records, or the error that stopped the run: the
/// buffer is not a recognized capture file, or a record's lengths are
/// inconsistent, or an original length is not representable. No output
/// exists in the error cases.
pub open spec fn spec_process(input: Seq<u8>) -> Result<Seq<u8>, PcapError> {
    match spec_parse_header(input) {
        None => Err(PcapError::UnrecognizedFormat),
        Some(h) => {
            let models = spec_parse_records(input.skip(24));
            if spec_all_ok(models) {
                Ok(
                    spec_header_bytes(h) + spec_serialize_records(spec_detrunc_seq(models)),
                )
            } else {
                Err(spec_stream_error(models))
            }
        },
    }
}

/// Parses the buffer, repairs every record, and serializes the result;
/// the summary reports what a run over this buffer did.
pub fn process(input: &[u8]) -> (r: Result<(Vec<u8>, Summary), PcapError>)
    ensures
        r is Ok <==> spec_process(input@) is Ok,
        r is Ok ==> r->Ok_0.0@ == spec_process(input@)->Ok_0,
        r is Ok ==> spec_summary_of(spec_parse_records(input@.skip(24)), r->Ok_0.1),
        r is Err ==> r->Err_0 == spec_process(input@)->Err_0,
{
    let header = match PcapHeader::read(input) {
        None => {
            return Err(PcapError::UnrecognizedFormat);
        },
        Some(h) => h,
    };
    let rest = vstd::slice::slice_subrange(input, PCAP_HEADER_LEN, input.len());
    proof {
        assert(rest@ =~= input@.skip(24));
    }
    let records = PcapRecord::read_all(rest);
    let (repaired, summary) = match PcapRecord::detruncate(records.as_slice()) {
        Err(e) => {
            return Err(e);
        },
        Ok(pair) => pair,
    };
    let mut out = header.out();
    let mut body = PcapRecord::write_all(repaired.as_slice());
    out.append(&mut body);
    Ok((out, summary))
}

} // verus!
