//! Records: a 16-byte little-endian header (timestamp seconds,
//! timestamp fraction, captured length, original length) followed by
//! `caplen` payload bytes, and the stream of such records that follows
//! the global header.

use vstd::prelude::*;

use crate::bytes::{le32_at, le32_bytes, lemma_le32_eq_sub, read_u32_le, write_u32_le};
use crate::RECORD_HEADER_LEN;
use vstd::slice::{slice_subrange, slice_to_vec};

verus! {

/// One captured packet: the four header fields and the stored payload.
#[derive(Debug)]
pub struct PcapRecord {
    /// Timestamp, seconds part.
    pub ts: u32,
    /// Timestamp, fractional part.
    pub tn: u32,
    /// Number of payload bytes stored in this record.
    pub caplen: u32,
    /// Length of the packet as it was on the wire.
    pub origlen: u32,
    /// The stored payload.
    pub data: Vec<u8>,
}

/// The mathematical model of a record: the same fields with the
/// payload as a sequence.
#[verifier::ext_equal]
pub ghost struct RecModel {
    pub ts: u32,
    pub tn: u32,
    pub caplen: u32,
    pub origlen: u32,
    pub data: Seq<u8>,
}

impl RecModel {
    /// The payload holds exactly `caplen` bytes.
    pub open spec fn wf(self) -> bool {
        self.data.len() == self.caplen
    }
}

impl View for PcapRecord {
    type V = RecModel;

    open spec fn view(&self) -> RecModel {
        RecModel {
            ts: self.ts,
            tn: self.tn,
            caplen: self.caplen,
            origlen: self.origlen,
            data: self.data@,
        }
    }
}

/// The models of a sequence of records.
pub open spec fn record_models(rs: Seq<PcapRecord>) -> Seq<RecModel> {
    rs.map(|i: int, r: PcapRecord| r@)
}

/// The record encoded at the start of `b`, or `None` when fewer bytes
/// remain than a complete record header plus its declared payload.
pub open spec fn spec_parse_record(b: Seq<u8>) -> Option<RecModel> {
    if b.len() < 16 {
        None
    } else {
        let caplen = le32_at(b, 8);
        if b.len() < 16 + caplen {
            None
        } else {
            Some(
                RecModel {
                    ts: le32_at(b, 0),
                    tn: le32_at(b, 4),
                    caplen,
                    origlen: le32_at(b, 12),
                    data: b.subrange(16, 16 + caplen as int),
                },
            )
        }
    }
}

/// The serialized form of a record: the 16-byte header followed by the
/// payload.
pub open spec fn spec_record_bytes(m: RecModel) -> Seq<u8>
    recommends
        m.wf(),
{
    le32_bytes(m.ts) + le32_bytes(m.tn) + le32_bytes(m.caplen) + le32_bytes(m.origlen) + m.data
}

/// All records encoded at the start of `b`, in order, ending cleanly at
/// the first point where no complete record remains.
pub open spec fn spec_parse_records(b: Seq<u8>) -> Seq<RecModel>
    decreases b.len(),
{
    if b.len() < 16 {
        Seq::empty()
    } else {
        let caplen = le32_at(b, 8);
        if b.len() < 16 + caplen {
            Seq::empty()
        } else {
            seq![spec_parse_record(b)->Some_0] + spec_parse_records(b.skip(16 + caplen as int))
        }
    }
}

/// The concatenation of the serialized forms of the records, in order.
pub open spec fn spec_serialize_records(rs: Seq<RecModel>) -> Seq<u8>
    decreases rs.len(),
{
    if rs.len() == 0 {
        Seq::empty()
    } else {
        spec_record_bytes(rs[0]) + spec_serialize_records(rs.skip(1))
    }
}

/// Serializing one more record appends its bytes at the end.
pub proof fn lemma_serialize_records_push(rs: Seq<RecModel>, m: RecModel)
    ensures
        spec_serialize_records(rs.push(m)) == spec_serialize_records(rs) + spec_record_bytes(m),
    decreases rs.len(),
{
    if rs.len() == 0 {
        assert(spec_serialize_records(Seq::<RecModel>::empty()) == Seq::<u8>::empty());
        assert(rs.push(m).skip(1) =~= Seq::<RecModel>::empty());
        assert(rs.push(m)[0] == m);
        assert(spec_serialize_records(rs.push(m)) == spec_record_bytes(m) + Seq::<u8>::empty());
        assert(spec_serialize_records(rs) == Seq::<u8>::empty());
    } else {
        lemma_serialize_records_push(rs.skip(1), m);
        assert(rs.push(m).skip(1) =~= rs.skip(1).push(m));
        assert(rs.push(m)[0] == rs[0]);
        let a = spec_record_bytes(rs[0]);
        let b = spec_serialize_records(rs.skip(1));
        let c = spec_record_bytes(m);
        assert(spec_serialize_records(rs.push(m)) == a + (b + c));
        assert(spec_serialize_records(rs) == a + b);
    }
}

/// Re-parsing a serialized record gives back an identical record.
pub proof fn lemma_record_round_trip(m: RecModel)
    requires
        m.wf(),
    ensures
        spec_parse_record(spec_record_bytes(m)) == Some(m),
{
    let b = spec_record_bytes(m);
    assert(b.len() == 16 + m.caplen);
    assert(b.subrange(0, 4) =~= le32_bytes(m.ts));
    assert(b.subrange(4, 8) =~= le32_bytes(m.tn));
    assert(b.subrange(8, 12) =~= le32_bytes(m.caplen));
    assert(b.subrange(12, 16) =~= le32_bytes(m.origlen));
    lemma_le32_eq_sub(b, 0, m.ts);
    lemma_le32_eq_sub(b, 4, m.tn);
    lemma_le32_eq_sub(b, 8, m.caplen);
    lemma_le32_eq_sub(b, 12, m.origlen);
    assert(b.subrange(16, 16 + m.caplen as int) =~= m.data);
    assert(spec_parse_record(b)->Some_0 =~= m);
}

impl PcapRecord {
    /// Parses one record from the start of `reader`. Returns `None`
    /// when fewer bytes remain than the 16-byte record header plus the
    /// declared payload: the stream ends cleanly there.
    pub fn read(reader: &[u8]) -> (r: Option<PcapRecord>)
        ensures
            r is Some <==> spec_parse_record(reader@) is Some,
            r is Some ==> r->Some_0@ == spec_parse_record(reader@)->Some_0,
            r is Some ==> r->Some_0@.wf(),
    {
        let len = reader.len();
        if len < RECORD_HEADER_LEN {
            return None;
        }
        let caplen = read_u32_le(reader, 8);
        if ((len - 16) as u64) < (caplen as u64) {
            return None;
        }
        let caplen_usize = caplen as usize;
        let ts = read_u32_le(reader, 0);
        let tn = read_u32_le(reader, 4);
        let origlen = read_u32_le(reader, 12);
        let data = slice_to_vec(slice_subrange(reader, 16, 16 + caplen_usize));
        let rec = PcapRecord { ts, tn, caplen, origlen, data };
        proof {
            assert(rec@ =~= spec_parse_record(reader@)->Some_0);
        }
        Some(rec)
    }

    /// Parses records one after another from `cursor`, each consuming
    /// its 16-byte header and `caplen` payload bytes, and stops the
    /// moment no further complete record can be read.
    pub fn read_all(cursor: &[u8]) -> (records: Vec<PcapRecord>)
        ensures
            record_models(records@) == spec_parse_records(cursor@),
            forall|i: int| 0 <= i < records@.len() ==> (#[trigger] records@[i])@.wf(),
    {
        let mut records: Vec<PcapRecord> = Vec::new();
        let mut rest: &[u8] = cursor;
        proof {
            assert(record_models(records@) + spec_parse_records(rest@) =~= spec_parse_records(
                cursor@,
            ));
        }
        loop
            invariant
                forall|i: int| 0 <= i < records@.len() ==> (#[trigger] records@[i])@.wf(),
                record_models(records@) + spec_parse_records(rest@) == spec_parse_records(cursor@),
            ensures
                record_models(records@) == spec_parse_records(cursor@),
                forall|i: int| 0 <= i < records@.len() ==> (#[trigger] records@[i])@.wf(),
            decreases rest@.len(),
        {
            let ghost prev = rest@;
            match PcapRecord::read(rest) {
                None => {
                    proof {
                        assert(spec_parse_records(prev) =~= Seq::<RecModel>::empty());
                        assert(record_models(records@) =~= spec_parse_records(cursor@));
                    }
                    break;
                },
                Some(record) => {
                    let rl = rest.len();
                    proof {
                        assert(prev.len() >= 16 + record@.caplen);
                        assert(record@.data.len() + 16 <= rl);
                    }
                    let n = record.len();
                    rest = slice_subrange(rest, n, rest.len());
                    proof {
                        let m = record@;
                        assert(spec_parse_records(prev) == seq![m] + spec_parse_records(
                            prev.skip(16 + m.caplen as int),
                        ));
                        assert(rest@ =~= prev.skip(16 + m.caplen as int));
                        assert(record_models(records@.push(record)) =~= record_models(records@)
                            + seq![m]);
                        assert(record_models(records@.push(record)) + spec_parse_records(rest@)
                            =~= spec_parse_records(cursor@));
                    }
                    records.push(record);
                },
            }
        }
        records
    }

    /// Serializes the record: the four header fields little-endian,
    /// then exactly `caplen` payload bytes.
    pub fn out(&self) -> (out: Vec<u8>)
        requires
            self@.wf(),
        ensures
            out@ == spec_record_bytes(self@),
    {
        let mut out: Vec<u8> = Vec::new();
        write_u32_le(&mut out, self.ts);
        write_u32_le(&mut out, self.tn);
        write_u32_le(&mut out, self.caplen);
        write_u32_le(&mut out, self.origlen);
        let ghost head = out@;
        let mut i: usize = 0;
        while i < self.data.len()
            invariant
                i <= self.data@.len(),
                out@ == head + self.data@.take(i as int),
            decreases self.data@.len() - i,
        {
            out.push(self.data[i]);
            proof {
                assert(head + self.data@.take(i + 1) =~= (head + self.data@.take(i as int)).push(
                    self.data@[i as int],
                ));
            }
            i = i + 1;
        }
        proof {
            assert(self.data@.take(self.data@.len() as int) =~= self.data@);
            assert(out@ =~= spec_record_bytes(self@));
        }
        out
    }

    /// The number of bytes the record occupies in serialized form.
    pub fn len(&self) -> (n: usize)
        requires
            self.data@.len() + 16 <= usize::MAX,
        ensures
            n == self.data@.len() + 16,
    {
        self.data.len() + 16
    }

    /// Serializes each record in order and concatenates the results.
    pub fn write_all(records: &[PcapRecord]) -> (out: Vec<u8>)
        requires
            forall|i: int| 0 <= i < records@.len() ==> (#[trigger] records@[i])@.wf(),
        ensures
            out@ == spec_serialize_records(record_models(records@)),
    {
        let mut out: Vec<u8> = Vec::new();
        let mut i: usize = 0;
        proof {
            assert(record_models(records@).take(0) =~= Seq::<RecModel>::empty());
        }
        while i < records.len()
            invariant
                i <= records@.len(),
                forall|k: int| 0 <= k < records@.len() ==> (#[trigger] records@[k])@.wf(),
                out@ == spec_serialize_records(record_models(records@).take(i as int)),
            decreases records@.len() - i,
        {
            let r = vstd::slice::slice_index_get(records, i);
            let mut piece = r.out();
            out.append(&mut piece);
            proof {
                let ms = record_models(records@);
                lemma_serialize_records_push(ms.take(i as int), r@);
                assert(ms.take(i + 1) =~= ms.take(i as int).push(r@));
            }
            i = i + 1;
        }
        proof {
            assert(record_models(records@).take(records@.len() as int) =~= record_models(
                records@,
            ));
        }
        out
    }
}

} // verus!
