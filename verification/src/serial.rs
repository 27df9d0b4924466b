//! The shared on-disk layout of tessellation and disk-index files.
//!
//! A file is a 15-byte header — 4 magic bytes, a version byte, the
//! resolution, a compression indicator (only "uncompressed" is defined),
//! and a big-endian record count — followed by the records, 10 bytes each:
//! cell identifier then elevation, both big-endian.

use vstd::prelude::*;

use crate::codec::{
    lemma_be_i16_roundtrip, lemma_be_u64_roundtrip, spec_be_i16, spec_be_u64,
    spec_i16_of_bytes, spec_u64_of_bytes,
};
use crate::records::Record;

verus! {

/// Format version written and accepted.
pub const FORMAT_VERSION: u8 = 1;

/// Compression indicator: uncompressed.
pub const COMPRESSION_NONE: u8 = 0;

/// Magic bytes of a tessellation file: `HTES`.
pub open spec fn tess_magic() -> Seq<u8> {
    seq![72u8, 84u8, 69u8, 83u8]
}

/// Magic bytes of a disk-index file: `HDTR`.
pub open spec fn disk_magic() -> Seq<u8> {
    seq![72u8, 68u8, 84u8, 82u8]
}

/// The 10 bytes of one record.
pub open spec fn spec_rec_bytes(r: Record) -> Seq<u8> {
    spec_be_u64(r.cell) + spec_be_i16(r.elevation)
}

/// The concatenated bytes of a record sequence.
pub open spec fn spec_records_bytes(s: Seq<Record>) -> Seq<u8>
    decreases s.len(),
{
    if s.len() == 0 {
        Seq::empty()
    } else {
        spec_records_bytes(s.drop_last()) + spec_rec_bytes(s.last())
    }
}

/// The whole file image for a magic, a resolution and a record sequence.
pub open spec fn spec_file_bytes(magic: Seq<u8>, res: u8, s: Seq<Record>) -> Seq<u8> {
    magic + seq![FORMAT_VERSION, res, COMPRESSION_NONE] + spec_be_u64(s.len() as u64)
        + spec_records_bytes(s)
}

/// The record count a file image declares.
pub open spec fn spec_count_of(b: Seq<u8>) -> u64 {
    spec_u64_of_bytes(b[7], b[8], b[9], b[10], b[11], b[12], b[13], b[14])
}

/// The record at index `i` of a file image.
pub open spec fn spec_rec_of(b: Seq<u8>, i: int) -> Record {
    Record {
        cell: spec_u64_of_bytes(
            b[15 + 10 * i],
            b[15 + 10 * i + 1],
            b[15 + 10 * i + 2],
            b[15 + 10 * i + 3],
            b[15 + 10 * i + 4],
            b[15 + 10 * i + 5],
            b[15 + 10 * i + 6],
            b[15 + 10 * i + 7],
        ),
        elevation: spec_i16_of_bytes(b[15 + 10 * i + 8], b[15 + 10 * i + 9]),
    }
}

/// All records a file image declares.
pub open spec fn spec_decode_records(b: Seq<u8>) -> Seq<Record> {
    Seq::new(spec_count_of(b) as nat, |i: int| spec_rec_of(b, i))
}

/// Structural validity of a file image: magic, version, compression
/// indicator, and a length that matches the declared record count.
pub open spec fn spec_layout_ok(b: Seq<u8>, magic: Seq<u8>) -> bool {
    &&& b.len() >= 15
    &&& b.subrange(0, 4) == magic
    &&& b[4] == FORMAT_VERSION
    &&& b[6] == COMPRESSION_NONE
    &&& b.len() == 15 + 10 * (spec_count_of(b) as int)
}

/// A record sequence's bytes are 10 bytes per record.
pub proof fn lemma_records_bytes_len(s: Seq<Record>)
    ensures
        spec_records_bytes(s).len() == 10 * s.len(),
    decreases s.len(),
{
    if s.len() > 0 {
        lemma_records_bytes_len(s.drop_last());
    }
}

/// Byte `k` of record `i` sits at offset `10 i + k` of the records region.
proof fn lemma_records_bytes_at(s: Seq<Record>, i: int, k: int)
    requires
        0 <= i < s.len(),
        0 <= k < 10,
    ensures
        spec_records_bytes(s)[10 * i + k] == spec_rec_bytes(s[i])[k],
    decreases s.len(),
{
    lemma_records_bytes_len(s.drop_last());
    if i == s.len() - 1 {
        assert(spec_records_bytes(s)[10 * i + k] == spec_rec_bytes(s.last())[k]);
    } else {
        lemma_records_bytes_at(s.drop_last(), i, k);
        assert(spec_records_bytes(s)[10 * i + k] == spec_records_bytes(s.drop_last())[10 * i + k]);
        assert(s.drop_last()[i] == s[i]);
    }
}

/// Serialization round-trip: the file image written for a record sequence
/// is structurally valid, declares exactly that resolution and count, and
/// decodes back to exactly that sequence.
pub proof fn lemma_file_roundtrip(magic: Seq<u8>, res: u8, s: Seq<Record>)
    requires
        magic.len() == 4,
        s.len() <= 0xffff_ffff_ffff_ffff,
    ensures
        spec_layout_ok(spec_file_bytes(magic, res, s), magic),
        spec_file_bytes(magic, res, s)[5] == res,
        spec_count_of(spec_file_bytes(magic, res, s)) == s.len(),
        spec_decode_records(spec_file_bytes(magic, res, s)) == s,
{
    let b = spec_file_bytes(magic, res, s);
    lemma_records_bytes_len(s);
    assert(b.len() == 15 + 10 * s.len());
    assert(b.subrange(0, 4) =~= magic);
    let cnt = s.len() as u64;
    assert(forall|j: int| 0 <= j < 8 ==> b[7 + j] == spec_be_u64(cnt)[j]);
    lemma_be_u64_roundtrip(cnt);
    assert(spec_count_of(b) == cnt);
    assert forall|i: int| 0 <= i < s.len() implies spec_rec_of(b, i) == s[i] by {
        lemma_records_bytes_at(s, i, 0);
        lemma_records_bytes_at(s, i, 1);
        lemma_records_bytes_at(s, i, 2);
        lemma_records_bytes_at(s, i, 3);
        lemma_records_bytes_at(s, i, 4);
        lemma_records_bytes_at(s, i, 5);
        lemma_records_bytes_at(s, i, 6);
        lemma_records_bytes_at(s, i, 7);
        lemma_records_bytes_at(s, i, 8);
        lemma_records_bytes_at(s, i, 9);
        assert(b[15 + 10 * i] == spec_records_bytes(s)[10 * i]);
        assert(b[15 + 10 * i + 1] == spec_records_bytes(s)[10 * i + 1]);
        assert(b[15 + 10 * i + 2] == spec_records_bytes(s)[10 * i + 2]);
        assert(b[15 + 10 * i + 3] == spec_records_bytes(s)[10 * i + 3]);
        assert(b[15 + 10 * i + 4] == spec_records_bytes(s)[10 * i + 4]);
        assert(b[15 + 10 * i + 5] == spec_records_bytes(s)[10 * i + 5]);
        assert(b[15 + 10 * i + 6] == spec_records_bytes(s)[10 * i + 6]);
        assert(b[15 + 10 * i + 7] == spec_records_bytes(s)[10 * i + 7]);
        assert(b[15 + 10 * i + 8] == spec_records_bytes(s)[10 * i + 8]);
        assert(b[15 + 10 * i + 9] == spec_records_bytes(s)[10 * i + 9]);
        lemma_be_u64_roundtrip(s[i].cell);
        lemma_be_i16_roundtrip(s[i].elevation);
        assert(spec_rec_of(b, i).cell == s[i].cell);
        assert(spec_rec_of(b, i).elevation == s[i].elevation);
    }
    assert(spec_decode_records(b) =~= s);
}

/// Writes the file image for a record sequence: header, then records.
pub fn serialize_file(m0: u8, m1: u8, m2: u8, m3: u8, res: u8, records: &Vec<Record>) -> (r:
    Vec<u8>)
    ensures
        r@ == spec_file_bytes(seq![m0, m1, m2, m3], res, records@),
{
    let mut out: Vec<u8> = Vec::new();
    out.push(m0);
    out.push(m1);
    out.push(m2);
    out.push(m3);
    out.push(FORMAT_VERSION);
    out.push(res);
    out.push(COMPRESSION_NONE);
    crate::codec::push_be_u64(&mut out, records.len() as u64);
    let ghost header = seq![m0, m1, m2, m3] + seq![FORMAT_VERSION, res, COMPRESSION_NONE]
        + spec_be_u64(records@.len() as u64);
    assert(out@ =~= header);
    let mut i: usize = 0;
    while i < records.len()
        invariant
            i <= records@.len(),
            out@ == header + spec_records_bytes(records@.take(i as int)),
        decreases records@.len() - i,
    {
        let r = records[i];
        crate::codec::push_be_u64(&mut out, r.cell);
        crate::codec::push_be_i16(&mut out, r.elevation);
        proof {
            let t1 = records@.take(i as int);
            let t2 = records@.take(i + 1);
            assert(t2.drop_last() =~= t1);
            assert(t2.last() == records@[i as int]);
            assert(out@ =~= header + spec_records_bytes(t2));
        }
        i = i + 1;
    }
    proof {
        assert(records@.take(records@.len() as int) =~= records@);
        assert(out@ =~= spec_file_bytes(seq![m0, m1, m2, m3], res, records@));
    }
    out
}

} // verus!
