//! The disk-resident spatial index: a sorted record sequence under a
//! validated header, opened from materialized bytes or a memory mapping,
//! and queried by binary search.

use vstd::arithmetic::power2::{lemma2_to64, lemma_pow2_adds, pow2};
use vstd::prelude::*;

use crate::cells::{
    cell_is_valid, cell_res, cell_valid, normalize_cell, spec_normalized, MAX_RES,
};
use crate::codec::{decode_be_i16, decode_be_u64};
use crate::error::HError;
use crate::mapping::{mmap_byte, mmap_len, mmap_view};
use crate::records::{lemma_map_of_props, map_of, sorted_unique, Record};
use crate::serial::{
    disk_magic, lemma_file_roundtrip, spec_count_of, spec_decode_records, spec_file_bytes,
    spec_layout_ok, spec_rec_of, COMPRESSION_NONE, FORMAT_VERSION,
};

verus! {

/// Bytes an index is read from: an owned buffer, or a read-through view
/// over a memory-mapped file, so a large index need not be resident.
pub enum ByteSource {
    /// Fully materialized bytes.
    Mem(Vec<u8>),
    /// A memory mapping of the index file.
    Mapped(memmap2::Mmap),
}

impl ByteSource {
    /// The bytes this source serves, whichever backing it has.
    pub open spec fn view_bytes(self) -> Seq<u8> {
        match self {
            ByteSource::Mem(v) => v@,
            ByteSource::Mapped(m) => mmap_view(m),
        }
    }

    /// Number of bytes served.
    pub fn length(&self) -> (r: usize)
        ensures
            r == self.view_bytes().len(),
    {
        match self {
            ByteSource::Mem(v) => v.len(),
            ByteSource::Mapped(m) => mmap_len(m),
        }
    }

    /// One byte.
    pub fn byte(&self, i: usize) -> (r: u8)
        requires
            i < self.view_bytes().len(),
        ensures
            r == self.view_bytes()[i as int],
    {
        match self {
            ByteSource::Mem(v) => v[i],
            ByteSource::Mapped(m) => mmap_byte(m, i),
        }
    }
}

/// A disk-index image is sound: valid layout under the index magic, a
/// supported resolution, and records sorted ascending with no duplicate
/// cells — what binary search requires.
pub open spec fn spec_disk_ok(b: Seq<u8>) -> bool {
    &&& spec_layout_ok(b, disk_magic())
    &&& b[5] <= MAX_RES
    &&& sorted_unique(spec_decode_records(b))
}

/// An opened, validated disk index. Immutable: lookups never mutate it.
pub struct DiskTree {
    /// The validated file image.
    pub src: ByteSource,
    /// The index's resolution, from its header.
    pub resolution: u8,
    /// Number of records, from its header.
    pub count: usize,
}

impl DiskTree {
    /// The records this index holds.
    pub open spec fn records(self) -> Seq<Record> {
        spec_decode_records(self.src.view_bytes())
    }

    /// A validated index: sound image, header fields cached faithfully.
    pub open spec fn wf(self) -> bool {
        &&& spec_disk_ok(self.src.view_bytes())
        &&& self.resolution == self.src.view_bytes()[5]
        &&& self.count == spec_count_of(self.src.view_bytes())
        &&& self.src.view_bytes().len() <= usize::MAX
    }

    /// Opens an index over a byte source, validating the header and that
    /// the records are sorted with no duplicates; any violation is a
    /// corruption error.
    pub fn open(src: ByteSource) -> (r: Result<DiskTree, HError>)
        ensures
            r is Ok <==> spec_disk_ok(src.view_bytes()),
            r matches Ok(t) ==> t.wf() && t.src == src,
            r is Err ==> r == Err::<DiskTree, _>(HError::CorruptIndex),
    {
        let blen_us = src.length();
        if blen_us < 15 {
            return Err(HError::CorruptIndex);
        }
        if src.byte(0) != 72 || src.byte(1) != 68 || src.byte(2) != 84 || src.byte(3) != 82 {
            proof {
                assert(src.view_bytes().subrange(0, 4) != disk_magic());
            }
            return Err(HError::CorruptIndex);
        }
        proof {
            assert(src.view_bytes().subrange(0, 4) =~= disk_magic());
        }
        if src.byte(4) != FORMAT_VERSION || src.byte(6) != COMPRESSION_NONE {
            return Err(HError::CorruptIndex);
        }
        let resolution = src.byte(5);
        if resolution > MAX_RES {
            return Err(HError::CorruptIndex);
        }
        let count = decode_be_u64(
            src.byte(7), src.byte(8), src.byte(9), src.byte(10), src.byte(11), src.byte(12),
            src.byte(13), src.byte(14),
        );
        let blen: u64 = blen_us as u64;
        if count != (blen - 15) / 10 || (blen - 15) % 10 != 0 {
            return Err(HError::CorruptIndex);
        }
        let n: usize = count as usize;
        proof {
            vstd::arithmetic::div_mod::lemma_fundamental_div_mod((blen - 15) as int, 10);
            assert(src.view_bytes().len() == 15 + 10 * (spec_count_of(src.view_bytes()) as int));
        }
        let mut prev: u64 = 0;
        let mut i: usize = 0;
        while i < n
            invariant
                i <= n,
                n == spec_count_of(src.view_bytes()),
                src.view_bytes().len() == 15 + 10 * (n as int),
                src.view_bytes().len() <= usize::MAX,
                forall|p: int, q: int|
                    0 <= p < q < i ==> spec_rec_of(src.view_bytes(), p).cell < spec_rec_of(
                        src.view_bytes(),
                        q,
                    ).cell,
                i > 0 ==> prev == spec_rec_of(src.view_bytes(), i - 1).cell,
            decreases n - i,
        {
            let rec = read_record(&src, i);
            if i > 0 && rec.cell <= prev {
                proof {
                    assert(spec_decode_records(src.view_bytes())[i - 1].cell
                        >= spec_decode_records(src.view_bytes())[i as int].cell);
                }
                return Err(HError::CorruptIndex);
            }
            proof {
                if i > 0 {
                    assert forall|p: int|
                        0 <= p < i implies spec_rec_of(src.view_bytes(), p).cell
                        < rec.cell by {
                        if p < i - 1 {
                            assert(spec_rec_of(src.view_bytes(), p).cell < spec_rec_of(
                                src.view_bytes(),
                                i - 1,
                            ).cell);
                        }
                    }
                }
            }
            prev = rec.cell;
            i = i + 1;
        }
        proof {
            assert(sorted_unique(spec_decode_records(src.view_bytes())));
        }
        Ok(DiskTree { src, resolution, count: n })
    }

    /// Looks up the elevation stored for a cell. A query finer than the
    /// index's resolution is first coarsened to its ancestor at that
    /// resolution. An absent cell is a normal not-found result, not an
    /// error; only an identifier the grid rejects is.
    pub fn lookup(&self, cell: u64) -> (r: Result<Option<i16>, HError>)
        requires
            self.wf(),
        ensures
            !cell_is_valid(cell) ==> r == Err::<Option<i16>, _>(HError::InvalidCell(cell)),
            cell_is_valid(cell) ==> ({
                let q = spec_normalized(cell, self.resolution);
                if map_of(self.records()).contains_key(q) {
                    r == Ok::<_, HError>(Some(map_of(self.records())[q]))
                } else {
                    r == Ok::<_, HError>(None::<i16>)
                }
            }),
    {
        if !cell_valid(cell) {
            return Err(HError::InvalidCell(cell));
        }
        let q = normalize_cell(cell, self.resolution);
        proof {
            lemma_map_of_props(self.records());
        }
        let mut lo: usize = 0;
        let mut hi: usize = self.count;
        while lo < hi
            invariant
                self.wf(),
                cell_is_valid(cell),
                q == spec_normalized(cell, self.resolution),
                lo <= hi <= self.count,
                self.count == self.records().len(),
                forall|i: int| 0 <= i < lo ==> self.records()[i].cell < q,
                forall|i: int| hi <= i < self.count ==> self.records()[i].cell > q,
            decreases hi - lo,
        {
            let mid: usize = lo + (hi - lo) / 2;
            let rec = read_record(&self.src, mid);
            assert(rec == self.records()[mid as int]);
            if rec.cell < q {
                assert forall|i: int| 0 <= i < mid + 1 implies self.records()[i].cell < q by {
                    if i < mid {
                        assert(self.records()[i].cell < self.records()[mid as int].cell);
                    }
                }
                lo = mid + 1;
            } else if rec.cell > q {
                assert forall|i: int| mid <= i < self.count implies self.records()[i].cell
                    > q by {
                    if i > mid {
                        assert(self.records()[mid as int].cell < self.records()[i].cell);
                    }
                }
                hi = mid;
            } else {
                proof {
                    lemma_map_of_props(self.records());
                    assert(map_of(self.records()).contains_key(q));
                    assert(map_of(self.records())[q] == rec.elevation);
                }
                return Ok(Some(rec.elevation));
            }
        }
        proof {
            lemma_map_of_props(self.records());
            if map_of(self.records()).contains_key(q) {
                let i = choose|i: int|
                    0 <= i < self.records().len() && self.records()[i].cell == q;
                assert(false);
            }
        }
        Ok(None)
    }
}

/// Reads record `i` of a file image.
fn read_record(src: &ByteSource, i: usize) -> (r: Record)
    requires
        15 + 10 * (i as int) + 10 <= src.view_bytes().len(),
        src.view_bytes().len() <= usize::MAX,
    ensures
        r == spec_rec_of(src.view_bytes(), i as int),
{
    let off: usize = 15 + 10 * i;
    let cell = decode_be_u64(
        src.byte(off), src.byte(off + 1), src.byte(off + 2), src.byte(off + 3),
        src.byte(off + 4), src.byte(off + 5), src.byte(off + 6), src.byte(off + 7),
    );
    let elevation = decode_be_i16(src.byte(off + 8), src.byte(off + 9));
    Record { cell, elevation }
}

/// Disk-index round-trip: the file image written for a sorted record
/// sequence at a supported resolution opens as a sound index holding
/// exactly those records.
pub proof fn lemma_disk_index_roundtrip(res: u8, s: Seq<Record>)
    requires
        sorted_unique(s),
        res <= MAX_RES,
        s.len() <= 0xffff_ffff_ffff_ffff,
    ensures
        spec_disk_ok(spec_file_bytes(disk_magic(), res, s)),
        spec_decode_records(spec_file_bytes(disk_magic(), res, s)) == s,
        spec_file_bytes(disk_magic(), res, s)[5] == res,
{
    lemma_file_roundtrip(disk_magic(), res, s);
}

/// Lookup completeness: every record a validated index holds is
/// reflected exactly in the map its lookups answer from, and a cell at or
/// coarser than the index's resolution is queried as itself.
pub proof fn lemma_lookup_finds_stored(t: DiskTree, i: int)
    requires
        t.wf(),
        0 <= i < t.records().len(),
    ensures
        map_of(t.records()).contains_key(t.records()[i].cell),
        map_of(t.records())[t.records()[i].cell] == t.records()[i].elevation,
        cell_res(t.records()[i].cell) <= t.resolution ==> spec_normalized(
            t.records()[i].cell,
            t.resolution,
        ) == t.records()[i].cell,
{
    lemma_map_of_props(t.records());
}

/// Whether `c` is an ASCII hexadecimal digit.
pub open spec fn spec_is_hex_digit(c: char) -> bool {
    (48 <= c as u32 <= 57) || (97 <= c as u32 <= 102) || (65 <= c as u32 <= 70)
}

/// The value of an ASCII hexadecimal digit.
pub open spec fn spec_hex_digit_val(c: char) -> int {
    if 48 <= c as u32 <= 57 {
        c as u32 - 48
    } else if 97 <= c as u32 <= 102 {
        c as u32 - 87
    } else {
        c as u32 - 55
    }
}

/// The value of a big-endian hexadecimal digit string.
pub open spec fn spec_hex_of(s: Seq<char>) -> int
    decreases s.len(),
{
    if s.len() == 0 {
        0
    } else {
        spec_hex_of(s.drop_last()) * 16 + spec_hex_digit_val(s.last())
    }
}

/// Parses the textual (hexadecimal) form of a cell identifier: 1 to 16
/// hex digits. Anything else is rejected.
pub fn parse_cell_text(s: &str) -> (r: Option<u64>)
    ensures
        r is Some <==> (1 <= s@.len() <= 16 && (forall|i: int|
            0 <= i < s@.len() ==> spec_is_hex_digit(#[trigger] s@[i]))),
        r matches Some(v) ==> v == spec_hex_of(s@),
{
    let n = s.unicode_len();
    if n < 1 || n > 16 {
        return None;
    }
    let mut acc: u64 = 0;
    let mut i: usize = 0;
    proof {
        lemma2_to64();
    }
    while i < n
        invariant
            n == s@.len(),
            1 <= n <= 16,
            i <= n,
            acc == spec_hex_of(s@.take(i as int)),
            acc < pow2((4 * i) as nat),
            forall|j: int| 0 <= j < i ==> spec_is_hex_digit(#[trigger] s@[j]),
        decreases n - i,
    {
        let c = s.get_char(i);
        let v = c as u32;
        let d: u64 = if 48 <= v && v <= 57 {
            (v - 48) as u64
        } else if 97 <= v && v <= 102 {
            (v - 87) as u64
        } else if 65 <= v && v <= 70 {
            (v - 55) as u64
        } else {
            return None;
        };
        proof {
            lemma2_to64();
            lemma_pow2_adds((4 * i) as nat, 4);
            assert(acc * 16 + d < pow2((4 * (i + 1)) as nat)) by (nonlinear_arith)
                requires
                    acc < pow2((4 * i) as nat),
                    d < 16,
                    pow2((4 * (i + 1)) as nat) == pow2((4 * i) as nat) * pow2(4),
                    pow2(4) == 16,
            ;
            assert(pow2(64) == 0x10000000000000000);
            assert(pow2((4 * (i + 1)) as nat) <= pow2(64)) by {
                vstd::arithmetic::power2::lemma_pow2_pos((4 * (i + 1)) as nat);
                if 4 * (i + 1) < 64 {
                    vstd::arithmetic::power2::lemma_pow2_strictly_increases(
                        (4 * (i + 1)) as nat,
                        64,
                    );
                }
            }
            let t1 = s@.take(i as int);
            let t2 = s@.take(i + 1);
            assert(t2.drop_last() =~= t1);
            assert(t2.last() == s@[i as int]);
        }
        acc = acc * 16 + d;
        i = i + 1;
    }
    proof {
        assert(s@.take(n as int) =~= s@);
    }
    Some(acc)
}

/// The lookup command's arguments: the index file's path and the queried
/// cell in its textual form.
pub struct Lookup {
    /// Path of the disk-index file.
    pub disktree: String,
    /// The queried cell identifier, as hexadecimal text.
    pub cell: String,
}

} // verus!
