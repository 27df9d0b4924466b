//! Tessellations: a raster tile reduced to sorted, duplicate-free
//! (cell, elevation) records at one hex-grid resolution.
//!
//! When several raster samples map to the same cell, the retained
//! elevation is the last one in scan order — a deterministic,
//! documented policy.

use vstd::prelude::*;

use crate::cells::{cell_res, cell_resolution, cell_is_valid, cell_valid, MAX_RES};
use crate::codec::decode_be_u64;
use crate::codec::decode_be_i16;
use crate::error::HError;
use crate::records::{map_of, sorted_unique, upsert, Record};
use crate::serial::{
    lemma_file_roundtrip, serialize_file, spec_count_of, spec_decode_records, spec_file_bytes,
    spec_layout_ok, spec_rec_of, tess_magic, COMPRESSION_NONE, FORMAT_VERSION,
};

verus! {

/// A resolution-homogeneous, sorted, duplicate-free record set derived
/// from one raster tile.
#[derive(Debug, PartialEq, Eq)]
pub struct Tessellation {
    /// Hex-grid resolution of every record.
    pub resolution: u8,
    /// The records, sorted ascending by cell, no duplicates.
    pub records: Vec<Record>,
}

impl Tessellation {
    /// Sorted, unique, and every cell valid at this tessellation's
    /// resolution.
    pub open spec fn wf(self) -> bool {
        &&& self.resolution <= MAX_RES
        &&& sorted_unique(self.records@)
        &&& forall|i: int|
            0 <= i < self.records@.len() ==> cell_is_valid(#[trigger] self.records@[i].cell)
                && cell_res(self.records@[i].cell) == self.resolution
    }
}

/// Whether a (cell, elevation) pair belongs in a tessellation at `res`.
pub open spec fn spec_pair_ok(p: (u64, i16), res: u8) -> bool {
    cell_is_valid(p.0) && cell_res(p.0) == res
}

/// The map denoted by a pair sequence, later pairs overriding earlier
/// ones: last write in scan order wins.
pub open spec fn pairs_map(pairs: Seq<(u64, i16)>) -> Map<u64, i16>
    decreases pairs.len(),
{
    if pairs.len() == 0 {
        Map::empty()
    } else {
        pairs_map(pairs.drop_last()).insert(pairs.last().0, pairs.last().1)
    }
}

/// Builds a tessellation from (cell, elevation) pairs in scan order.
///
/// Every pair's cell must be a valid grid cell at exactly `resolution`;
/// records come out sorted and deduplicated, the last pair for a cell
/// winning. The denoted map is exactly the pairs' map.
pub fn from_pairs(resolution: u8, pairs: &Vec<(u64, i16)>) -> (r: Result<Tessellation, HError>)
    ensures
        r is Ok <==> (resolution <= MAX_RES && (forall|i: int|
            0 <= i < pairs@.len() ==> spec_pair_ok(#[trigger] pairs@[i], resolution))),
        r matches Ok(t) ==> t.wf() && t.resolution == resolution && map_of(t.records@)
            == pairs_map(pairs@),
        resolution > MAX_RES ==> r == Err::<Tessellation, _>(
            HError::InvalidResolution(resolution),
        ),
        resolution <= MAX_RES && r is Err ==> (r matches Err(e) && e matches HError::InvalidCell(
            c,
        ) && exists|i: int|
            0 <= i < pairs@.len() && !spec_pair_ok(#[trigger] pairs@[i], resolution)
                && pairs@[i].0 == c),
{
    if resolution > MAX_RES {
        return Err(HError::InvalidResolution(resolution));
    }
    let mut acc: Vec<Record> = Vec::new();
    let mut i: usize = 0;
    while i < pairs.len()
        invariant
            i <= pairs@.len(),
            resolution <= MAX_RES,
            sorted_unique(acc@),
            map_of(acc@) == pairs_map(pairs@.take(i as int)),
            forall|j: int| 0 <= j < i ==> spec_pair_ok(#[trigger] pairs@[j], resolution),
            forall|k: int|
                0 <= k < acc@.len() ==> cell_is_valid(#[trigger] acc@[k].cell) && cell_res(
                    acc@[k].cell,
                ) == resolution,
        decreases pairs@.len() - i,
    {
        let (cell, elevation) = pairs[i];
        if !cell_valid(cell) {
            return Err(HError::InvalidCell(cell));
        }
        if cell_resolution(cell) != resolution {
            return Err(HError::InvalidCell(cell));
        }
        let ghost acc_before = acc@;
        upsert(&mut acc, cell, elevation);
        proof {
            let t1 = pairs@.take(i as int);
            let t2 = pairs@.take(i + 1);
            assert(t2.drop_last() =~= t1);
            assert(t2.last() == pairs@[i as int]);
            assert forall|k: int|
                0 <= k < acc@.len() implies cell_is_valid(#[trigger] acc@[k].cell) && cell_res(
                acc@[k].cell,
            ) == resolution by {
                if acc@[k] != (Record { cell, elevation }) {
                    assert(acc_before.contains(acc@[k]));
                    let j = choose|j: int| 0 <= j < acc_before.len() && acc_before[j] == acc@[k];
                    assert(cell_is_valid(acc_before[j].cell));
                }
            }
        }
        i = i + 1;
    }
    proof {
        assert(pairs@.take(pairs@.len() as int) =~= pairs@);
    }
    Ok(Tessellation { resolution, records: acc })
}

/// A tessellation file image is sound: valid layout under the
/// tessellation magic, a supported resolution, records sorted and
/// duplicate-free, every cell valid at the declared resolution.
pub open spec fn spec_tess_ok(b: Seq<u8>) -> bool {
    &&& spec_layout_ok(b, tess_magic())
    &&& b[5] <= MAX_RES
    &&& sorted_unique(spec_decode_records(b))
    &&& forall|i: int|
        0 <= i < spec_decode_records(b).len() ==> cell_is_valid(
            #[trigger] spec_decode_records(b)[i].cell,
        ) && cell_res(spec_decode_records(b)[i].cell) == b[5]
}

/// Writes a tessellation as its file image.
pub fn tessellation_to_bytes(t: &Tessellation) -> (r: Vec<u8>)
    ensures
        r@ == spec_file_bytes(tess_magic(), t.resolution, t.records@),
{
    let out = serialize_file(72, 84, 69, 83, t.resolution, &t.records);
    proof {
        assert(seq![72u8, 84u8, 69u8, 83u8] =~= tess_magic());
    }
    out
}

/// Reads a tessellation back from a file image, validating layout,
/// order, and every cell; any violation is a corruption error.
pub fn tessellation_from_bytes(bytes: &Vec<u8>) -> (r: Result<Tessellation, HError>)
    ensures
        r is Ok <==> spec_tess_ok(bytes@),
        r matches Ok(t) ==> t.wf() && t.resolution == bytes@[5] && t.records@
            == spec_decode_records(bytes@),
        r is Err ==> r == Err::<Tessellation, _>(HError::CorruptIndex),
{
    if bytes.len() < 15 {
        return Err(HError::CorruptIndex);
    }
    if bytes[0] != 72 || bytes[1] != 84 || bytes[2] != 69 || bytes[3] != 83 {
        proof {
            assert(bytes@.subrange(0, 4) != tess_magic());
        }
        return Err(HError::CorruptIndex);
    }
    proof {
        assert(bytes@.subrange(0, 4) =~= tess_magic());
    }
    if bytes[4] != FORMAT_VERSION || bytes[6] != COMPRESSION_NONE {
        return Err(HError::CorruptIndex);
    }
    let resolution = bytes[5];
    if resolution > MAX_RES {
        return Err(HError::CorruptIndex);
    }
    let count = decode_be_u64(
        bytes[7], bytes[8], bytes[9], bytes[10], bytes[11], bytes[12], bytes[13], bytes[14],
    );
    let blen: u64 = bytes.len() as u64;
    if count != (blen - 15) / 10 || (blen - 15) % 10 != 0 {
        return Err(HError::CorruptIndex);
    }
    let n: usize = count as usize;
    proof {
        vstd::arithmetic::div_mod::lemma_fundamental_div_mod((blen - 15) as int, 10);
        assert(bytes@.len() == 15 + 10 * (spec_count_of(bytes@) as int));
    }
    let mut acc: Vec<Record> = Vec::new();
    let mut i: usize = 0;
    while i < n
        invariant
            i <= n,
            resolution == bytes@[5],
            resolution <= MAX_RES,
            n == spec_count_of(bytes@),
            bytes@.len() == 15 + 10 * (n as int),
            bytes@.len() <= usize::MAX,
            acc@.len() == i,
            forall|j: int| 0 <= j < i ==> acc@[j] == spec_rec_of(bytes@, j),
            forall|p: int, q: int| 0 <= p < q < i ==> acc@[p].cell < acc@[q].cell,
            forall|j: int|
                0 <= j < i ==> cell_is_valid(#[trigger] acc@[j].cell) && cell_res(acc@[j].cell)
                    == resolution,
        decreases n - i,
    {
        let off: usize = 15 + 10 * i;
        let cell = decode_be_u64(
            bytes[off], bytes[off + 1], bytes[off + 2], bytes[off + 3], bytes[off + 4],
            bytes[off + 5], bytes[off + 6], bytes[off + 7],
        );
        let elevation = decode_be_i16(bytes[off + 8], bytes[off + 9]);
        let rec = Record { cell, elevation };
        assert(rec == spec_rec_of(bytes@, i as int));
        if i > 0 {
            let prev = acc[i - 1].cell;
            if cell <= prev {
                proof {
                    assert(spec_decode_records(bytes@)[i - 1].cell >= spec_decode_records(
                        bytes@,
                    )[i as int].cell);
                }
                return Err(HError::CorruptIndex);
            }
            assert forall|p: int| 0 <= p < i implies acc@[p].cell < cell by {
                if p < i - 1 {
                    assert(acc@[p].cell < acc@[i - 1].cell);
                }
            }
        }
        if !cell_valid(cell) {
            proof {
                assert(!cell_is_valid(spec_decode_records(bytes@)[i as int].cell));
            }
            return Err(HError::CorruptIndex);
        }
        if cell_resolution(cell) != resolution {
            proof {
                assert(cell_res(spec_decode_records(bytes@)[i as int].cell) != bytes@[5]);
            }
            return Err(HError::CorruptIndex);
        }
        acc.push(rec);
        i = i + 1;
    }
    proof {
        assert(acc@ =~= spec_decode_records(bytes@));
    }
    Ok(Tessellation { resolution, records: acc })
}

/// Tessellation round-trip: the file image written for a well-formed
/// tessellation reads back as exactly that tessellation, so re-running a
/// build over the same records writes byte-identical output.
pub proof fn lemma_tessellation_roundtrip(t: Tessellation)
    requires
        t.wf(),
        t.records@.len() <= 0xffff_ffff_ffff_ffff,
    ensures
        spec_tess_ok(spec_file_bytes(tess_magic(), t.resolution, t.records@)),
        spec_decode_records(spec_file_bytes(tess_magic(), t.resolution, t.records@))
            == t.records@,
        spec_file_bytes(tess_magic(), t.resolution, t.records@)[5] == t.resolution,
{
    lemma_file_roundtrip(tess_magic(), t.resolution, t.records@);
}

/// The build-avoidance decision: write only when no output exists or an
/// overwrite was requested; an existing output without the overwrite flag
/// is skipped, not rebuilt.
pub fn should_write(output_exists: bool, overwrite: bool) -> (r: bool)
    ensures
        r == (overwrite || !output_exists),
{
    overwrite || !output_exists
}

} // verus!
