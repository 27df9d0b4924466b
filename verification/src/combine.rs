//! Combining tessellation files into one disk index at a target
//! resolution.
//!
//! Inputs finer than the target are coarsened record by record to their
//! ancestor cells; an input coarser than the target is a hard error, as
//! finer detail cannot be synthesized. Collisions — between records of
//! one input collapsing onto one ancestor, or across inputs at tile
//! boundaries — resolve deterministically: the last record in the
//! declared input order wins.

use vstd::prelude::*;

use crate::cells::{cell_is_valid, cell_res, normalize_cell, spec_normalized, MAX_RES};
use crate::error::HError;
use crate::records::{
    lemma_sorted_unique_canonical, map_of, sorted_unique, upsert, Record,
};
use crate::serial::{
    disk_magic, serialize_file, spec_decode_records, spec_file_bytes,
};
use crate::disktree::{lemma_disk_index_roundtrip, spec_disk_ok};
use crate::tess::{spec_tess_ok, tessellation_from_bytes, Tessellation};

verus! {

/// The map denoted by one input's records after coarsening each cell to
/// the target resolution; a later record overrides an earlier one.
pub open spec fn norm_map(s: Seq<Record>, target: u8) -> Map<u64, i16>
    decreases s.len(),
{
    if s.len() == 0 {
        Map::empty()
    } else {
        norm_map(s.drop_last(), target).insert(
            spec_normalized(s.last().cell, target),
            s.last().elevation,
        )
    }
}

/// The merged map of a tessellation sequence: inputs in declared order,
/// later inputs overriding earlier ones on collision.
pub open spec fn spec_merged(ts: Seq<Tessellation>, target: u8) -> Map<u64, i16>
    decreases ts.len(),
{
    if ts.len() == 0 {
        Map::empty()
    } else {
        spec_merged(ts.drop_last(), target).union_prefer_right(
            norm_map(ts.last().records@, target),
        )
    }
}

/// The merged map of a sequence of tessellation file images.
pub open spec fn spec_merged_files(bs: Seq<Seq<u8>>, target: u8) -> Map<u64, i16>
    decreases bs.len(),
{
    if bs.len() == 0 {
        Map::empty()
    } else {
        spec_merged_files(bs.drop_last(), target).union_prefer_right(
            norm_map(spec_decode_records(bs.last()), target),
        )
    }
}

/// Inserting on the right of a right-preferring union is inserting into
/// the union.
proof fn lemma_union_insert(m: Map<u64, i16>, n: Map<u64, i16>, k: u64, v: i16)
    ensures
        m.union_prefer_right(n.insert(k, v)) == m.union_prefer_right(n).insert(k, v),
{
    assert(m.union_prefer_right(n.insert(k, v)) =~= m.union_prefer_right(n).insert(k, v));
}

/// Merging tessellation sequences whose records decode the same file
/// images merges the same map.
proof fn lemma_merged_congruence(ts: Seq<Tessellation>, bs: Seq<Seq<u8>>, target: u8)
    requires
        ts.len() == bs.len(),
        forall|i: int|
            0 <= i < ts.len() ==> (#[trigger] ts[i]).records@ == spec_decode_records(bs[i]),
    ensures
        spec_merged(ts, target) == spec_merged_files(bs, target),
    decreases ts.len(),
{
    if ts.len() > 0 {
        assert(ts.drop_last().len() == bs.drop_last().len());
        assert forall|i: int|
            0 <= i < ts.drop_last().len() implies (#[trigger] ts.drop_last()[i]).records@
            == spec_decode_records(bs.drop_last()[i]) by {
            assert(ts.drop_last()[i] == ts[i]);
            assert(bs.drop_last()[i] == bs[i]);
        }
        lemma_merged_congruence(ts.drop_last(), bs.drop_last(), target);
        assert(ts.last().records@ == spec_decode_records(bs.last()));
    }
}

/// Merges parsed tessellations, in order, into one sorted, duplicate-free
/// record sequence at exactly the target resolution.
///
/// An input whose resolution is coarser than the target fails the whole
/// build with a resolution error; nothing is merged partially.
pub fn merge_tessellations(inputs: &Vec<Tessellation>, target_res: u8) -> (r: Result<
    Vec<Record>,
    HError,
>)
    requires
        forall|i: int| 0 <= i < inputs@.len() ==> (#[trigger] inputs@[i]).wf(),
    ensures
        r is Ok <==> (target_res <= MAX_RES && forall|i: int|
            0 <= i < inputs@.len() ==> (#[trigger] inputs@[i]).resolution >= target_res),
        target_res > MAX_RES ==> r == Err::<Vec<Record>, _>(
            HError::InvalidResolution(target_res),
        ),
        r matches Ok(out) ==> sorted_unique(out@) && map_of(out@) == spec_merged(
            inputs@,
            target_res,
        ) && (forall|k: int|
            0 <= k < out@.len() ==> cell_is_valid(#[trigger] out@[k].cell) && cell_res(
                out@[k].cell,
            ) == target_res),
        target_res <= MAX_RES && r is Err ==> (r matches Err(e) && e matches
            HError::ResolutionTooCoarse { have, want } && want == target_res && exists|i: int|
            0 <= i < inputs@.len() && (#[trigger] inputs@[i]).resolution == have && have
                < target_res),
{
    if target_res > MAX_RES {
        return Err(HError::InvalidResolution(target_res));
    }
    let mut acc: Vec<Record> = Vec::new();
    let mut i: usize = 0;
    while i < inputs.len()
        invariant
            i <= inputs@.len(),
            target_res <= MAX_RES,
            forall|k: int| 0 <= k < inputs@.len() ==> (#[trigger] inputs@[k]).wf(),
            forall|k: int| 0 <= k < i ==> (#[trigger] inputs@[k]).resolution >= target_res,
            sorted_unique(acc@),
            map_of(acc@) == spec_merged(inputs@.take(i as int), target_res),
            forall|k: int|
                0 <= k < acc@.len() ==> cell_is_valid(#[trigger] acc@[k].cell) && cell_res(
                    acc@[k].cell,
                ) == target_res,
        decreases inputs@.len() - i,
    {
        let t = &inputs[i];
        if t.resolution < target_res {
            return Err(HError::ResolutionTooCoarse { have: t.resolution, want: target_res });
        }
        let mut j: usize = 0;
        while j < t.records.len()
            invariant
                i < inputs@.len(),
                j <= t.records@.len(),
                t == inputs@[i as int],
                target_res <= MAX_RES,
                t.wf(),
                t.resolution >= target_res,
                sorted_unique(acc@),
                map_of(acc@) == spec_merged(inputs@.take(i as int), target_res)
                    .union_prefer_right(norm_map(t.records@.take(j as int), target_res)),
                forall|k: int|
                    0 <= k < acc@.len() ==> cell_is_valid(#[trigger] acc@[k].cell) && cell_res(
                        acc@[k].cell,
                    ) == target_res,
            decreases t.records@.len() - j,
        {
            let rec = t.records[j];
            let q = normalize_cell(rec.cell, target_res);
            let ghost acc_before = acc@;
            upsert(&mut acc, q, rec.elevation);
            proof {
                let t1 = t.records@.take(j as int);
                let t2 = t.records@.take(j + 1);
                assert(t2.drop_last() =~= t1);
                assert(t2.last() == t.records@[j as int]);
                lemma_union_insert(
                    spec_merged(inputs@.take(i as int), target_res),
                    norm_map(t1, target_res),
                    q,
                    rec.elevation,
                );
                assert forall|k: int|
                    0 <= k < acc@.len() implies cell_is_valid(#[trigger] acc@[k].cell)
                    && cell_res(acc@[k].cell) == target_res by {
                    if acc@[k] != (Record { cell: q, elevation: rec.elevation }) {
                        assert(acc_before.contains(acc@[k]));
                        let w = choose|w: int|
                            0 <= w < acc_before.len() && acc_before[w] == acc@[k];
                        assert(cell_is_valid(acc_before[w].cell));
                    }
                }
            }
            j = j + 1;
        }
        proof {
            let p1 = inputs@.take(i as int);
            let p2 = inputs@.take(i + 1);
            assert(p2.drop_last() =~= p1);
            assert(p2.last() == inputs@[i as int]);
            assert(t.records@.take(t.records@.len() as int) =~= t.records@);
        }
        i = i + 1;
    }
    proof {
        assert(inputs@.take(inputs@.len() as int) =~= inputs@);
    }
    Ok(acc)
}

/// Merge determinism: any two sorted, duplicate-free outputs denoting the
/// merged map of the same inputs in the same order are the same sequence,
/// so a rebuild over unchanged inputs is byte-identical.
pub proof fn lemma_combine_deterministic(
    out1: Seq<Record>,
    out2: Seq<Record>,
    bs: Seq<Seq<u8>>,
    target: u8,
)
    requires
        sorted_unique(out1),
        sorted_unique(out2),
        map_of(out1) == spec_merged_files(bs, target),
        map_of(out2) == spec_merged_files(bs, target),
    ensures
        out1 == out2,
{
    lemma_sorted_unique_canonical(out1, out2);
}

/// Combines tessellation file images, in the given order, into one
/// disk-index file image at the target resolution.
///
/// Any unreadable input or resolution conflict fails the whole build.
pub fn combine_files(inputs: &Vec<Vec<u8>>, target_res: u8) -> (r: Result<Vec<u8>, HError>)
    ensures
        target_res > MAX_RES ==> r == Err::<Vec<u8>, _>(HError::InvalidResolution(target_res)),
        r is Ok <==> (target_res <= MAX_RES && forall|i: int|
            0 <= i < inputs@.len() ==> spec_tess_ok((#[trigger] inputs@[i])@)
                && inputs@[i]@[5] >= target_res),
        r matches Ok(out) ==> spec_disk_ok(out@) && out@[5] == target_res && map_of(
            spec_decode_records(out@),
        ) == spec_merged_files(inputs@.map_values(|v: Vec<u8>| v@), target_res),
        target_res <= MAX_RES && r is Err ==> (r matches Err(e) && ((e == HError::CorruptIndex
            && exists|i: int| 0 <= i < inputs@.len() && !spec_tess_ok((#[trigger] inputs@[i])@))
            || (e matches HError::ResolutionTooCoarse { have, want } && want == target_res
            && exists|i: int|
            0 <= i < inputs@.len() && spec_tess_ok((#[trigger] inputs@[i])@) && inputs@[i]@[5]
                == have && have < target_res))),
{
    if target_res > MAX_RES {
        return Err(HError::InvalidResolution(target_res));
    }
    let mut parsed: Vec<Tessellation> = Vec::new();
    let mut i: usize = 0;
    while i < inputs.len()
        invariant
            i <= inputs@.len(),
            target_res <= MAX_RES,
            parsed@.len() == i,
            forall|j: int| 0 <= j < i ==> spec_tess_ok((#[trigger] inputs@[j])@),
            forall|j: int|
                0 <= j < i ==> (#[trigger] parsed@[j]).wf() && parsed@[j].records@
                    == spec_decode_records(inputs@[j]@) && parsed@[j].resolution
                    == inputs@[j]@[5],
        decreases inputs@.len() - i,
    {
        match tessellation_from_bytes(&inputs[i]) {
            Ok(t) => {
                parsed.push(t);
            },
            Err(_) => {
                return Err(HError::CorruptIndex);
            },
        }
        i = i + 1;
    }
    let merged = match merge_tessellations(&parsed, target_res) {
        Ok(m) => m,
        Err(e) => {
            proof {
                assert(exists|k: int|
                    0 <= k < parsed@.len() && (#[trigger] parsed@[k]).resolution < target_res);
                let k = choose|k: int|
                    0 <= k < parsed@.len() && (#[trigger] parsed@[k]).resolution < target_res;
                assert(spec_tess_ok((inputs@[k])@));
                assert(inputs@[k]@[5] < target_res);
            }
            return Err(e);
        },
    };
    let merged_len = merged.len();
    let out = serialize_file(72, 68, 84, 82, target_res, &merged);
    proof {
        assert(seq![72u8, 68u8, 84u8, 82u8] =~= disk_magic());
        assert(merged@.len() == merged_len);
        lemma_disk_index_roundtrip(target_res, merged@);
        lemma_merged_congruence(parsed@, inputs@.map_values(|v: Vec<u8>| v@), target_res);
        assert forall|k: int|
            0 <= k < inputs@.len() implies spec_tess_ok((#[trigger] inputs@[k])@)
            && inputs@[k]@[5] >= target_res by {
            assert(parsed@[k].resolution >= target_res);
        }
    }
    Ok(out)
}

} // verus!
