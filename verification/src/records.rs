//! Sorted, duplicate-free (cell, elevation) record sequences.
//!
//! A tessellation and a disk index both hold records sorted ascending by
//! cell identifier with no duplicate cells. The mathematical model of such
//! a sequence is the finite map from cell to elevation it denotes; every
//! mutation here is specified against that map. Where several inputs give
//! an elevation for one cell, the policy throughout the pipeline is
//! deterministic last-write-wins in the declared processing order.

use vstd::prelude::*;

verus! {

/// One (hex cell, elevation) record.
#[derive(Debug, Clone, Copy, PartialEq, Eq, Structural)]
pub struct Record {
    /// Cell identifier of the hexagonal grid.
    pub cell: u64,
    /// Elevation in meters.
    pub elevation: i16,
}

/// Strictly ascending cell identifiers: sorted, with no duplicates.
pub open spec fn sorted_unique(s: Seq<Record>) -> bool {
    forall|i: int, j: int| 0 <= i < j < s.len() ==> s[i].cell < s[j].cell
}

/// The finite map a record sequence denotes; a later record for the same
/// cell overrides an earlier one.
pub open spec fn map_of(s: Seq<Record>) -> Map<u64, i16>
    decreases s.len(),
{
    if s.len() == 0 {
        Map::empty()
    } else {
        map_of(s.drop_last()).insert(s.last().cell, s.last().elevation)
    }
}

/// In a sorted, duplicate-free sequence every record is reflected exactly
/// in the denoted map, and the map holds no other cells.
pub proof fn lemma_map_of_props(s: Seq<Record>)
    requires
        sorted_unique(s),
    ensures
        forall|i: int|
            0 <= i < s.len() ==> map_of(s).contains_key(s[i].cell) && map_of(s)[s[i].cell]
                == s[i].elevation,
        forall|c: u64|
            map_of(s).contains_key(c) ==> exists|i: int| 0 <= i < s.len() && s[i].cell == c,
    decreases s.len(),
{
    if s.len() > 0 {
        let dl = s.drop_last();
        assert(sorted_unique(dl));
        lemma_map_of_props(dl);
        assert forall|i: int|
            0 <= i < s.len() implies map_of(s).contains_key(s[i].cell) && map_of(s)[s[i].cell]
            == s[i].elevation by {
            if i < s.len() - 1 {
                assert(dl[i] == s[i]);
                assert(s[i].cell != s.last().cell);
            }
        }
        assert forall|c: u64| map_of(s).contains_key(c) implies exists|i: int|
            0 <= i < s.len() && s[i].cell == c by {
            if c != s.last().cell {
                assert(map_of(dl).contains_key(c));
                let i = choose|i: int| 0 <= i < dl.len() && dl[i].cell == c;
                assert(dl[i] == s[i]);
                assert(s[i].cell == c);
            } else {
                assert(s[s.len() - 1].cell == c);
            }
        }
    }
}

/// Dropping the last record of a sorted, duplicate-free sequence removes
/// exactly its cell from the denoted map.
pub proof fn lemma_map_of_drop_last(s: Seq<Record>)
    requires
        sorted_unique(s),
        s.len() > 0,
    ensures
        map_of(s.drop_last()) == map_of(s).remove(s.last().cell),
{
    let dl = s.drop_last();
    assert(sorted_unique(dl));
    lemma_map_of_props(dl);
    assert(!map_of(dl).contains_key(s.last().cell)) by {
        if map_of(dl).contains_key(s.last().cell) {
            let i = choose|i: int| 0 <= i < dl.len() && dl[i].cell == s.last().cell;
            assert(s[i].cell < s[s.len() - 1].cell);
        }
    }
    assert(map_of(s.drop_last()) =~= map_of(s).remove(s.last().cell));
}

/// Canonical form: a finite map has exactly one sorted, duplicate-free
/// record sequence denoting it, so any two such sequences with equal maps
/// are equal. This is what makes every pipeline stage reproducible: its
/// output is pinned by the map it must denote.
pub proof fn lemma_sorted_unique_canonical(s1: Seq<Record>, s2: Seq<Record>)
    requires
        sorted_unique(s1),
        sorted_unique(s2),
        map_of(s1) == map_of(s2),
    ensures
        s1 == s2,
    decreases s1.len(),
{
    lemma_map_of_props(s1);
    lemma_map_of_props(s2);
    if s1.len() == 0 {
        if s2.len() > 0 {
            assert(map_of(s2).contains_key(s2.last().cell));
        }
        assert(s1 =~= s2);
    } else {
        assert(map_of(s1).contains_key(s1.last().cell));
        assert(s2.len() > 0);
        let a = s1.last().cell;
        let b = s2.last().cell;
        assert(a == b) by {
            let i = choose|i: int| 0 <= i < s2.len() && s2[i].cell == a;
            assert(s2[i].cell <= s2[s2.len() - 1].cell);
            let j = choose|j: int| 0 <= j < s1.len() && s1[j].cell == b;
            assert(s1[j].cell <= s1[s1.len() - 1].cell);
        }
        assert(s1.last().elevation == map_of(s1)[a]);
        assert(s2.last().elevation == map_of(s2)[a]);
        lemma_map_of_drop_last(s1);
        lemma_map_of_drop_last(s2);
        lemma_sorted_unique_canonical(s1.drop_last(), s2.drop_last());
        assert(s1 =~= s1.drop_last() + seq![s1.last()]);
        assert(s2 =~= s2.drop_last() + seq![s2.last()]);
        assert(s1 =~= s2);
    }
}

/// Updating the record at index `k` to one with the same cell denotes the
/// map with that cell's value replaced.
proof fn lemma_map_of_update(s: Seq<Record>, k: int, r: Record)
    requires
        sorted_unique(s),
        0 <= k < s.len(),
        r.cell == s[k].cell,
    ensures
        sorted_unique(s.update(k, r)),
        map_of(s.update(k, r)) == map_of(s).insert(r.cell, r.elevation),
    decreases s.len(),
{
    let u = s.update(k, r);
    assert(sorted_unique(u));
    if k == s.len() - 1 {
        assert(u.drop_last() =~= s.drop_last());
        assert(u.last() == r);
        assert(map_of(u) =~= map_of(s).insert(r.cell, r.elevation));
    } else {
        assert(u.drop_last() =~= s.drop_last().update(k, r));
        assert(u.last() == s.last());
        lemma_map_of_update(s.drop_last(), k, r);
        assert(r.cell != s.last().cell);
        assert(map_of(u) =~= map_of(s).insert(r.cell, r.elevation));
    }
}

/// Inserting a record at the position that keeps cells ascending denotes
/// the map extended by its cell.
proof fn lemma_map_of_insert_at(s: Seq<Record>, k: int, r: Record)
    requires
        sorted_unique(s),
        0 <= k <= s.len(),
        forall|i: int| 0 <= i < k ==> s[i].cell < r.cell,
        forall|i: int| k <= i < s.len() ==> s[i].cell > r.cell,
    ensures
        sorted_unique(s.insert(k, r)),
        map_of(s.insert(k, r)) == map_of(s).insert(r.cell, r.elevation),
    decreases s.len(),
{
    let u = s.insert(k, r);
    assert forall|i: int, j: int| 0 <= i < j < u.len() implies u[i].cell < u[j].cell by {}
    if k == s.len() {
        assert(u.drop_last() =~= s);
        assert(u.last() == r);
    } else {
        assert(u.drop_last() =~= s.drop_last().insert(k, r));
        assert(u.last() == s.last());
        lemma_map_of_insert_at(s.drop_last(), k, r);
        assert(r.cell != s.last().cell);
        assert(map_of(u) =~= map_of(s).insert(r.cell, r.elevation));
    }
}

/// Index of the first record whose cell is not below `cell`.
pub fn find_pos(v: &Vec<Record>, cell: u64) -> (p: usize)
    requires
        sorted_unique(v@),
    ensures
        p <= v@.len(),
        forall|i: int| 0 <= i < p ==> v@[i].cell < cell,
        forall|i: int| p <= i < v@.len() ==> v@[i].cell >= cell,
{
    let mut lo: usize = 0;
    let mut hi: usize = v.len();
    while lo < hi
        invariant
            lo <= hi <= v@.len(),
            sorted_unique(v@),
            forall|i: int| 0 <= i < lo ==> v@[i].cell < cell,
            forall|i: int| hi <= i < v@.len() ==> v@[i].cell >= cell,
        decreases hi - lo,
    {
        let mid: usize = lo + (hi - lo) / 2;
        if v[mid].cell < cell {
            assert forall|i: int| 0 <= i < mid + 1 implies v@[i].cell < cell by {
                if i < mid {
                    assert(v@[i].cell < v@[mid as int].cell);
                }
            }
            lo = mid + 1;
        } else {
            assert forall|i: int| mid <= i < v@.len() implies v@[i].cell >= cell by {
                if i > mid {
                    assert(v@[mid as int].cell < v@[i].cell);
                }
            }
            hi = mid;
        }
    }
    lo
}

/// Sets the elevation for `cell`, inserting a new record or overwriting
/// the existing one: last write wins.
pub fn upsert(v: &mut Vec<Record>, cell: u64, elevation: i16)
    requires
        sorted_unique(old(v)@),
    ensures
        sorted_unique(final(v)@),
        map_of(final(v)@) == map_of(old(v)@).insert(cell, elevation),
        final(v)@.len() <= old(v)@.len() + 1,
        forall|k: int|
            0 <= k < final(v)@.len() ==> #[trigger] final(v)@[k] == (Record { cell, elevation })
                || old(v)@.contains(final(v)@[k]),
{
    let p = find_pos(v, cell);
    let r = Record { cell, elevation };
    if p < v.len() && v[p].cell == cell {
        proof {
            lemma_map_of_update(v@, p as int, r);
        }
        v.set(p, r);
        proof {
            assert forall|k: int|
                0 <= k < v@.len() implies #[trigger] v@[k] == r || old(v)@.contains(v@[k]) by {
                if k != p {
                    assert(v@[k] == old(v)@[k]);
                }
            }
        }
    } else {
        proof {
            lemma_map_of_insert_at(v@, p as int, r);
        }
        v.insert(p, r);
        proof {
            assert forall|k: int|
                0 <= k < v@.len() implies #[trigger] v@[k] == r || old(v)@.contains(v@[k]) by {
                if k < p {
                    assert(v@[k] == old(v)@[k]);
                } else if k > p {
                    assert(v@[k] == old(v)@[k - 1]);
                }
            }
        }
    }
}

} // verus!
