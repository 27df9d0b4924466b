//! Trusted interface to the hexagonal-grid library's cell primitives.
//!
//! Cells are carried as their raw `u64` identifiers. Validity, a cell's
//! resolution, and its ancestor at a coarser resolution are pure functions
//! of the identifier; the grid library computes them, and their results
//! are named here so contracts can speak about them exactly.

use vstd::prelude::*;

use crate::error::HError;

verus! {

/// Finest resolution of the hexagonal grid.
pub const MAX_RES: u8 = 15;

/// Whether the grid library accepts `cell` as a cell identifier.
pub uninterp spec fn cell_is_valid(cell: u64) -> bool;

/// The resolution encoded in a valid cell identifier.
pub uninterp spec fn cell_res(cell: u64) -> u8;

/// The ancestor of a valid cell at resolution `res`, defined when `res`
/// is at or above (coarser than or equal to) the cell's own resolution.
pub uninterp spec fn parent_cell(cell: u64, res: u8) -> u64;

/// Relies on `h3o::CellIndex::try_from(u64)`: whether a raw identifier is
/// a well-formed cell index.
#[verifier::external_body]
pub fn cell_valid(cell: u64) -> (r: bool)
    ensures
        r == cell_is_valid(cell),
{
    h3o::CellIndex::try_from(cell).is_ok()
}

/// Relies on `h3o::CellIndex::resolution`: the resolution field of a cell
/// index, always within the grid's fifteen levels.
#[verifier::external_body]
pub fn cell_resolution(cell: u64) -> (r: u8)
    requires
        cell_is_valid(cell),
    ensures
        r == cell_res(cell),
        r <= MAX_RES,
{
    match h3o::CellIndex::try_from(cell) {
        Ok(c) => c.resolution().into(),
        Err(_) => 0,
    }
}

/// Relies on `h3o::CellIndex::parent`: defined exactly when the requested
/// resolution is coarser than or equal to the cell's own, and then a valid
/// cell at that resolution.
#[verifier::external_body]
pub fn cell_parent(cell: u64, res: u8) -> (r: Option<u64>)
    requires
        cell_is_valid(cell),
        res <= MAX_RES,
    ensures
        r is Some <==> res <= cell_res(cell),
        r is Some ==> r->0 == parent_cell(cell, res) && cell_is_valid(parent_cell(cell, res))
            && cell_res(parent_cell(cell, res)) == res,
{
    let c = match h3o::CellIndex::try_from(cell) {
        Ok(c) => c,
        Err(_) => return None,
    };
    let r = match h3o::Resolution::try_from(res) {
        Ok(r) => r,
        Err(_) => return None,
    };
    c.parent(r).map(|p| p.into())
}

/// The cell a query works on: a cell finer than `target_res` is replaced
/// by its ancestor at `target_res`; a cell at or coarser than `target_res`
/// stands as it is.
pub open spec fn spec_normalized(cell: u64, target_res: u8) -> u64 {
    if cell_res(cell) > target_res {
        parent_cell(cell, target_res)
    } else {
        cell
    }
}

/// Coarsens a valid cell to `target_res` if it is finer; leaves it alone
/// otherwise.
pub fn normalize_cell(cell: u64, target_res: u8) -> (r: u64)
    requires
        cell_is_valid(cell),
        target_res <= MAX_RES,
    ensures
        r == spec_normalized(cell, target_res),
        cell_is_valid(r),
        cell_res(cell) >= target_res ==> cell_res(r) == target_res,
        cell_res(cell) < target_res ==> r == cell,
{
    let res = cell_resolution(cell);
    if res > target_res {
        match cell_parent(cell, target_res) {
            Some(p) => p,
            None => {
                proof {
                    // the target is strictly coarser, so a parent exists
                    assert(false);
                }
                cell
            },
        }
    } else {
        cell
    }
}

/// Validates a raw cell identifier against the grid library.
pub fn require_valid_cell(cell: u64) -> (r: Result<(), HError>)
    ensures
        cell_is_valid(cell) ==> r == Ok::<(), HError>(()),
        !cell_is_valid(cell) ==> r == Err::<(), HError>(HError::InvalidCell(cell)),
{
    if cell_valid(cell) {
        Ok(())
    } else {
        Err(HError::InvalidCell(cell))
    }
}

} // verus!
