//! H3 cell primitives.
//!
//! Cells are plain `u64` H3 indexes. The resolution of an index is a bit
//! field and is computed here directly; validity, ancestor and descendant
//! computations are the H3 library's and are reached through trusted
//! wrappers around `h3ron`.

use vstd::prelude::*;

verus! {

/// Whether a 64-bit value is a valid H3 cell index, as the H3 library's
/// validity check decides it.
pub uninterp spec fn cell_valid(h: u64) -> bool;

/// The resolution bit field of an H3 index: bits 52..=55.
pub open spec fn cell_res(h: u64) -> u64 {
    (h >> 52) & 0xf
}

/// The ancestor of a cell at a coarser (or its own) resolution, as the H3
/// library computes it.
pub uninterp spec fn parent_at(h: u64, res: u64) -> u64;

/// The descendants of a cell at a finer (or its own) resolution, in the
/// order the H3 library produces them.
pub uninterp spec fn children_at(h: u64, res: u64) -> Seq<u64>;

/// The resolution of an index is four bits wide.
pub proof fn lemma_cell_res_bound(h: u64)
    ensures
        cell_res(h) <= 15,
{
    assert((h >> 52) & 0xf <= 15) by (bit_vector);
}

/// The resolution bit field of an index.
pub fn cell_resolution(h: u64) -> (r: u8)
    ensures
        r as u64 == cell_res(h),
        r <= 15,
{
    proof {
        lemma_cell_res_bound(h);
    }
    ((h >> 52) & 0xf) as u8
}

/// Relies on h3ron::H3Cell::try_from, which runs the H3 library's
/// isValidCell check and is Ok exactly for valid cell indexes.
#[verifier::external_body]
pub fn cell_is_valid(h: u64) -> (r: bool)
    ensures
        r == cell_valid(h),
{
    h3ron::H3Cell::try_from(h).is_ok()
}

/// Relies on h3ron::H3Cell::get_parent (the H3 library's cellToParent): for
/// a parent resolution between 0 and the cell's own resolution it returns
/// the ancestor at that resolution, itself a valid cell at that resolution;
/// at the cell's own resolution it returns the cell unchanged.
#[verifier::external_body]
pub(crate) fn cell_parent(h: u64, parent_res: u8) -> (r: u64)
    requires
        cell_valid(h),
        parent_res as u64 <= cell_res(h),
    ensures
        r == parent_at(h, parent_res as u64),
        cell_valid(r),
        cell_res(r) == parent_res as u64,
        parent_res as u64 == cell_res(h) ==> r == h,
{
    let cell = <h3ron::H3Cell as h3ron::Index>::new(h);
    let parent = cell.get_parent(parent_res).unwrap();
    h3ron::Index::h3index(&parent)
}

/// Relies on h3ron::H3Cell::get_children (the H3 library's cellToChildren):
/// it returns exactly the descendants of the cell at the given resolution;
/// each is a valid cell at that resolution whose ancestor at the cell's own
/// resolution is the cell itself.
#[verifier::external_body]
pub(crate) fn cell_children(h: u64, child_res: u8) -> (r: Vec<u64>)
    requires
        cell_valid(h),
        cell_res(h) <= child_res as u64,
        child_res <= 15,
    ensures
        r@ == children_at(h, child_res as u64),
        forall|i: int|
            0 <= i < r@.len() ==> cell_valid(r@[i]) && cell_res(r@[i]) == child_res as u64
                && parent_at(r@[i], cell_res(h)) == h,
{
    let cell = <h3ron::H3Cell as h3ron::Index>::new(h);
    let children = cell.get_children(child_res).unwrap();
    children.iter().map(|c| h3ron::Index::h3index(&c)).collect()
}

} // verus!
