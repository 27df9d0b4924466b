//! Trusted view of a memory-mapped file as a byte sequence.
//!
//! The mapping itself is created by the caller (it is an I/O operation);
//! the library only reads bytes through it. A mapping's contents are fixed
//! for its lifetime under the documented precondition that the backing
//! file is not modified while mapped.

use vstd::prelude::*;

verus! {

#[verifier::external_type_specification]
#[verifier::external_body]
pub struct ExMmap(memmap2::Mmap);

/// The bytes a mapping holds.
pub uninterp spec fn mmap_view(m: memmap2::Mmap) -> Seq<u8>;

/// Relies on `memmap2::Mmap`'s `Deref` to `[u8]`: the byte length of the
/// mapped region.
#[verifier::external_body]
pub fn mmap_len(m: &memmap2::Mmap) -> (r: usize)
    ensures
        r == mmap_view(*m).len(),
{
    m.len()
}

/// Relies on `memmap2::Mmap`'s `Deref` to `[u8]`: one byte of the mapped
/// region.
#[verifier::external_body]
pub fn mmap_byte(m: &memmap2::Mmap, i: usize) -> (r: u8)
    requires
        i < mmap_view(*m).len(),
    ensures
        r == mmap_view(*m)[i as int],
{
    m[i]
}

} // verus!
