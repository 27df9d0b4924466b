//! Big-endian integer encoding shared by the raster and index file formats.

use vstd::prelude::*;

verus! {

/// The eight big-endian bytes of `v`, most significant first.
pub open spec fn spec_be_u64(v: u64) -> Seq<u8> {
    seq![
        (v >> 56) as u8,
        (v >> 48) as u8,
        (v >> 40) as u8,
        (v >> 32) as u8,
        (v >> 24) as u8,
        (v >> 16) as u8,
        (v >> 8) as u8,
        v as u8,
    ]
}

/// The `u64` read big-endian from eight bytes, most significant first.
pub open spec fn spec_u64_of_bytes(
    b0: u8, b1: u8, b2: u8, b3: u8, b4: u8, b5: u8, b6: u8, b7: u8,
) -> u64 {
    ((b0 as u64) << 56) | ((b1 as u64) << 48) | ((b2 as u64) << 40) | ((b3 as u64) << 32)
        | ((b4 as u64) << 24) | ((b5 as u64) << 16) | ((b6 as u64) << 8) | (b7 as u64)
}

/// The two big-endian bytes of `v`'s two's-complement representation.
pub open spec fn spec_be_i16(v: i16) -> Seq<u8> {
    seq![((v as u16) >> 8) as u8, (v as u16) as u8]
}

/// The `i16` read big-endian from two bytes of two's complement.
pub open spec fn spec_i16_of_bytes(hi: u8, lo: u8) -> i16 {
    (((hi as u16) << 8) | (lo as u16)) as i16
}

/// Decoding the big-endian bytes of a `u64` recovers it exactly.
pub proof fn lemma_be_u64_roundtrip(v: u64)
    ensures
        spec_u64_of_bytes(
            spec_be_u64(v)[0],
            spec_be_u64(v)[1],
            spec_be_u64(v)[2],
            spec_be_u64(v)[3],
            spec_be_u64(v)[4],
            spec_be_u64(v)[5],
            spec_be_u64(v)[6],
            spec_be_u64(v)[7],
        ) == v,
{
    assert((((v >> 56) as u8 as u64) << 56) | (((v >> 48) as u8 as u64) << 48)
        | (((v >> 40) as u8 as u64) << 40) | (((v >> 32) as u8 as u64) << 32)
        | (((v >> 24) as u8 as u64) << 24) | (((v >> 16) as u8 as u64) << 16)
        | (((v >> 8) as u8 as u64) << 8) | (v as u8 as u64) == v) by (bit_vector);
}

/// Decoding the big-endian bytes of an `i16` recovers it exactly.
pub proof fn lemma_be_i16_roundtrip(v: i16)
    ensures
        spec_i16_of_bytes(spec_be_i16(v)[0], spec_be_i16(v)[1]) == v,
{
    assert(((((v as u16 >> 8) as u8 as u16) << 8) | ((v as u16) as u8 as u16)) as i16 == v)
        by (bit_vector);
}

/// Appends the big-endian bytes of `v` to `out`.
pub fn push_be_u64(out: &mut Vec<u8>, v: u64)
    ensures
        final(out)@ == old(out)@ + spec_be_u64(v),
{
    out.push((v >> 56) as u8);
    out.push((v >> 48) as u8);
    out.push((v >> 40) as u8);
    out.push((v >> 32) as u8);
    out.push((v >> 24) as u8);
    out.push((v >> 16) as u8);
    out.push((v >> 8) as u8);
    out.push(v as u8);
    assert(out@ =~= old(out)@ + spec_be_u64(v));
}

/// Appends the big-endian bytes of `v` to `out`.
pub fn push_be_i16(out: &mut Vec<u8>, v: i16)
    ensures
        final(out)@ == old(out)@ + spec_be_i16(v),
{
    let u: u16 = v as u16;
    out.push((u >> 8) as u8);
    out.push(u as u8);
    assert(out@ =~= old(out)@ + spec_be_i16(v));
}

/// Reads a `u64` from eight big-endian bytes.
pub fn decode_be_u64(
    b0: u8, b1: u8, b2: u8, b3: u8, b4: u8, b5: u8, b6: u8, b7: u8,
) -> (r: u64)
    ensures
        r == spec_u64_of_bytes(b0, b1, b2, b3, b4, b5, b6, b7),
{
    ((b0 as u64) << 56) | ((b1 as u64) << 48) | ((b2 as u64) << 40) | ((b3 as u64) << 32)
        | ((b4 as u64) << 24) | ((b5 as u64) << 16) | ((b6 as u64) << 8) | (b7 as u64)
}

/// Reads an `i16` from two big-endian bytes of two's complement.
pub fn decode_be_i16(hi: u8, lo: u8) -> (r: i16)
    ensures
        r == spec_i16_of_bytes(hi, lo),
{
    (((hi as u16) << 8) | (lo as u16)) as i16
}

} // verus!
