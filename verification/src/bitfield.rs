//! Reading and writing bit fields of a 64-bit word.
//!
//! A field is given by its `shift` (the position of its lowest bit) and its
//! `width` (the number of bits).
use vstd::prelude::*;

verus! {

/// The mask of the low `width` bits of a word.
pub open spec fn mask_spec(width: u32) -> u64 {
    if width >= 64 {
        u64::MAX
    } else {
        ((1u64 << width) - 1) as u64
    }
}

/// The field at `shift` of `width` bits, read out of `value`.
pub open spec fn get_spec(shift: u32, width: u32, value: u64) -> u64 {
    (value >> shift) & mask_spec(width)
}

/// `value` with the field at `shift` of `width` bits replaced by the low
/// bits of `bits`.
pub open spec fn set_spec(shift: u32, width: u32, value: u64, bits: u64) -> u64 {
    (value & !(mask_spec(width) << shift)) | ((bits & mask_spec(width)) << shift)
}

/// Whether the bit at `shift` of `value` is set.
pub open spec fn get_bit_spec(shift: u32, value: u64) -> bool {
    ((value >> shift) & 1) != 0
}

/// The low `width` bits set, all others clear.
pub fn mask(width: u32) -> (r: u64)
    ensures
        r == mask_spec(width),
{
    if width >= 64 {
        u64::MAX
    } else {
        assert(1u64 << width >= 1) by (bit_vector)
            requires
                width < 64,
        ;
        (1u64 << width) - 1
    }
}

/// Reads the field at `shift` of `width` bits.
pub fn get(shift: u32, width: u32, value: u64) -> (r: u64)
    requires
        shift < 64,
    ensures
        r == get_spec(shift, width, value),
{
    (value >> shift) & mask(width)
}

/// Writes the low `width` bits of `bits` into the field at `shift`.
pub fn set(shift: u32, width: u32, value: u64, bits: u64) -> (r: u64)
    requires
        shift < 64,
    ensures
        r == set_spec(shift, width, value, bits),
{
    let m = mask(width) << shift;
    (value & !m) | ((bits & mask(width)) << shift)
}

/// Reads the single bit at `shift`.
pub fn get_bit(shift: u32, value: u64) -> (r: bool)
    requires
        shift < 64,
    ensures
        r == get_bit_spec(shift, value),
{
    ((value >> shift) & 1) != 0
}

/// A field that was just written reads back as the low `width` bits of what
/// was written, provided the field lies inside the word.
pub proof fn lemma_get_set(shift: u32, width: u32, value: u64, bits: u64)
    requires
        shift + width <= 64,
    ensures
        get_spec(shift, width, set_spec(shift, width, value, bits)) == bits & mask_spec(width),
{
    if width >= 64 {
        assert(shift == 0);
        assert(((value & !(u64::MAX << 0u32)) | ((bits & u64::MAX) << 0u32)) >> 0u32 & u64::MAX
            == bits & u64::MAX) by (bit_vector);
    } else {
        assert(((value & !((((1u64 << width) - 1) as u64) << shift)) | ((bits & (((1u64 << width)
            - 1) as u64)) << shift)) >> shift & (((1u64 << width) - 1) as u64) == bits & (((1u64
            << width) - 1) as u64)) by (bit_vector)
            requires
                width < 64,
                shift + width <= 64,
        ;
    }
}

/// Writing a field leaves a field that lies wholly below or wholly above it
/// unchanged.
pub proof fn lemma_set_keeps_other_field(
    shift: u32,
    width: u32,
    shift2: u32,
    width2: u32,
    value: u64,
    bits: u64,
)
    requires
        shift < 64,
        shift2 < 64,
        shift + width <= 64,
        shift2 + width2 <= 64,
        shift2 + width2 <= shift || shift + width <= shift2,
    ensures
        get_spec(shift2, width2, set_spec(shift, width, value, bits)) == get_spec(
            shift2,
            width2,
            value,
        ),
{
    if width >= 64 {
        assert(width2 == 0);
        assert(((value & !(u64::MAX << shift)) | ((bits & u64::MAX) << shift)) >> shift2 & ((
        (1u64 << 0u32) - 1) as u64) == (value >> shift2) & (((1u64 << 0u32) - 1) as u64))
            by (bit_vector);
    } else if width2 >= 64 {
        assert(width == 0);
        assert(((value & !((((1u64 << 0u32) - 1) as u64) << shift)) | ((bits & (((1u64 << 0u32)
            - 1) as u64)) << shift)) >> shift2 & u64::MAX == (value >> shift2) & u64::MAX)
            by (bit_vector)
            requires
                shift < 64,
        ;
    } else {
        assert(((value & !((((1u64 << width) - 1) as u64) << shift)) | ((bits & (((1u64 << width)
            - 1) as u64)) << shift)) >> shift2 & (((1u64 << width2) - 1) as u64) == (value
            >> shift2) & (((1u64 << width2) - 1) as u64)) by (bit_vector)
            requires
                width < 64,
                width2 < 64,
                shift + width <= 64,
                shift2 + width2 <= 64,
                shift2 + width2 <= shift || shift + width <= shift2,
        ;
    }
}

} // verus!
