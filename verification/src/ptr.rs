//! Tagged Lean object references.
//!
//! A Lean reference is a machine word.  When its lowest bit is set it is not
//! an address but a boxed scalar: the value shifted left by one bit.
use vstd::prelude::*;

verus! {

/// Whether a word is a boxed scalar (its lowest bit is set).
pub open spec fn is_scalar_spec(bits: usize) -> bool {
    bits % 2 == 1
}

/// The value a boxed scalar word stands for.
pub open spec fn unbox_spec(bits: usize) -> usize {
    bits / 2
}

/// The word that boxes a value: twice the value, modulo the word size, plus
/// one (the top bit of the value is lost).
pub open spec fn box_spec(bits: usize) -> usize {
    ((2 * bits) % (usize::MAX + 1) + 1) as usize
}

/// A Lean object reference, held as the machine word it is made of.
#[derive(Clone, Copy, PartialEq, Eq, Structural, Debug)]
pub struct LeanPtr(pub usize);

impl LeanPtr {
    /// The reference made of the word `addr`.
    pub fn from_raw(addr: usize) -> (r: Self)
        ensures
            r.0 == addr,
    {
        LeanPtr(addr)
    }

    /// The word this reference is made of.
    pub fn to_raw(self) -> (r: usize)
        ensures
            r == self.0,
    {
        self.0
    }

    /// Whether this is the null reference.
    pub fn is_null(self) -> (r: bool)
        ensures
            r == (self.0 == 0),
    {
        self.0 == 0
    }

    /// Whether this reference is a boxed scalar.
    pub fn is_scalar(self) -> (r: bool)
        ensures
            r == is_scalar_spec(self.0),
    {
        is_scalar_bits(self.0)
    }

    /// The value of this reference read as a boxed scalar.
    pub fn unbox_scalar(self) -> (r: usize)
        ensures
            r == unbox_spec(self.0),
    {
        unbox_bits(self.0)
    }
}

/// Whether a word is a boxed scalar.
pub fn is_scalar_bits(bits: usize) -> (r: bool)
    ensures
        r == is_scalar_spec(bits),
{
    bits % 2 == 1
}

/// Boxes a value: shifts it left by one bit and sets the lowest bit.
pub fn box_bits(bits: usize) -> (r: usize)
    ensures
        r == box_spec(bits),
        r == (2 * bits) % (usize::MAX + 1) + 1,
        bits <= usize::MAX / 2 ==> r == 2 * bits + 1,
{
    let twice = bits.wrapping_mul(2);
    proof {
        lemma_twice_mod_even(bits);
    }
    twice + 1
}

/// Unboxes a word: shifts it right by one bit.
pub fn unbox_bits(bits: usize) -> (r: usize)
    ensures
        r == unbox_spec(bits),
{
    bits / 2
}

/// Whether the reference word `addr` is a boxed scalar.
pub fn is_scalar_ptr(addr: usize) -> (r: bool)
    ensures
        r == is_scalar_spec(addr),
{
    is_scalar_bits(addr)
}

/// The value of the reference word `addr` read as a boxed scalar.
pub fn unbox_ptr(addr: usize) -> (r: usize)
    ensures
        r == unbox_spec(addr),
{
    unbox_bits(addr)
}

/// Boxes `x` and unboxes the result: `x` without its top bit.
pub fn roundtrip_box_unbox(x: usize) -> (r: usize)
    ensures
        r == unbox_spec(box_spec(x)),
        x <= usize::MAX / 2 ==> r == x,
{
    proof {
        if x <= usize::MAX / 2 {
            lemma_unbox_box(x);
        }
    }
    unbox_bits(box_bits(x))
}

/// Whether the box of `x` is a boxed scalar: always.
pub fn box_sets_scalar_bit(x: usize) -> (r: bool)
    ensures
        r == is_scalar_spec(box_spec(x)),
        r,
{
    proof {
        lemma_box_is_scalar(x);
    }
    is_scalar_bits(box_bits(x))
}

/// Twice a word, modulo the word size, is even and below the largest word.
pub proof fn lemma_twice_mod_even(x: usize)
    ensures
        (2 * x) % (usize::MAX + 1) % 2 == 0,
        (2 * x) % (usize::MAX + 1) < usize::MAX,
        x <= usize::MAX / 2 ==> (2 * x) % (usize::MAX + 1) == 2 * x,
{
    let m: int = usize::MAX + 1;
    assert(m % 2 == 0) by {
        assert(usize::MAX == 0xffff_ffff || usize::MAX == 0xffff_ffff_ffff_ffff);
    }
    assert((2 * x) % m % 2 == 0) by (nonlinear_arith)
        requires
            m % 2 == 0,
            m > 0,
            x >= 0,
    {
        vstd::arithmetic::div_mod::lemma_fundamental_div_mod(2 * x, m);
        let q = (2 * x) / m;
        assert(2 * x == m * q + (2 * x) % m);
    }
    if x <= usize::MAX / 2 {
        vstd::arithmetic::div_mod::lemma_small_mod((2 * x) as nat, m as nat);
    }
}

/// A value that fits in a boxed scalar comes back unchanged from boxing and
/// unboxing.
pub proof fn lemma_unbox_box(x: usize)
    requires
        x <= usize::MAX / 2,
    ensures
        unbox_spec(box_spec(x)) == x,
{
    lemma_twice_mod_even(x);
}

/// Every boxed value is a boxed scalar.
pub proof fn lemma_box_is_scalar(x: usize)
    ensures
        is_scalar_spec(box_spec(x)),
{
    lemma_twice_mod_even(x);
}

} // verus!
