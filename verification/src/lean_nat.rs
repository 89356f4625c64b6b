//! Lean natural numbers: the boxed-scalar fast paths of addition and
//! subtraction.
use vstd::prelude::*;
use crate::ptr::{LeanPtr, is_scalar_spec, unbox_spec, box_spec, lemma_unbox_box, lemma_box_is_scalar};

verus! {

/// The largest value a boxed scalar natural number holds.
pub const MAX_SMALL_NAT: usize = usize::MAX / 2;

/// What an arithmetic operation on Lean natural numbers gives: a boxed
/// scalar, or a value to be made into a big number by the runtime, or (when
/// an operand is already big) the runtime's big-number operation.
#[derive(Clone, Copy, PartialEq, Eq, Structural, Debug)]
pub enum NatResult {
    Small(LeanPtr),
    BigFromUsize(usize),
    BigOp,
}

/// The boxed scalar of `n`.
pub fn nat_box(n: usize) -> (r: LeanPtr)
    ensures
        r.0 == box_spec(n),
{
    LeanPtr(crate::ptr::box_bits(n))
}

/// The sum of two Lean natural numbers: boxed when both are boxed and the
/// sum fits, else made big from the sum; the runtime's big addition when
/// either is big.
pub fn nat_add(a: LeanPtr, b: LeanPtr) -> (r: NatResult)
    ensures
        is_scalar_spec(a.0) && is_scalar_spec(b.0) ==> {
            let sum = unbox_spec(a.0) + unbox_spec(b.0);
            if sum <= usize::MAX / 2 {
                r == NatResult::Small(LeanPtr(box_spec(sum as usize)))
            } else {
                r == NatResult::BigFromUsize(sum as usize)
            }
        },
        !(is_scalar_spec(a.0) && is_scalar_spec(b.0)) ==> r == NatResult::BigOp,
{
    if a.is_scalar() && b.is_scalar() {
        let a_val = a.unbox_scalar();
        let b_val = b.unbox_scalar();
        let sum = a_val + b_val;
        if sum <= MAX_SMALL_NAT {
            NatResult::Small(nat_box(sum))
        } else {
            NatResult::BigFromUsize(sum)
        }
    } else {
        NatResult::BigOp
    }
}

/// The truncated difference of two Lean natural numbers (0 when `b > a`):
/// boxed when both are boxed; the runtime's big subtraction otherwise.
pub fn nat_sub(a: LeanPtr, b: LeanPtr) -> (r: NatResult)
    ensures
        is_scalar_spec(a.0) && is_scalar_spec(b.0) ==> r == NatResult::Small(
            LeanPtr(
                box_spec(
                    if unbox_spec(a.0) < unbox_spec(b.0) {
                        0
                    } else {
                        (unbox_spec(a.0) - unbox_spec(b.0)) as usize
                    },
                ),
            ),
        ),
        !(is_scalar_spec(a.0) && is_scalar_spec(b.0)) ==> r == NatResult::BigOp,
{
    if a.is_scalar() && b.is_scalar() {
        let a_val = a.unbox_scalar();
        let b_val = b.unbox_scalar();
        if a_val < b_val {
            NatResult::Small(nat_box(0))
        } else {
            NatResult::Small(nat_box(a_val - b_val))
        }
    } else {
        NatResult::BigOp
    }
}

/// Boxed small numbers `a` and `b` add up to the box of `a + b` (when it is
/// small), and subtracting `b` from it gives back the box of `a`.
pub proof fn lemma_nat_add_then_sub(a: usize, b: usize)
    requires
        a + b <= MAX_SMALL_NAT,
    ensures
        is_scalar_spec(box_spec(a)),
        is_scalar_spec(box_spec(b)),
        unbox_spec(box_spec(a)) + unbox_spec(box_spec(b)) == a + b,
        is_scalar_spec(box_spec((a + b) as usize)),
        box_spec(
            if unbox_spec(box_spec((a + b) as usize)) < unbox_spec(box_spec(b)) {
                0
            } else {
                (unbox_spec(box_spec((a + b) as usize)) - unbox_spec(box_spec(b))) as usize
            },
        ) == box_spec(a),
{
    lemma_box_is_scalar(a);
    lemma_box_is_scalar(b);
    lemma_box_is_scalar((a + b) as usize);
    lemma_unbox_box(a);
    lemma_unbox_box(b);
    lemma_unbox_box((a + b) as usize);
}

} // verus!
