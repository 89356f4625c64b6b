//! Loose bound variables: their range, whether one occurs, and shifting them
//! up (lifting) or down (lowering).
use vstd::prelude::*;
use crate::expr::{Expr, wf_expr, MAX_BVAR_RANGE};
use crate::ptr::{LeanPtr, is_scalar_spec, unbox_spec};

verus! {

/// The larger of two naturals.
pub open spec fn max_nat(a: nat, b: nat) -> nat {
    if a >= b {
        a
    } else {
        b
    }
}

/// A range seen from under one more binder.
pub open spec fn under_binder(r: nat) -> nat {
    if r == 0 {
        0
    } else {
        (r - 1) as nat
    }
}

/// One more than the largest loose bound variable index of `e` (0 when it
/// has none).
pub open spec fn loose_bvar_range(e: Expr) -> nat
    decreases e,
{
    match e {
        Expr::BVar(i) => (i + 1) as nat,
        Expr::App(f, a) => max_nat(loose_bvar_range(*f), loose_bvar_range(*a)),
        Expr::Lam(_, t, b, _) => max_nat(loose_bvar_range(*t), under_binder(loose_bvar_range(*b))),
        Expr::ForallE(_, t, b, _) => max_nat(
            loose_bvar_range(*t),
            under_binder(loose_bvar_range(*b)),
        ),
        Expr::LetE(_, t, v, b, _) => max_nat(
            loose_bvar_range(*t),
            max_nat(loose_bvar_range(*v), under_binder(loose_bvar_range(*b))),
        ),
        Expr::MData(_, b) => loose_bvar_range(*b),
        Expr::Proj(_, _, b) => loose_bvar_range(*b),
        _ => 0,
    }
}

/// Whether the loose bound variable `i` occurs in `e`.
pub open spec fn has_loose_bvar_spec(e: Expr, i: nat) -> bool
    decreases e,
{
    match e {
        Expr::BVar(j) => j == i,
        Expr::App(f, a) => has_loose_bvar_spec(*f, i) || has_loose_bvar_spec(*a, i),
        Expr::Lam(_, t, b, _) => has_loose_bvar_spec(*t, i) || has_loose_bvar_spec(*b, i + 1),
        Expr::ForallE(_, t, b, _) => has_loose_bvar_spec(*t, i) || has_loose_bvar_spec(*b, i + 1),
        Expr::LetE(_, t, v, b, _) => has_loose_bvar_spec(*t, i) || has_loose_bvar_spec(*v, i)
            || has_loose_bvar_spec(*b, i + 1),
        Expr::MData(_, b) => has_loose_bvar_spec(*b, i),
        Expr::Proj(_, _, b) => has_loose_bvar_spec(*b, i),
        _ => false,
    }
}

/// `e` with every bound variable whose index is at least `s + off` (that is,
/// at least `s` once the `off` binders crossed are discounted) raised by `d`.
pub open spec fn lift_spec(e: Expr, s: nat, d: nat, off: nat) -> Expr
    decreases e,
{
    match e {
        Expr::BVar(i) => if i >= s + off {
            Expr::BVar((i + d) as u64)
        } else {
            Expr::BVar(i)
        },
        Expr::App(f, a) => Expr::App(
            Box::new(lift_spec(*f, s, d, off)),
            Box::new(lift_spec(*a, s, d, off)),
        ),
        Expr::Lam(n, t, b, bi) => Expr::Lam(
            n,
            Box::new(lift_spec(*t, s, d, off)),
            Box::new(lift_spec(*b, s, d, off + 1)),
            bi,
        ),
        Expr::ForallE(n, t, b, bi) => Expr::ForallE(
            n,
            Box::new(lift_spec(*t, s, d, off)),
            Box::new(lift_spec(*b, s, d, off + 1)),
            bi,
        ),
        Expr::LetE(n, t, v, b, nd) => Expr::LetE(
            n,
            Box::new(lift_spec(*t, s, d, off)),
            Box::new(lift_spec(*v, s, d, off)),
            Box::new(lift_spec(*b, s, d, off + 1)),
            nd,
        ),
        Expr::MData(m, b) => Expr::MData(m, Box::new(lift_spec(*b, s, d, off))),
        Expr::Proj(n, k, b) => Expr::Proj(n, k, Box::new(lift_spec(*b, s, d, off))),
        _ => e,
    }
}

/// Lifting by `d` keeps every index of `e` below `MAX_BVAR_RANGE` (Lean
/// refuses to build the result otherwise).
pub open spec fn lift_ok(e: Expr, s: nat, d: nat, off: nat) -> bool
    decreases e,
{
    match e {
        Expr::BVar(i) => i >= s + off ==> i + d < MAX_BVAR_RANGE,
        Expr::App(f, a) => lift_ok(*f, s, d, off) && lift_ok(*a, s, d, off),
        Expr::Lam(_, t, b, _) => lift_ok(*t, s, d, off) && lift_ok(*b, s, d, off + 1),
        Expr::ForallE(_, t, b, _) => lift_ok(*t, s, d, off) && lift_ok(*b, s, d, off + 1),
        Expr::LetE(_, t, v, b, _) => lift_ok(*t, s, d, off) && lift_ok(*v, s, d, off) && lift_ok(
            *b,
            s,
            d,
            off + 1,
        ),
        Expr::MData(_, b) => lift_ok(*b, s, d, off),
        Expr::Proj(_, _, b) => lift_ok(*b, s, d, off),
        _ => true,
    }
}

/// `e` with every bound variable whose index is at least `s + off` lowered
/// by `d`.
pub open spec fn lower_spec(e: Expr, s: nat, d: nat, off: nat) -> Expr
    decreases e,
{
    match e {
        Expr::BVar(i) => if i >= s + off {
            Expr::BVar((i - d) as u64)
        } else {
            Expr::BVar(i)
        },
        Expr::App(f, a) => Expr::App(
            Box::new(lower_spec(*f, s, d, off)),
            Box::new(lower_spec(*a, s, d, off)),
        ),
        Expr::Lam(n, t, b, bi) => Expr::Lam(
            n,
            Box::new(lower_spec(*t, s, d, off)),
            Box::new(lower_spec(*b, s, d, off + 1)),
            bi,
        ),
        Expr::ForallE(n, t, b, bi) => Expr::ForallE(
            n,
            Box::new(lower_spec(*t, s, d, off)),
            Box::new(lower_spec(*b, s, d, off + 1)),
            bi,
        ),
        Expr::LetE(n, t, v, b, nd) => Expr::LetE(
            n,
            Box::new(lower_spec(*t, s, d, off)),
            Box::new(lower_spec(*v, s, d, off)),
            Box::new(lower_spec(*b, s, d, off + 1)),
            nd,
        ),
        Expr::MData(m, b) => Expr::MData(m, Box::new(lower_spec(*b, s, d, off))),
        Expr::Proj(n, k, b) => Expr::Proj(n, k, Box::new(lower_spec(*b, s, d, off))),
        _ => e,
    }
}

/// Every bound variable that lowering by `d` moves has an index of at
/// least `d` (Lean refuses the negative index that the lowering would
/// otherwise make).
pub open spec fn lower_ok(e: Expr, s: nat, d: nat, off: nat) -> bool
    decreases e,
{
    match e {
        Expr::BVar(i) => i >= s + off ==> i >= d,
        Expr::App(f, a) => lower_ok(*f, s, d, off) && lower_ok(*a, s, d, off),
        Expr::Lam(_, t, b, _) => lower_ok(*t, s, d, off) && lower_ok(*b, s, d, off + 1),
        Expr::ForallE(_, t, b, _) => lower_ok(*t, s, d, off) && lower_ok(*b, s, d, off + 1),
        Expr::LetE(_, t, v, b, _) => lower_ok(*t, s, d, off) && lower_ok(*v, s, d, off)
            && lower_ok(*b, s, d, off + 1),
        Expr::MData(_, b) => lower_ok(*b, s, d, off),
        Expr::Proj(_, _, b) => lower_ok(*b, s, d, off),
        _ => true,
    }
}

/// Lowering by no more than the start moves no index below zero.
pub proof fn lemma_lower_ok_within(e: Expr, s: nat, d: nat, off: nat)
    requires
        d <= s,
    ensures
        lower_ok(e, s, d, off),
    decreases e,
{
    match e {
        Expr::App(f, a) => {
            lemma_lower_ok_within(*f, s, d, off);
            lemma_lower_ok_within(*a, s, d, off);
        },
        Expr::Lam(_, t, b, _) => {
            lemma_lower_ok_within(*t, s, d, off);
            lemma_lower_ok_within(*b, s, d, off + 1);
        },
        Expr::ForallE(_, t, b, _) => {
            lemma_lower_ok_within(*t, s, d, off);
            lemma_lower_ok_within(*b, s, d, off + 1);
        },
        Expr::LetE(_, t, v, b, _) => {
            lemma_lower_ok_within(*t, s, d, off);
            lemma_lower_ok_within(*v, s, d, off);
            lemma_lower_ok_within(*b, s, d, off + 1);
        },
        Expr::MData(_, b) => lemma_lower_ok_within(*b, s, d, off),
        Expr::Proj(_, _, b) => lemma_lower_ok_within(*b, s, d, off),
        _ => {},
    }
}

/// In a well-formed expression no index reaches `MAX_BVAR_RANGE`, so lifting
/// or lowering from there on changes nothing and no such variable occurs.
pub proof fn lemma_beyond_bound(e: Expr, s: nat, d: nat, off: nat)
    requires
        wf_expr(e),
        s + off >= MAX_BVAR_RANGE,
    ensures
        lift_spec(e, s, d, off) == e,
        lower_spec(e, s, d, off) == e,
        lift_ok(e, s, d, off),
        lower_ok(e, s, d, off),
        !has_loose_bvar_spec(e, s + off),
    decreases e,
{
    match e {
        Expr::App(f, a) => {
            lemma_beyond_bound(*f, s, d, off);
            lemma_beyond_bound(*a, s, d, off);
        },
        Expr::Lam(_, t, b, _) => {
            lemma_beyond_bound(*t, s, d, off);
            lemma_beyond_bound(*b, s, d, off + 1);
        },
        Expr::ForallE(_, t, b, _) => {
            lemma_beyond_bound(*t, s, d, off);
            lemma_beyond_bound(*b, s, d, off + 1);
        },
        Expr::LetE(_, t, v, b, _) => {
            lemma_beyond_bound(*t, s, d, off);
            lemma_beyond_bound(*v, s, d, off);
            lemma_beyond_bound(*b, s, d, off + 1);
        },
        Expr::MData(_, b) => {
            lemma_beyond_bound(*b, s, d, off);
        },
        Expr::Proj(_, _, b) => {
            lemma_beyond_bound(*b, s, d, off);
        },
        _ => {},
    }
}

/// Whether lifting the loose bound variables of `e` from index `s` on by `d`
/// keeps every index below `MAX_BVAR_RANGE`.
pub fn lift_within_bounds(e: &Expr, s: u32, d: u32) -> (r: bool)
    requires
        wf_expr(*e),
    ensures
        r == lift_ok(*e, s as nat, d as nat, 0),
{
    lift_ok_go(e, s, d, 0)
}

fn lift_ok_go(e: &Expr, s: u32, d: u32, off: u64) -> (r: bool)
    requires
        wf_expr(*e),
        off <= MAX_BVAR_RANGE,
    ensures
        r == lift_ok(*e, s as nat, d as nat, off as nat),
    decreases e,
{
    if off == MAX_BVAR_RANGE {
        proof {
            lemma_beyond_bound(*e, s as nat, d as nat, off as nat);
        }
        return true;
    }
    match e {
        Expr::BVar(i) => *i < s as u64 + off || *i + (d as u64) < MAX_BVAR_RANGE,
        Expr::App(f, a) => lift_ok_go(f, s, d, off) && lift_ok_go(a, s, d, off),
        Expr::Lam(_, t, b, _) => lift_ok_go(t, s, d, off) && lift_ok_go(b, s, d, off + 1),
        Expr::ForallE(_, t, b, _) => lift_ok_go(t, s, d, off) && lift_ok_go(b, s, d, off + 1),
        Expr::LetE(_, t, v, b, _) => lift_ok_go(t, s, d, off) && lift_ok_go(v, s, d, off)
            && lift_ok_go(b, s, d, off + 1),
        Expr::MData(_, b) => lift_ok_go(b, s, d, off),
        Expr::Proj(_, _, b) => lift_ok_go(b, s, d, off),
        _ => true,
    }
}

/// Whether lowering the loose bound variables of `e` from index `s` on by
/// `d` moves none of them below zero.
pub fn lower_within_bounds(e: &Expr, s: u32, d: u32) -> (r: bool)
    requires
        wf_expr(*e),
    ensures
        r == lower_ok(*e, s as nat, d as nat, 0),
{
    lower_ok_go(e, s, d, 0)
}

fn lower_ok_go(e: &Expr, s: u32, d: u32, off: u64) -> (r: bool)
    requires
        wf_expr(*e),
        off <= MAX_BVAR_RANGE,
    ensures
        r == lower_ok(*e, s as nat, d as nat, off as nat),
    decreases e,
{
    if off == MAX_BVAR_RANGE {
        proof {
            lemma_beyond_bound(*e, s as nat, d as nat, off as nat);
        }
        return true;
    }
    match e {
        Expr::BVar(i) => *i < s as u64 + off || *i >= d as u64,
        Expr::App(f, a) => lower_ok_go(f, s, d, off) && lower_ok_go(a, s, d, off),
        Expr::Lam(_, t, b, _) => lower_ok_go(t, s, d, off) && lower_ok_go(b, s, d, off + 1),
        Expr::ForallE(_, t, b, _) => lower_ok_go(t, s, d, off) && lower_ok_go(b, s, d, off + 1),
        Expr::LetE(_, t, v, b, _) => lower_ok_go(t, s, d, off) && lower_ok_go(v, s, d, off)
            && lower_ok_go(b, s, d, off + 1),
        Expr::MData(_, b) => lower_ok_go(b, s, d, off),
        Expr::Proj(_, _, b) => lower_ok_go(b, s, d, off),
        _ => true,
    }
}

/// One more than the largest loose bound variable index of `e`.
pub fn expr_loose_bvar_range(e: &Expr) -> (r: u32)
    requires
        wf_expr(*e),
    ensures
        r == loose_bvar_range(*e),
        r <= MAX_BVAR_RANGE,
    decreases e,
{
    match e {
        Expr::BVar(i) => (*i + 1) as u32,
        Expr::App(f, a) => {
            let rf = expr_loose_bvar_range(f);
            let ra = expr_loose_bvar_range(a);
            if rf >= ra {
                rf
            } else {
                ra
            }
        },
        Expr::Lam(_, t, b, _) | Expr::ForallE(_, t, b, _) => {
            let rt = expr_loose_bvar_range(t);
            let rb = expr_loose_bvar_range(b);
            let rb1 = if rb == 0 {
                0
            } else {
                rb - 1
            };
            if rt >= rb1 {
                rt
            } else {
                rb1
            }
        },
        Expr::LetE(_, t, v, b, _) => {
            let rt = expr_loose_bvar_range(t);
            let rv = expr_loose_bvar_range(v);
            let rb = expr_loose_bvar_range(b);
            let rb1 = if rb == 0 {
                0
            } else {
                rb - 1
            };
            let m = if rv >= rb1 {
                rv
            } else {
                rb1
            };
            if rt >= m {
                rt
            } else {
                m
            }
        },
        Expr::MData(_, b) | Expr::Proj(_, _, b) => expr_loose_bvar_range(b),
        _ => 0,
    }
}

/// Whether the loose bound variable `i` occurs in `e`.
pub fn has_loose_bvar(e: &Expr, i: u32) -> (r: bool)
    requires
        wf_expr(*e),
    ensures
        r == has_loose_bvar_spec(*e, i as nat),
    decreases e,
{
    if i as u64 >= MAX_BVAR_RANGE {
        proof {
            lemma_beyond_bound(*e, i as nat, 0, 0);
        }
        return false;
    }
    match e {
        Expr::BVar(j) => *j == i as u64,
        Expr::App(f, a) => has_loose_bvar(f, i) || has_loose_bvar(a, i),
        Expr::Lam(_, t, b, _) | Expr::ForallE(_, t, b, _) => has_loose_bvar(t, i) || has_loose_bvar(
            b,
            i + 1,
        ),
        Expr::LetE(_, t, v, b, _) => has_loose_bvar(t, i) || has_loose_bvar(v, i) || has_loose_bvar(
            b,
            i + 1,
        ),
        Expr::MData(_, b) | Expr::Proj(_, _, b) => has_loose_bvar(b, i),
        _ => false,
    }
}

/// Whether the loose bound variable `i` (a Lean natural number) occurs in
/// `e`; a number that is not a boxed scalar, or does not fit in 32 bits,
/// answers 0.
pub fn lean_expr_has_loose_bvar_rs(e: &Expr, i: LeanPtr) -> (r: u8)
    requires
        wf_expr(*e),
    ensures
        r == (if is_scalar_spec(i.0) && unbox_spec(i.0) <= u32::MAX && has_loose_bvar_spec(
            *e,
            unbox_spec(i.0) as nat,
        ) {
            1u8
        } else {
            0u8
        }),
{
    if !i.is_scalar() {
        return 0;
    }
    let i_val = i.unbox_scalar();
    if i_val > u32::MAX as usize {
        return 0;
    }
    if has_loose_bvar(e, i_val as u32) {
        1
    } else {
        0
    }
}

/// Lifting a well-formed expression within bounds gives a well-formed one.
pub proof fn lemma_lift_wf(e: Expr, s: nat, d: nat, off: nat)
    requires
        wf_expr(e),
        lift_ok(e, s, d, off),
    ensures
        wf_expr(lift_spec(e, s, d, off)),
    decreases e,
{
    match e {
        Expr::App(f, a) => {
            lemma_lift_wf(*f, s, d, off);
            lemma_lift_wf(*a, s, d, off);
        },
        Expr::Lam(_, t, b, _) => {
            lemma_lift_wf(*t, s, d, off);
            lemma_lift_wf(*b, s, d, off + 1);
        },
        Expr::ForallE(_, t, b, _) => {
            lemma_lift_wf(*t, s, d, off);
            lemma_lift_wf(*b, s, d, off + 1);
        },
        Expr::LetE(_, t, v, b, _) => {
            lemma_lift_wf(*t, s, d, off);
            lemma_lift_wf(*v, s, d, off);
            lemma_lift_wf(*b, s, d, off + 1);
        },
        Expr::MData(_, b) => {
            lemma_lift_wf(*b, s, d, off);
        },
        Expr::Proj(_, _, b) => {
            lemma_lift_wf(*b, s, d, off);
        },
        _ => {},
    }
}

/// Lowering a well-formed expression, within `lower_ok`, gives a
/// well-formed one.
pub proof fn lemma_lower_wf(e: Expr, s: nat, d: nat, off: nat)
    requires
        wf_expr(e),
        lower_ok(e, s, d, off),
    ensures
        wf_expr(lower_spec(e, s, d, off)),
    decreases e,
{
    match e {
        Expr::App(f, a) => {
            lemma_lower_wf(*f, s, d, off);
            lemma_lower_wf(*a, s, d, off);
        },
        Expr::Lam(_, t, b, _) => {
            lemma_lower_wf(*t, s, d, off);
            lemma_lower_wf(*b, s, d, off + 1);
        },
        Expr::ForallE(_, t, b, _) => {
            lemma_lower_wf(*t, s, d, off);
            lemma_lower_wf(*b, s, d, off + 1);
        },
        Expr::LetE(_, t, v, b, _) => {
            lemma_lower_wf(*t, s, d, off);
            lemma_lower_wf(*v, s, d, off);
            lemma_lower_wf(*b, s, d, off + 1);
        },
        Expr::MData(_, b) => {
            lemma_lower_wf(*b, s, d, off);
        },
        Expr::Proj(_, _, b) => {
            lemma_lower_wf(*b, s, d, off);
        },
        _ => {},
    }
}

/// Lifts, by `d`, every bound variable of `e` whose index is at least
/// `s + offset`.
fn lift_loose_bvars_go(e: Expr, s: u32, d: u32, offset: u32) -> (r: Expr)
    requires
        wf_expr(e),
        lift_ok(e, s as nat, d as nat, offset as nat),
    ensures
        r == lift_spec(e, s as nat, d as nat, offset as nat),
    decreases e,
{
    if offset as u64 >= MAX_BVAR_RANGE || s as u64 >= MAX_BVAR_RANGE - offset as u64 {
        proof {
            lemma_beyond_bound(e, s as nat, d as nat, offset as nat);
        }
        return e;
    }
    let s1 = s + offset;
    match e {
        Expr::BVar(i) => {
            if i >= s1 as u64 {
                Expr::BVar(i + d as u64)
            } else {
                Expr::BVar(i)
            }
        },
        Expr::App(f, a) => {
            let f_new = lift_loose_bvars_go(*f, s, d, offset);
            let a_new = lift_loose_bvars_go(*a, s, d, offset);
            Expr::App(Box::new(f_new), Box::new(a_new))
        },
        Expr::Lam(n, t, b, bi) => {
            let t_new = lift_loose_bvars_go(*t, s, d, offset);
            let b_new = lift_loose_bvars_go(*b, s, d, offset + 1);
            Expr::Lam(n, Box::new(t_new), Box::new(b_new), bi)
        },
        Expr::ForallE(n, t, b, bi) => {
            let t_new = lift_loose_bvars_go(*t, s, d, offset);
            let b_new = lift_loose_bvars_go(*b, s, d, offset + 1);
            Expr::ForallE(n, Box::new(t_new), Box::new(b_new), bi)
        },
        Expr::LetE(n, t, v, b, nd) => {
            let t_new = lift_loose_bvars_go(*t, s, d, offset);
            let v_new = lift_loose_bvars_go(*v, s, d, offset);
            let b_new = lift_loose_bvars_go(*b, s, d, offset + 1);
            Expr::LetE(n, Box::new(t_new), Box::new(v_new), Box::new(b_new), nd)
        },
        Expr::MData(m, b) => {
            let b_new = lift_loose_bvars_go(*b, s, d, offset);
            Expr::MData(m, Box::new(b_new))
        },
        Expr::Proj(n, k, b) => {
            let b_new = lift_loose_bvars_go(*b, s, d, offset);
            Expr::Proj(n, k, Box::new(b_new))
        },
        _ => e,
    }
}

/// Lowers, by `d`, every bound variable of `e` whose index is at least
/// `s + offset`.
fn lower_loose_bvars_go(e: Expr, s: u32, d: u32, offset: u32) -> (r: Expr)
    requires
        wf_expr(e),
        lower_ok(e, s as nat, d as nat, offset as nat),
    ensures
        r == lower_spec(e, s as nat, d as nat, offset as nat),
    decreases e,
{
    if offset as u64 >= MAX_BVAR_RANGE || s as u64 >= MAX_BVAR_RANGE - offset as u64 {
        proof {
            lemma_beyond_bound(e, s as nat, d as nat, offset as nat);
        }
        return e;
    }
    let s1 = s + offset;
    match e {
        Expr::BVar(i) => {
            if i >= s1 as u64 {
                Expr::BVar(i - d as u64)
            } else {
                Expr::BVar(i)
            }
        },
        Expr::App(f, a) => {
            let f_new = lower_loose_bvars_go(*f, s, d, offset);
            let a_new = lower_loose_bvars_go(*a, s, d, offset);
            Expr::App(Box::new(f_new), Box::new(a_new))
        },
        Expr::Lam(n, t, b, bi) => {
            let t_new = lower_loose_bvars_go(*t, s, d, offset);
            let b_new = lower_loose_bvars_go(*b, s, d, offset + 1);
            Expr::Lam(n, Box::new(t_new), Box::new(b_new), bi)
        },
        Expr::ForallE(n, t, b, bi) => {
            let t_new = lower_loose_bvars_go(*t, s, d, offset);
            let b_new = lower_loose_bvars_go(*b, s, d, offset + 1);
            Expr::ForallE(n, Box::new(t_new), Box::new(b_new), bi)
        },
        Expr::LetE(n, t, v, b, nd) => {
            let t_new = lower_loose_bvars_go(*t, s, d, offset);
            let v_new = lower_loose_bvars_go(*v, s, d, offset);
            let b_new = lower_loose_bvars_go(*b, s, d, offset + 1);
            Expr::LetE(n, Box::new(t_new), Box::new(v_new), Box::new(b_new), nd)
        },
        Expr::MData(m, b) => {
            let b_new = lower_loose_bvars_go(*b, s, d, offset);
            Expr::MData(m, Box::new(b_new))
        },
        Expr::Proj(n, k, b) => {
            let b_new = lower_loose_bvars_go(*b, s, d, offset);
            Expr::Proj(n, k, Box::new(b_new))
        },
        _ => e,
    }
}

/// Lifts, by `d`, every loose bound variable of `e` whose index is at least
/// `s`.
pub fn lift_loose_bvars(e: Expr, s: u32, d: u32) -> (r: Expr)
    requires
        wf_expr(e),
        lift_ok(e, s as nat, d as nat, 0),
    ensures
        r == lift_spec(e, s as nat, d as nat, 0),
        wf_expr(r),
{
    proof {
        lemma_lift_wf(e, s as nat, d as nat, 0);
    }
    lift_loose_bvars_go(e, s, d, 0)
}

/// Lowers, by `d`, every loose bound variable of `e` whose index is at least
/// `s`; each of them must be at least `d`.
pub fn lower_loose_bvars(e: Expr, s: u32, d: u32) -> (r: Expr)
    requires
        wf_expr(e),
        lower_ok(e, s as nat, d as nat, 0),
    ensures
        r == lower_spec(e, s as nat, d as nat, 0),
        wf_expr(r),
{
    proof {
        lemma_lower_wf(e, s as nat, d as nat, 0);
    }
    lower_loose_bvars_go(e, s, d, 0)
}

/// Lowers the loose bound variables of `e` from index `s` on by `d`, both
/// Lean natural numbers; leaves `e` as it is when either is not a boxed
/// scalar or when `s < d`.  Both are then read in 32 bits, which may make
/// the start smaller than the amount: every variable moved must then still
/// be at least the amount.
pub fn lean_expr_lower_loose_bvars_rs(e: Expr, s: LeanPtr, d: LeanPtr) -> (r: Expr)
    requires
        wf_expr(e),
        is_scalar_spec(s.0) && is_scalar_spec(d.0) && unbox_spec(s.0) >= unbox_spec(d.0) ==> lower_ok(
            e,
            (unbox_spec(s.0) as u32) as nat,
            (unbox_spec(d.0) as u32) as nat,
            0,
        ),
    ensures
        r == (if is_scalar_spec(s.0) && is_scalar_spec(d.0) && unbox_spec(s.0) >= unbox_spec(
            d.0,
        ) {
            lower_spec(e, (unbox_spec(s.0) as u32) as nat, (unbox_spec(d.0) as u32) as nat, 0)
        } else {
            e
        }),
        wf_expr(r),
{
    if !s.is_scalar() || !d.is_scalar() {
        return e;
    }
    let s_val = s.unbox_scalar();
    let d_val = d.unbox_scalar();
    if s_val < d_val {
        return e;
    }
    lower_loose_bvars(e, s_val as u32, d_val as u32)
}

/// Lifts the loose bound variables of `e` from index `s` on by `d`, both
/// Lean natural numbers read in 32 bits; leaves `e` as it is when either is
/// not a boxed scalar.
pub fn lean_expr_lift_loose_bvars_rs(e: Expr, s: LeanPtr, d: LeanPtr) -> (r: Expr)
    requires
        wf_expr(e),
        is_scalar_spec(s.0) && is_scalar_spec(d.0) ==> lift_ok(
            e,
            (unbox_spec(s.0) as u32) as nat,
            (unbox_spec(d.0) as u32) as nat,
            0,
        ),
    ensures
        r == (if is_scalar_spec(s.0) && is_scalar_spec(d.0) {
            lift_spec(e, (unbox_spec(s.0) as u32) as nat, (unbox_spec(d.0) as u32) as nat, 0)
        } else {
            e
        }),
        wf_expr(r),
{
    if !s.is_scalar() || !d.is_scalar() {
        return e;
    }
    let s_val = s.unbox_scalar();
    let d_val = d.unbox_scalar();
    lift_loose_bvars(e, s_val as u32, d_val as u32)
}

/// Lowering what was just lifted, from the lifted start and by the same
/// amount, gives back the expression that was lifted.
pub proof fn lemma_lower_lift(e: Expr, s: nat, d: nat, off: nat)
    requires
        wf_expr(e),
        lift_ok(e, s, d, off),
    ensures
        lower_spec(lift_spec(e, s, d, off), s + d, d, off) == e,
    decreases e,
{
    match e {
        Expr::App(f, a) => {
            lemma_lower_lift(*f, s, d, off);
            lemma_lower_lift(*a, s, d, off);
        },
        Expr::Lam(_, t, b, _) => {
            lemma_lower_lift(*t, s, d, off);
            lemma_lower_lift(*b, s, d, off + 1);
        },
        Expr::ForallE(_, t, b, _) => {
            lemma_lower_lift(*t, s, d, off);
            lemma_lower_lift(*b, s, d, off + 1);
        },
        Expr::LetE(_, t, v, b, _) => {
            lemma_lower_lift(*t, s, d, off);
            lemma_lower_lift(*v, s, d, off);
            lemma_lower_lift(*b, s, d, off + 1);
        },
        Expr::MData(_, b) => {
            lemma_lower_lift(*b, s, d, off);
        },
        Expr::Proj(_, _, b) => {
            lemma_lower_lift(*b, s, d, off);
        },
        _ => {},
    }
}

/// Lifting or lowering by zero changes nothing.
pub proof fn lemma_shift_by_zero(e: Expr, s: nat, off: nat)
    ensures
        lift_spec(e, s, 0, off) == e,
        lower_spec(e, s, 0, off) == e,
        lift_ok(e, s, 0, off) <== wf_expr(e),
    decreases e,
{
    match e {
        Expr::App(f, a) => {
            lemma_shift_by_zero(*f, s, off);
            lemma_shift_by_zero(*a, s, off);
        },
        Expr::Lam(_, t, b, _) => {
            lemma_shift_by_zero(*t, s, off);
            lemma_shift_by_zero(*b, s, off + 1);
        },
        Expr::ForallE(_, t, b, _) => {
            lemma_shift_by_zero(*t, s, off);
            lemma_shift_by_zero(*b, s, off + 1);
        },
        Expr::LetE(_, t, v, b, _) => {
            lemma_shift_by_zero(*t, s, off);
            lemma_shift_by_zero(*v, s, off);
            lemma_shift_by_zero(*b, s, off + 1);
        },
        Expr::MData(_, b) => {
            lemma_shift_by_zero(*b, s, off);
        },
        Expr::Proj(_, _, b) => {
            lemma_shift_by_zero(*b, s, off);
        },
        _ => {},
    }
}

/// No loose bound variable at or beyond the range occurs, and lifting or
/// lowering from the range on changes nothing.
pub proof fn lemma_range_bounds(e: Expr, i: nat, d: nat)
    requires
        i >= loose_bvar_range(e),
    ensures
        !has_loose_bvar_spec(e, i),
        lift_spec(e, i, d, 0) == e,
        lower_spec(e, i, d, 0) == e,
{
    lemma_range_no_bvar(e, i);
    lemma_range_shift(e, i, d, 0, 0);
}

proof fn lemma_range_no_bvar(e: Expr, j: nat)
    requires
        j >= loose_bvar_range(e),
    ensures
        !has_loose_bvar_spec(e, j),
    decreases e,
{
    match e {
        Expr::App(f, a) => {
            lemma_range_no_bvar(*f, j);
            lemma_range_no_bvar(*a, j);
        },
        Expr::Lam(_, t, b, _) => {
            lemma_range_no_bvar(*t, j);
            lemma_range_no_bvar(*b, j + 1);
        },
        Expr::ForallE(_, t, b, _) => {
            lemma_range_no_bvar(*t, j);
            lemma_range_no_bvar(*b, j + 1);
        },
        Expr::LetE(_, t, v, b, _) => {
            lemma_range_no_bvar(*t, j);
            lemma_range_no_bvar(*v, j);
            lemma_range_no_bvar(*b, j + 1);
        },
        Expr::MData(_, b) => {
            lemma_range_no_bvar(*b, j);
        },
        Expr::Proj(_, _, b) => {
            lemma_range_no_bvar(*b, j);
        },
        _ => {},
    }
}

proof fn lemma_range_shift(e: Expr, s: nat, d: nat, off: nat, k: nat)
    requires
        loose_bvar_range(e) <= s + k,
        k <= off,
    ensures
        lift_spec(e, s, d, off) == e,
        lower_spec(e, s, d, off) == e,
    decreases e,
{
    match e {
        Expr::App(f, a) => {
            lemma_range_shift(*f, s, d, off, k);
            lemma_range_shift(*a, s, d, off, k);
        },
        Expr::Lam(_, t, b, _) => {
            lemma_range_shift(*t, s, d, off, k);
            lemma_range_shift(*b, s, d, off + 1, k + 1);
        },
        Expr::ForallE(_, t, b, _) => {
            lemma_range_shift(*t, s, d, off, k);
            lemma_range_shift(*b, s, d, off + 1, k + 1);
        },
        Expr::LetE(_, t, v, b, _) => {
            lemma_range_shift(*t, s, d, off, k);
            lemma_range_shift(*v, s, d, off, k);
            lemma_range_shift(*b, s, d, off + 1, k + 1);
        },
        Expr::MData(_, b) => {
            lemma_range_shift(*b, s, d, off, k);
        },
        Expr::Proj(_, _, b) => {
            lemma_range_shift(*b, s, d, off, k);
        },
        _ => {},
    }
}

} // verus!
