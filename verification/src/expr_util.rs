//! What an expression contains, and matching applications of constants.
use vstd::prelude::*;
use crate::expr::{Expr, Level, LevelList, Name};
use crate::bvars::loose_bvar_range;

verus! {

/// Whether the level has a universe metavariable.
pub open spec fn level_has_mvar_spec(l: Level) -> bool
    decreases l,
{
    match l {
        Level::MVar(_) => true,
        Level::Succ(a) => level_has_mvar_spec(*a),
        Level::Max(a, b) => level_has_mvar_spec(*a) || level_has_mvar_spec(*b),
        Level::IMax(a, b) => level_has_mvar_spec(*a) || level_has_mvar_spec(*b),
        _ => false,
    }
}

/// Whether some level of the list has a universe metavariable.
pub open spec fn levels_have_mvar_spec(ls: LevelList) -> bool
    decreases ls,
{
    match ls {
        LevelList::Nil => false,
        LevelList::Cons(h, t) => level_has_mvar_spec(*h) || levels_have_mvar_spec(*t),
    }
}

/// Whether the expression has a free variable.
pub open spec fn has_fvar_spec(e: Expr) -> bool
    decreases e,
{
    match e {
        Expr::FVar(_) => true,
        Expr::App(f, a) => has_fvar_spec(*f) || has_fvar_spec(*a),
        Expr::Lam(_, t, b, _) => has_fvar_spec(*t) || has_fvar_spec(*b),
        Expr::ForallE(_, t, b, _) => has_fvar_spec(*t) || has_fvar_spec(*b),
        Expr::LetE(_, t, v, b, _) => has_fvar_spec(*t) || has_fvar_spec(*v) || has_fvar_spec(*b),
        Expr::MData(_, b) => has_fvar_spec(*b),
        Expr::Proj(_, _, b) => has_fvar_spec(*b),
        _ => false,
    }
}

/// Whether the expression has an expression metavariable or a universe
/// metavariable.
pub open spec fn has_mvar_spec(e: Expr) -> bool
    decreases e,
{
    match e {
        Expr::MVar(_) => true,
        Expr::Sort(l, h) => level_has_mvar_spec(l) || level_has_mvar_spec(h),
        Expr::Const(_, ls) => levels_have_mvar_spec(ls),
        Expr::App(f, a) => has_mvar_spec(*f) || has_mvar_spec(*a),
        Expr::Lam(_, t, b, _) => has_mvar_spec(*t) || has_mvar_spec(*b),
        Expr::ForallE(_, t, b, _) => has_mvar_spec(*t) || has_mvar_spec(*b),
        Expr::LetE(_, t, v, b, _) => has_mvar_spec(*t) || has_mvar_spec(*v) || has_mvar_spec(*b),
        Expr::MData(_, b) => has_mvar_spec(*b),
        Expr::Proj(_, _, b) => has_mvar_spec(*b),
        _ => false,
    }
}

/// Whether the level has a universe metavariable.
pub fn level_has_mvar(l: &Level) -> (r: bool)
    ensures
        r == level_has_mvar_spec(*l),
    decreases l,
{
    match l {
        Level::MVar(_) => true,
        Level::Succ(a) => level_has_mvar(a),
        Level::Max(a, b) | Level::IMax(a, b) => level_has_mvar(a) || level_has_mvar(b),
        _ => false,
    }
}

/// Whether some level of the list has a universe metavariable.
pub fn levels_have_mvar(ls: &LevelList) -> (r: bool)
    ensures
        r == levels_have_mvar_spec(*ls),
    decreases ls,
{
    match ls {
        LevelList::Nil => false,
        LevelList::Cons(h, t) => level_has_mvar(h) || levels_have_mvar(t),
    }
}

/// Whether the expression has a free variable.
pub fn expr_has_fvar(e: &Expr) -> (r: bool)
    ensures
        r == has_fvar_spec(*e),
    decreases e,
{
    match e {
        Expr::FVar(_) => true,
        Expr::App(f, a) => expr_has_fvar(f) || expr_has_fvar(a),
        Expr::Lam(_, t, b, _) | Expr::ForallE(_, t, b, _) => expr_has_fvar(t) || expr_has_fvar(b),
        Expr::LetE(_, t, v, b, _) => expr_has_fvar(t) || expr_has_fvar(v) || expr_has_fvar(b),
        Expr::MData(_, b) | Expr::Proj(_, _, b) => expr_has_fvar(b),
        _ => false,
    }
}

/// Whether the expression has an expression or a universe metavariable.
pub fn expr_has_mvar(e: &Expr) -> (r: bool)
    ensures
        r == has_mvar_spec(*e),
    decreases e,
{
    match e {
        Expr::MVar(_) => true,
        Expr::Sort(l, h) => level_has_mvar(l) || level_has_mvar(h),
        Expr::Const(_, ls) => levels_have_mvar(ls),
        Expr::App(f, a) => expr_has_mvar(f) || expr_has_mvar(a),
        Expr::Lam(_, t, b, _) | Expr::ForallE(_, t, b, _) => expr_has_mvar(t) || expr_has_mvar(b),
        Expr::LetE(_, t, v, b, _) => expr_has_mvar(t) || expr_has_mvar(v) || expr_has_mvar(b),
        Expr::MData(_, b) | Expr::Proj(_, _, b) => expr_has_mvar(b),
        _ => false,
    }
}

/// Whether the expression has a loose bound variable.
pub fn expr_has_loose_bvars(e: &Expr) -> (r: bool)
    requires
        crate::expr::wf_expr(*e),
    ensures
        r == (loose_bvar_range(*e) > 0),
{
    crate::bvars::expr_loose_bvar_range(e) > 0
}

/// Whether `e` is the constant `name`.
pub fn expr_is_const_name(e: &Expr, name: Name) -> (r: bool)
    ensures
        r == (*e matches Expr::Const(n, _) && n == name),
{
    match e {
        Expr::Const(n, _) => *n == name,
        _ => false,
    }
}

/// The argument of `e` when `e` is the constant `name` applied to one
/// argument.
pub fn match_app1_const_arg<'a>(e: &'a Expr, name: Name) -> (r: Option<&'a Expr>)
    ensures
        r == (match *e {
            Expr::App(f, a) => if *f matches Expr::Const(n, _) && n == name {
                Some(&*a)
            } else {
                None
            },
            _ => None,
        }),
{
    match e {
        Expr::App(f, a) => {
            if expr_is_const_name(f, name) {
                Some(&**a)
            } else {
                None
            }
        },
        _ => None,
    }
}

/// The first argument of `e` when `e` is the constant `name` applied to two
/// arguments.
pub fn match_app2_const_arg1<'a>(e: &'a Expr, name: Name) -> (r: Option<&'a Expr>)
    ensures
        r == (match *e {
            Expr::App(f, _) => match *f {
                Expr::App(g, a) => if *g matches Expr::Const(n, _) && n == name {
                    Some(&*a)
                } else {
                    None
                },
                _ => None,
            },
            _ => None,
        }),
{
    match e {
        Expr::App(f, _) => match &**f {
            Expr::App(g, a) => {
                if expr_is_const_name(g, name) {
                    Some(&**a)
                } else {
                    None
                }
            },
            _ => None,
        },
        _ => None,
    }
}

/// The kernel is present: always 1.
pub fn lean_kernel_rs_ping() -> (r: u8)
    ensures
        r == 1,
{
    1
}

} // verus!
