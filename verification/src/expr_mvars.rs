//! The pieces of expression metavariable instantiation: substituting free
//! variables, building applications, beta reduction, and instantiating the
//! universe metavariables of a list of levels.
use vstd::prelude::*;
use crate::expr::{Expr, Name, wf_expr, clone_expr, MAX_BVAR_RANGE};
use crate::bvars::{lift_spec, lift_ok, lift_loose_bvars, lemma_shift_by_zero, loose_bvar_range,
    lemma_range_bounds, lemma_lift_wf};
use crate::instantiate::{instantiate_spec, instantiate_ok, all_wf, lean_expr_instantiate_rs,
    lean_expr_instantiate1_rs};
use crate::expr_util::{expr_has_fvar, has_fvar_spec};
use crate::expr::{Level, LevelList};
use crate::expr_util::{expr_has_mvar, has_mvar_spec};
use crate::equality::lean_expr_equal_rs;
use crate::level_mvars::{InstantiateLevelMVars, inst_level_ranked, levels_acyclic,
    level_ctx_normalizes, some_level_rank, lemma_level_ctx_normalizes_itself, level_ctx_closed};
use crate::mctx::MetavarContext;
use crate::mvar_spec::{expr_rank, expr_size, app_head, inst_levels, inst_expr, inst_args,
    inst_ok, args_ok, ranked_ctx, is_normalized, normalized_inv, lemma_app_parts, lemma_inst_args,
    lemma_ctx_lookup, mvar_ctx_ok, some_expr_rank, instantiate_mvars_spec, instantiate_mvars_ok,
    expr_reaches, args_reach, reach_normalized, args_reach_normalized, lemma_reach_normalized_mono,
    instantiate_mvars_reaches};

verus! {

/// `e` with the free variable `x` replaced by `v`, lifted over the binders
/// it crosses (`off` of them outside `e`).
pub open spec fn subst_fvar_spec(e: Expr, x: Name, v: Expr, off: nat) -> Expr
    decreases e,
{
    match e {
        Expr::FVar(n) => if n == x {
            lift_spec(v, 0, off, 0)
        } else {
            e
        },
        Expr::App(f, a) => Expr::App(
            Box::new(subst_fvar_spec(*f, x, v, off)),
            Box::new(subst_fvar_spec(*a, x, v, off)),
        ),
        Expr::Lam(n, t, b, bi) => Expr::Lam(
            n,
            Box::new(subst_fvar_spec(*t, x, v, off)),
            Box::new(subst_fvar_spec(*b, x, v, off + 1)),
            bi,
        ),
        Expr::ForallE(n, t, b, bi) => Expr::ForallE(
            n,
            Box::new(subst_fvar_spec(*t, x, v, off)),
            Box::new(subst_fvar_spec(*b, x, v, off + 1)),
            bi,
        ),
        Expr::LetE(n, t, w, b, nd) => Expr::LetE(
            n,
            Box::new(subst_fvar_spec(*t, x, v, off)),
            Box::new(subst_fvar_spec(*w, x, v, off)),
            Box::new(subst_fvar_spec(*b, x, v, off + 1)),
            nd,
        ),
        Expr::MData(m, b) => Expr::MData(m, Box::new(subst_fvar_spec(*b, x, v, off))),
        Expr::Proj(n, k, b) => Expr::Proj(n, k, Box::new(subst_fvar_spec(*b, x, v, off))),
        _ => e,
    }
}

/// Every copy of `v` that the substitution makes can be lifted over the
/// binders it crosses without an index reaching `MAX_BVAR_RANGE`.
pub open spec fn subst_fvar_ok(e: Expr, x: Name, v: Expr, off: nat) -> bool
    decreases e,
{
    match e {
        Expr::FVar(n) => n == x ==> lift_ok(v, 0, off, 0),
        Expr::App(f, a) => subst_fvar_ok(*f, x, v, off) && subst_fvar_ok(*a, x, v, off),
        Expr::Lam(_, t, b, _) => subst_fvar_ok(*t, x, v, off) && subst_fvar_ok(*b, x, v, off + 1),
        Expr::ForallE(_, t, b, _) => subst_fvar_ok(*t, x, v, off) && subst_fvar_ok(
            *b,
            x,
            v,
            off + 1,
        ),
        Expr::LetE(_, t, w, b, _) => subst_fvar_ok(*t, x, v, off) && subst_fvar_ok(*w, x, v, off)
            && subst_fvar_ok(*b, x, v, off + 1),
        Expr::MData(_, b) => subst_fvar_ok(*b, x, v, off),
        Expr::Proj(_, _, b) => subst_fvar_ok(*b, x, v, off),
        _ => true,
    }
}

proof fn lemma_subst_no_fvar(e: Expr, x: Name, v: Expr, off: nat)
    requires
        !has_fvar_spec(e),
    ensures
        subst_fvar_spec(e, x, v, off) == e,
    decreases e,
{
    match e {
        Expr::App(f, a) => {
            lemma_subst_no_fvar(*f, x, v, off);
            lemma_subst_no_fvar(*a, x, v, off);
        },
        Expr::Lam(_, t, b, _) => {
            lemma_subst_no_fvar(*t, x, v, off);
            lemma_subst_no_fvar(*b, x, v, off + 1);
        },
        Expr::ForallE(_, t, b, _) => {
            lemma_subst_no_fvar(*t, x, v, off);
            lemma_subst_no_fvar(*b, x, v, off + 1);
        },
        Expr::LetE(_, t, w, b, _) => {
            lemma_subst_no_fvar(*t, x, v, off);
            lemma_subst_no_fvar(*w, x, v, off);
            lemma_subst_no_fvar(*b, x, v, off + 1);
        },
        Expr::MData(_, b) => lemma_subst_no_fvar(*b, x, v, off),
        Expr::Proj(_, _, b) => lemma_subst_no_fvar(*b, x, v, off),
        _ => {},
    }
}

/// An expression that can be lifted by at least `MAX_BVAR_RANGE` has no
/// loose bound variable, so lifting it changes nothing.
proof fn lemma_lift_far_closed(v: Expr, d: nat)
    requires
        d >= MAX_BVAR_RANGE,
        lift_ok(v, 0, d, 0),
    ensures
        loose_bvar_range(v) == 0,
        forall|d2: nat| #[trigger] lift_spec(v, 0, d2, 0) == v,
        forall|d2: nat| #[trigger] lift_ok(v, 0, d2, 0),
{
    lemma_lift_far_closed_off(v, d, 0);
    assert forall|d2: nat| #[trigger] lift_spec(v, 0, d2, 0) == v by {
        lemma_range_bounds(v, 0, d2);
    }
    assert forall|d2: nat| #[trigger] lift_ok(v, 0, d2, 0) by {
        lemma_closed_lift_ok(v, d2, 0);
    }
}

proof fn lemma_lift_far_closed_off(v: Expr, d: nat, off: nat)
    requires
        d >= MAX_BVAR_RANGE,
        lift_ok(v, 0, d, off),
    ensures
        loose_bvar_range(v) <= off,
    decreases v,
{
    match v {
        Expr::App(f, a) => {
            lemma_lift_far_closed_off(*f, d, off);
            lemma_lift_far_closed_off(*a, d, off);
        },
        Expr::Lam(_, t, b, _) => {
            lemma_lift_far_closed_off(*t, d, off);
            lemma_lift_far_closed_off(*b, d, off + 1);
        },
        Expr::ForallE(_, t, b, _) => {
            lemma_lift_far_closed_off(*t, d, off);
            lemma_lift_far_closed_off(*b, d, off + 1);
        },
        Expr::LetE(_, t, w, b, _) => {
            lemma_lift_far_closed_off(*t, d, off);
            lemma_lift_far_closed_off(*w, d, off);
            lemma_lift_far_closed_off(*b, d, off + 1);
        },
        Expr::MData(_, b) => lemma_lift_far_closed_off(*b, d, off),
        Expr::Proj(_, _, b) => lemma_lift_far_closed_off(*b, d, off),
        _ => {},
    }
}

proof fn lemma_closed_lift_ok(v: Expr, d: nat, off: nat)
    requires
        loose_bvar_range(v) <= off,
    ensures
        lift_ok(v, 0, d, off),
    decreases v,
{
    match v {
        Expr::App(f, a) => {
            lemma_closed_lift_ok(*f, d, off);
            lemma_closed_lift_ok(*a, d, off);
        },
        Expr::Lam(_, t, b, _) => {
            lemma_closed_lift_ok(*t, d, off);
            lemma_closed_lift_ok(*b, d, off + 1);
        },
        Expr::ForallE(_, t, b, _) => {
            lemma_closed_lift_ok(*t, d, off);
            lemma_closed_lift_ok(*b, d, off + 1);
        },
        Expr::LetE(_, t, w, b, _) => {
            lemma_closed_lift_ok(*t, d, off);
            lemma_closed_lift_ok(*w, d, off);
            lemma_closed_lift_ok(*b, d, off + 1);
        },
        Expr::MData(_, b) => lemma_closed_lift_ok(*b, d, off),
        Expr::Proj(_, _, b) => lemma_closed_lift_ok(*b, d, off),
        _ => {},
    }
}

/// From `MAX_BVAR_RANGE` binders down, the substitution (within bounds)
/// copies `v` unlifted, whatever the exact depth.
proof fn lemma_subst_far(e: Expr, x: Name, v: Expr, off: nat, off2: nat)
    requires
        off >= MAX_BVAR_RANGE,
        off2 >= MAX_BVAR_RANGE,
        subst_fvar_ok(e, x, v, off),
    ensures
        subst_fvar_spec(e, x, v, off) == subst_fvar_spec(e, x, v, off2),
        subst_fvar_ok(e, x, v, off2),
    decreases e,
{
    match e {
        Expr::FVar(n) => {
            if n == x {
                lemma_lift_far_closed(v, off);
            }
        },
        Expr::App(f, a) => {
            lemma_subst_far(*f, x, v, off, off2);
            lemma_subst_far(*a, x, v, off, off2);
        },
        Expr::Lam(_, t, b, _) => {
            lemma_subst_far(*t, x, v, off, off2);
            lemma_subst_far(*b, x, v, off + 1, off2 + 1);
        },
        Expr::ForallE(_, t, b, _) => {
            lemma_subst_far(*t, x, v, off, off2);
            lemma_subst_far(*b, x, v, off + 1, off2 + 1);
        },
        Expr::LetE(_, t, w, b, _) => {
            lemma_subst_far(*t, x, v, off, off2);
            lemma_subst_far(*w, x, v, off, off2);
            lemma_subst_far(*b, x, v, off + 1, off2 + 1);
        },
        Expr::MData(_, b) => lemma_subst_far(*b, x, v, off, off2),
        Expr::Proj(_, _, b) => lemma_subst_far(*b, x, v, off, off2),
        _ => {},
    }
}

/// Substitution of a well-formed expression within bounds keeps an
/// expression well formed.
pub proof fn lemma_subst_fvar_wf(e: Expr, x: Name, v: Expr, off: nat)
    requires
        wf_expr(e),
        wf_expr(v),
        subst_fvar_ok(e, x, v, off),
    ensures
        wf_expr(subst_fvar_spec(e, x, v, off)),
    decreases e,
{
    match e {
        Expr::FVar(n) => {
            if n == x {
                lemma_lift_wf(v, 0, off, 0);
            }
        },
        Expr::App(f, a) => {
            lemma_subst_fvar_wf(*f, x, v, off);
            lemma_subst_fvar_wf(*a, x, v, off);
        },
        Expr::Lam(_, t, b, _) => {
            lemma_subst_fvar_wf(*t, x, v, off);
            lemma_subst_fvar_wf(*b, x, v, off + 1);
        },
        Expr::ForallE(_, t, b, _) => {
            lemma_subst_fvar_wf(*t, x, v, off);
            lemma_subst_fvar_wf(*b, x, v, off + 1);
        },
        Expr::LetE(_, t, w, b, _) => {
            lemma_subst_fvar_wf(*t, x, v, off);
            lemma_subst_fvar_wf(*w, x, v, off);
            lemma_subst_fvar_wf(*b, x, v, off + 1);
        },
        Expr::MData(_, b) => lemma_subst_fvar_wf(*b, x, v, off),
        Expr::Proj(_, _, b) => lemma_subst_fvar_wf(*b, x, v, off),
        _ => {},
    }
}

/// Replaces the free variable `fvar` in `e` by `val`, lifted over the
/// binders it crosses; `offset` is the depth of `e` below the point of
/// substitution (counted up to `MAX_BVAR_RANGE`, beyond which a copy is no
/// longer lifted: within bounds it then has no loose bound variable).
fn subst_fvar_go(e: Expr, x: Name, val: &Expr, offset: usize, Ghost(off): Ghost<nat>) -> (r: Expr)
    requires
        wf_expr(*val),
        subst_fvar_ok(e, x, *val, off),
        offset as nat == if off < MAX_BVAR_RANGE {
            off
        } else {
            MAX_BVAR_RANGE as nat
        },
    ensures
        r == subst_fvar_spec(e, x, *val, off),
    decreases e,
{
    if !expr_has_fvar(&e) {
        proof {
            lemma_subst_no_fvar(e, x, *val, off);
        }
        return e;
    }
    let next = if offset < MAX_BVAR_RANGE as usize {
        offset + 1
    } else {
        offset
    };
    match e {
        Expr::FVar(n) => {
            if n == x {
                if offset == 0 {
                    proof {
                        lemma_shift_by_zero(*val, 0, 0);
                    }
                    clone_expr(val)
                } else if offset >= MAX_BVAR_RANGE as usize {
                    proof {
                        lemma_lift_far_closed(*val, off);
                    }
                    clone_expr(val)
                } else {
                    lift_loose_bvars(clone_expr(val), 0, offset as u32)
                }
            } else {
                Expr::FVar(n)
            }
        },
        Expr::App(f, a) => {
            let f_new = subst_fvar_go(*f, x, val, offset, Ghost(off));
            let a_new = subst_fvar_go(*a, x, val, offset, Ghost(off));
            Expr::App(Box::new(f_new), Box::new(a_new))
        },
        Expr::Lam(n, t, b, bi) => {
            let t_new = subst_fvar_go(*t, x, val, offset, Ghost(off));
            let b_new = subst_fvar_go(*b, x, val, next, Ghost(off + 1));
            Expr::Lam(n, Box::new(t_new), Box::new(b_new), bi)
        },
        Expr::ForallE(n, t, b, bi) => {
            let t_new = subst_fvar_go(*t, x, val, offset, Ghost(off));
            let b_new = subst_fvar_go(*b, x, val, next, Ghost(off + 1));
            Expr::ForallE(n, Box::new(t_new), Box::new(b_new), bi)
        },
        Expr::LetE(n, t, w, b, nd) => {
            let t_new = subst_fvar_go(*t, x, val, offset, Ghost(off));
            let w_new = subst_fvar_go(*w, x, val, offset, Ghost(off));
            let b_new = subst_fvar_go(*b, x, val, next, Ghost(off + 1));
            Expr::LetE(n, Box::new(t_new), Box::new(w_new), Box::new(b_new), nd)
        },
        Expr::MData(m, b) => {
            let b_new = subst_fvar_go(*b, x, val, offset, Ghost(off));
            Expr::MData(m, Box::new(b_new))
        },
        Expr::Proj(n, k, b) => {
            let b_new = subst_fvar_go(*b, x, val, offset, Ghost(off));
            Expr::Proj(n, k, Box::new(b_new))
        },
        _ => e,
    }
}

/// How many `let`s head reduction can unfold at the top of `e`: a `let`
/// counts one and then what its body unfolds, its bound variable standing for
/// what its value unfolds (`env` gives that count for each loose bound
/// variable).
pub open spec fn zeta_depth(e: Expr, env: Seq<nat>) -> nat
    decreases e,
{
    match e {
        Expr::LetE(_, _, v, b, _) => 1 + zeta_depth(*b, seq![zeta_depth(*v, env)] + env),
        Expr::BVar(j) => if j < env.len() {
            env[j as int]
        } else {
            0
        },
        _ => 0,
    }
}

/// Lifting the variables from `c` up by `d` is dropping `d` entries of the
/// environment.
pub proof fn lemma_zeta_lift(v: Expr, d: nat, c: nat, env: Seq<nat>)
    requires
        env.len() >= c + d,
        lift_ok(v, 0, d, c),
    ensures
        zeta_depth(lift_spec(v, 0, d, c), env) == zeta_depth(v, env.take(c as int) + env.skip(
            (c + d) as int,
        )),
    decreases v,
{
    match v {
        Expr::BVar(i) => {
            let env2 = env.take(c as int) + env.skip((c + d) as int);
            if i >= c {
                if i + d < env.len() {
                    assert(env2[i as int] == env[i + d]);
                }
            } else {
                assert(env2[i as int] == env[i as int]);
            }
        },
        Expr::LetE(_, _, w, b, _) => {
            let env2 = env.take(c as int) + env.skip((c + d) as int);
            lemma_zeta_lift(*w, d, c, env);
            let y = zeta_depth(lift_spec(*w, 0, d, c), env);
            lemma_zeta_lift(*b, d, c + 1, seq![y] + env);
            assert((seq![y] + env).take((c + 1) as int) + (seq![y] + env).skip((c + 1 + d) as int) =~= seq![y]
                + env2);
        },
        _ => {},
    }
}

/// Instantiating bound variable `off` with `v` is giving it, in the
/// environment, what `v` unfolds.
pub proof fn lemma_zeta_instantiate(b: Expr, v: Expr, off: nat, env: Seq<nat>)
    requires
        env.len() >= off,
        instantiate_ok(b, seq![v], false, off),
    ensures
        zeta_depth(instantiate_spec(b, seq![v], false, off), env) == zeta_depth(
            b,
            env.take(off as int) + seq![zeta_depth(v, env.skip(off as int))] + env.skip(
                off as int,
            ),
        ),
    decreases b,
{
    let x = zeta_depth(v, env.skip(off as int));
    let r = env.take(off as int) + seq![x] + env.skip(off as int);
    match b {
        Expr::BVar(i) => {
            if i < off {
                assert(r[i as int] == env[i as int]);
            } else if i == off {
                lemma_zeta_lift(v, off, 0, env);
                assert(env.take(0) + env.skip(off as int) =~= env.skip(off as int));
                assert(r[i as int] == x);
            } else {
                if i < r.len() {
                    assert(r[i as int] == env[i - 1]);
                }
            }
        },
        Expr::LetE(_, _, w, b2, _) => {
            lemma_zeta_instantiate(*w, v, off, env);
            let x2 = zeta_depth(instantiate_spec(*w, seq![v], false, off), env);
            let env2 = seq![x2] + env;
            lemma_zeta_instantiate(*b2, v, off + 1, env2);
            assert(env2.skip((off + 1) as int) =~= env.skip(off as int));
            assert(env2.take((off + 1) as int) + seq![x] + env2.skip((off + 1) as int) =~= seq![x2] + r);
        },
        _ => {},
    }
}

/// Unfolding a `let` at the head leaves fewer `let`s to unfold.
pub proof fn lemma_zeta_let_step(b: Expr, v: Expr)
    requires
        instantiate_ok(b, seq![v], false, 0),
    ensures
        zeta_depth(instantiate_spec(b, seq![v], false, 0), Seq::empty()) == zeta_depth(
            b,
            seq![zeta_depth(v, Seq::empty())],
        ),
{
    let e0 = Seq::<nat>::empty();
    lemma_zeta_instantiate(b, v, 0, e0);
    assert(e0.skip(0) =~= e0);
    assert(e0.take(0) =~= e0);
    assert(e0.take(0) + seq![zeta_depth(v, e0.skip(0))] + e0.skip(0) =~= seq![
        zeta_depth(v, e0),
    ]);
}

/// `f` applied to the arguments of `args`, which holds them last first.
pub open spec fn mk_rev_app_spec(f: Expr, args: Seq<Expr>) -> Expr
    decreases args.len(),
{
    if args.len() == 0 {
        f
    } else {
        Expr::App(Box::new(mk_rev_app_spec(f, args.drop_first())), Box::new(args[0]))
    }
}

/// `e` with its loose bound variable `i` replaced by `rev_args[i]`: the
/// arguments are held last first, so the innermost binder takes the last.
pub open spec fn instantiate_n_spec(e: Expr, rev_args: Seq<Expr>) -> Expr {
    if rev_args.len() == 0 {
        e
    } else {
        instantiate_spec(e, rev_args, false, 0)
    }
}

/// The instantiation of `instantiate_n_spec` stays within bounds.
pub open spec fn instantiate_n_ok(e: Expr, rev_args: Seq<Expr>) -> bool {
    rev_args.len() == 0 || instantiate_ok(e, rev_args, false, 0)
}

/// Head beta reduction of `e`, `i` of the arguments of `args` (held last
/// first) already consumed by the lambdas crossed; a `let` at the head is
/// unfolded.
pub open spec fn apply_beta_rec_spec(e: Expr, i: nat, args: Seq<Expr>) -> Expr
    decreases args.len() - i, zeta_depth(e, seq![]),
{
    match e {
        Expr::Lam(_, _, b, _) => if i + 1 < args.len() {
            apply_beta_rec_spec(*b, i + 1, args)
        } else {
            instantiate_n_spec(*b, args)
        },
        Expr::LetE(_, _, v, b, _) => if instantiate_ok(*b, seq![*v], false, 0) {
            proof {
                lemma_zeta_let_step(*b, *v);
            }
            apply_beta_rec_spec(instantiate_spec(*b, seq![*v], false, 0), i, args)
        } else {
            e
        },
        _ => {
            let n = args.len() - i;
            mk_rev_app_spec(
                instantiate_n_spec(e, args.subrange(n, args.len() as int)),
                args.subrange(0, n),
            )
        },
    }
}

/// Every instantiation that `apply_beta_rec_spec` makes stays within
/// bounds.
pub open spec fn apply_beta_rec_ok(e: Expr, i: nat, args: Seq<Expr>) -> bool
    decreases args.len() - i, zeta_depth(e, seq![]),
{
    match e {
        Expr::Lam(_, _, b, _) => if i + 1 < args.len() {
            apply_beta_rec_ok(*b, i + 1, args)
        } else {
            instantiate_n_ok(*b, args)
        },
        Expr::LetE(_, _, v, b, _) => instantiate_ok(*b, seq![*v], false, 0) && {
            proof {
                lemma_zeta_let_step(*b, *v);
            }
            apply_beta_rec_ok(instantiate_spec(*b, seq![*v], false, 0), i, args)
        },
        _ => {
            let n = args.len() - i;
            instantiate_n_ok(e, args.subrange(n, args.len() as int))
        },
    }
}

/// `f` applied to `args` (held last first), reduced at the head.
pub open spec fn apply_beta_spec(f: Expr, args: Seq<Expr>) -> Expr {
    if args.len() == 0 {
        f
    } else {
        apply_beta_rec_spec(f, 0, args)
    }
}

/// The reduction of `apply_beta_spec` stays within bounds.
pub open spec fn apply_beta_ok(f: Expr, args: Seq<Expr>) -> bool {
    args.len() == 0 || apply_beta_rec_ok(f, 0, args)
}

/// `e` after the first `j` substitutions of `replace_fvars_spec`.
pub open spec fn replace_fvars_upto(e: Expr, fvars: Seq<Expr>, rev_args: Seq<Expr>, j: nat) -> Expr
    decreases j,
{
    if j == 0 {
        e
    } else {
        subst_fvar_spec(
            replace_fvars_upto(e, fvars, rev_args, (j - 1) as nat),
            fvars[j - 1]->FVar_0,
            rev_args[fvars.len() - j],
            0,
        )
    }
}

/// `e` with the free variables of `fvars` replaced one after the other,
/// `fvars[i]` by `rev_args[fvars.len() - 1 - i]`.
pub open spec fn replace_fvars_spec(e: Expr, fvars: Seq<Expr>, rev_args: Seq<Expr>) -> Expr {
    replace_fvars_upto(e, fvars, rev_args, fvars.len())
}

/// The first `j` substitutions of `replace_fvars_spec` stay within bounds.
pub open spec fn replace_fvars_ok_upto(e: Expr, fvars: Seq<Expr>, rev_args: Seq<Expr>, j: nat) -> bool
    decreases j,
{
    j == 0 || (replace_fvars_ok_upto(e, fvars, rev_args, (j - 1) as nat) && subst_fvar_ok(
        replace_fvars_upto(e, fvars, rev_args, (j - 1) as nat),
        fvars[j - 1]->FVar_0,
        rev_args[fvars.len() - j],
        0,
    ))
}

/// Every substitution of `replace_fvars_spec` stays within bounds.
pub open spec fn replace_fvars_ok(e: Expr, fvars: Seq<Expr>, rev_args: Seq<Expr>) -> bool {
    replace_fvars_ok_upto(e, fvars, rev_args, fvars.len())
}

proof fn lemma_replace_ok_prefix(e: Expr, fvars: Seq<Expr>, vals: Seq<Expr>, j: nat, k: nat)
    requires
        replace_fvars_ok_upto(e, fvars, vals, j),
        0 < k <= j,
    ensures
        subst_fvar_ok(replace_fvars_upto(e, fvars, vals, (k - 1) as nat), fvars[k - 1]->FVar_0,
            vals[fvars.len() - k], 0),
    decreases j,
{
    if k < j {
        lemma_replace_ok_prefix(e, fvars, vals, (j - 1) as nat, k);
    }
}

/// The state of an expression metavariable instantiation.
pub struct InstantiateExprMVars {
    /// The values that normalized ones replaced in the context.
    pub saved: Vec<Expr>,
    /// The metavariables whose value is normalized, or being normalized.
    pub already_normalized: Vec<Name>,
    /// The universe metavariable instantiation.
    pub level_inst: InstantiateLevelMVars,
}

impl InstantiateExprMVars {
    /// Replaces the free variable `fvar` in `e` by `val`, lifted over the
    /// binders it crosses, `e` lying `offset` binders below the point of
    /// substitution.
    pub fn subst_fvar(e: Expr, fvar: &Expr, val: &Expr, offset: usize) -> (r: Expr)
        requires
            *fvar is FVar,
            wf_expr(*val),
            subst_fvar_ok(e, fvar->FVar_0, *val, offset as nat),
        ensures
            r == subst_fvar_spec(e, fvar->FVar_0, *val, offset as nat),
    {
        let x = match fvar {
            Expr::FVar(n) => *n,
            _ => Name { id: 0 },
        };
        if offset >= MAX_BVAR_RANGE as usize {
            proof {
                lemma_subst_far(e, x, *val, offset as nat, MAX_BVAR_RANGE as nat);
            }
            subst_fvar_go(e, x, val, MAX_BVAR_RANGE as usize, Ghost(MAX_BVAR_RANGE as nat))
        } else {
            subst_fvar_go(e, x, val, offset, Ghost(offset as nat))
        }
    }

    /// `e` with the free variables `fvars[i]` replaced, one after the other,
    /// by the arguments `rev_args[lo .. lo + fvars.len()]` (held last first:
    /// `fvars[0]` by the last of them).
    pub fn replace_fvars(e: Expr, fvars: &Vec<Expr>, rev_args: &Vec<Expr>, lo: usize) -> (r: Expr)
        requires
            lo + fvars@.len() <= rev_args@.len(),
            forall|k: int| 0 <= k < fvars@.len() ==> #[trigger] fvars@[k] is FVar,
            wf_expr(e),
            all_wf(rev_args@),
            replace_fvars_ok(e, fvars@, rev_args@.subrange(lo as int, lo + fvars@.len())),
        ensures
            r == replace_fvars_spec(e, fvars@, rev_args@.subrange(lo as int, lo + fvars@.len())),
            wf_expr(r),
    {
        let sz = fvars.len();
        let ghost vals = rev_args@.subrange(lo as int, lo + sz);
        if sz == 0 {
            return e;
        }
        let total = rev_args.len();
        let top = lo + sz;
        let mut result = e;
        let mut i: usize = 0;
        while i < sz
            invariant
                sz == fvars@.len(),
                top == lo + sz,
                top <= total == rev_args@.len(),
                vals == rev_args@.subrange(lo as int, lo + sz),
                forall|k: int| 0 <= k < fvars@.len() ==> #[trigger] fvars@[k] is FVar,
                all_wf(rev_args@),
                replace_fvars_ok_upto(e, fvars@, vals, sz as nat),
                i <= sz,
                result == replace_fvars_upto(e, fvars@, vals, i as nat),
                wf_expr(result),
            decreases sz - i,
        {
            proof {
                lemma_replace_ok_prefix(e, fvars@, vals, sz as nat, (i + 1) as nat);
                assert(vals[sz - (i + 1)] == rev_args@[top - 1 - i]);
                assert(wf_expr(rev_args@[top - 1 - i]));
                lemma_subst_fvar_wf(
                    result,
                    fvars@[i as int]->FVar_0,
                    rev_args@[top - 1 - i],
                    0,
                );
            }
            result = Self::subst_fvar(result, &fvars[i], &rev_args[top - 1 - i], 0);
            i += 1;
        }
        result
    }

    /// `f` applied to the arguments `args[lo .. hi]`, which are held last
    /// first.
    pub fn mk_rev_app(f: Expr, args: &Vec<Expr>, lo: usize, hi: usize) -> (r: Expr)
        requires
            lo <= hi <= args@.len(),
        ensures
            r == mk_rev_app_spec(f, args@.subrange(lo as int, hi as int)),
            wf_expr(f) && all_wf(args@) ==> wf_expr(r),
    {
        let mut result = f;
        let mut i = hi;
        proof {
            assert(args@.subrange(hi as int, hi as int) =~= Seq::<Expr>::empty());
        }
        while i > lo
            invariant
                lo <= i <= hi <= args@.len(),
                result == mk_rev_app_spec(f, args@.subrange(i as int, hi as int)),
                wf_expr(f) && all_wf(args@) ==> wf_expr(result),
            decreases i,
        {
            i = i - 1;
            proof {
                assert(args@.subrange(i as int, hi as int).drop_first() =~= args@.subrange(
                    i + 1,
                    hi as int,
                ));
                if all_wf(args@) {
                    assert(wf_expr(args@[i as int]));
                }
            }
            result = Expr::App(Box::new(result), Box::new(clone_expr(&args[i])));
        }
        result
    }

    /// `e` with its loose bound variable `j` replaced by `rev_args[lo + j]`,
    /// for the `n` arguments `rev_args[lo .. lo + n]` (held last first).
    pub fn instantiate_n(e: Expr, n: usize, rev_args: &Vec<Expr>, lo: usize) -> (r: Expr)
        requires
            lo + n <= rev_args@.len(),
            wf_expr(e),
            all_wf(rev_args@),
            instantiate_n_ok(e, rev_args@.subrange(lo as int, lo + n)),
        ensures
            r == instantiate_n_spec(e, rev_args@.subrange(lo as int, lo + n)),
            wf_expr(r),
    {
        if n == 0 {
            return e;
        }
        let ghost s = rev_args@.subrange(lo as int, lo + n);
        let total = rev_args.len();
        let mut arr: Vec<Expr> = Vec::new();
        let mut i: usize = 0;
        while i < n
            invariant
                lo + n <= total == rev_args@.len(),
                s == rev_args@.subrange(lo as int, lo + n),
                all_wf(rev_args@),
                i <= n,
                arr@.len() == i,
                forall|j: int| 0 <= j < i ==> arr@[j] == s[j],
            decreases n - i,
        {
            arr.push(clone_expr(&rev_args[lo + i]));
            i += 1;
        }
        proof {
            assert(arr@ =~= s);
            assert forall|k: int| 0 <= k < arr@.len() implies #[trigger] wf_expr(arr@[k]) by {
                assert(arr@[k] == rev_args@[lo + k]);
            }
        }
        lean_expr_instantiate_rs(e, &arr)
    }

    /// Head beta reduction of `e` with the arguments `args` (held last
    /// first), `i` of them already consumed by the lambdas crossed.
    pub fn apply_beta_rec(e: Expr, i: usize, args: &Vec<Expr>) -> (r: Expr)
        requires
            i < args@.len(),
            wf_expr(e),
            all_wf(args@),
            apply_beta_rec_ok(e, i as nat, args@),
        ensures
            r == apply_beta_rec_spec(e, i as nat, args@),
            wf_expr(r),
        decreases args@.len() - i, zeta_depth(e, seq![]),
    {
        let num_args = args.len();
        match e {
            Expr::Lam(_, _, b, _) => {
                if i + 1 < num_args {
                    Self::apply_beta_rec(*b, i + 1, args)
                } else {
                    proof {
                        assert(args@.subrange(0, num_args as int) =~= args@);
                    }
                    Self::instantiate_n(*b, num_args, args, 0)
                }
            },
            Expr::LetE(_, _, v, b, _) => {
                let expanded = lean_expr_instantiate1_rs(*b, &v);
                proof {
                    lemma_zeta_let_step(*b, *v);
                }
                Self::apply_beta_rec(expanded, i, args)
            },
            other => {
                let n = num_args - i;
                let inst = Self::instantiate_n(other, i, args, n);
                Self::mk_rev_app(inst, args, 0, n)
            },
        }
    }

    /// `f` applied to the `num_args` arguments `args` (held last first),
    /// reduced at the head.
    pub fn apply_beta(f: Expr, num_args: usize, args: &Vec<Expr>) -> (r: Expr)
        requires
            num_args == args@.len(),
            wf_expr(f),
            all_wf(args@),
            apply_beta_ok(f, args@),
        ensures
            r == apply_beta_spec(f, args@),
            wf_expr(r),
    {
        if num_args == 0 {
            return f;
        }
        Self::apply_beta_rec(f, 0, args)
    }
}

/// Changing only the universe assignments, within the invariant, keeps
/// the invariant.
proof fn lemma_same_exprs_inv(
    done: Seq<Name>,
    m0: MetavarContext,
    m1: MetavarContext,
    orig: MetavarContext,
    lrank: spec_fn(Name) -> nat,
    rank: spec_fn(Name) -> nat,
    c: nat,
)
    requires
        normalized_inv(done, m0, orig, lrank, rank, c),
        m1.expr_assignments == m0.expr_assignments,
        m1.delayed_assignments == m0.delayed_assignments,
        level_ctx_normalizes(m1.level_assignments@, orig.level_assignments@, lrank),
        level_ctx_closed(m1.level_assignments@, orig.level_assignments@, lrank),
    ensures
        normalized_inv(done, m1, orig, lrank, rank, c),
        forall|j: Name| is_normalized(m0, orig, lrank, rank, j)
            ==> #[trigger] is_normalized(m1, orig, lrank, rank, j),
{
    assert forall|k: Name| #[trigger] m1.expr_of(k) == m0.expr_of(k) by {}
    assert forall|k: Name| #[trigger] m1.expr_of(k) == orig.expr_of(k) || is_normalized(
        m1,
        orig,
        lrank,
        rank,
        k,
    ) by {
        assert(m0.expr_of(k) == orig.expr_of(k) || is_normalized(m0, orig, lrank, rank, k));
    }
    assert forall|k: Name| #[trigger] done.contains(k) && rank(k) < c implies is_normalized(
        m1,
        orig,
        lrank,
        rank,
        k,
    ) && reach_normalized(m1, orig, lrank, rank, orig.expr_of(k)->Some_0) by {
        assert(is_normalized(m0, orig, lrank, rank, k));
        lemma_reach_normalized_mono(m0, m1, orig, lrank, rank, orig.expr_of(k)->Some_0);
    }
}

/// A copy of a vector of expressions.
fn clone_exprs(v: &Vec<Expr>) -> (r: Vec<Expr>)
    ensures
        r@ == v@,
{
    let mut r: Vec<Expr> = Vec::new();
    let mut i: usize = 0;
    while i < v.len()
        invariant
            i <= v@.len(),
            r@ == v@.subrange(0, i as int),
        decreases v@.len() - i,
    {
        r.push(clone_expr(&v[i]));
        i += 1;
        proof {
            assert(r@ =~= v@.subrange(0, i as int));
        }
    }
    proof {
        assert(v@.subrange(0, v@.len() as int) =~= v@);
    }
    r
}

/// Whether `k` is one of `names`.
fn names_contain(names: &Vec<Name>, k: Name) -> (r: bool)
    ensures
        r == names@.contains(k),
{
    let mut i: usize = 0;
    while i < names.len()
        invariant
            i <= names@.len(),
            forall|j: int| 0 <= j < i ==> names@[j] != k,
        decreases names@.len() - i,
    {
        if names[i] == k {
            assert(names@[i as int] == k);
            return true;
        }
        i += 1;
    }
    false
}

/// The function at the head of a chain of applications.
fn app_head_of(e: &Expr) -> (r: &Expr)
    ensures
        *r == app_head(*e),
    decreases e,
{
    match e {
        Expr::App(f, _) => app_head_of(f),
        _ => e,
    }
}

impl InstantiateExprMVars {
    /// A fresh instantiation.
    pub fn new() -> (r: Self)
        ensures
            r.saved@.len() == 0,
            r.already_normalized@.len() == 0,
            r.level_inst.saved@.len() == 0,
    {
        InstantiateExprMVars {
            saved: Vec::new(),
            already_normalized: Vec::new(),
            level_inst: InstantiateLevelMVars::new(),
        }
    }

    /// Whether `e` has an expression or a universe metavariable.
    pub fn expr_has_any_mvar(e: &Expr) -> (r: bool)
        ensures
            r == has_mvar_spec(*e),
    {
        expr_has_mvar(e)
    }

    /// `l` with its universe metavariables instantiated (as in `orig`).
    pub fn visit_level(
        &mut self,
        mctx: &mut MetavarContext,
        l: &Level,
        Ghost(orig): Ghost<MetavarContext>,
        Ghost(lrank): Ghost<spec_fn(Name) -> nat>,
    ) -> (r: Level)
        requires
            levels_acyclic(orig.level_assignments@, lrank),
            level_ctx_normalizes(old(mctx).level_assignments@, orig.level_assignments@, lrank),
            level_ctx_closed(old(mctx).level_assignments@, orig.level_assignments@, lrank),
        ensures
            r == inst_level_ranked(*l, orig.level_assignments@, lrank),
            level_ctx_normalizes(final(mctx).level_assignments@, orig.level_assignments@, lrank),
            level_ctx_closed(final(mctx).level_assignments@, orig.level_assignments@, lrank),
            final(mctx).expr_assignments == old(mctx).expr_assignments,
            final(mctx).delayed_assignments == old(mctx).delayed_assignments,
            final(self).already_normalized == old(self).already_normalized,
    {
        self.level_inst.visit(mctx, l, Ghost(orig.level_assignments@), Ghost(lrank))
    }

    /// Every level of `ls` with its universe metavariables instantiated (as
    /// in `orig`).
    pub fn visit_levels(
        &mut self,
        mctx: &mut MetavarContext,
        ls: &LevelList,
        Ghost(orig): Ghost<MetavarContext>,
        Ghost(lrank): Ghost<spec_fn(Name) -> nat>,
    ) -> (r: LevelList)
        requires
            levels_acyclic(orig.level_assignments@, lrank),
            level_ctx_normalizes(old(mctx).level_assignments@, orig.level_assignments@, lrank),
            level_ctx_closed(old(mctx).level_assignments@, orig.level_assignments@, lrank),
        ensures
            r == inst_levels(*ls, orig.level_assignments@, lrank),
            level_ctx_normalizes(final(mctx).level_assignments@, orig.level_assignments@, lrank),
            level_ctx_closed(final(mctx).level_assignments@, orig.level_assignments@, lrank),
            final(mctx).expr_assignments == old(mctx).expr_assignments,
            final(mctx).delayed_assignments == old(mctx).delayed_assignments,
            final(self).already_normalized == old(self).already_normalized,
        decreases ls,
    {
        match ls {
            LevelList::Nil => LevelList::Nil,
            LevelList::Cons(h, t) => {
                let h_new = self.visit_level(mctx, h, Ghost(orig), Ghost(lrank));
                let t_new = self.visit_levels(mctx, t, Ghost(orig), Ghost(lrank));
                LevelList::Cons(Box::new(h_new), Box::new(t_new))
            },
        }
    }
}

impl InstantiateExprMVars {
    /// What the expression metavariable `mid` is assigned, instantiated (as
    /// in `orig`); the context then assigns it that instantiation.
    pub fn get_assignment(
        &mut self,
        mctx: &mut MetavarContext,
        mid: Name,
        Ghost(orig): Ghost<MetavarContext>,
        Ghost(lrank): Ghost<spec_fn(Name) -> nat>,
        Ghost(rank): Ghost<spec_fn(Name) -> nat>,
        Ghost(c): Ghost<nat>,
    ) -> (r: Option<Expr>)
        requires
            ranked_ctx(orig, lrank, rank),
            rank(mid) < c,
            orig.expr_of(mid) matches Some(v) ==> inst_ok(v, orig, lrank, rank),
            normalized_inv(old(self).already_normalized@, *old(mctx), orig, lrank, rank, c),
        ensures
            r == match orig.expr_of(mid) {
                Some(v) => Some(inst_expr(v, orig, lrank, rank)),
                None => None,
            },
            r matches Some(x) ==> wf_expr(x),
            normalized_inv(final(self).already_normalized@, *final(mctx), orig, lrank, rank, c),
            forall|j: Name| #[trigger] final(self).already_normalized@.contains(j)
                ==> old(self).already_normalized@.contains(j) || rank(j) < c,
            forall|j: Name| old(self).already_normalized@.contains(j)
                ==> #[trigger] final(self).already_normalized@.contains(j),
            forall|j: Name| is_normalized(*old(mctx), orig, lrank, rank, j)
                ==> #[trigger] is_normalized(*final(mctx), orig, lrank, rank, j),
            orig.expr_of(mid) is Some ==> is_normalized(*final(mctx), orig, lrank, rank, mid)
                && reach_normalized(*final(mctx), orig, lrank, rank, orig.expr_of(mid)->Some_0),
            forall|k: Name|
                k != mid && !(orig.expr_of(mid) is Some && expr_reaches(
                    orig.expr_of(mid)->Some_0,
                    orig,
                    lrank,
                    rank,
                    k,
                )) ==> #[trigger] final(mctx).expr_of(k) == old(mctx).expr_of(k),
        decreases (rank(mid) + 1) as nat, 0nat, 0nat,
    {
        proof {
            lemma_ctx_lookup(orig, rank, mid);
            assert(mctx.expr_of(mid) == orig.expr_of(mid) || is_normalized(
                *mctx,
                orig,
                lrank,
                rank,
                mid,
            ));
        }
        let cur = mctx.get_expr_assignment(mid);
        match cur {
            None => None,
            Some(a) => {
                proof {
                    assert(mctx.expr_of(mid) matches Some(v) ==> wf_expr(v));
                }
                if !Self::expr_has_any_mvar(&a) || names_contain(&self.already_normalized, mid) {
                    return Some(a);
                }
                proof {
                    assert(mctx.expr_of(mid) != orig.expr_of(mid) ==> self.already_normalized@.contains(
                        mid,
                    ));
                }
                let ghost done0 = self.already_normalized@;
                let ghost m0 = *mctx;
                self.already_normalized.push(mid);
                proof {
                    assert forall|k: Name|
                        #[trigger] self.already_normalized@.contains(k) <==> (done0.contains(k) || k
                            == mid) by {
                        if done0.contains(k) {
                            let i = choose|i: int| 0 <= i < done0.len() && done0[i] == k;
                            assert(self.already_normalized@[i] == k);
                        }
                        if k == mid {
                            assert(self.already_normalized@[done0.len() as int] == k);
                        }
                        if self.already_normalized@.contains(k) {
                            let i = choose|i: int|
                                0 <= i < self.already_normalized@.len()
                                    && self.already_normalized@[i] == k;
                            if i < done0.len() {
                                assert(done0[i] == k);
                            }
                        }
                    }
                }
                let ghost done1 = self.already_normalized@;
                let a_new = self.visit(mctx, &a, Ghost(orig), Ghost(lrank), Ghost(rank), Ghost(rank(mid)));
                let ghost m1 = *mctx;
                let ghost done2 = self.already_normalized@;
                if lean_expr_equal_rs(&a, &a_new) != 1 {
                    self.saved.push(a);
                    mctx.assign_expr(mid, clone_expr(&a_new));
                    proof {
                        assert forall|k: Name| k != mid implies #[trigger] mctx.expr_of(k) == m1.expr_of(k)
                            && (is_normalized(*mctx, orig, lrank, rank, k) == is_normalized(
                            m1,
                            orig,
                            lrank,
                            rank,
                            k,
                        )) by {}
                        assert(is_normalized(*mctx, orig, lrank, rank, mid));
                    }
                } else {
                    proof {
                        assert(m1.expr_of(mid) == orig.expr_of(mid) || is_normalized(
                            m1,
                            orig,
                            lrank,
                            rank,
                            mid,
                        ));
                    }
                }
                proof {
                    let m2 = *mctx;
                    assert forall|k: Name| #[trigger] done2.contains(k) && rank(k) < c implies is_normalized(
                        m2,
                        orig,
                        lrank,
                        rank,
                        k,
                    ) by {
                        if k != mid && rank(k) >= rank(mid) {
                            assert(done1.contains(k));
                            assert(done0.contains(k));
                            assert(is_normalized(m0, orig, lrank, rank, k));
                            assert(is_normalized(m1, orig, lrank, rank, k));
                        }
                    }
                    assert forall|k: Name| #[trigger] m2.expr_of(k) != orig.expr_of(k) implies done2.contains(k) by {
                        if k == mid {
                            assert(done1.contains(mid));
                        } else {
                            assert(m2.expr_of(k) == m1.expr_of(k));
                        }
                    }
                    assert forall|k: Name| (#[trigger] m2.expr_of(k)) is Some implies wf_expr(m2.expr_of(k)->Some_0) by {
                        if k != mid {
                            assert(m2.expr_of(k) == m1.expr_of(k));
                        }
                    }
                    assert forall|k: Name| #[trigger] m2.expr_of(k) == orig.expr_of(k) || is_normalized(m2, orig, lrank, rank, k) by {
                        if k != mid {
                            assert(m1.expr_of(k) == orig.expr_of(k) || is_normalized(m1, orig, lrank, rank, k));
                        }
                    }
                    assert forall|j: Name| #[trigger] done2.contains(j) implies done0.contains(j) || rank(j) < c by {
                        if !done1.contains(j) {
                            assert(rank(j) < rank(mid));
                        }
                    }
                    assert forall|j: Name| is_normalized(m0, orig, lrank, rank, j) implies #[trigger] is_normalized(
                        m2,
                        orig,
                        lrank,
                        rank,
                        j,
                    ) by {
                        assert(is_normalized(m1, orig, lrank, rank, j));
                    }
                    assert forall|j: Name| done0.contains(j) implies #[trigger] done2.contains(j) by {
                        assert(done1.contains(j));
                    }
                }
                Some(a_new)
            },
        }
    }

    /// The metavariable `e` replaced by its value instantiated, if it is
    /// assigned.
    pub fn visit_mvar(
        &mut self,
        mctx: &mut MetavarContext,
        e: &Expr,
        Ghost(orig): Ghost<MetavarContext>,
        Ghost(lrank): Ghost<spec_fn(Name) -> nat>,
        Ghost(rank): Ghost<spec_fn(Name) -> nat>,
        Ghost(c): Ghost<nat>,
    ) -> (r: Expr)
        requires
            *e is MVar,
            ranked_ctx(orig, lrank, rank),
            expr_rank(*e, rank) <= c,
            wf_expr(*e),
            normalized_inv(old(self).already_normalized@, *old(mctx), orig, lrank, rank, c),
            inst_ok(*e, orig, lrank, rank),
        ensures
            r == inst_expr(*e, orig, lrank, rank),
            wf_expr(r),
            normalized_inv(final(self).already_normalized@, *final(mctx), orig, lrank, rank, c),
            forall|j: Name| #[trigger] final(self).already_normalized@.contains(j)
                ==> old(self).already_normalized@.contains(j) || rank(j) < c,
            forall|j: Name| old(self).already_normalized@.contains(j)
                ==> #[trigger] final(self).already_normalized@.contains(j),
            forall|j: Name| is_normalized(*old(mctx), orig, lrank, rank, j)
                ==> #[trigger] is_normalized(*final(mctx), orig, lrank, rank, j),
            reach_normalized(*final(mctx), orig, lrank, rank, *e),
            forall|k: Name|
                !expr_reaches(*e, orig, lrank, rank, k) ==> #[trigger] final(mctx).expr_of(k) == old(
                    mctx,
                ).expr_of(k),
        decreases expr_rank(*e, rank), expr_size(*e), 2nat,
    {
        match e {
            Expr::MVar(k) => {
                proof {
                    lemma_ctx_lookup(orig, rank, *k);
                }
                match self.get_assignment(mctx, *k, Ghost(orig), Ghost(lrank), Ghost(rank), Ghost(c)) {
                    Some(r) => r,
                    None => clone_expr(e),
                }
            },
            _ => clone_expr(e),
        }
    }

    /// Pushes the arguments of the chain of applications `e` onto `out`,
    /// the last first, each instantiated.
    fn visit_args(
        &mut self,
        mctx: &mut MetavarContext,
        e: &Expr,
        out: &mut Vec<Expr>,
        Ghost(orig): Ghost<MetavarContext>,
        Ghost(lrank): Ghost<spec_fn(Name) -> nat>,
        Ghost(rank): Ghost<spec_fn(Name) -> nat>,
        Ghost(c): Ghost<nat>,
    )
        requires
            ranked_ctx(orig, lrank, rank),
            expr_rank(*e, rank) <= c,
            wf_expr(*e),
            normalized_inv(old(self).already_normalized@, *old(mctx), orig, lrank, rank, c),
            args_ok(*e, orig, lrank, rank),
            all_wf(old(out)@),
        ensures
            final(out)@ == old(out)@ + inst_args(*e, orig, lrank, rank),
            all_wf(final(out)@),
            normalized_inv(final(self).already_normalized@, *final(mctx), orig, lrank, rank, c),
            forall|j: Name| #[trigger] final(self).already_normalized@.contains(j)
                ==> old(self).already_normalized@.contains(j) || rank(j) < c,
            forall|j: Name| old(self).already_normalized@.contains(j)
                ==> #[trigger] final(self).already_normalized@.contains(j),
            forall|j: Name| is_normalized(*old(mctx), orig, lrank, rank, j)
                ==> #[trigger] is_normalized(*final(mctx), orig, lrank, rank, j),
            args_reach_normalized(*final(mctx), orig, lrank, rank, *e),
            forall|k: Name|
                !args_reach(*e, orig, lrank, rank, k) ==> #[trigger] final(mctx).expr_of(k) == old(
                    mctx,
                ).expr_of(k),
        decreases expr_rank(*e, rank), expr_size(*e), 0nat,
    {
        match e {
            Expr::App(f, a) => {
                let ghost out0 = out@;
                let a_new = self.visit(mctx, a, Ghost(orig), Ghost(lrank), Ghost(rank), Ghost(c));
                out.push(a_new);
                proof {
                    assert forall|k: int| 0 <= k < out@.len() implies #[trigger] wf_expr(out@[k]) by {
                        if k < out0.len() {
                            assert(out@[k] == out0[k]);
                        }
                    }
                }
                self.visit_args(mctx, f, out, Ghost(orig), Ghost(lrank), Ghost(rank), Ghost(c));
                proof {
                    assert(out@ =~= out0 + inst_args(*e, orig, lrank, rank));
                }
            },
            _ => {
                proof {
                    assert(out@ =~= out@ + inst_args(*e, orig, lrank, rank));
                }
            },
        }
    }

    /// The application `e`, whose head is a metavariable left as it is,
    /// with its arguments instantiated.
    pub fn visit_mvar_app_args(
        &mut self,
        mctx: &mut MetavarContext,
        e: &Expr,
        Ghost(orig): Ghost<MetavarContext>,
        Ghost(lrank): Ghost<spec_fn(Name) -> nat>,
        Ghost(rank): Ghost<spec_fn(Name) -> nat>,
        Ghost(c): Ghost<nat>,
    ) -> (r: Expr)
        requires
            app_head(*e) is MVar,
            ranked_ctx(orig, lrank, rank),
            expr_rank(*e, rank) <= c,
            wf_expr(*e),
            normalized_inv(old(self).already_normalized@, *old(mctx), orig, lrank, rank, c),
            args_ok(*e, orig, lrank, rank),
        ensures
            r == mk_rev_app_spec(app_head(*e), inst_args(*e, orig, lrank, rank)),
            wf_expr(r),
            normalized_inv(final(self).already_normalized@, *final(mctx), orig, lrank, rank, c),
            forall|j: Name| #[trigger] final(self).already_normalized@.contains(j)
                ==> old(self).already_normalized@.contains(j) || rank(j) < c,
            forall|j: Name| old(self).already_normalized@.contains(j)
                ==> #[trigger] final(self).already_normalized@.contains(j),
            forall|j: Name| is_normalized(*old(mctx), orig, lrank, rank, j)
                ==> #[trigger] is_normalized(*final(mctx), orig, lrank, rank, j),
            args_reach_normalized(*final(mctx), orig, lrank, rank, *e),
            forall|k: Name|
                !args_reach(*e, orig, lrank, rank, k) ==> #[trigger] final(mctx).expr_of(k) == old(
                    mctx,
                ).expr_of(k),
        decreases expr_rank(*e, rank), expr_size(*e), 1nat,
    {
        let head = app_head_of(e);
        let mut visited: Vec<Expr> = Vec::new();
        self.visit_args(mctx, e, &mut visited, Ghost(orig), Ghost(lrank), Ghost(rank), Ghost(c));
        let n = visited.len();
        proof {
            assert(visited@.subrange(0, n as int) =~= visited@);
        }
        Self::mk_rev_app(clone_expr(head), &visited, 0, n)
    }

    /// The application `e`, whose head is not a metavariable, with its
    /// function and argument instantiated.
    pub fn visit_app_default(
        &mut self,
        mctx: &mut MetavarContext,
        e: &Expr,
        Ghost(orig): Ghost<MetavarContext>,
        Ghost(lrank): Ghost<spec_fn(Name) -> nat>,
        Ghost(rank): Ghost<spec_fn(Name) -> nat>,
        Ghost(c): Ghost<nat>,
    ) -> (r: Expr)
        requires
            *e is App,
            has_mvar_spec(*e),
            !(app_head(*e) is MVar),
            ranked_ctx(orig, lrank, rank),
            expr_rank(*e, rank) <= c,
            wf_expr(*e),
            normalized_inv(old(self).already_normalized@, *old(mctx), orig, lrank, rank, c),
            inst_ok(*e, orig, lrank, rank),
        ensures
            r == Expr::App(
                Box::new(inst_expr(*e->App_0, orig, lrank, rank)),
                Box::new(inst_expr(*e->App_1, orig, lrank, rank)),
            ),
            wf_expr(r),
            normalized_inv(final(self).already_normalized@, *final(mctx), orig, lrank, rank, c),
            forall|j: Name| #[trigger] final(self).already_normalized@.contains(j)
                ==> old(self).already_normalized@.contains(j) || rank(j) < c,
            forall|j: Name| old(self).already_normalized@.contains(j)
                ==> #[trigger] final(self).already_normalized@.contains(j),
            forall|j: Name| is_normalized(*old(mctx), orig, lrank, rank, j)
                ==> #[trigger] is_normalized(*final(mctx), orig, lrank, rank, j),
            reach_normalized(*final(mctx), orig, lrank, rank, *e),
            forall|k: Name|
                !expr_reaches(*e, orig, lrank, rank, k) ==> #[trigger] final(mctx).expr_of(k) == old(
                    mctx,
                ).expr_of(k),
        decreases expr_rank(*e, rank), expr_size(*e), 1nat,
    {
        match e {
            Expr::App(f, a) => {
                let f_new = self.visit(mctx, f, Ghost(orig), Ghost(lrank), Ghost(rank), Ghost(c));
                let a_new = self.visit(mctx, a, Ghost(orig), Ghost(lrank), Ghost(rank), Ghost(c));
                Expr::App(Box::new(f_new), Box::new(a_new))
            },
            _ => clone_expr(e),
        }
    }

    /// The application `e` instantiated: when its head is an assigned
    /// metavariable, the value instantiated applied to the arguments
    /// instantiated and reduced at the head; when the head has a delayed
    /// assignment whose pending metavariable has a value free of
    /// metavariables once instantiated, that value with its free variables
    /// replaced by the last arguments, applied to the others.
    pub fn visit_app(
        &mut self,
        mctx: &mut MetavarContext,
        e: &Expr,
        Ghost(orig): Ghost<MetavarContext>,
        Ghost(lrank): Ghost<spec_fn(Name) -> nat>,
        Ghost(rank): Ghost<spec_fn(Name) -> nat>,
        Ghost(c): Ghost<nat>,
    ) -> (r: Expr)
        requires
            *e is App,
            has_mvar_spec(*e),
            ranked_ctx(orig, lrank, rank),
            expr_rank(*e, rank) <= c,
            wf_expr(*e),
            normalized_inv(old(self).already_normalized@, *old(mctx), orig, lrank, rank, c),
            inst_ok(*e, orig, lrank, rank),
        ensures
            r == inst_expr(*e, orig, lrank, rank),
            wf_expr(r),
            normalized_inv(final(self).already_normalized@, *final(mctx), orig, lrank, rank, c),
            forall|j: Name| #[trigger] final(self).already_normalized@.contains(j)
                ==> old(self).already_normalized@.contains(j) || rank(j) < c,
            forall|j: Name| old(self).already_normalized@.contains(j)
                ==> #[trigger] final(self).already_normalized@.contains(j),
            forall|j: Name| is_normalized(*old(mctx), orig, lrank, rank, j)
                ==> #[trigger] is_normalized(*final(mctx), orig, lrank, rank, j),
            reach_normalized(*final(mctx), orig, lrank, rank, *e),
            forall|k: Name|
                !expr_reaches(*e, orig, lrank, rank, k) ==> #[trigger] final(mctx).expr_of(k) == old(
                    mctx,
                ).expr_of(k),
        decreases expr_rank(*e, rank), expr_size(*e), 2nat,
    {
        proof {
            lemma_app_parts(*e, rank);
            lemma_inst_args(*e, orig, lrank, rank);
        }
        let head = app_head_of(e);
        let mid = match head {
            Expr::MVar(k) => *k,
            _ => {
                return self.visit_app_default(mctx, e, Ghost(orig), Ghost(lrank), Ghost(rank), Ghost(c));
            },
        };
        proof {
            lemma_ctx_lookup(orig, rank, mid);
        }
        match self.get_assignment(mctx, mid, Ghost(orig), Ghost(lrank), Ghost(rank), Ghost(c)) {
            Some(f_new) => {
                let mut visited: Vec<Expr> = Vec::new();
                self.visit_args(mctx, e, &mut visited, Ghost(orig), Ghost(lrank), Ghost(rank), Ghost(c));
                proof {
                    assert(visited@ =~= inst_args(*e, orig, lrank, rank));
                }
                let n = visited.len();
                return Self::apply_beta(f_new, n, &visited);
            },
            None => {},
        }
        let (fvars, pending) = match mctx.get_delayed_assignment(mid) {
            Some(d) => (clone_exprs(&d.fvars), d.mvar_id_pending),
            None => {
                return self.visit_mvar_app_args(mctx, e, Ghost(orig), Ghost(lrank), Ghost(rank), Ghost(c));
            },
        };
        proof {
            lemma_ctx_lookup(orig, rank, pending);
        }
        let mut visited: Vec<Expr> = Vec::new();
        self.visit_args(mctx, e, &mut visited, Ghost(orig), Ghost(lrank), Ghost(rank), Ghost(c));
        proof {
            assert(visited@ =~= inst_args(*e, orig, lrank, rank));
        }
        let n = visited.len();
        let sz = fvars.len();
        proof {
            assert(visited@.subrange(0, n as int) =~= visited@);
        }
        if sz > n {
            return Self::mk_rev_app(clone_expr(head), &visited, 0, n);
        }
        match self.get_assignment(mctx, pending, Ghost(orig), Ghost(lrank), Ghost(rank), Ghost(c)) {
            Some(val) => {
                if !Self::expr_has_any_mvar(&val) {
                    let val_subst = Self::replace_fvars(val, &fvars, &visited, n - sz);
                    return Self::mk_rev_app(val_subst, &visited, 0, n - sz);
                }
            },
            None => {},
        }
        Self::mk_rev_app(clone_expr(head), &visited, 0, n)
    }

    /// `e` with its metavariables instantiated as `orig` assigns them,
    /// recording in `mctx` each assigned value it normalizes.
    pub fn visit(
        &mut self,
        mctx: &mut MetavarContext,
        e: &Expr,
        Ghost(orig): Ghost<MetavarContext>,
        Ghost(lrank): Ghost<spec_fn(Name) -> nat>,
        Ghost(rank): Ghost<spec_fn(Name) -> nat>,
        Ghost(c): Ghost<nat>,
    ) -> (r: Expr)
        requires
            ranked_ctx(orig, lrank, rank),
            expr_rank(*e, rank) <= c,
            wf_expr(*e),
            normalized_inv(old(self).already_normalized@, *old(mctx), orig, lrank, rank, c),
            inst_ok(*e, orig, lrank, rank),
        ensures
            r == inst_expr(*e, orig, lrank, rank),
            wf_expr(r),
            normalized_inv(final(self).already_normalized@, *final(mctx), orig, lrank, rank, c),
            forall|j: Name| #[trigger] final(self).already_normalized@.contains(j)
                ==> old(self).already_normalized@.contains(j) || rank(j) < c,
            forall|j: Name| old(self).already_normalized@.contains(j)
                ==> #[trigger] final(self).already_normalized@.contains(j),
            forall|j: Name| is_normalized(*old(mctx), orig, lrank, rank, j)
                ==> #[trigger] is_normalized(*final(mctx), orig, lrank, rank, j),
            reach_normalized(*final(mctx), orig, lrank, rank, *e),
            forall|k: Name|
                !expr_reaches(*e, orig, lrank, rank, k) ==> #[trigger] final(mctx).expr_of(k) == old(
                    mctx,
                ).expr_of(k),
            !has_mvar_spec(*e) ==> *final(mctx) == *old(mctx),
        decreases expr_rank(*e, rank), expr_size(*e), 3nat,
    {
        if !Self::expr_has_any_mvar(e) {
            return clone_expr(e);
        }
        match e {
            Expr::Sort(l, h) => {
                let ghost m0 = *mctx;
                let l_new = self.visit_level(mctx, l, Ghost(orig), Ghost(lrank));
                let h_new = self.visit_level(mctx, h, Ghost(orig), Ghost(lrank));
                proof {
                    lemma_same_exprs_inv(self.already_normalized@, m0, *mctx, orig, lrank, rank, c);
                }
                Expr::Sort(l_new, h_new)
            },
            Expr::Const(n, ls) => {
                let ghost m0 = *mctx;
                let ls_new = self.visit_levels(mctx, ls, Ghost(orig), Ghost(lrank));
                proof {
                    lemma_same_exprs_inv(self.already_normalized@, m0, *mctx, orig, lrank, rank, c);
                }
                Expr::Const(*n, ls_new)
            },
            Expr::MVar(_) => self.visit_mvar(mctx, e, Ghost(orig), Ghost(lrank), Ghost(rank), Ghost(c)),
            Expr::MData(d, b) => {
                let b_new = self.visit(mctx, b, Ghost(orig), Ghost(lrank), Ghost(rank), Ghost(c));
                Expr::MData(*d, Box::new(b_new))
            },
            Expr::Proj(n, i, b) => {
                let b_new = self.visit(mctx, b, Ghost(orig), Ghost(lrank), Ghost(rank), Ghost(c));
                Expr::Proj(*n, *i, Box::new(b_new))
            },
            Expr::App(_, _) => self.visit_app(mctx, e, Ghost(orig), Ghost(lrank), Ghost(rank), Ghost(c)),
            Expr::Lam(n, t, b, bi) => {
                let t_new = self.visit(mctx, t, Ghost(orig), Ghost(lrank), Ghost(rank), Ghost(c));
                let b_new = self.visit(mctx, b, Ghost(orig), Ghost(lrank), Ghost(rank), Ghost(c));
                Expr::Lam(*n, Box::new(t_new), Box::new(b_new), *bi)
            },
            Expr::ForallE(n, t, b, bi) => {
                let t_new = self.visit(mctx, t, Ghost(orig), Ghost(lrank), Ghost(rank), Ghost(c));
                let b_new = self.visit(mctx, b, Ghost(orig), Ghost(lrank), Ghost(rank), Ghost(c));
                Expr::ForallE(*n, Box::new(t_new), Box::new(b_new), *bi)
            },
            Expr::LetE(n, t, v, b, nd) => {
                let t_new = self.visit(mctx, t, Ghost(orig), Ghost(lrank), Ghost(rank), Ghost(c));
                let v_new = self.visit(mctx, v, Ghost(orig), Ghost(lrank), Ghost(rank), Ghost(c));
                let b_new = self.visit(mctx, b, Ghost(orig), Ghost(lrank), Ghost(rank), Ghost(c));
                Expr::LetE(*n, Box::new(t_new), Box::new(v_new), Box::new(b_new), *nd)
            },
            _ => clone_expr(e),
        }
    }
}

/// Instantiates the metavariables of `e` with what `mctx` assigns them,
/// recursively (see `instantiate_mvars_spec`); gives back the context, in
/// which every assigned expression metavariable that the instantiation
/// looks up holds its value instantiated and every other expression
/// assignment is unchanged (the whole context as given when `e` has no
/// metavariables), and the instantiated expression.
pub fn lean_instantiate_expr_mvars_rs(mctx: MetavarContext, e: &Expr) -> (r: (
    MetavarContext,
    Expr,
))
    requires
        mvar_ctx_ok(mctx),
        wf_expr(*e),
        instantiate_mvars_ok(*e, mctx),
    ensures
        r.1 == instantiate_mvars_spec(*e, mctx),
        wf_expr(r.1),
        forall|k: Name|
            #[trigger] r.0.expr_of(k) == mctx.expr_of(k) || (mctx.expr_of(k) is Some && r.0.expr_of(k)
                == Some(instantiate_mvars_spec(mctx.expr_of(k)->Some_0, mctx))),
        level_ctx_normalizes(
            r.0.level_assignments@,
            mctx.level_assignments@,
            some_level_rank(mctx.level_assignments@),
        ),
        r.0.delayed_assignments@ == mctx.delayed_assignments@,
        forall|k: Name|
            instantiate_mvars_reaches(*e, mctx, k) && mctx.expr_of(k) is Some ==> #[trigger] r.0.expr_of(
                k,
            ) == Some(instantiate_mvars_spec(mctx.expr_of(k)->Some_0, mctx)),
        forall|k: Name|
            !instantiate_mvars_reaches(*e, mctx, k) ==> #[trigger] r.0.expr_of(k) == mctx.expr_of(k),
        !has_mvar_spec(*e) ==> r.0 == mctx,
{
    let ghost orig = mctx;
    let ghost lrank = some_level_rank(mctx.level_assignments@);
    let ghost rank = some_expr_rank(mctx);
    let mut m = mctx;
    let mut inst = InstantiateExprMVars::new();
    proof {
        lemma_level_ctx_normalizes_itself(orig.level_assignments@, lrank);
        assert(ranked_ctx(orig, lrank, rank));
        assert forall|k: Name| !(#[trigger] inst.already_normalized@.contains(k)) by {}
        assert forall|k: Name| (#[trigger] m.expr_of(k)) is Some implies wf_expr(m.expr_of(k)->Some_0) by {
            lemma_ctx_lookup(orig, rank, k);
        }
        assert(normalized_inv(inst.already_normalized@, m, orig, lrank, rank, expr_rank(*e, rank)));
    }
    let e_new = inst.visit(&mut m, e, Ghost(orig), Ghost(lrank), Ghost(rank), Ghost(expr_rank(*e, rank)));
    proof {
        assert forall|k: Name|
            #[trigger] m.expr_of(k) == orig.expr_of(k) || (orig.expr_of(k) is Some && m.expr_of(k)
                == Some(instantiate_mvars_spec(orig.expr_of(k)->Some_0, orig))) by {
            assert(m.expr_of(k) == orig.expr_of(k) || is_normalized(m, orig, lrank, rank, k));
        }
        assert forall|k: Name|
            instantiate_mvars_reaches(*e, orig, k) && orig.expr_of(k) is Some implies #[trigger] m.expr_of(
                k,
            ) == Some(instantiate_mvars_spec(orig.expr_of(k)->Some_0, orig)) by {
            assert(is_normalized(m, orig, lrank, rank, k));
        }
    }
    (m, e_new)
}

} // verus!
