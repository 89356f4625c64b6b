//! What expression metavariable instantiation guarantees of its result.
use vstd::prelude::*;
use crate::expr::{Expr, Level, LevelList, Name};
use crate::bvars::lift_spec;
use crate::instantiate::{instantiate_spec, subst_at};
use crate::expr_util::has_mvar_spec;
use crate::level_mvars::{level_unassigned_only, lemma_inst_level_props, levels_acyclic,
    some_level_rank};
use crate::mctx::MetavarContext;
use crate::expr_mvars::{mk_rev_app_spec, instantiate_n_spec, apply_beta_rec_spec, apply_beta_spec,
    subst_fvar_spec, replace_fvars_upto, replace_fvars_spec, lemma_zeta_let_step};
use crate::mvar_spec::{expr_rank, expr_size, app_head, app_args, inst_levels, inst_expr, inst_args,
    exprs_acyclic, mvar_ctx_ok, some_expr_rank, instantiate_mvars_spec, lemma_app_parts,
    lemma_inst_args};

verus! {

/// Every level of the list has only unassigned universe metavariables.
pub open spec fn levels_unassigned_only(ls: LevelList, s: Seq<(Name, Level)>) -> bool
    decreases ls,
{
    match ls {
        LevelList::Nil => true,
        LevelList::Cons(h, t) => level_unassigned_only(*h, s) && levels_unassigned_only(*t, s),
    }
}

/// Every metavariable of `e`, expression or universe, is unassigned in `m`.
pub open spec fn expr_unassigned_only(e: Expr, m: MetavarContext) -> bool
    decreases e,
{
    match e {
        Expr::MVar(k) => m.expr_of(k) is None,
        Expr::Sort(l, h) => level_unassigned_only(l, m.level_assignments@) && level_unassigned_only(
            h,
            m.level_assignments@,
        ),
        Expr::Const(_, ls) => levels_unassigned_only(ls, m.level_assignments@),
        Expr::App(f, a) => expr_unassigned_only(*f, m) && expr_unassigned_only(*a, m),
        Expr::Lam(_, t, b, _) => expr_unassigned_only(*t, m) && expr_unassigned_only(*b, m),
        Expr::ForallE(_, t, b, _) => expr_unassigned_only(*t, m) && expr_unassigned_only(*b, m),
        Expr::LetE(_, t, v, b, _) => expr_unassigned_only(*t, m) && expr_unassigned_only(*v, m)
            && expr_unassigned_only(*b, m),
        Expr::MData(_, b) => expr_unassigned_only(*b, m),
        Expr::Proj(_, _, b) => expr_unassigned_only(*b, m),
        _ => true,
    }
}

/// Every expression of `s` has only unassigned metavariables.
pub open spec fn all_unassigned_only(s: Seq<Expr>, m: MetavarContext) -> bool {
    forall|k: int| 0 <= k < s.len() ==> #[trigger] expr_unassigned_only(s[k], m)
}

proof fn lemma_level_no_mvar_unassigned(l: Level, s: Seq<(Name, Level)>)
    requires
        !crate::expr_util::level_has_mvar_spec(l),
    ensures
        level_unassigned_only(l, s),
    decreases l,
{
    match l {
        Level::Succ(a) => lemma_level_no_mvar_unassigned(*a, s),
        Level::Max(a, b) => {
            lemma_level_no_mvar_unassigned(*a, s);
            lemma_level_no_mvar_unassigned(*b, s);
        },
        Level::IMax(a, b) => {
            lemma_level_no_mvar_unassigned(*a, s);
            lemma_level_no_mvar_unassigned(*b, s);
        },
        _ => {},
    }
}

proof fn lemma_levels_no_mvar_unassigned(ls: LevelList, s: Seq<(Name, Level)>)
    requires
        !crate::expr_util::levels_have_mvar_spec(ls),
    ensures
        levels_unassigned_only(ls, s),
    decreases ls,
{
    match ls {
        LevelList::Nil => {},
        LevelList::Cons(h, t) => {
            lemma_level_no_mvar_unassigned(*h, s);
            lemma_levels_no_mvar_unassigned(*t, s);
        },
    }
}

/// An expression without metavariables has only unassigned ones.
proof fn lemma_no_mvar_unassigned(e: Expr, m: MetavarContext)
    requires
        !has_mvar_spec(e),
    ensures
        expr_unassigned_only(e, m),
    decreases e,
{
    match e {
        Expr::Sort(l, h) => {
            lemma_level_no_mvar_unassigned(l, m.level_assignments@);
            lemma_level_no_mvar_unassigned(h, m.level_assignments@);
        },
        Expr::Const(_, ls) => lemma_levels_no_mvar_unassigned(ls, m.level_assignments@),
        Expr::App(f, a) => {
            lemma_no_mvar_unassigned(*f, m);
            lemma_no_mvar_unassigned(*a, m);
        },
        Expr::Lam(_, t, b, _) => {
            lemma_no_mvar_unassigned(*t, m);
            lemma_no_mvar_unassigned(*b, m);
        },
        Expr::ForallE(_, t, b, _) => {
            lemma_no_mvar_unassigned(*t, m);
            lemma_no_mvar_unassigned(*b, m);
        },
        Expr::LetE(_, t, v, b, _) => {
            lemma_no_mvar_unassigned(*t, m);
            lemma_no_mvar_unassigned(*v, m);
            lemma_no_mvar_unassigned(*b, m);
        },
        Expr::MData(_, b) => lemma_no_mvar_unassigned(*b, m),
        Expr::Proj(_, _, b) => lemma_no_mvar_unassigned(*b, m),
        _ => {},
    }
}

proof fn lemma_lift_unassigned(e: Expr, m: MetavarContext, s: nat, d: nat, off: nat)
    requires
        expr_unassigned_only(e, m),
    ensures
        expr_unassigned_only(lift_spec(e, s, d, off), m),
    decreases e,
{
    match e {
        Expr::App(f, a) => {
            lemma_lift_unassigned(*f, m, s, d, off);
            lemma_lift_unassigned(*a, m, s, d, off);
        },
        Expr::Lam(_, t, b, _) => {
            lemma_lift_unassigned(*t, m, s, d, off);
            lemma_lift_unassigned(*b, m, s, d, off + 1);
        },
        Expr::ForallE(_, t, b, _) => {
            lemma_lift_unassigned(*t, m, s, d, off);
            lemma_lift_unassigned(*b, m, s, d, off + 1);
        },
        Expr::LetE(_, t, v, b, _) => {
            lemma_lift_unassigned(*t, m, s, d, off);
            lemma_lift_unassigned(*v, m, s, d, off);
            lemma_lift_unassigned(*b, m, s, d, off + 1);
        },
        Expr::MData(_, b) => lemma_lift_unassigned(*b, m, s, d, off),
        Expr::Proj(_, _, b) => lemma_lift_unassigned(*b, m, s, d, off),
        _ => {},
    }
}

proof fn lemma_instantiate_unassigned(
    e: Expr,
    m: MetavarContext,
    subst: Seq<Expr>,
    rev: bool,
    off: nat,
)
    requires
        expr_unassigned_only(e, m),
        all_unassigned_only(subst, m),
    ensures
        expr_unassigned_only(instantiate_spec(e, subst, rev, off), m),
    decreases e,
{
    match e {
        Expr::BVar(i) => {
            if off <= i && i - off < subst.len() {
                let k = (i - off) as nat;
                if rev {
                    assert(expr_unassigned_only(subst[subst.len() - 1 - k], m));
                } else {
                    assert(expr_unassigned_only(subst[k as int], m));
                }
                lemma_lift_unassigned(subst_at(subst, rev, k), m, 0, off, 0);
            }
        },
        Expr::App(f, a) => {
            lemma_instantiate_unassigned(*f, m, subst, rev, off);
            lemma_instantiate_unassigned(*a, m, subst, rev, off);
        },
        Expr::Lam(_, t, b, _) => {
            lemma_instantiate_unassigned(*t, m, subst, rev, off);
            lemma_instantiate_unassigned(*b, m, subst, rev, off + 1);
        },
        Expr::ForallE(_, t, b, _) => {
            lemma_instantiate_unassigned(*t, m, subst, rev, off);
            lemma_instantiate_unassigned(*b, m, subst, rev, off + 1);
        },
        Expr::LetE(_, t, v, b, _) => {
            lemma_instantiate_unassigned(*t, m, subst, rev, off);
            lemma_instantiate_unassigned(*v, m, subst, rev, off);
            lemma_instantiate_unassigned(*b, m, subst, rev, off + 1);
        },
        Expr::MData(_, b) => lemma_instantiate_unassigned(*b, m, subst, rev, off),
        Expr::Proj(_, _, b) => lemma_instantiate_unassigned(*b, m, subst, rev, off),
        _ => {},
    }
}

proof fn lemma_mk_rev_app_unassigned(f: Expr, args: Seq<Expr>, m: MetavarContext)
    requires
        expr_unassigned_only(f, m),
        all_unassigned_only(args, m),
    ensures
        expr_unassigned_only(mk_rev_app_spec(f, args), m),
    decreases args.len(),
{
    if args.len() > 0 {
        assert(expr_unassigned_only(args[0], m));
        assert forall|k: int| 0 <= k < args.drop_first().len() implies #[trigger] expr_unassigned_only(
            args.drop_first()[k],
            m,
        ) by {
            assert(args.drop_first()[k] == args[k + 1]);
        }
        lemma_mk_rev_app_unassigned(f, args.drop_first(), m);
    }
}

proof fn lemma_subrange_unassigned(args: Seq<Expr>, m: MetavarContext, lo: int, hi: int)
    requires
        all_unassigned_only(args, m),
        0 <= lo <= hi <= args.len(),
    ensures
        all_unassigned_only(args.subrange(lo, hi), m),
{
    assert forall|k: int| 0 <= k < hi - lo implies #[trigger] expr_unassigned_only(
        args.subrange(lo, hi)[k],
        m,
    ) by {
        assert(args.subrange(lo, hi)[k] == args[lo + k]);
    }
}

proof fn lemma_apply_beta_rec_unassigned(e: Expr, i: nat, args: Seq<Expr>, m: MetavarContext)
    requires
        i < args.len(),
        expr_unassigned_only(e, m),
        all_unassigned_only(args, m),
    ensures
        expr_unassigned_only(apply_beta_rec_spec(e, i, args), m),
    decreases args.len() - i, crate::expr_mvars::zeta_depth(e, seq![]),
{
    match e {
        Expr::Lam(_, _, b, _) => {
            if i + 1 < args.len() {
                lemma_apply_beta_rec_unassigned(*b, i + 1, args, m);
            } else if args.len() > 0 {
                lemma_instantiate_unassigned(*b, m, args, false, 0);
            }
        },
        Expr::LetE(_, _, v, b, _) => {
            if crate::instantiate::instantiate_ok(*b, seq![*v], false, 0) {
                lemma_zeta_let_step(*b, *v);
                assert(all_unassigned_only(seq![*v], m));
                lemma_instantiate_unassigned(*b, m, seq![*v], false, 0);
                lemma_apply_beta_rec_unassigned(
                    instantiate_spec(*b, seq![*v], false, 0),
                    i,
                    args,
                    m,
                );
            }
        },
        _ => {
            let n = args.len() - i;
            lemma_subrange_unassigned(args, m, n, args.len() as int);
            lemma_subrange_unassigned(args, m, 0, n);
            if i > 0 {
                lemma_instantiate_unassigned(
                    e,
                    m,
                    args.subrange(n, args.len() as int),
                    false,
                    0,
                );
            }
            assert(expr_unassigned_only(instantiate_n_spec(e, args.subrange(n, args.len() as int)), m));
            lemma_mk_rev_app_unassigned(
                instantiate_n_spec(e, args.subrange(n, args.len() as int)),
                args.subrange(0, n),
                m,
            );
        },
    }
}

proof fn lemma_subst_fvar_unassigned(e: Expr, x: Name, v: Expr, off: nat, m: MetavarContext)
    requires
        expr_unassigned_only(e, m),
        expr_unassigned_only(v, m),
    ensures
        expr_unassigned_only(subst_fvar_spec(e, x, v, off), m),
    decreases e,
{
    match e {
        Expr::FVar(n) => {
            if n == x {
                lemma_lift_unassigned(v, m, 0, off, 0);
            }
        },
        Expr::App(f, a) => {
            lemma_subst_fvar_unassigned(*f, x, v, off, m);
            lemma_subst_fvar_unassigned(*a, x, v, off, m);
        },
        Expr::Lam(_, t, b, _) => {
            lemma_subst_fvar_unassigned(*t, x, v, off, m);
            lemma_subst_fvar_unassigned(*b, x, v, off + 1, m);
        },
        Expr::ForallE(_, t, b, _) => {
            lemma_subst_fvar_unassigned(*t, x, v, off, m);
            lemma_subst_fvar_unassigned(*b, x, v, off + 1, m);
        },
        Expr::LetE(_, t, w, b, _) => {
            lemma_subst_fvar_unassigned(*t, x, v, off, m);
            lemma_subst_fvar_unassigned(*w, x, v, off, m);
            lemma_subst_fvar_unassigned(*b, x, v, off + 1, m);
        },
        Expr::MData(_, b) => lemma_subst_fvar_unassigned(*b, x, v, off, m),
        Expr::Proj(_, _, b) => lemma_subst_fvar_unassigned(*b, x, v, off, m),
        _ => {},
    }
}

proof fn lemma_replace_fvars_unassigned(
    e: Expr,
    fvars: Seq<Expr>,
    vals: Seq<Expr>,
    j: nat,
    m: MetavarContext,
)
    requires
        j <= fvars.len() <= vals.len(),
        expr_unassigned_only(e, m),
        all_unassigned_only(vals, m),
    ensures
        expr_unassigned_only(replace_fvars_upto(e, fvars, vals, j), m),
    decreases j,
{
    if j > 0 {
        lemma_replace_fvars_unassigned(e, fvars, vals, (j - 1) as nat, m);
        assert(expr_unassigned_only(vals[fvars.len() - j], m));
        lemma_subst_fvar_unassigned(
            replace_fvars_upto(e, fvars, vals, (j - 1) as nat),
            fvars[j - 1]->FVar_0,
            vals[fvars.len() - j],
            0,
            m,
        );
    }
}

proof fn lemma_inst_levels_unassigned(ls: LevelList, m: MetavarContext, lrank: spec_fn(Name) -> nat)
    requires
        levels_acyclic(m.level_assignments@, lrank),
    ensures
        levels_unassigned_only(inst_levels(ls, m.level_assignments@, lrank), m.level_assignments@),
    decreases ls,
{
    match ls {
        LevelList::Nil => {},
        LevelList::Cons(h, t) => {
            lemma_inst_level_props(*h, m.level_assignments@, lrank);
            lemma_inst_levels_unassigned(*t, m, lrank);
        },
    }
}

/// Under acyclic rankings, instantiation leaves only unassigned
/// metavariables, in the expression and in each instantiated argument.
proof fn lemma_inst_unassigned(
    e: Expr,
    m: MetavarContext,
    lrank: spec_fn(Name) -> nat,
    rank: spec_fn(Name) -> nat,
)
    requires
        levels_acyclic(m.level_assignments@, lrank),
        exprs_acyclic(m, rank),
    ensures
        expr_unassigned_only(inst_expr(e, m, lrank, rank), m),
        all_unassigned_only(inst_args(e, m, lrank, rank), m),
    decreases expr_rank(e, rank), expr_size(e),
{
    lemma_app_parts(e, rank);
    lemma_inst_args(e, m, lrank, rank);
    assert forall|i: int| 0 <= i < app_args(e).len() implies #[trigger] expr_unassigned_only(
        inst_args(e, m, lrank, rank)[i],
        m,
    ) by {
        lemma_inst_unassigned(app_args(e)[i], m, lrank, rank);
    }
    let args = inst_args(e, m, lrank, rank);
    if !has_mvar_spec(e) {
        lemma_no_mvar_unassigned(e, m);
    } else {
        match e {
            Expr::MVar(k) => {
                lemma_ctx_lookup_rank(m, rank, k);
                if m.expr_of(k) is Some {
                    lemma_inst_unassigned(m.expr_of(k)->Some_0, m, lrank, rank);
                }
            },
            Expr::Sort(l, h) => {
                lemma_inst_level_props(l, m.level_assignments@, lrank);
                lemma_inst_level_props(h, m.level_assignments@, lrank);
            },
            Expr::Const(_, ls) => {
                lemma_inst_levels_unassigned(ls, m, lrank);
            },
            Expr::App(f, a) => {
                match app_head(e) {
                    Expr::MVar(k) => {
                        lemma_ctx_lookup_rank(m, rank, k);
                        match m.expr_of(k) {
                            Some(v) => {
                                lemma_inst_unassigned(v, m, lrank, rank);
                                if args.len() > 0 {
                                    lemma_apply_beta_rec_unassigned(
                                        inst_expr(v, m, lrank, rank),
                                        0,
                                        args,
                                        m,
                                    );
                                }
                            },
                            None => {
                                lemma_mk_rev_app_unassigned(Expr::MVar(k), args, m);
                                match m.delayed_of(k) {
                                    Some(d) => {
                                        let n = args.len();
                                        let sz = d.0.len();
                                        if sz <= n && m.expr_of(d.1) is Some && expr_rank(
                                            m.expr_of(d.1)->Some_0,
                                            rank,
                                        ) < expr_rank(e, rank) {
                                            let val = inst_expr(m.expr_of(d.1)->Some_0, m, lrank, rank);
                                            lemma_inst_unassigned(
                                                m.expr_of(d.1)->Some_0,
                                                m,
                                                lrank,
                                                rank,
                                            );
                                            lemma_subrange_unassigned(args, m, n - sz, n as int);
                                            lemma_subrange_unassigned(args, m, 0, n - sz);
                                            lemma_replace_fvars_unassigned(
                                                val,
                                                d.0,
                                                args.subrange(n - sz, n as int),
                                                sz,
                                                m,
                                            );
                                            lemma_mk_rev_app_unassigned(
                                                replace_fvars_spec(
                                                    val,
                                                    d.0,
                                                    args.subrange(n - sz, n as int),
                                                ),
                                                args.subrange(0, n - sz),
                                                m,
                                            );
                                        }
                                    },
                                    None => {},
                                }
                            },
                        }
                    },
                    _ => {
                        lemma_inst_unassigned(*f, m, lrank, rank);
                        lemma_inst_unassigned(*a, m, lrank, rank);
                    },
                }
            },
            Expr::Lam(_, t, b, _) => {
                lemma_inst_unassigned(*t, m, lrank, rank);
                lemma_inst_unassigned(*b, m, lrank, rank);
            },
            Expr::ForallE(_, t, b, _) => {
                lemma_inst_unassigned(*t, m, lrank, rank);
                lemma_inst_unassigned(*b, m, lrank, rank);
            },
            Expr::LetE(_, t, v, b, _) => {
                lemma_inst_unassigned(*t, m, lrank, rank);
                lemma_inst_unassigned(*v, m, lrank, rank);
                lemma_inst_unassigned(*b, m, lrank, rank);
            },
            Expr::MData(_, b) => lemma_inst_unassigned(*b, m, lrank, rank),
            Expr::Proj(_, _, b) => lemma_inst_unassigned(*b, m, lrank, rank),
            _ => {},
        }
    }
}

/// What an acyclic context assigns ranks no higher than its metavariable.
proof fn lemma_ctx_lookup_rank(m: MetavarContext, rank: spec_fn(Name) -> nat, k: Name)
    requires
        exprs_acyclic(m, rank),
    ensures
        m.expr_of(k) matches Some(v) ==> expr_rank(v, rank) <= rank(k),
        m.delayed_of(k) matches Some(d) ==> rank(d.1) < rank(k),
{
    crate::mctx::lemma_lookup_entry(m.expr_assignments@, k);
    if m.expr_of(k) is Some {
        let v = m.expr_of(k)->Some_0;
        let i = choose|i: int|
            0 <= i < m.expr_assignments@.len() && #[trigger] m.expr_assignments@[i] == (k, v);
        assert(expr_rank(m.expr_assignments@[i].1, rank) <= rank(m.expr_assignments@[i].0));
    }
    crate::mctx::lemma_lookup_entry(m.delayed_assignments@, k);
    match crate::mctx::lookup(m.delayed_assignments@, k) {
        Some(d) => {
            let i = choose|i: int|
                0 <= i < m.delayed_assignments@.len() && #[trigger] m.delayed_assignments@[i] == (
                    k,
                    d,
                );
            assert(rank(m.delayed_assignments@[i].1.mvar_id_pending) < rank(
                m.delayed_assignments@[i].0,
            ));
        },
        None => {},
    }
}

/// Instantiating the metavariables of an expression leaves none that the
/// context assigns: every expression and universe metavariable of the
/// result is unassigned.
pub proof fn lemma_instantiate_mvars_unassigned_only(e: Expr, m: MetavarContext)
    requires
        mvar_ctx_ok(m),
    ensures
        expr_unassigned_only(instantiate_mvars_spec(e, m), m),
{
    let lrank = some_level_rank(m.level_assignments@);
    let rank = some_expr_rank(m);
    lemma_inst_unassigned(e, m, lrank, rank);
}

/// An expression without metavariables instantiates as itself.
pub proof fn lemma_instantiate_mvars_no_mvar(e: Expr, m: MetavarContext)
    requires
        !has_mvar_spec(e),
    ensures
        instantiate_mvars_spec(e, m) == e,
{
}

/// Head reduction of a lambda applied to one argument instantiates its body
/// with the argument.
pub proof fn lemma_beta_one_argument(n: Name, t: Expr, b: Expr, bi: crate::expr::BinderInfo, a: Expr)
    ensures
        apply_beta_spec(Expr::Lam(n, Box::new(t), Box::new(b), bi), seq![a]) == instantiate_spec(
            b,
            seq![a],
            false,
            0,
        ),
{
}

} // verus!
