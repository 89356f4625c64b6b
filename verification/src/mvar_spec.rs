//! What instantiating the expression metavariables of an expression gives.
//!
//! An assigned metavariable is replaced by its value, instantiated in turn;
//! an application whose head is an assigned metavariable is reduced at the
//! head; one whose head has a delayed assignment whose pending metavariable
//! is assigned (its value then free of metavariables) has the free variables
//! of the value replaced by its last arguments.  Universe metavariables are
//! instantiated in every level.
//!
//! Assignments form no cycle: some ranking puts every metavariable of an
//! assigned value below the one it is assigned to, and the pending
//! metavariable of a delayed assignment below the delayed one.
use vstd::prelude::*;
use crate::expr::{Expr, Level, LevelList, Name, wf_expr};
use crate::bvars::max_nat;
use crate::expr_util::has_mvar_spec;
use crate::level_mvars::{inst_level_ranked, level_ctx_acyclic, some_level_rank, levels_acyclic,
    level_ctx_normalizes, level_ctx_closed};
use crate::mctx::{MetavarContext, lookup, lemma_lookup_entry};
use crate::expr_mvars::{apply_beta_spec, apply_beta_ok, mk_rev_app_spec, replace_fvars_spec,
    replace_fvars_ok};

verus! {

/// One more than the highest rank of an expression metavariable of `e` (0
/// when it has none).
pub open spec fn expr_rank(e: Expr, rank: spec_fn(Name) -> nat) -> nat
    decreases e,
{
    match e {
        Expr::MVar(k) => rank(k) + 1,
        Expr::App(f, a) => max_nat(expr_rank(*f, rank), expr_rank(*a, rank)),
        Expr::Lam(_, t, b, _) => max_nat(expr_rank(*t, rank), expr_rank(*b, rank)),
        Expr::ForallE(_, t, b, _) => max_nat(expr_rank(*t, rank), expr_rank(*b, rank)),
        Expr::LetE(_, t, v, b, _) => max_nat(
            expr_rank(*t, rank),
            max_nat(expr_rank(*v, rank), expr_rank(*b, rank)),
        ),
        Expr::MData(_, b) => expr_rank(*b, rank),
        Expr::Proj(_, _, b) => expr_rank(*b, rank),
        _ => 0,
    }
}

/// The number of expression nodes of `e`.
pub open spec fn expr_size(e: Expr) -> nat
    decreases e,
{
    match e {
        Expr::App(f, a) => 1 + expr_size(*f) + expr_size(*a),
        Expr::Lam(_, t, b, _) => 1 + expr_size(*t) + expr_size(*b),
        Expr::ForallE(_, t, b, _) => 1 + expr_size(*t) + expr_size(*b),
        Expr::LetE(_, t, v, b, _) => 1 + expr_size(*t) + expr_size(*v) + expr_size(*b),
        Expr::MData(_, b) => 1 + expr_size(*b),
        Expr::Proj(_, _, b) => 1 + expr_size(*b),
        _ => 1,
    }
}

/// The function at the head of a chain of applications.
pub open spec fn app_head(e: Expr) -> Expr
    decreases e,
{
    match e {
        Expr::App(f, _) => app_head(*f),
        _ => e,
    }
}

/// The arguments of a chain of applications, the last first.
pub open spec fn app_args(e: Expr) -> Seq<Expr>
    decreases e,
{
    match e {
        Expr::App(f, a) => seq![*a] + app_args(*f),
        _ => Seq::empty(),
    }
}

/// Every universe level of the list instantiated.
pub open spec fn inst_levels(ls: LevelList, s: Seq<(Name, Level)>, lrank: spec_fn(Name) -> nat) -> LevelList
    decreases ls,
{
    match ls {
        LevelList::Nil => LevelList::Nil,
        LevelList::Cons(h, t) => LevelList::Cons(
            Box::new(inst_level_ranked(*h, s, lrank)),
            Box::new(inst_levels(*t, s, lrank)),
        ),
    }
}

/// `e` with its metavariables instantiated as `m` assigns them (see the
/// module documentation).
pub open spec fn inst_expr(
    e: Expr,
    m: MetavarContext,
    lrank: spec_fn(Name) -> nat,
    rank: spec_fn(Name) -> nat,
) -> Expr
    decreases expr_rank(e, rank), expr_size(e), 1nat,
{
    if !has_mvar_spec(e) {
        e
    } else {
        match e {
            Expr::MVar(k) => match m.expr_of(k) {
                Some(v) => if expr_rank(v, rank) < expr_rank(e, rank) {
                    inst_expr(v, m, lrank, rank)
                } else {
                    e
                },
                None => e,
            },
            Expr::Sort(l, h) => Expr::Sort(
                inst_level_ranked(l, m.level_assignments@, lrank),
                inst_level_ranked(h, m.level_assignments@, lrank),
            ),
            Expr::Const(n, ls) => Expr::Const(n, inst_levels(ls, m.level_assignments@, lrank)),
            Expr::App(f, a) => match app_head(e) {
                Expr::MVar(k) => match m.expr_of(k) {
                    Some(v) => if expr_rank(v, rank) < expr_rank(e, rank) {
                        apply_beta_spec(inst_expr(v, m, lrank, rank), inst_args(e, m, lrank, rank))
                    } else {
                        e
                    },
                    None => match m.delayed_of(k) {
                        Some(d) => {
                            let args = inst_args(e, m, lrank, rank);
                            let n = args.len();
                            let sz = d.0.len();
                            if sz <= n && m.expr_of(d.1) is Some && expr_rank(
                                m.expr_of(d.1)->Some_0,
                                rank,
                            ) < expr_rank(e, rank) {
                                let val = inst_expr(m.expr_of(d.1)->Some_0, m, lrank, rank);
                                if !has_mvar_spec(val) {
                                    mk_rev_app_spec(
                                        replace_fvars_spec(val, d.0, args.subrange(n - sz, n as int)),
                                        args.subrange(0, n - sz),
                                    )
                                } else {
                                    mk_rev_app_spec(Expr::MVar(k), args)
                                }
                            } else {
                                mk_rev_app_spec(Expr::MVar(k), args)
                            }
                        },
                        None => mk_rev_app_spec(Expr::MVar(k), inst_args(e, m, lrank, rank)),
                    },
                },
                _ => Expr::App(
                    Box::new(inst_expr(*f, m, lrank, rank)),
                    Box::new(inst_expr(*a, m, lrank, rank)),
                ),
            },
            Expr::Lam(n, t, b, bi) => Expr::Lam(
                n,
                Box::new(inst_expr(*t, m, lrank, rank)),
                Box::new(inst_expr(*b, m, lrank, rank)),
                bi,
            ),
            Expr::ForallE(n, t, b, bi) => Expr::ForallE(
                n,
                Box::new(inst_expr(*t, m, lrank, rank)),
                Box::new(inst_expr(*b, m, lrank, rank)),
                bi,
            ),
            Expr::LetE(n, t, v, b, nd) => Expr::LetE(
                n,
                Box::new(inst_expr(*t, m, lrank, rank)),
                Box::new(inst_expr(*v, m, lrank, rank)),
                Box::new(inst_expr(*b, m, lrank, rank)),
                nd,
            ),
            Expr::MData(d, b) => Expr::MData(d, Box::new(inst_expr(*b, m, lrank, rank))),
            Expr::Proj(n, i, b) => Expr::Proj(n, i, Box::new(inst_expr(*b, m, lrank, rank))),
            _ => e,
        }
    }
}

/// The arguments of the chain of applications `e`, the last first, each
/// instantiated.
pub open spec fn inst_args(
    e: Expr,
    m: MetavarContext,
    lrank: spec_fn(Name) -> nat,
    rank: spec_fn(Name) -> nat,
) -> Seq<Expr>
    decreases expr_rank(e, rank), expr_size(e), 0nat,
{
    match e {
        Expr::App(f, a) => seq![inst_expr(*a, m, lrank, rank)] + inst_args(*f, m, lrank, rank),
        _ => Seq::empty(),
    }
}

/// Every reduction and substitution that instantiating `e` makes stays
/// within the bound on bound variable indices.
pub open spec fn inst_ok(
    e: Expr,
    m: MetavarContext,
    lrank: spec_fn(Name) -> nat,
    rank: spec_fn(Name) -> nat,
) -> bool
    decreases expr_rank(e, rank), expr_size(e), 1nat,
{
    if !has_mvar_spec(e) {
        true
    } else {
        match e {
            Expr::MVar(k) => match m.expr_of(k) {
                Some(v) => expr_rank(v, rank) < expr_rank(e, rank) ==> inst_ok(v, m, lrank, rank),
                None => true,
            },
            Expr::App(f, a) => match app_head(e) {
                Expr::MVar(k) => args_ok(e, m, lrank, rank) && match m.expr_of(k) {
                    Some(v) => expr_rank(v, rank) < expr_rank(e, rank) ==> {
                        &&& inst_ok(v, m, lrank, rank)
                        &&& apply_beta_ok(
                            inst_expr(v, m, lrank, rank),
                            inst_args(e, m, lrank, rank),
                        )
                    },
                    None => match m.delayed_of(k) {
                        Some(d) => {
                            let args = inst_args(e, m, lrank, rank);
                            let n = args.len();
                            let sz = d.0.len();
                            (sz <= n && m.expr_of(d.1) is Some && expr_rank(
                                m.expr_of(d.1)->Some_0,
                                rank,
                            ) < expr_rank(e, rank)) ==> {
                                let val = inst_expr(m.expr_of(d.1)->Some_0, m, lrank, rank);
                                &&& inst_ok(m.expr_of(d.1)->Some_0, m, lrank, rank)
                                &&& !has_mvar_spec(val) ==> replace_fvars_ok(
                                    val,
                                    d.0,
                                    args.subrange(n - sz, n as int),
                                )
                            }
                        },
                        None => true,
                    },
                },
                _ => inst_ok(*f, m, lrank, rank) && inst_ok(*a, m, lrank, rank),
            },
            Expr::Lam(_, t, b, _) => inst_ok(*t, m, lrank, rank) && inst_ok(*b, m, lrank, rank),
            Expr::ForallE(_, t, b, _) => inst_ok(*t, m, lrank, rank) && inst_ok(*b, m, lrank, rank),
            Expr::LetE(_, t, v, b, _) => inst_ok(*t, m, lrank, rank) && inst_ok(*v, m, lrank, rank)
                && inst_ok(*b, m, lrank, rank),
            Expr::MData(_, b) => inst_ok(*b, m, lrank, rank),
            Expr::Proj(_, _, b) => inst_ok(*b, m, lrank, rank),
            _ => true,
        }
    }
}

/// Instantiating each argument of the chain of applications `e` stays
/// within bounds.
pub open spec fn args_ok(
    e: Expr,
    m: MetavarContext,
    lrank: spec_fn(Name) -> nat,
    rank: spec_fn(Name) -> nat,
) -> bool
    decreases expr_rank(e, rank), expr_size(e), 0nat,
{
    match e {
        Expr::App(f, a) => inst_ok(*a, m, lrank, rank) && args_ok(*f, m, lrank, rank),
        _ => true,
    }
}

/// Instantiating `e` (as `inst_expr` does) looks up the expression
/// metavariable `k`: `k` occurs in `e` where instantiation looks it up, or
/// is the pending metavariable of a delayed assignment that it applies, or
/// instantiating an assigned value that it looks up looks `k` up.
pub open spec fn expr_reaches(
    e: Expr,
    m: MetavarContext,
    lrank: spec_fn(Name) -> nat,
    rank: spec_fn(Name) -> nat,
    k: Name,
) -> bool
    decreases expr_rank(e, rank), expr_size(e), 1nat,
{
    if !has_mvar_spec(e) {
        false
    } else {
        match e {
            Expr::MVar(j) => j == k || match m.expr_of(j) {
                Some(v) => expr_rank(v, rank) < expr_rank(e, rank) && expr_reaches(
                    v,
                    m,
                    lrank,
                    rank,
                    k,
                ),
                None => false,
            },
            Expr::App(f, a) => match app_head(e) {
                Expr::MVar(j) => j == k || args_reach(e, m, lrank, rank, k) || match m.expr_of(j) {
                    Some(v) => expr_rank(v, rank) < expr_rank(e, rank) && expr_reaches(
                        v,
                        m,
                        lrank,
                        rank,
                        k,
                    ),
                    None => match m.delayed_of(j) {
                        Some(d) => d.0.len() <= app_args(e).len() && (d.1 == k || match m.expr_of(
                            d.1,
                        ) {
                            Some(pv) => expr_rank(pv, rank) < expr_rank(e, rank) && expr_reaches(
                                pv,
                                m,
                                lrank,
                                rank,
                                k,
                            ),
                            None => false,
                        }),
                        None => false,
                    },
                },
                _ => expr_reaches(*f, m, lrank, rank, k) || expr_reaches(*a, m, lrank, rank, k),
            },
            Expr::Lam(_, t, b, _) => expr_reaches(*t, m, lrank, rank, k) || expr_reaches(
                *b,
                m,
                lrank,
                rank,
                k,
            ),
            Expr::ForallE(_, t, b, _) => expr_reaches(*t, m, lrank, rank, k) || expr_reaches(
                *b,
                m,
                lrank,
                rank,
                k,
            ),
            Expr::LetE(_, t, v, b, _) => expr_reaches(*t, m, lrank, rank, k) || expr_reaches(
                *v,
                m,
                lrank,
                rank,
                k,
            ) || expr_reaches(*b, m, lrank, rank, k),
            Expr::MData(_, b) => expr_reaches(*b, m, lrank, rank, k),
            Expr::Proj(_, _, b) => expr_reaches(*b, m, lrank, rank, k),
            _ => false,
        }
    }
}

/// Instantiating one of the arguments of the chain of applications `e`
/// looks up `k`.
pub open spec fn args_reach(
    e: Expr,
    m: MetavarContext,
    lrank: spec_fn(Name) -> nat,
    rank: spec_fn(Name) -> nat,
    k: Name,
) -> bool
    decreases expr_rank(e, rank), expr_size(e), 0nat,
{
    match e {
        Expr::App(f, a) => expr_reaches(*a, m, lrank, rank, k) || args_reach(*f, m, lrank, rank, k),
        _ => false,
    }
}

/// Every assigned metavariable that instantiating `x` looks up is
/// normalized in `cur`.
pub open spec fn reach_normalized(
    cur: MetavarContext,
    orig: MetavarContext,
    lrank: spec_fn(Name) -> nat,
    rank: spec_fn(Name) -> nat,
    x: Expr,
) -> bool {
    forall|j: Name|
        expr_reaches(x, orig, lrank, rank, j) && orig.expr_of(j) is Some ==> #[trigger] is_normalized(
            cur,
            orig,
            lrank,
            rank,
            j,
        )
}

/// Every assigned metavariable that instantiating the arguments of `x`
/// looks up is normalized in `cur`.
pub open spec fn args_reach_normalized(
    cur: MetavarContext,
    orig: MetavarContext,
    lrank: spec_fn(Name) -> nat,
    rank: spec_fn(Name) -> nat,
    x: Expr,
) -> bool {
    forall|j: Name|
        args_reach(x, orig, lrank, rank, j) && orig.expr_of(j) is Some ==> #[trigger] is_normalized(
            cur,
            orig,
            lrank,
            rank,
            j,
        )
}

/// Every metavariable of an assigned value ranks below the one it is
/// assigned to, and the pending metavariable of a delayed assignment below
/// the delayed one.
pub open spec fn exprs_acyclic(m: MetavarContext, rank: spec_fn(Name) -> nat) -> bool {
    &&& forall|i: int|
        0 <= i < m.expr_assignments@.len() ==> expr_rank(#[trigger] m.expr_assignments@[i].1, rank)
            <= rank(m.expr_assignments@[i].0)
    &&& forall|i: int|
        0 <= i < m.delayed_assignments@.len() ==> rank(
            #[trigger] m.delayed_assignments@[i].1.mvar_id_pending,
        ) < rank(m.delayed_assignments@[i].0)
}

/// Every assigned value is well formed and the variables of every delayed
/// assignment are free variables.
pub open spec fn ctx_wf(m: MetavarContext) -> bool {
    &&& forall|i: int|
        0 <= i < m.expr_assignments@.len() ==> wf_expr(#[trigger] m.expr_assignments@[i].1)
    &&& forall|i: int, j: int|
        0 <= i < m.delayed_assignments@.len() && 0 <= j
            < m.delayed_assignments@[i].1.fvars@.len() ==> (
        #[trigger] m.delayed_assignments@[i].1.fvars@[j]) is FVar
}

/// A context that instantiation can work in: no assignment forms a cycle
/// and every assignment is well formed.
pub open spec fn mvar_ctx_ok(m: MetavarContext) -> bool {
    &&& level_ctx_acyclic(m.level_assignments@)
    &&& exists|rank: spec_fn(Name) -> nat| exprs_acyclic(m, rank)
    &&& ctx_wf(m)
}

/// A ranking under which the expression assignments form no cycle.
pub open spec fn some_expr_rank(m: MetavarContext) -> spec_fn(Name) -> nat {
    choose|rank: spec_fn(Name) -> nat| exprs_acyclic(m, rank)
}

/// `e` with its metavariables instantiated as `m` assigns them.
pub open spec fn instantiate_mvars_spec(e: Expr, m: MetavarContext) -> Expr {
    inst_expr(e, m, some_level_rank(m.level_assignments@), some_expr_rank(m))
}

/// Instantiating `e` in `m` looks up the expression metavariable `k`.
pub open spec fn instantiate_mvars_reaches(e: Expr, m: MetavarContext, k: Name) -> bool {
    expr_reaches(e, m, some_level_rank(m.level_assignments@), some_expr_rank(m), k)
}

/// Instantiating `e` in `m` stays within bounds.
pub open spec fn instantiate_mvars_ok(e: Expr, m: MetavarContext) -> bool {
    inst_ok(e, m, some_level_rank(m.level_assignments@), some_expr_rank(m))
}

/// The head and the arguments of a chain of applications rank no higher
/// and are smaller; a metavariable at the head ranks below the chain.
pub proof fn lemma_app_parts(e: Expr, rank: spec_fn(Name) -> nat)
    ensures
        forall|i: int|
            0 <= i < app_args(e).len() ==> expr_rank(#[trigger] app_args(e)[i], rank) <= expr_rank(
                e,
                rank,
            ) && expr_size(app_args(e)[i]) < expr_size(e),
        expr_rank(app_head(e), rank) <= expr_rank(e, rank),
        app_head(e) is App ==> false,
        e is App ==> app_args(e).len() > 0,
    decreases e,
{
    match e {
        Expr::App(f, a) => {
            lemma_app_parts(*f, rank);
            assert forall|i: int|
                0 <= i < app_args(e).len() implies expr_rank(#[trigger] app_args(e)[i], rank)
                <= expr_rank(e, rank) && expr_size(app_args(e)[i]) < expr_size(e) by {
                if i > 0 {
                    assert(app_args(e)[i] == app_args(*f)[i - 1]);
                }
            }
        },
        _ => {},
    }
}

/// The instantiated arguments are the arguments instantiated.
pub proof fn lemma_inst_args(
    e: Expr,
    m: MetavarContext,
    lrank: spec_fn(Name) -> nat,
    rank: spec_fn(Name) -> nat,
)
    ensures
        inst_args(e, m, lrank, rank).len() == app_args(e).len(),
        forall|i: int|
            0 <= i < app_args(e).len() ==> #[trigger] inst_args(e, m, lrank, rank)[i] == inst_expr(
                app_args(e)[i],
                m,
                lrank,
                rank,
            ),
        args_ok(e, m, lrank, rank) ==> forall|i: int|
            0 <= i < app_args(e).len() ==> inst_ok(#[trigger] app_args(e)[i], m, lrank, rank),
    decreases e,
{
    match e {
        Expr::App(f, a) => {
            lemma_inst_args(*f, m, lrank, rank);
            assert forall|i: int|
                0 < i < app_args(e).len() implies #[trigger] inst_args(e, m, lrank, rank)[i]
                == inst_expr(app_args(e)[i], m, lrank, rank) by {
                assert(app_args(e)[i] == app_args(*f)[i - 1]);
            }
            if args_ok(e, m, lrank, rank) {
                assert forall|i: int|
                    0 <= i < app_args(e).len() implies inst_ok(
                    #[trigger] app_args(e)[i],
                    m,
                    lrank,
                    rank,
                ) by {
                    if i > 0 {
                        assert(app_args(e)[i] == app_args(*f)[i - 1]);
                    }
                }
            }
        },
        _ => {},
    }
}

/// What an acyclic, well formed context assigns: a well formed value that
/// ranks no higher than its metavariable; a delayed assignment whose
/// variables are free variables and whose pending metavariable ranks below.
pub proof fn lemma_ctx_lookup(m: MetavarContext, rank: spec_fn(Name) -> nat, k: Name)
    requires
        exprs_acyclic(m, rank),
        ctx_wf(m),
    ensures
        m.expr_of(k) matches Some(v) ==> expr_rank(v, rank) <= rank(k) && wf_expr(v),
        m.delayed_of(k) matches Some(d) ==> rank(d.1) < rank(k) && forall|j: int|
            0 <= j < d.0.len() ==> (#[trigger] d.0[j]) is FVar,
{
    lemma_lookup_entry(m.expr_assignments@, k);
    if m.expr_of(k) is Some {
        let v = m.expr_of(k)->Some_0;
        let i = choose|i: int|
            0 <= i < m.expr_assignments@.len() && #[trigger] m.expr_assignments@[i] == (k, v);
        assert(expr_rank(m.expr_assignments@[i].1, rank) <= rank(m.expr_assignments@[i].0));
        assert(wf_expr(m.expr_assignments@[i].1));
    }
    lemma_lookup_entry(m.delayed_assignments@, k);
    match lookup(m.delayed_assignments@, k) {
        Some(d) => {
            let i = choose|i: int|
                0 <= i < m.delayed_assignments@.len() && #[trigger] m.delayed_assignments@[i] == (
                    k,
                    d,
                );
            assert(rank(m.delayed_assignments@[i].1.mvar_id_pending) < rank(
                m.delayed_assignments@[i].0,
            ));
            assert forall|j: int| 0 <= j < d.fvars@.len() implies (#[trigger] d.fvars@[j]) is FVar by {
                assert(m.delayed_assignments@[i].1.fvars@[j] is FVar);
            }
        },
        None => {},
    }
}

/// The orderings and the context that an instantiation works in: acyclic
/// and well formed.
pub open spec fn ranked_ctx(
    orig: MetavarContext,
    lrank: spec_fn(Name) -> nat,
    rank: spec_fn(Name) -> nat,
) -> bool {
    &&& levels_acyclic(orig.level_assignments@, lrank)
    &&& exprs_acyclic(orig, rank)
    &&& ctx_wf(orig)
}

/// The metavariable `k` is assigned in `orig`, and `cur` assigns it its
/// value instantiated.
pub open spec fn is_normalized(
    cur: MetavarContext,
    orig: MetavarContext,
    lrank: spec_fn(Name) -> nat,
    rank: spec_fn(Name) -> nat,
    k: Name,
) -> bool {
    &&& orig.expr_of(k) is Some
    &&& cur.expr_of(k) == Some(inst_expr(orig.expr_of(k)->Some_0, orig, lrank, rank))
}

/// What an instantiation keeps true of the context `cur` it updates, which
/// started as `orig`: the delayed assignments are unchanged; each universe
/// value and each expression value is the one `orig` assigns or its
/// instantiation, and well formed; an expression value that changed is in
/// the set `done`, and every metavariable of `done` ranked below `c` is
/// normalized, and so is every assigned metavariable that instantiating its
/// original value looks up.
pub open spec fn normalized_inv(
    done: Seq<Name>,
    cur: MetavarContext,
    orig: MetavarContext,
    lrank: spec_fn(Name) -> nat,
    rank: spec_fn(Name) -> nat,
    c: nat,
) -> bool {
    &&& cur.delayed_assignments@ == orig.delayed_assignments@
    &&& level_ctx_normalizes(cur.level_assignments@, orig.level_assignments@, lrank)
    &&& level_ctx_closed(cur.level_assignments@, orig.level_assignments@, lrank)
    &&& forall|k: Name|
        #[trigger] cur.expr_of(k) == orig.expr_of(k) || is_normalized(cur, orig, lrank, rank, k)
    &&& forall|k: Name| (#[trigger] cur.expr_of(k)) matches Some(v) ==> wf_expr(v)
    &&& forall|k: Name| #[trigger] cur.expr_of(k) != orig.expr_of(k) ==> done.contains(k)
    &&& forall|k: Name|
        #[trigger] done.contains(k) && rank(k) < c ==> is_normalized(cur, orig, lrank, rank, k)
            && reach_normalized(cur, orig, lrank, rank, orig.expr_of(k)->Some_0)
}

/// Normalized metavariables staying normalized keep `reach_normalized`.
pub proof fn lemma_reach_normalized_mono(
    cur0: MetavarContext,
    cur1: MetavarContext,
    orig: MetavarContext,
    lrank: spec_fn(Name) -> nat,
    rank: spec_fn(Name) -> nat,
    x: Expr,
)
    requires
        reach_normalized(cur0, orig, lrank, rank, x),
        forall|j: Name| is_normalized(cur0, orig, lrank, rank, j) ==> #[trigger] is_normalized(
            cur1,
            orig,
            lrank,
            rank,
            j,
        ),
    ensures
        reach_normalized(cur1, orig, lrank, rank, x),
{
    assert forall|j: Name|
        expr_reaches(x, orig, lrank, rank, j) && orig.expr_of(j) is Some implies #[trigger] is_normalized(
            cur1,
            orig,
            lrank,
            rank,
            j,
        ) by {
        assert(is_normalized(cur0, orig, lrank, rank, j));
    }
}

} // verus!
