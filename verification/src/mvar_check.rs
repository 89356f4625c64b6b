//! Checking that a metavariable context is one that instantiation can work
//! in, and instantiating only in such a context.
//!
//! Lean's occurs check keeps assignments from forming a cycle; a context
//! built otherwise may hold one, and instantiation then has no meaning
//! that does not depend on the order of its steps.  The checks here decide
//! `mvar_ctx_ok` and `level_ctx_acyclic`, so that a caller need not know in
//! advance that a context has no cycle.
use vstd::prelude::*;
use crate::expr::{Expr, Level, Name, wf_expr, MAX_BVAR_RANGE};
use crate::bvars::max_nat;
use crate::acyclic::{deps_ranked, deps_view, deps_acyclic};
use crate::mctx::MetavarContext;
use crate::level_mvars::{level_rank, levels_acyclic, level_ctx_acyclic, some_level_rank,
    instantiate_level_spec, level_ctx_normalizes, level_reaches, lean_instantiate_level_mvars_rs};
use crate::mvar_spec::{expr_rank, exprs_acyclic, ctx_wf, mvar_ctx_ok, instantiate_mvars_spec,
    instantiate_mvars_ok, instantiate_mvars_reaches};
use crate::expr_mvars::lean_instantiate_expr_mvars_rs;
use crate::expr_util::has_mvar_spec;

verus! {

/// The expression metavariable `m` occurs in `e`.
pub open spec fn expr_mvar_occurs(e: Expr, m: Name) -> bool
    decreases e,
{
    match e {
        Expr::MVar(k) => k == m,
        Expr::App(f, a) => expr_mvar_occurs(*f, m) || expr_mvar_occurs(*a, m),
        Expr::Lam(_, t, b, _) => expr_mvar_occurs(*t, m) || expr_mvar_occurs(*b, m),
        Expr::ForallE(_, t, b, _) => expr_mvar_occurs(*t, m) || expr_mvar_occurs(*b, m),
        Expr::LetE(_, t, v, b, _) => expr_mvar_occurs(*t, m) || expr_mvar_occurs(*v, m)
            || expr_mvar_occurs(*b, m),
        Expr::MData(_, b) => expr_mvar_occurs(*b, m),
        Expr::Proj(_, _, b) => expr_mvar_occurs(*b, m),
        _ => false,
    }
}

/// The universe metavariable `m` occurs in `l`.
pub open spec fn level_mvar_occurs(l: Level, m: Name) -> bool
    decreases l,
{
    match l {
        Level::MVar(k) => k == m,
        Level::Succ(a) => level_mvar_occurs(*a, m),
        Level::Max(a, b) => level_mvar_occurs(*a, m) || level_mvar_occurs(*b, m),
        Level::IMax(a, b) => level_mvar_occurs(*a, m) || level_mvar_occurs(*b, m),
        _ => false,
    }
}

/// The rank of `e` is at most `bound` exactly when every metavariable of
/// `e` ranks below `bound`.
proof fn lemma_expr_rank_occurs(e: Expr, rank: spec_fn(Name) -> nat, bound: nat)
    ensures
        expr_rank(e, rank) <= bound <==> forall|m: Name| #[trigger] expr_mvar_occurs(e, m) ==> rank(m)
            < bound,
    decreases e,
{
    match e {
        Expr::App(x, y) => {
            assert(expr_rank(e, rank) == max_nat(expr_rank(*x, rank), expr_rank(*y, rank)));
            lemma_expr_rank_occurs(*x, rank, bound);
            lemma_expr_rank_occurs(*y, rank, bound);
            if forall|m: Name| #[trigger] expr_mvar_occurs(e, m) ==> rank(m) < bound {
                assert forall|m: Name| #[trigger] expr_mvar_occurs(*x, m) implies rank(m) < bound by {
                    assert(expr_mvar_occurs(e, m));
                }
                assert forall|m: Name| #[trigger] expr_mvar_occurs(*y, m) implies rank(m) < bound by {
                    assert(expr_mvar_occurs(e, m));
                }
            }
            if expr_rank(e, rank) <= bound {
                assert forall|m: Name| #[trigger] expr_mvar_occurs(e, m) implies rank(m) < bound by {
                    if expr_mvar_occurs(*x, m) {
                    } else {
                        assert(expr_mvar_occurs(*y, m));
                    }
                }
            }
                },
        Expr::Lam(_, x, y, _) => {
            lemma_expr_rank_occurs(*x, rank, bound);
            lemma_expr_rank_occurs(*y, rank, bound);
            if forall|m: Name| #[trigger] expr_mvar_occurs(e, m) ==> rank(m) < bound {
                assert forall|m: Name| #[trigger] expr_mvar_occurs(*x, m) implies rank(m) < bound by {
                    assert(expr_mvar_occurs(e, m));
                }
                assert forall|m: Name| #[trigger] expr_mvar_occurs(*y, m) implies rank(m) < bound by {
                    assert(expr_mvar_occurs(e, m));
                }
            }
            if expr_rank(e, rank) <= bound {
                assert forall|m: Name| #[trigger] expr_mvar_occurs(e, m) implies rank(m) < bound by {
                    if expr_mvar_occurs(*x, m) {
                    } else {
                        assert(expr_mvar_occurs(*y, m));
                    }
                }
            }
        },
        Expr::ForallE(_, x, y, _) => {
            lemma_expr_rank_occurs(*x, rank, bound);
            lemma_expr_rank_occurs(*y, rank, bound);
            if forall|m: Name| #[trigger] expr_mvar_occurs(e, m) ==> rank(m) < bound {
                assert forall|m: Name| #[trigger] expr_mvar_occurs(*x, m) implies rank(m) < bound by {
                    assert(expr_mvar_occurs(e, m));
                }
                assert forall|m: Name| #[trigger] expr_mvar_occurs(*y, m) implies rank(m) < bound by {
                    assert(expr_mvar_occurs(e, m));
                }
            }
            if expr_rank(e, rank) <= bound {
                assert forall|m: Name| #[trigger] expr_mvar_occurs(e, m) implies rank(m) < bound by {
                    if expr_mvar_occurs(*x, m) {
                    } else {
                        assert(expr_mvar_occurs(*y, m));
                    }
                }
            }
        },
        Expr::LetE(_, t, v, b, _) => {
            lemma_expr_rank_occurs(*t, rank, bound);
            lemma_expr_rank_occurs(*v, rank, bound);
            lemma_expr_rank_occurs(*b, rank, bound);
            if forall|m: Name| #[trigger] expr_mvar_occurs(e, m) ==> rank(m) < bound {
                assert forall|m: Name| #[trigger] expr_mvar_occurs(*t, m) implies rank(m) < bound by {
                    assert(expr_mvar_occurs(e, m));
                }
                assert forall|m: Name| #[trigger] expr_mvar_occurs(*v, m) implies rank(m) < bound by {
                    assert(expr_mvar_occurs(e, m));
                }
                assert forall|m: Name| #[trigger] expr_mvar_occurs(*b, m) implies rank(m) < bound by {
                    assert(expr_mvar_occurs(e, m));
                }
            }
            if expr_rank(e, rank) <= bound {
                assert forall|m: Name| #[trigger] expr_mvar_occurs(e, m) implies rank(m) < bound by {
                    if expr_mvar_occurs(*t, m) {
                    } else if expr_mvar_occurs(*v, m) {
                    } else {
                        assert(expr_mvar_occurs(*b, m));
                    }
                }
            }
        },
        Expr::MData(_, b) => {
            lemma_expr_rank_occurs(*b, rank, bound);
            if forall|m: Name| #[trigger] expr_mvar_occurs(e, m) ==> rank(m) < bound {
                assert forall|m: Name| #[trigger] expr_mvar_occurs(*b, m) implies rank(m) < bound by {
                    assert(expr_mvar_occurs(e, m));
                }
            }
            if expr_rank(e, rank) <= bound {
                assert forall|m: Name| #[trigger] expr_mvar_occurs(e, m) implies rank(m) < bound by {
                    assert(expr_mvar_occurs(*b, m));
                }
            }
        },
        Expr::Proj(_, _, b) => {
            lemma_expr_rank_occurs(*b, rank, bound);
            if forall|m: Name| #[trigger] expr_mvar_occurs(e, m) ==> rank(m) < bound {
                assert forall|m: Name| #[trigger] expr_mvar_occurs(*b, m) implies rank(m) < bound by {
                    assert(expr_mvar_occurs(e, m));
                }
            }
            if expr_rank(e, rank) <= bound {
                assert forall|m: Name| #[trigger] expr_mvar_occurs(e, m) implies rank(m) < bound by {
                    assert(expr_mvar_occurs(*b, m));
                }
            }
        },
        Expr::MVar(k) => {
            if rank(k) < bound {
                assert forall|m: Name| #[trigger] expr_mvar_occurs(e, m) implies rank(m) < bound by {
                    assert(m == k);
                }
            } else {
                assert(expr_mvar_occurs(e, k));
            }
        },
        _ => {
            assert forall|m: Name| #[trigger] expr_mvar_occurs(e, m) implies rank(m) < bound by {
                assert(!expr_mvar_occurs(e, m));
            }
        },
    }
}

/// The rank of `l` is at most `bound` exactly when every metavariable of
/// `l` ranks below `bound`.
proof fn lemma_level_rank_occurs(l: Level, rank: spec_fn(Name) -> nat, bound: nat)
    ensures
        level_rank(l, rank) <= bound <==> forall|m: Name| #[trigger] level_mvar_occurs(l, m) ==> rank(m)
            < bound,
    decreases l,
{
    match l {
        Level::Max(x, y) => {
            assert(level_rank(l, rank) == max_nat(level_rank(*x, rank), level_rank(*y, rank)));
            lemma_level_rank_occurs(*x, rank, bound);
            lemma_level_rank_occurs(*y, rank, bound);
            if forall|m: Name| #[trigger] level_mvar_occurs(l, m) ==> rank(m) < bound {
                assert forall|m: Name| #[trigger] level_mvar_occurs(*x, m) implies rank(m) < bound by {
                    assert(level_mvar_occurs(l, m));
                }
                assert forall|m: Name| #[trigger] level_mvar_occurs(*y, m) implies rank(m) < bound by {
                    assert(level_mvar_occurs(l, m));
                }
            }
            if level_rank(l, rank) <= bound {
                assert forall|m: Name| #[trigger] level_mvar_occurs(l, m) implies rank(m) < bound by {
                    if level_mvar_occurs(*x, m) {
                    } else {
                        assert(level_mvar_occurs(*y, m));
                    }
                }
            }
        },
        Level::IMax(x, y) => {
            lemma_level_rank_occurs(*x, rank, bound);
            lemma_level_rank_occurs(*y, rank, bound);
            if forall|m: Name| #[trigger] level_mvar_occurs(l, m) ==> rank(m) < bound {
                assert forall|m: Name| #[trigger] level_mvar_occurs(*x, m) implies rank(m) < bound by {
                    assert(level_mvar_occurs(l, m));
                }
                assert forall|m: Name| #[trigger] level_mvar_occurs(*y, m) implies rank(m) < bound by {
                    assert(level_mvar_occurs(l, m));
                }
            }
            if level_rank(l, rank) <= bound {
                assert forall|m: Name| #[trigger] level_mvar_occurs(l, m) implies rank(m) < bound by {
                    if level_mvar_occurs(*x, m) {
                    } else {
                        assert(level_mvar_occurs(*y, m));
                    }
                }
            }
        },
        Level::Succ(a) => {
            lemma_level_rank_occurs(*a, rank, bound);
            if forall|m: Name| #[trigger] level_mvar_occurs(l, m) ==> rank(m) < bound {
                assert forall|m: Name| #[trigger] level_mvar_occurs(*a, m) implies rank(m) < bound by {
                    assert(level_mvar_occurs(l, m));
                }
            }
            if level_rank(l, rank) <= bound {
                assert forall|m: Name| #[trigger] level_mvar_occurs(l, m) implies rank(m) < bound by {
                    assert(level_mvar_occurs(*a, m));
                }
            }
        },
        Level::MVar(k) => {
            if rank(k) < bound {
                assert forall|m: Name| #[trigger] level_mvar_occurs(l, m) implies rank(m) < bound by {
                    assert(m == k);
                }
            } else {
                assert(level_mvar_occurs(l, k));
            }
        },
        _ => {
            assert forall|m: Name| #[trigger] level_mvar_occurs(l, m) implies rank(m) < bound by {
                assert(!level_mvar_occurs(l, m));
            }
        },
    }
}

/// Adds to `out` the expression metavariables of `e`.
fn collect_expr_mvars(e: &Expr, out: &mut Vec<Name>)
    ensures
        forall|m: Name| #[trigger] final(out)@.contains(m) <==> (old(out)@.contains(m) || expr_mvar_occurs(*e, m)),
    decreases e,
{
    match e {
        Expr::MVar(k) => {
            out.push(*k);
            proof {
                assert forall|m: Name| #[trigger] out@.contains(m) <==> (old(out)@.contains(m)
                    || expr_mvar_occurs(*e, m)) by {
                    if m == *k {
                        assert(out@[out@.len() - 1] == m);
                    } else if out@.contains(m) {
                        let i = choose|i: int| 0 <= i < out@.len() && out@[i] == m;
                        assert(old(out)@[i] == m);
                    } else if old(out)@.contains(m) {
                        let i = choose|i: int| 0 <= i < old(out)@.len() && old(out)@[i] == m;
                        assert(out@[i] == m);
                    }
                }
            }
        },
        Expr::App(x, y) | Expr::Lam(_, x, y, _) | Expr::ForallE(_, x, y, _) => {
            collect_expr_mvars(x, out);
            collect_expr_mvars(y, out);
        },
        Expr::LetE(_, t, v, b, _) => {
            collect_expr_mvars(t, out);
            collect_expr_mvars(v, out);
            collect_expr_mvars(b, out);
        },
        Expr::MData(_, b) | Expr::Proj(_, _, b) => collect_expr_mvars(b, out),
        _ => {},
    }
}

/// Adds to `out` the universe metavariables of `l`.
fn collect_level_mvars(l: &Level, out: &mut Vec<Name>)
    ensures
        forall|m: Name| #[trigger] final(out)@.contains(m) <==> (old(out)@.contains(m) || level_mvar_occurs(*l, m)),
    decreases l,
{
    match l {
        Level::MVar(k) => {
            out.push(*k);
            proof {
                assert forall|m: Name| #[trigger] out@.contains(m) <==> (old(out)@.contains(m)
                    || level_mvar_occurs(*l, m)) by {
                    if m == *k {
                        assert(out@[out@.len() - 1] == m);
                    } else if out@.contains(m) {
                        let i = choose|i: int| 0 <= i < out@.len() && out@[i] == m;
                        assert(old(out)@[i] == m);
                    } else if old(out)@.contains(m) {
                        let i = choose|i: int| 0 <= i < old(out)@.len() && old(out)@[i] == m;
                        assert(out@[i] == m);
                    }
                }
            }
        },
        Level::Max(x, y) | Level::IMax(x, y) => {
            collect_level_mvars(x, out);
            collect_level_mvars(y, out);
        },
        Level::Succ(a) => collect_level_mvars(a, out),
        _ => {},
    }
}

/// Whether every bound variable index of `e` is below `MAX_BVAR_RANGE`.
pub fn expr_is_wf(e: &Expr) -> (r: bool)
    ensures
        r == wf_expr(*e),
    decreases e,
{
    match e {
        Expr::BVar(i) => *i < MAX_BVAR_RANGE,
        Expr::App(x, y) | Expr::Lam(_, x, y, _) | Expr::ForallE(_, x, y, _) => expr_is_wf(x)
            && expr_is_wf(y),
        Expr::LetE(_, t, v, b, _) => expr_is_wf(t) && expr_is_wf(v) && expr_is_wf(b),
        Expr::MData(_, b) | Expr::Proj(_, _, b) => expr_is_wf(b),
        _ => true,
    }
}

/// `keys` and `deps` list, in order, each expression assignment of `m`
/// with the metavariables of its value, then each delayed assignment with
/// its pending metavariable.
pub open spec fn expr_entries(m: MetavarContext, keys: Seq<Name>, deps: Seq<Seq<Name>>) -> bool {
    let ea = m.expr_assignments@;
    let da = m.delayed_assignments@;
    &&& keys.len() == deps.len() == ea.len() + da.len()
    &&& forall|i: int|
        #![trigger ea[i]]
        0 <= i < ea.len() ==> keys[i] == ea[i].0 && forall|x: Name|
            #[trigger] deps[i].contains(x) <==> expr_mvar_occurs(ea[i].1, x)
    &&& forall|i: int|
        #![trigger da[i]]
        0 <= i < da.len() ==> keys[ea.len() + i] == da[i].0 && deps[ea.len() + i] == seq![
            da[i].1.mvar_id_pending,
        ]
}

/// `keys` and `deps` list, in order, each universe assignment of `s` with
/// the metavariables of its value.
pub open spec fn level_entries(s: Seq<(Name, Level)>, keys: Seq<Name>, deps: Seq<Seq<Name>>) -> bool {
    &&& keys.len() == deps.len() == s.len()
    &&& forall|i: int|
        #![trigger s[i]]
        0 <= i < s.len() ==> keys[i] == s[i].0 && forall|x: Name|
            #[trigger] deps[i].contains(x) <==> level_mvar_occurs(s[i].1, x)
}

/// A ranking puts the dependencies of the entries below their keys exactly
/// when it leaves the expression assignments of `m` without a cycle.
proof fn lemma_expr_entries_ranked(
    m: MetavarContext,
    keys: Seq<Name>,
    deps: Seq<Seq<Name>>,
    rank: spec_fn(Name) -> nat,
)
    requires
        expr_entries(m, keys, deps),
    ensures
        deps_ranked(keys, deps, rank) <==> exprs_acyclic(m, rank),
{
    let ea = m.expr_assignments@;
    let da = m.delayed_assignments@;
    if exprs_acyclic(m, rank) {
        assert forall|i: int, j: int| 0 <= i < keys.len() && 0 <= j < deps[i].len() implies rank(
            #[trigger] deps[i][j],
        ) < rank(keys[i]) by {
            if i < ea.len() {
                assert(ea[i] == ea[i]);
                assert(deps[i].contains(deps[i][j]));
                assert(expr_rank(ea[i].1, rank) <= rank(ea[i].0));
                lemma_expr_rank_occurs(ea[i].1, rank, rank(ea[i].0));
            } else {
                let d = i - ea.len();
                assert(da[d] == da[d]);
                assert(rank(da[d].1.mvar_id_pending) < rank(da[d].0));
            }
        }
    }
    if deps_ranked(keys, deps, rank) {
        assert forall|i: int| 0 <= i < ea.len() implies expr_rank(#[trigger] ea[i].1, rank) <= rank(
            ea[i].0,
        ) by {
            assert(ea[i] == ea[i]);
            assert forall|x: Name| #[trigger] expr_mvar_occurs(ea[i].1, x) implies rank(x) < rank(
                ea[i].0,
            ) by {
                assert(deps[i].contains(x));
                let j = choose|j: int| 0 <= j < deps[i].len() && deps[i][j] == x;
                assert(rank(deps[i][j]) < rank(keys[i]));
            }
            lemma_expr_rank_occurs(ea[i].1, rank, rank(ea[i].0));
        }
        assert forall|i: int| 0 <= i < da.len() implies rank(
            #[trigger] da[i].1.mvar_id_pending,
        ) < rank(da[i].0) by {
            assert(da[i] == da[i]);
            let k = ea.len() + i;
            assert(deps[k][0] == da[i].1.mvar_id_pending);
            assert(rank(deps[k][0]) < rank(keys[k]));
        }
    }
}

/// A ranking puts the dependencies of the entries below their keys exactly
/// when it leaves the universe assignments `s` without a cycle.
proof fn lemma_level_entries_ranked(
    s: Seq<(Name, Level)>,
    keys: Seq<Name>,
    deps: Seq<Seq<Name>>,
    rank: spec_fn(Name) -> nat,
)
    requires
        level_entries(s, keys, deps),
    ensures
        deps_ranked(keys, deps, rank) <==> levels_acyclic(s, rank),
{
    if levels_acyclic(s, rank) {
        assert forall|i: int, j: int| 0 <= i < keys.len() && 0 <= j < deps[i].len() implies rank(
            #[trigger] deps[i][j],
        ) < rank(keys[i]) by {
            assert(s[i] == s[i]);
            assert(deps[i].contains(deps[i][j]));
            assert(level_rank(s[i].1, rank) <= rank(s[i].0));
            lemma_level_rank_occurs(s[i].1, rank, rank(s[i].0));
        }
    }
    if deps_ranked(keys, deps, rank) {
        assert forall|i: int| 0 <= i < s.len() implies level_rank(#[trigger] s[i].1, rank) <= rank(
            s[i].0,
        ) by {
            assert(s[i] == s[i]);
            assert forall|x: Name| #[trigger] level_mvar_occurs(s[i].1, x) implies rank(x) < rank(
                s[i].0,
            ) by {
                assert(deps[i].contains(x));
                let j = choose|j: int| 0 <= j < deps[i].len() && deps[i][j] == x;
                assert(rank(deps[i][j]) < rank(keys[i]));
            }
            lemma_level_rank_occurs(s[i].1, rank, rank(s[i].0));
        }
    }
}

/// Whether the universe assignments `s` form no cycle.
pub fn level_ctx_acyclic_check(s: &Vec<(Name, Level)>) -> (r: bool)
    ensures
        r == level_ctx_acyclic(s@),
{
    let mut keys: Vec<Name> = Vec::new();
    let mut deps: Vec<Vec<Name>> = Vec::new();
    let mut i: usize = 0;
    while i < s.len()
        invariant
            i <= s@.len(),
            keys@.len() == deps@.len() == i,
            level_entries(s@.subrange(0, i as int), keys@, deps_view(deps@)),
        decreases s@.len() - i,
    {
        let mut d: Vec<Name> = Vec::new();
        collect_level_mvars(&s[i].1, &mut d);
        let ghost old_deps = deps@;
        let ghost new_deps = d@;
        proof {
            assert forall|x: Name| #[trigger] new_deps.contains(x) <==> level_mvar_occurs(s@[i as int].1, x) by {
                assert(!Seq::<Name>::empty().contains(x));
            }
        }
        keys.push(s[i].0);
        deps.push(d);
        i += 1;
        proof {
            let sub = s@.subrange(0, i as int);
            assert forall|i2: int| 0 <= i2 < sub.len() implies keys@[i2] == (#[trigger] sub[i2]).0
                && forall|x: Name|
                #[trigger] deps_view(deps@)[i2].contains(x) <==> level_mvar_occurs(sub[i2].1, x) by {
                if i2 < i - 1 {
                    assert(s@.subrange(0, i - 1)[i2] == sub[i2]);
                    assert(deps_view(deps@)[i2] == deps_view(old_deps)[i2]);
                } else {
                    assert(deps_view(deps@)[i2] == new_deps);
                }
            }
        }
    }
    proof {
        assert(s@.subrange(0, s@.len() as int) =~= s@);
    }
    let r = deps_acyclic(&keys, &deps);
    proof {
        let dv = deps_view(deps@);
        if r {
            let rank = choose|rank: spec_fn(Name) -> nat| deps_ranked(keys@, dv, rank);
            lemma_level_entries_ranked(s@, keys@, dv, rank);
        } else if level_ctx_acyclic(s@) {
            let rank = choose|rank: spec_fn(Name) -> nat| levels_acyclic(s@, rank);
            lemma_level_entries_ranked(s@, keys@, dv, rank);
        }
    }
    r
}

/// Whether some ranking leaves the expression and delayed assignments of
/// `m` without a cycle.
pub fn exprs_acyclic_check(m: &MetavarContext) -> (r: bool)
    ensures
        r == exists|rank: spec_fn(Name) -> nat| exprs_acyclic(*m, rank),
{
    let ghost ea = m.expr_assignments@;
    let ghost da = m.delayed_assignments@;
    let mut keys: Vec<Name> = Vec::new();
    let mut deps: Vec<Vec<Name>> = Vec::new();
    let mut i: usize = 0;
    while i < m.expr_assignments.len()
        invariant
            ea == m.expr_assignments@,
            i <= ea.len(),
            keys@.len() == deps@.len() == i,
            forall|i2: int|
                #![trigger ea[i2]]
                0 <= i2 < i ==> keys@[i2] == ea[i2].0 && forall|x: Name|
                    #[trigger] deps_view(deps@)[i2].contains(x) <==> expr_mvar_occurs(ea[i2].1, x),
        decreases ea.len() - i,
    {
        let mut d: Vec<Name> = Vec::new();
        collect_expr_mvars(&m.expr_assignments[i].1, &mut d);
        let ghost old_deps = deps@;
        let ghost new_deps = d@;
        proof {
            assert forall|x: Name| #[trigger] new_deps.contains(x) <==> expr_mvar_occurs(ea[i as int].1, x) by {
                assert(!Seq::<Name>::empty().contains(x));
            }
        }
        keys.push(m.expr_assignments[i].0);
        deps.push(d);
        i += 1;
        proof {
            assert forall|i2: int| #![trigger ea[i2]] 0 <= i2 < i implies keys@[i2] == ea[i2].0 && forall|x: Name|
                #[trigger] deps_view(deps@)[i2].contains(x) <==> expr_mvar_occurs(ea[i2].1, x) by {
                if i2 < i - 1 {
                    assert(deps_view(deps@)[i2] == deps_view(old_deps)[i2]);
                } else {
                    assert(deps_view(deps@)[i2] == new_deps);
                }
            }
        }
    }
    let mut j: usize = 0;
    while j < m.delayed_assignments.len()
        invariant
            ea == m.expr_assignments@,
            da == m.delayed_assignments@,
            j <= da.len(),
            keys@.len() == deps@.len() == ea.len() + j,
            forall|i2: int|
                #![trigger ea[i2]]
                0 <= i2 < ea.len() ==> keys@[i2] == ea[i2].0 && forall|x: Name|
                    #[trigger] deps_view(deps@)[i2].contains(x) <==> expr_mvar_occurs(ea[i2].1, x),
            forall|i2: int|
                #![trigger da[i2]]
                0 <= i2 < j ==> keys@[ea.len() + i2] == da[i2].0 && deps_view(deps@)[ea.len() + i2]
                    == seq![da[i2].1.mvar_id_pending],
        decreases da.len() - j,
    {
        let mut d: Vec<Name> = Vec::new();
        d.push(m.delayed_assignments[j].1.mvar_id_pending);
        let ghost old_deps = deps@;
        let ghost new_deps = d@;
        proof {
            assert(new_deps =~= seq![da[j as int].1.mvar_id_pending]);
        }
        keys.push(m.delayed_assignments[j].0);
        deps.push(d);
        j += 1;
        proof {
            assert forall|i2: int| #![trigger ea[i2]] 0 <= i2 < ea.len() implies keys@[i2] == ea[i2].0 && forall|x: Name|
                #[trigger] deps_view(deps@)[i2].contains(x) <==> expr_mvar_occurs(ea[i2].1, x) by {
                assert(deps_view(deps@)[i2] == deps_view(old_deps)[i2]);
            }
            assert forall|i2: int| #![trigger da[i2]] 0 <= i2 < j implies keys@[ea.len() + i2] == da[i2].0
                && deps_view(deps@)[ea.len() + i2] == seq![da[i2].1.mvar_id_pending] by {
                if i2 < j - 1 {
                    assert(deps_view(deps@)[ea.len() + i2] == deps_view(old_deps)[ea.len() + i2]);
                } else {
                    assert(deps_view(deps@)[ea.len() + i2] == new_deps);
                }
            }
        }
    }
    let r = deps_acyclic(&keys, &deps);
    proof {
        let dv = deps_view(deps@);
        assert(expr_entries(*m, keys@, dv));
        if r {
            let rank = choose|rank: spec_fn(Name) -> nat| deps_ranked(keys@, dv, rank);
            lemma_expr_entries_ranked(*m, keys@, dv, rank);
        } else if exists|rank: spec_fn(Name) -> nat| exprs_acyclic(*m, rank) {
            let rank = choose|rank: spec_fn(Name) -> nat| exprs_acyclic(*m, rank);
            lemma_expr_entries_ranked(*m, keys@, dv, rank);
        }
    }
    r
}

/// Whether every assigned value of `m` is well formed and the variables of
/// every delayed assignment are free variables.
pub fn ctx_wf_check(m: &MetavarContext) -> (r: bool)
    ensures
        r == ctx_wf(*m),
{
    let mut i: usize = 0;
    while i < m.expr_assignments.len()
        invariant
            i <= m.expr_assignments@.len(),
            forall|i2: int| 0 <= i2 < i ==> wf_expr(#[trigger] m.expr_assignments@[i2].1),
        decreases m.expr_assignments@.len() - i,
    {
        if !expr_is_wf(&m.expr_assignments[i].1) {
            return false;
        }
        i += 1;
    }
    let mut j: usize = 0;
    while j < m.delayed_assignments.len()
        invariant
            j <= m.delayed_assignments@.len(),
            ctx_wf(*m) <==> forall|i2: int, k: int|
                j <= i2 < m.delayed_assignments@.len() && 0 <= k
                    < m.delayed_assignments@[i2].1.fvars@.len() ==> (
                #[trigger] m.delayed_assignments@[i2].1.fvars@[k]) is FVar,
        decreases m.delayed_assignments@.len() - j,
    {
        let fvars = &m.delayed_assignments[j].1.fvars;
        let mut k: usize = 0;
        while k < fvars.len()
            invariant
                j < m.delayed_assignments@.len(),
                fvars@ == m.delayed_assignments@[j as int].1.fvars@,
                k <= fvars@.len(),
                forall|k2: int| 0 <= k2 < k ==> (#[trigger] fvars@[k2]) is FVar,
            decreases fvars@.len() - k,
        {
            match &fvars[k] {
                Expr::FVar(_) => {},
                _ => {
                    return false;
                },
            }
            k += 1;
        }
        j += 1;
    }
    true
}

/// Whether `m` is a context that instantiation can work in: no assignment
/// forms a cycle and every assignment is well formed.
pub fn mvar_ctx_ok_check(m: &MetavarContext) -> (r: bool)
    ensures
        r == mvar_ctx_ok(*m),
{
    level_ctx_acyclic_check(&m.level_assignments) && exprs_acyclic_check(m) && ctx_wf_check(m)
}

/// Instantiates the universe metavariables of `l` as `mctx` assigns them,
/// as `lean_instantiate_level_mvars_rs` does, when the universe assignments
/// form no cycle; gives `mctx` back unchanged when they form one.
pub fn instantiate_level_mvars_checked(mctx: MetavarContext, l: &Level) -> (r: Result<
    (MetavarContext, Level),
    MetavarContext,
>)
    ensures
        r is Ok <==> level_ctx_acyclic(mctx.level_assignments@),
        r matches Err(m) ==> m == mctx,
        r matches Ok(p) ==> {
            &&& p.1 == instantiate_level_spec(*l, mctx.level_assignments@)
            &&& forall|k: Name|
                level_reaches(
                    *l,
                    mctx.level_assignments@,
                    some_level_rank(mctx.level_assignments@),
                    k,
                ) && mctx.level_of(k) is Some ==> #[trigger] p.0.level_of(k) == Some(
                    instantiate_level_spec(mctx.level_of(k)->Some_0, mctx.level_assignments@),
                )
            &&& forall|k: Name|
                !level_reaches(
                    *l,
                    mctx.level_assignments@,
                    some_level_rank(mctx.level_assignments@),
                    k,
                ) ==> #[trigger] p.0.level_of(k) == mctx.level_of(k)
            &&& p.0.expr_assignments == mctx.expr_assignments
            &&& p.0.delayed_assignments == mctx.delayed_assignments
        },
{
    if level_ctx_acyclic_check(&mctx.level_assignments) {
        Ok(lean_instantiate_level_mvars_rs(mctx, l))
    } else {
        Err(mctx)
    }
}

/// Instantiates the metavariables of `e` as `mctx` assigns them, as
/// `lean_instantiate_expr_mvars_rs` does, when `mctx` is a context that
/// instantiation can work in (no assignment forms a cycle, every one is
/// well formed); gives `mctx` back unchanged when it is not.
pub fn instantiate_expr_mvars_checked(mctx: MetavarContext, e: &Expr) -> (r: Result<
    (MetavarContext, Expr),
    MetavarContext,
>)
    requires
        wf_expr(*e),
        mvar_ctx_ok(mctx) ==> instantiate_mvars_ok(*e, mctx),
    ensures
        r is Ok <==> mvar_ctx_ok(mctx),
        r matches Err(m) ==> m == mctx,
        r matches Ok(p) ==> {
            &&& p.1 == instantiate_mvars_spec(*e, mctx)
            &&& wf_expr(p.1)
            &&& level_ctx_normalizes(
                p.0.level_assignments@,
                mctx.level_assignments@,
                some_level_rank(mctx.level_assignments@),
            )
            &&& p.0.delayed_assignments@ == mctx.delayed_assignments@
            &&& forall|k: Name|
                instantiate_mvars_reaches(*e, mctx, k) && mctx.expr_of(k) is Some
                    ==> #[trigger] p.0.expr_of(k) == Some(
                    instantiate_mvars_spec(mctx.expr_of(k)->Some_0, mctx),
                )
            &&& forall|k: Name|
                !instantiate_mvars_reaches(*e, mctx, k) ==> #[trigger] p.0.expr_of(k) == mctx.expr_of(
                    k,
                )
            &&& !has_mvar_spec(*e) ==> p.0 == mctx
        },
{
    if mvar_ctx_ok_check(&mctx) {
        Ok(lean_instantiate_expr_mvars_rs(mctx, e))
    } else {
        Err(mctx)
    }
}

} // verus!
