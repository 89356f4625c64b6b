use lean_kernel_rs::expr::{BinderInfo, Expr, Level, LevelList, Name};
use lean_kernel_rs::expr_mvars::{lean_instantiate_expr_mvars_rs, InstantiateExprMVars};
use lean_kernel_rs::level_mvars::{lean_instantiate_level_mvars_rs, InstantiateLevelMVars};
use lean_kernel_rs::mctx::{DelayedAssignment, MetavarContext};

fn n(id: u64) -> Name {
    Name { id }
}
fn bv(i: u64) -> Expr {
    Expr::BVar(i)
}
fn fv(id: u64) -> Expr {
    Expr::FVar(n(id))
}
fn mv(id: u64) -> Expr {
    Expr::MVar(n(id))
}
fn cnst(id: u64) -> Expr {
    Expr::Const(n(id), LevelList::Nil)
}
fn app(f: Expr, a: Expr) -> Expr {
    Expr::App(Box::new(f), Box::new(a))
}
fn lam(t: Expr, b: Expr) -> Expr {
    Expr::Lam(n(0), Box::new(t), Box::new(b), BinderInfo::Default)
}
fn let_e(t: Expr, v: Expr, b: Expr) -> Expr {
    Expr::LetE(n(0), Box::new(t), Box::new(v), Box::new(b), false)
}
fn lmv(id: u64) -> Level {
    Level::MVar(n(id))
}
fn succ(l: Level) -> Level {
    Level::Succ(Box::new(l))
}
fn empty_ctx() -> MetavarContext {
    MetavarContext {
        level_assignments: Vec::new(),
        expr_assignments: Vec::new(),
        delayed_assignments: Vec::new(),
    }
}

#[test]
fn level_mvars_instantiated_through_chain() {
    let mut m = empty_ctx();
    m.level_assignments.push((n(1), succ(lmv(2))));
    m.level_assignments.push((n(2), Level::Zero));
    let l = Level::Max(Box::new(lmv(1)), Box::new(Level::Param(n(9))));
    let (m2, r) = lean_instantiate_level_mvars_rs(m, &l);
    assert_eq!(r, Level::Max(Box::new(succ(Level::Zero)), Box::new(Level::Param(n(9)))));
    assert_eq!(m2.get_level_assignment(n(1)), Some(succ(Level::Zero)));
    assert_eq!(m2.get_level_assignment(n(2)), Some(Level::Zero));
}

#[test]
fn level_unassigned_mvar_kept() {
    let m = empty_ctx();
    let l = succ(lmv(5));
    let (m2, r) = lean_instantiate_level_mvars_rs(m, &l);
    assert_eq!(r, succ(lmv(5)));
    assert!(m2.level_assignments.is_empty());
}

#[test]
fn level_inst_state_starts_empty() {
    let inst = InstantiateLevelMVars::new();
    assert!(inst.saved.is_empty());
    assert!(InstantiateLevelMVars::level_has_mvar(&succ(lmv(1))));
    assert!(!InstantiateLevelMVars::level_has_mvar(&succ(Level::Zero)));
}

#[test]
fn assigned_mvar_replaced_and_context_normalized() {
    let mut m = empty_ctx();
    m.expr_assignments.push((n(1), mv(2)));
    m.expr_assignments.push((n(2), cnst(7)));
    let e = app(cnst(3), mv(1));
    let (m2, r) = lean_instantiate_expr_mvars_rs(m, &e);
    assert_eq!(r, app(cnst(3), cnst(7)));
    assert_eq!(m2.get_expr_assignment(n(1)), Some(cnst(7)));
    assert_eq!(m2.get_expr_assignment(n(2)), Some(cnst(7)));
}

#[test]
fn unassigned_mvar_kept() {
    let m = empty_ctx();
    let e = lam(cnst(1), app(mv(4), bv(0)));
    let (_, r) = lean_instantiate_expr_mvars_rs(m, &e);
    assert_eq!(r, lam(cnst(1), app(mv(4), bv(0))));
}

#[test]
fn mvar_under_binders_replaced() {
    let mut m = empty_ctx();
    m.expr_assignments.push((n(1), cnst(8)));
    let e = let_e(mv(1), cnst(2), lam(mv(1), bv(0)));
    let (_, r) = lean_instantiate_expr_mvars_rs(m, &e);
    assert_eq!(r, let_e(cnst(8), cnst(2), lam(cnst(8), bv(0))));
}

#[test]
fn universe_mvars_in_sorts_and_constants() {
    let mut m = empty_ctx();
    m.level_assignments.push((n(1), Level::Zero));
    let e = app(
        Expr::Sort(succ(lmv(1)), Level::Zero),
        Expr::Const(n(4), LevelList::Cons(Box::new(lmv(1)), Box::new(LevelList::Nil))),
    );
    let (_, r) = lean_instantiate_expr_mvars_rs(m, &e);
    assert_eq!(
        r,
        app(
            Expr::Sort(succ(Level::Zero), Level::Zero),
            Expr::Const(n(4), LevelList::Cons(Box::new(Level::Zero), Box::new(LevelList::Nil)))
        )
    );
}

#[test]
fn assigned_head_beta_reduced() {
    let mut m = empty_ctx();
    m.expr_assignments.push((n(1), lam(cnst(0), app(cnst(5), bv(0)))));
    let e = app(mv(1), cnst(6));
    let (_, r) = lean_instantiate_expr_mvars_rs(m, &e);
    assert_eq!(r, app(cnst(5), cnst(6)));
}

#[test]
fn assigned_head_two_arguments() {
    let mut m = empty_ctx();
    m.expr_assignments.push((n(1), lam(cnst(0), lam(cnst(0), bv(1)))));
    let e = app(app(mv(1), cnst(6)), cnst(7));
    let (_, r) = lean_instantiate_expr_mvars_rs(m, &e);
    assert_eq!(r, cnst(6));
}

#[test]
fn assigned_head_not_a_lambda_applied() {
    let mut m = empty_ctx();
    m.expr_assignments.push((n(1), cnst(9)));
    let e = app(app(mv(1), cnst(6)), mv(2));
    let (_, r) = lean_instantiate_expr_mvars_rs(m, &e);
    assert_eq!(r, app(app(cnst(9), cnst(6)), mv(2)));
}

#[test]
fn assigned_head_let_unfolded() {
    let mut m = empty_ctx();
    m.expr_assignments.push((n(1), let_e(cnst(0), cnst(3), lam(cnst(0), app(bv(1), bv(0))))));
    let e = app(mv(1), cnst(6));
    let (_, r) = lean_instantiate_expr_mvars_rs(m, &e);
    assert_eq!(r, app(cnst(3), cnst(6)));
}

#[test]
fn assigned_head_more_arguments_than_lambdas() {
    let mut m = empty_ctx();
    m.expr_assignments.push((n(1), lam(cnst(0), app(cnst(5), bv(0)))));
    let e = app(app(mv(1), cnst(6)), cnst(7));
    let (_, r) = lean_instantiate_expr_mvars_rs(m, &e);
    assert_eq!(r, app(app(cnst(5), cnst(6)), cnst(7)));
}

#[test]
fn delayed_assignment_substitutes_free_variables() {
    let mut m = empty_ctx();
    m.delayed_assignments.push((n(1), DelayedAssignment { fvars: vec![fv(10)], mvar_id_pending: n(2) }));
    m.expr_assignments.push((n(2), app(cnst(5), fv(10))));
    let e = app(app(mv(1), cnst(6)), cnst(7));
    let (_, r) = lean_instantiate_expr_mvars_rs(m, &e);
    assert_eq!(r, app(app(cnst(5), cnst(6)), cnst(7)));
}

#[test]
fn delayed_assignment_two_variables() {
    let mut m = empty_ctx();
    m.delayed_assignments
        .push((n(1), DelayedAssignment { fvars: vec![fv(10), fv(11)], mvar_id_pending: n(2) }));
    m.expr_assignments.push((n(2), app(fv(10), fv(11))));
    let e = app(app(mv(1), cnst(6)), cnst(7));
    let (_, r) = lean_instantiate_expr_mvars_rs(m, &e);
    assert_eq!(r, app(cnst(6), cnst(7)));
}

#[test]
fn delayed_assignment_too_few_arguments_kept() {
    let mut m = empty_ctx();
    m.delayed_assignments
        .push((n(1), DelayedAssignment { fvars: vec![fv(10), fv(11)], mvar_id_pending: n(2) }));
    m.expr_assignments.push((n(2), fv(10)));
    let e = app(mv(1), mv(3));
    m.expr_assignments.push((n(3), cnst(4)));
    let (_, r) = lean_instantiate_expr_mvars_rs(m, &e);
    assert_eq!(r, app(mv(1), cnst(4)));
}

#[test]
fn delayed_assignment_pending_unassigned_kept() {
    let mut m = empty_ctx();
    m.delayed_assignments.push((n(1), DelayedAssignment { fvars: vec![fv(10)], mvar_id_pending: n(2) }));
    let e = app(mv(1), cnst(6));
    let (_, r) = lean_instantiate_expr_mvars_rs(m, &e);
    assert_eq!(r, app(mv(1), cnst(6)));
}

#[test]
fn delayed_assignment_pending_with_mvars_kept() {
    let mut m = empty_ctx();
    m.delayed_assignments.push((n(1), DelayedAssignment { fvars: vec![fv(10)], mvar_id_pending: n(2) }));
    m.expr_assignments.push((n(2), app(mv(3), fv(10))));
    let e = app(mv(1), cnst(6));
    let (m2, r) = lean_instantiate_expr_mvars_rs(m, &e);
    assert_eq!(r, app(mv(1), cnst(6)));
    assert_eq!(m2.get_expr_assignment(n(2)), Some(app(mv(3), fv(10))));
}

#[test]
fn mk_rev_app_applies_last_argument_outermost() {
    let args = vec![cnst(2), cnst(1)];
    let r = InstantiateExprMVars::mk_rev_app(cnst(0), &args, 0, 2);
    assert_eq!(r, app(app(cnst(0), cnst(1)), cnst(2)));
    let r1 = InstantiateExprMVars::mk_rev_app(cnst(0), &args, 1, 2);
    assert_eq!(r1, app(cnst(0), cnst(1)));
}

#[test]
fn instantiate_n_innermost_binder_takes_last_argument() {
    let args = vec![cnst(9), cnst(1), cnst(2)];
    let r = InstantiateExprMVars::instantiate_n(app(bv(0), bv(1)), 2, &args, 1);
    assert_eq!(r, app(cnst(1), cnst(2)));
    let r0 = InstantiateExprMVars::instantiate_n(bv(0), 0, &args, 0);
    assert_eq!(r0, bv(0));
}

#[test]
fn apply_beta_without_arguments_is_identity() {
    let args: Vec<Expr> = Vec::new();
    let f = lam(cnst(0), bv(0));
    let r = InstantiateExprMVars::apply_beta(lam(cnst(0), bv(0)), 0, &args);
    assert_eq!(r, f);
}

#[test]
fn apply_beta_rec_consumes_lambdas() {
    let args = vec![cnst(4)];
    let r = InstantiateExprMVars::apply_beta_rec(lam(cnst(0), app(bv(0), bv(0))), 0, &args);
    assert_eq!(r, app(cnst(4), cnst(4)));
}

#[test]
fn subst_fvar_lifts_under_binders() {
    let e = lam(cnst(0), app(fv(1), bv(0)));
    let r = InstantiateExprMVars::subst_fvar(e, &fv(1), &bv(0), 0);
    assert_eq!(r, lam(cnst(0), app(bv(1), bv(0))));
    let r2 = InstantiateExprMVars::subst_fvar(fv(2), &fv(1), &cnst(3), 4);
    assert_eq!(r2, fv(2));
    let r3 = InstantiateExprMVars::subst_fvar(fv(1), &fv(1), &bv(2), 3);
    assert_eq!(r3, bv(5));
}

#[test]
fn replace_fvars_pairs_first_variable_with_first_argument() {
    let fvars = vec![fv(10), fv(11)];
    let rev_args = vec![cnst(0), cnst(2), cnst(1)];
    let r = InstantiateExprMVars::replace_fvars(app(fv(10), fv(11)), &fvars, &rev_args, 1);
    assert_eq!(r, app(cnst(1), cnst(2)));
}

#[test]
fn expr_has_any_mvar_sees_universe_mvars() {
    assert!(InstantiateExprMVars::expr_has_any_mvar(&Expr::Sort(Level::Zero, lmv(1))));
    assert!(InstantiateExprMVars::expr_has_any_mvar(&app(cnst(1), mv(1))));
    assert!(!InstantiateExprMVars::expr_has_any_mvar(&app(cnst(1), fv(1))));
}

#[test]
fn expr_inst_state_starts_empty() {
    let inst = InstantiateExprMVars::new();
    assert!(inst.saved.is_empty());
    assert!(inst.already_normalized.is_empty());
}

#[test]
fn level_instantiation_twice_is_once() {
    let mut m = empty_ctx();
    m.level_assignments.push((n(1), Level::Max(Box::new(lmv(2)), Box::new(lmv(3)))));
    m.level_assignments.push((n(2), succ(Level::Zero)));
    let l = succ(lmv(1));
    let (m2, r) = lean_instantiate_level_mvars_rs(m, &l);
    assert_eq!(r, succ(Level::Max(Box::new(succ(Level::Zero)), Box::new(lmv(3)))));
    let (_, r2) = lean_instantiate_level_mvars_rs(m2, &r);
    assert_eq!(r2, r);
}

#[test]
fn expression_without_mvars_unchanged() {
    let mut m = empty_ctx();
    m.expr_assignments.push((n(1), cnst(8)));
    let e = lam(cnst(1), app(fv(3), bv(0)));
    let (m2, r) = lean_instantiate_expr_mvars_rs(m, &e);
    assert_eq!(r, lam(cnst(1), app(fv(3), bv(0))));
    assert_eq!(m2.get_expr_assignment(n(1)), Some(cnst(8)));
}

#[test]
fn result_keeps_only_unassigned_mvars() {
    let mut m = empty_ctx();
    m.expr_assignments.push((n(1), app(mv(2), mv(3))));
    m.expr_assignments.push((n(2), lam(cnst(0), bv(0))));
    let e = app(mv(1), mv(4));
    let (_, r) = lean_instantiate_expr_mvars_rs(m, &e);
    assert_eq!(r, app(mv(3), mv(4)));
}

#[test]
fn hierarchy_level_of_a_sort_instantiated() {
    let mut m = empty_ctx();
    m.level_assignments.push((n(5), succ(Level::Zero)));
    let e = Expr::Sort(Level::Zero, lmv(5));
    let (_, r) = lean_instantiate_expr_mvars_rs(m, &e);
    assert_eq!(r, Expr::Sort(Level::Zero, succ(Level::Zero)));
}

#[test]
fn reached_assignment_written_back() {
    let mut m = empty_ctx();
    m.expr_assignments.push((n(1), cnst(2)));
    m.expr_assignments.push((n(3), app(cnst(4), mv(1))));
    m.expr_assignments.push((n(5), app(cnst(6), mv(1))));
    let e = mv(3);
    let (m2, r) = lean_instantiate_expr_mvars_rs(m, &e);
    assert_eq!(r, app(cnst(4), cnst(2)));
    assert_eq!(m2.get_expr_assignment(n(3)), Some(app(cnst(4), cnst(2))));
    assert_eq!(m2.get_expr_assignment(n(1)), Some(cnst(2)));
    // not looked up: unchanged
    assert_eq!(m2.get_expr_assignment(n(5)), Some(app(cnst(6), mv(1))));
}

#[test]
fn context_given_back_for_expression_without_mvars() {
    let mut m = empty_ctx();
    m.expr_assignments.push((n(3), app(cnst(4), mv(1))));
    m.expr_assignments.push((n(1), cnst(2)));
    m.level_assignments.push((n(7), succ(lmv(8))));
    m.level_assignments.push((n(8), Level::Zero));
    let (m2, r) = lean_instantiate_expr_mvars_rs(m, &app(cnst(4), cnst(5)));
    assert_eq!(r, app(cnst(4), cnst(5)));
    assert_eq!(m2.expr_assignments, vec![(n(3), app(cnst(4), mv(1))), (n(1), cnst(2))]);
    assert_eq!(m2.level_assignments, vec![(n(7), succ(lmv(8))), (n(8), Level::Zero)]);
}

#[test]
fn level_assignment_not_reached_unchanged() {
    let mut m = empty_ctx();
    m.level_assignments.push((n(1), succ(lmv(2))));
    m.level_assignments.push((n(2), Level::Zero));
    m.level_assignments.push((n(3), succ(lmv(2))));
    let (m2, r) = lean_instantiate_level_mvars_rs(m, &lmv(1));
    assert_eq!(r, succ(Level::Zero));
    assert_eq!(m2.get_level_assignment(n(1)), Some(succ(Level::Zero)));
    assert_eq!(m2.get_level_assignment(n(3)), Some(succ(lmv(2))));
}

use lean_kernel_rs::mvar_check::{
    ctx_wf_check, expr_is_wf, exprs_acyclic_check, instantiate_expr_mvars_checked,
    instantiate_level_mvars_checked, level_ctx_acyclic_check, mvar_ctx_ok_check,
};

#[test]
fn acyclic_contexts_pass_the_check() {
    let mut m = empty_ctx();
    m.level_assignments.push((n(1), succ(lmv(2))));
    m.level_assignments.push((n(2), Level::Zero));
    m.expr_assignments.push((n(3), app(mv(4), cnst(7))));
    m.expr_assignments.push((n(4), lam(cnst(8), bv(0))));
    m.delayed_assignments.push((n(5), DelayedAssignment { fvars: vec![fv(1)], mvar_id_pending: n(3) }));
    assert!(level_ctx_acyclic_check(&m.level_assignments));
    assert!(exprs_acyclic_check(&m));
    assert!(ctx_wf_check(&m));
    assert!(mvar_ctx_ok_check(&m));
    assert!(mvar_ctx_ok_check(&empty_ctx()));
}

#[test]
fn cycles_fail_the_check() {
    // an expression metavariable assigned a value that mentions it
    let mut m = empty_ctx();
    m.expr_assignments.push((n(1), app(cnst(7), mv(1))));
    assert!(!exprs_acyclic_check(&m));
    assert!(!mvar_ctx_ok_check(&m));
    // a cycle through two assignments
    let mut m2 = empty_ctx();
    m2.expr_assignments.push((n(1), mv(2)));
    m2.expr_assignments.push((n(2), lam(mv(1), bv(0))));
    assert!(!exprs_acyclic_check(&m2));
    // a delayed assignment pending on itself
    let mut m3 = empty_ctx();
    m3.delayed_assignments.push((n(4), DelayedAssignment { fvars: vec![fv(1)], mvar_id_pending: n(4) }));
    assert!(!exprs_acyclic_check(&m3));
    // universe assignments in a cycle
    let mut m4 = empty_ctx();
    m4.level_assignments.push((n(1), succ(lmv(2))));
    m4.level_assignments.push((n(2), Level::Max(Box::new(Level::Zero), Box::new(lmv(1)))));
    assert!(!level_ctx_acyclic_check(&m4.level_assignments));
    assert!(!mvar_ctx_ok_check(&m4));
}

#[test]
fn ill_formed_contexts_fail_the_check() {
    let mut m = empty_ctx();
    m.delayed_assignments.push((n(4), DelayedAssignment { fvars: vec![cnst(1)], mvar_id_pending: n(5) }));
    assert!(exprs_acyclic_check(&m));
    assert!(!ctx_wf_check(&m));
    assert!(!mvar_ctx_ok_check(&m));
    let mut m2 = empty_ctx();
    m2.expr_assignments.push((n(1), bv(1048575)));
    assert!(!expr_is_wf(&bv(1048575)));
    assert!(expr_is_wf(&bv(1048574)));
    assert!(!ctx_wf_check(&m2));
}

#[test]
fn checked_instantiation_matches_or_gives_the_context_back() {
    let mut m = empty_ctx();
    m.expr_assignments.push((n(1), app(cnst(7), mv(2))));
    m.expr_assignments.push((n(2), cnst(8)));
    let e = app(mv(1), cnst(9));
    let (m2, r) = match instantiate_expr_mvars_checked(m, &e) {
        Ok(p) => p,
        Err(_) => panic!("acyclic context refused"),
    };
    assert_eq!(r, app(app(cnst(7), cnst(8)), cnst(9)));
    assert_eq!(m2.get_expr_assignment(n(1)), Some(app(cnst(7), cnst(8))));
    let mut cyclic = empty_ctx();
    cyclic.expr_assignments.push((n(1), app(cnst(7), mv(1))));
    match instantiate_expr_mvars_checked(cyclic, &mv(1)) {
        Ok(_) => panic!("cyclic context accepted"),
        Err(back) => {
            assert_eq!(back.expr_assignments.len(), 1);
            assert_eq!(back.get_expr_assignment(n(1)), Some(app(cnst(7), mv(1))));
        }
    }
    let mut lm = empty_ctx();
    lm.level_assignments.push((n(1), succ(lmv(2))));
    lm.level_assignments.push((n(2), Level::Zero));
    let (_, l) = match instantiate_level_mvars_checked(lm, &lmv(1)) {
        Ok(p) => p,
        Err(_) => panic!("acyclic universe assignments refused"),
    };
    assert_eq!(l, succ(Level::Zero));
    let mut lc = empty_ctx();
    lc.level_assignments.push((n(1), succ(lmv(1))));
    assert!(instantiate_level_mvars_checked(lc, &lmv(1)).is_err());
}
