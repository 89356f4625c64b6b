use lean_kernel_rs::bvars::{
    expr_loose_bvar_range, has_loose_bvar, lean_expr_has_loose_bvar_rs, lean_expr_lift_loose_bvars_rs,
    lean_expr_lower_loose_bvars_rs, lift_loose_bvars, lift_within_bounds, lower_loose_bvars,
    lower_within_bounds,
};
use lean_kernel_rs::equality::{lean_expr_equal_rs, lean_expr_eqv_rs, level_eq, levels_eq, literal_eq, ExprEq};
use lean_kernel_rs::expr::{clone_expr, BinderInfo, Expr, KVMap, Level, LevelList, Literal, Name};
use lean_kernel_rs::expr_util::{
    expr_has_fvar, expr_has_loose_bvars, expr_has_mvar, expr_is_const_name, match_app1_const_arg,
    match_app2_const_arg1,
};
use lean_kernel_rs::instantiate::{
    lean_expr_abstract_range_rs, lean_expr_abstract_rs, lean_expr_instantiate1_rs,
    lean_expr_instantiate_range_rs, lean_expr_instantiate_rev_range_rs, lean_expr_instantiate_rev_rs,
    lean_expr_instantiate_rs, instantiate_within_bounds, abstract_within_bounds,
    abstract_range_within_bounds, ExprAbstract, ExprInstantiate,
};
use lean_kernel_rs::ptr::LeanPtr;

fn n(id: u64) -> Name {
    Name { id }
}
fn bv(i: u64) -> Expr {
    Expr::BVar(i)
}
fn fv(id: u64) -> Expr {
    Expr::FVar(n(id))
}
fn mv(id: u64) -> Expr {
    Expr::MVar(n(id))
}
fn cnst(id: u64) -> Expr {
    Expr::Const(n(id), LevelList::Nil)
}
fn app(f: Expr, a: Expr) -> Expr {
    Expr::App(Box::new(f), Box::new(a))
}
fn lam(t: Expr, b: Expr) -> Expr {
    Expr::Lam(n(0), Box::new(t), Box::new(b), BinderInfo::Default)
}
fn pi(t: Expr, b: Expr) -> Expr {
    Expr::ForallE(n(0), Box::new(t), Box::new(b), BinderInfo::Default)
}
fn let_(t: Expr, v: Expr, b: Expr) -> Expr {
    Expr::LetE(n(0), Box::new(t), Box::new(v), Box::new(b), false)
}
fn boxed(v: usize) -> LeanPtr {
    LeanPtr(v * 2 + 1)
}
fn same(a: &Expr, b: &Expr) -> bool {
    lean_expr_equal_rs(a, b) == 1
}

#[test]
fn loose_bvar_ranges() {
    assert_eq!(expr_loose_bvar_range(&bv(3)), 4);
    assert_eq!(expr_loose_bvar_range(&lam(bv(0), bv(0))), 1);
    assert_eq!(expr_loose_bvar_range(&lam(cnst(1), bv(0))), 0);
    assert_eq!(expr_loose_bvar_range(&lam(cnst(1), bv(5))), 5);
    assert_eq!(expr_loose_bvar_range(&let_(bv(1), bv(2), bv(7))), 7);
    assert!(!expr_has_loose_bvars(&lam(cnst(1), bv(0))));
    assert!(expr_has_loose_bvars(&app(cnst(1), bv(0))));
}

#[test]
fn has_loose_bvar_under_binders() {
    let e = lam(bv(2), app(bv(0), bv(3)));
    assert!(has_loose_bvar(&e, 2));
    assert!(!has_loose_bvar(&e, 0));
    assert!(!has_loose_bvar(&e, 1));
    assert_eq!(lean_expr_has_loose_bvar_rs(&e, boxed(2)), 1);
    assert_eq!(lean_expr_has_loose_bvar_rs(&e, boxed(1)), 0);
    assert_eq!(lean_expr_has_loose_bvar_rs(&e, LeanPtr(0x1000)), 0);
    assert_eq!(lean_expr_has_loose_bvar_rs(&e, boxed(1 << 40)), 0);
}

#[test]
fn lift_and_lower() {
    let e = lam(bv(1), app(bv(0), bv(2)));
    let lifted = lift_loose_bvars(clone_expr(&e), 1, 3);
    assert!(same(&lifted, &lam(bv(4), app(bv(0), bv(5)))));
    let lowered = lower_loose_bvars(lifted, 4, 3);
    assert!(same(&lowered, &e));
    let e2 = app(bv(0), bv(1));
    assert!(same(&lift_loose_bvars(clone_expr(&e2), 0, 2), &app(bv(2), bv(3))));
    assert!(same(&lower_loose_bvars(app(bv(5), bv(1)), 2, 2), &app(bv(3), bv(1))));
}

#[test]
fn lift_and_lower_with_lean_numbers() {
    let e = app(bv(0), bv(1));
    assert!(same(&lean_expr_lift_loose_bvars_rs(clone_expr(&e), boxed(1), boxed(2)), &app(bv(0), bv(3))));
    assert!(same(&lean_expr_lift_loose_bvars_rs(clone_expr(&e), LeanPtr(0x10), boxed(2)), &e));
    assert!(same(&lean_expr_lower_loose_bvars_rs(app(bv(0), bv(3)), boxed(1), boxed(1)), &app(bv(0), bv(2))));
    // s < d: unchanged
    assert!(same(&lean_expr_lower_loose_bvars_rs(clone_expr(&e), boxed(0), boxed(1)), &e));
    assert!(same(&lean_expr_lower_loose_bvars_rs(clone_expr(&e), boxed(1), LeanPtr(0x20)), &e));
}

#[test]
fn instantiate_one() {
    // (fun x => f x #1) body instantiated with c
    let body = app(app(cnst(1), bv(0)), bv(1));
    let r = lean_expr_instantiate1_rs(body, &cnst(9));
    assert!(same(&r, &app(app(cnst(1), cnst(9)), bv(0))));
}

#[test]
fn instantiate_lifts_under_binders() {
    let body = lam(cnst(1), app(bv(1), bv(0)));
    let r = lean_expr_instantiate1_rs(body, &bv(0));
    assert!(same(&r, &lam(cnst(1), app(bv(1), bv(0)))));
    let body2 = lam(cnst(1), bv(1));
    let r2 = lean_expr_instantiate1_rs(body2, &app(bv(3), fv(2)));
    assert!(same(&r2, &lam(cnst(1), app(bv(4), fv(2)))));
}

#[test]
fn instantiate_arrays() {
    let e = app(app(bv(0), bv(1)), bv(2));
    let subst = vec![cnst(10), cnst(11)];
    assert!(same(&lean_expr_instantiate_rs(clone_expr(&e), &subst), &app(app(cnst(10), cnst(11)), bv(0))));
    assert!(same(&lean_expr_instantiate_rev_rs(clone_expr(&e), &subst), &app(app(cnst(11), cnst(10)), bv(0))));
    let big = vec![cnst(10), cnst(11), cnst(12), cnst(13)];
    assert!(same(
        &lean_expr_instantiate_range_rs(clone_expr(&e), boxed(1), boxed(3), &big),
        &app(app(cnst(11), cnst(12)), bv(0))
    ));
    assert!(same(
        &lean_expr_instantiate_rev_range_rs(clone_expr(&e), boxed(1), boxed(3), &big),
        &app(app(cnst(12), cnst(11)), bv(0))
    ));
    let empty: Vec<Expr> = vec![];
    assert!(same(&lean_expr_instantiate_rs(clone_expr(&e), &empty), &e));
    let inst = ExprInstantiate::new(&big, 2, 2, false);
    assert!(same(&inst.apply(bv(1), 0), &cnst(13)));
    assert!(same(&inst.apply(bv(1), 1), &cnst(12)));
    assert!(same(&inst.apply(bv(0), 1), &bv(0)));
    assert!(same(&inst.apply(bv(5), 0), &bv(3)));
}

#[test]
fn abstract_variables() {
    let e = app(app(fv(1), fv(2)), lam(cnst(0), app(fv(1), mv(3))));
    let xs = vec![fv(1), fv(2), mv(3)];
    let r = lean_expr_abstract_rs(clone_expr(&e), &xs);
    assert!(same(&r, &app(app(bv(2), bv(1)), lam(cnst(0), app(bv(3), bv(1))))));
    // the last occurrence wins
    let dup = vec![fv(1), fv(1)];
    assert!(same(&lean_expr_abstract_rs(fv(1), &dup), &bv(0)));
    // only the first n are used
    let r2 = lean_expr_abstract_range_rs(clone_expr(&e), boxed(1), &xs);
    assert!(same(&r2, &app(app(bv(0), fv(2)), lam(cnst(0), app(bv(1), mv(3))))));
    let r3 = lean_expr_abstract_range_rs(clone_expr(&e), LeanPtr(0x40), &xs);
    assert!(same(&r3, &lean_expr_abstract_rs(clone_expr(&e), &xs)));
    let abs = ExprAbstract::new(&xs, 3);
    assert!(same(&abs.apply(fv(2), 5), &bv(6)));
}

#[test]
fn abstract_then_instantiate_rev_roundtrip() {
    let e = pi(fv(1), app(app(cnst(7), fv(2)), lam(fv(1), bv(0))));
    let xs = vec![fv(1), fv(2)];
    let abstracted = lean_expr_abstract_rs(clone_expr(&e), &xs);
    assert!(!same(&abstracted, &e));
    let back = lean_expr_instantiate_rev_rs(abstracted, &xs);
    assert!(same(&back, &e));
}

#[test]
fn equality_with_and_without_binders() {
    let a = Expr::Lam(n(1), Box::new(cnst(1)), Box::new(bv(0)), BinderInfo::Default);
    let b = Expr::Lam(n(2), Box::new(cnst(1)), Box::new(bv(0)), BinderInfo::Implicit);
    assert_eq!(lean_expr_eqv_rs(&a, &b), 1);
    assert_eq!(lean_expr_equal_rs(&a, &b), 0);
    assert_eq!(lean_expr_equal_rs(&a, &a), 1);
    let c = Expr::Lam(n(1), Box::new(cnst(2)), Box::new(bv(0)), BinderInfo::Default);
    assert_eq!(lean_expr_eqv_rs(&a, &c), 0);
    let l1 = Expr::LetE(n(1), Box::new(cnst(1)), Box::new(cnst(2)), Box::new(bv(0)), false);
    let l2 = Expr::LetE(n(2), Box::new(cnst(1)), Box::new(cnst(2)), Box::new(bv(0)), false);
    let l3 = Expr::LetE(n(1), Box::new(cnst(1)), Box::new(cnst(2)), Box::new(bv(0)), true);
    assert_eq!(lean_expr_eqv_rs(&l1, &l2), 1);
    assert_eq!(lean_expr_equal_rs(&l1, &l2), 0);
    assert_eq!(lean_expr_eqv_rs(&l1, &l3), 0);
    let m1 = Expr::MData(KVMap { id: 1 }, Box::new(cnst(1)));
    let m2 = Expr::MData(KVMap { id: 2 }, Box::new(cnst(1)));
    assert_eq!(lean_expr_eqv_rs(&m1, &m2), 0);
    let p1 = Expr::Proj(n(1), 0, Box::new(cnst(1)));
    let p2 = Expr::Proj(n(1), 1, Box::new(cnst(1)));
    assert_eq!(lean_expr_eqv_rs(&p1, &p2), 0);
    assert_eq!(ExprEq::new(false).apply(&p1, &p1), true);
    assert_eq!(lean_expr_eqv_rs(&Expr::Lit(Literal::NatVal(3)), &Expr::Lit(Literal::StrVal(3))), 0);
    assert_eq!(lean_expr_eqv_rs(&bv(0), &fv(0)), 0);
}

#[test]
fn level_equalities() {
    let l = Level::Max(Box::new(Level::Succ(Box::new(Level::Zero))), Box::new(Level::Param(n(1))));
    let m = Level::Max(Box::new(Level::Succ(Box::new(Level::Zero))), Box::new(Level::Param(n(1))));
    let k = Level::IMax(Box::new(Level::Succ(Box::new(Level::Zero))), Box::new(Level::Param(n(1))));
    assert!(level_eq(&l, &m));
    assert!(!level_eq(&l, &k));
    let ls1 = LevelList::Cons(Box::new(Level::Zero), Box::new(LevelList::Nil));
    let ls2 = LevelList::Cons(Box::new(Level::Zero), Box::new(LevelList::Cons(Box::new(Level::Zero), Box::new(LevelList::Nil))));
    assert!(levels_eq(&ls1, &ls1));
    assert!(!levels_eq(&ls1, &ls2));
    assert!(literal_eq(&Literal::NatVal(5), &Literal::NatVal(5)));
    assert!(!literal_eq(&Literal::NatVal(5), &Literal::NatVal(6)));
    let c1 = Expr::Const(n(1), ls1);
    let c2 = Expr::Const(n(1), ls2);
    assert_eq!(lean_expr_eqv_rs(&c1, &c2), 0);
}

#[test]
fn contents_and_matchers() {
    let e = app(app(cnst(5), fv(1)), bv(0));
    assert!(expr_has_fvar(&e));
    assert!(!expr_has_mvar(&e));
    assert!(expr_has_mvar(&Expr::Sort(Level::MVar(n(1)), Level::Zero)));
    assert!(expr_has_mvar(&lam(mv(1), bv(0))));
    assert!(expr_is_const_name(&cnst(5), n(5)));
    assert!(!expr_is_const_name(&cnst(5), n(6)));
    assert!(match_app2_const_arg1(&e, n(5)).map(|x| same(x, &fv(1))).unwrap_or(false));
    assert!(match_app1_const_arg(&e, n(5)).is_none());
    let one = app(cnst(4), fv(2));
    assert!(match_app1_const_arg(&one, n(4)).map(|x| same(x, &fv(2))).unwrap_or(false));
}

#[test]
fn sort_equality_compares_both_levels() {
    let one = || Level::Succ(Box::new(Level::Zero));
    let a = Expr::Sort(Level::Zero, one());
    let b = Expr::Sort(Level::Zero, one());
    let c = Expr::Sort(Level::Zero, Level::Zero);
    assert_eq!(lean_expr_equal_rs(&a, &b), 1);
    assert_eq!(lean_expr_equal_rs(&a, &c), 0);
    assert_eq!(lean_expr_eqv_rs(&a, &c), 0);
    assert!(ExprEq::new(false).apply(&a, &b));
    assert!(!ExprEq::new(true).apply(&a, &c));
}

#[test]
fn abstract_range_is_abstract_of_prefix() {
    let e = app(fv(1), app(fv(2), fv(3)));
    let subst = vec![fv(1), fv(2), fv(3)];
    let prefix = vec![fv(1), fv(2)];
    let ranged = lean_expr_abstract_range_rs(clone_expr(&e), boxed(2), &subst);
    let whole = lean_expr_abstract_rs(clone_expr(&e), &prefix);
    assert_eq!(ranged, whole);
    assert_eq!(ranged, app(bv(1), app(bv(0), fv(3))));
}

#[test]
fn lower_with_start_read_in_32_bits() {
    if usize::BITS == 64 {
        // the start 2^32 reads as 0 in 32 bits: every variable moves down by 1
        let r = lean_expr_lower_loose_bvars_rs(app(bv(3), bv(1)), boxed((1u64 << 32) as usize), boxed(1));
        assert_eq!(r, app(bv(2), bv(0)));
    }
}

#[test]
fn bounds_checks_before_shifting() {
    // the largest index a variable may have is 1048574
    let e = app(bv(1048570), lam(bv(0), bv(5)));
    assert!(lift_within_bounds(&e, 0, 4));
    assert!(!lift_within_bounds(&e, 0, 5));
    // starting above the variable leaves it where it is
    assert!(lift_within_bounds(&e, 1048571, 100));
    // under the lambda, index 5 stands for loose variable 4
    let under = lam(bv(0), bv(5));
    assert!(lower_within_bounds(&under, 2, 2));
    // the loose bv(0) would go below zero
    assert!(!lower_within_bounds(&under, 0, 4));
    let body_only = lam(cnst(1), bv(5));
    assert!(lower_within_bounds(&body_only, 0, 5));
    assert!(!lower_within_bounds(&body_only, 0, 6));
}

#[test]
fn bounds_checks_before_instantiating() {
    // the replacement of bv(0) under 3 binders is lifted by 3
    let deep = lam(cnst(1), lam(cnst(1), lam(cnst(1), bv(3))));
    let near_top = vec![bv(1048571)];
    assert!(instantiate_within_bounds(&deep, &near_top, 0, 1, false));
    let at_top = vec![bv(1048572)];
    assert!(!instantiate_within_bounds(&deep, &at_top, 0, 1, false));
    // only the range is used, and the reversed order picks the last first
    let subst = vec![bv(1048572), cnst(2)];
    assert!(instantiate_within_bounds(&deep, &subst, 1, 2, false));
    assert!(!instantiate_within_bounds(&deep, &subst, 0, 2, false));
    assert!(instantiate_within_bounds(&deep, &subst, 0, 2, true));
}

#[test]
fn bounds_checks_before_abstracting() {
    // under k binders the last of n matching variables at position i becomes bv(k + n - i - 1)
    let mut deep = fv(1);
    for _ in 0..3 {
        deep = lam(cnst(1), deep);
    }
    let xs = vec![fv(1), fv(2)];
    assert!(abstract_within_bounds(&deep, &xs, 2));
    assert!(abstract_within_bounds(&deep, &xs, 0));
    assert!(abstract_range_within_bounds(&deep, LeanPtr::from_raw(3), &xs));
    // a variable that would become an index past the range is refused
    let many: Vec<Expr> = (0..1048576u64).map(fv).collect();
    assert!(!abstract_within_bounds(&fv(0), &many, 1048576));
    assert!(abstract_within_bounds(&fv(0), &many, 1048575));
    assert!(abstract_within_bounds(&fv(7), &many, 7));
}
