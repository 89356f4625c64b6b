use lean_kernel_rs::equality::lean_expr_equal_rs;
use lean_kernel_rs::expr::{BinderInfo, Expr, KVMap, Level, LevelList, Name};
use lean_kernel_rs::traverse::{
    lean_expr_consume_type_annotations_rs, lean_find_expr_rs, lean_find_ext_expr_rs,
    lean_replace_expr_rs, FindStep, ReplaceExpr, TypeAnnotationNames,
};
use lean_kernel_rs::type_checker::TypeChecker;
use lean_kernel_rs::declaration::DefinitionSafety;
use lean_kernel_rs::environment::Environment;
use lean_kernel_rs::local_ctx::LocalCtx;
use lean_kernel_rs::layout::LeanObjectHeader;
use lean_kernel_rs::object::{LeanObj, LeanObject, LeanRef};

fn n(id: u64) -> Name {
    Name { id }
}
fn cnst(id: u64) -> Expr {
    Expr::Const(n(id), LevelList::Nil)
}
fn app(f: Expr, a: Expr) -> Expr {
    Expr::App(Box::new(f), Box::new(a))
}
fn lam(t: Expr, b: Expr) -> Expr {
    Expr::Lam(n(0), Box::new(t), Box::new(b), BinderInfo::Default)
}
fn same(a: &Expr, b: &Expr) -> bool {
    lean_expr_equal_rs(a, b) == 1
}
fn names() -> TypeAnnotationNames {
    TypeAnnotationNames { opt_param: n(100), auto_param: n(101), out_param: n(102), semi_out_param: n(103) }
}

#[test]
fn find_first_in_preorder() {
    let e = app(app(cnst(1), cnst(2)), lam(cnst(3), cnst(2)));
    let is_const = |x: &Expr| matches!(x, Expr::Const(_, _));
    let r = lean_find_expr_rs(&is_const, &e).unwrap();
    assert!(same(&r, &cnst(1)));
    let is_lam = |x: &Expr| matches!(x, Expr::Lam(..));
    assert!(same(&lean_find_expr_rs(&is_lam, &e).unwrap(), &lam(cnst(3), cnst(2))));
    let is_fvar = |x: &Expr| matches!(x, Expr::FVar(_));
    assert!(lean_find_expr_rs(&is_fvar, &e).is_none());
    let is_root = |x: &Expr| matches!(x, Expr::App(_, a) if matches!(**a, Expr::Lam(..)));
    assert!(same(&lean_find_expr_rs(&is_root, &e).unwrap(), &e));
}

#[test]
fn find_ext_skips_and_spines() {
    // f a b with a lambda argument; partial application `f a` is never asked about
    let e = app(app(cnst(1), cnst(2)), lam(cnst(3), cnst(4)));
    let partial_seen = std::cell::Cell::new(false);
    let step = |x: &Expr| {
        if let Expr::App(f, _) = x {
            if matches!(**f, Expr::Const(_, _)) {
                partial_seen.set(true);
            }
        }
        match x {
            Expr::Const(m, _) if m.id == 4 => FindStep::Found,
            _ => FindStep::Visit,
        }
    };
    assert!(same(&lean_find_ext_expr_rs(&step, &e).unwrap(), &cnst(4)));
    assert!(!partial_seen.get());
    let skip_lam = |x: &Expr| match x {
        Expr::Lam(..) => FindStep::Done,
        Expr::Const(m, _) if m.id == 4 => FindStep::Found,
        _ => FindStep::Visit,
    };
    assert!(lean_find_ext_expr_rs(&skip_lam, &e).is_none());
    let found_head = |x: &Expr| match x {
        Expr::Const(m, _) if m.id == 1 => FindStep::Found,
        _ => FindStep::Visit,
    };
    assert!(same(&lean_find_ext_expr_rs(&found_head, &e).unwrap(), &cnst(1)));
}

#[test]
fn replace_top_down() {
    let e = app(cnst(1), lam(cnst(1), app(cnst(2), cnst(1))));
    let swap = |x: &Expr| match x {
        Expr::Const(m, _) if m.id == 1 => Some(cnst(9)),
        _ => None,
    };
    let r = lean_replace_expr_rs(&swap, e);
    assert!(same(&r, &app(cnst(9), lam(cnst(9), app(cnst(2), cnst(9))))));
    // a replacement is not visited again
    let wrap = |x: &Expr| match x {
        Expr::Const(m, _) if m.id == 2 => Some(app(cnst(2), cnst(2))),
        _ => None,
    };
    let r2 = ReplaceExpr::new(&wrap).apply(app(cnst(2), cnst(3)));
    assert!(same(&r2, &app(app(cnst(2), cnst(2)), cnst(3))));
}

#[test]
fn consume_annotations() {
    let t = cnst(7);
    let opt = app(app(cnst(100), app(cnst(102), t.clone_for_test())), cnst(8));
    let r = lean_expr_consume_type_annotations_rs(opt, &names());
    assert!(same(&r, &cnst(7)));
    let auto = app(app(cnst(101), cnst(7)), cnst(9));
    assert!(same(&lean_expr_consume_type_annotations_rs(auto, &names()), &cnst(7)));
    let semi = app(cnst(103), app(cnst(103), cnst(7)));
    assert!(same(&lean_expr_consume_type_annotations_rs(semi, &names()), &cnst(7)));
    let plain = app(cnst(5), cnst(7));
    assert!(same(&lean_expr_consume_type_annotations_rs(app(cnst(5), cnst(7)), &names()), &plain));
    // optParam with one argument is no annotation
    let partial = app(cnst(100), cnst(7));
    assert!(same(&lean_expr_consume_type_annotations_rs(app(cnst(100), cnst(7)), &names()), &partial));
}

trait CloneForTest {
    fn clone_for_test(&self) -> Expr;
}
impl CloneForTest for Expr {
    fn clone_for_test(&self) -> Expr {
        lean_kernel_rs::expr::clone_expr(self)
    }
}

#[test]
fn type_checker_first_steps() {
    let env_obj = LeanRef::Obj(Box::new(LeanObject {
        header: LeanObjectHeader { rc: 1, cs_sz: 0, other: 0, tag: 0 },
        objs: vec![],
        scalars: vec![],
    }));
    let fvar_type: Vec<(Name, Expr)> = vec![(n(1), cnst(10))];
    let const_type: Vec<(Name, Expr)> = vec![(n(2), cnst(20))];
    let mut tc = TypeChecker::new(
        Environment { obj: LeanObj::new(&env_obj).unwrap() },
        LocalCtx { obj: LeanObj::new(&env_obj).unwrap() },
        DefinitionSafety::Safe,
        fvar_type,
        const_type,
    );
    let sort = Expr::Sort(Level::Zero, Level::Zero);
    let r = tc.infer_type(&sort).unwrap();
    assert!(same(&r, &Expr::Sort(Level::Succ(Box::new(Level::Zero)), Level::Zero)));
    let fv = Expr::MData(KVMap { id: 1 }, Box::new(Expr::FVar(n(1))));
    assert!(same(&tc.infer_type(&fv).unwrap(), &cnst(10)));
    assert!(same(&tc.infer_type_core(&cnst(2), false).unwrap(), &cnst(20)));
    assert!(tc.infer_type(&app(cnst(2), cnst(2))).is_none());
    let w = tc.whnf_core(&Expr::MData(KVMap { id: 1 }, Box::new(Expr::MData(KVMap { id: 2 }, Box::new(cnst(3))))));
    assert!(same(&w, &cnst(3)));
    assert!(same(&tc.whnf_core(&app(cnst(1), cnst(2))), &app(cnst(1), cnst(2))));
    assert_eq!(tc.safety, DefinitionSafety::Safe);
}

#[test]
fn inferred_types_are_cached_by_mode() {
    let obj = empty_obj();
    let mut tc = checker_over(&obj, vec![(n(1), cnst(10))], Vec::new());
    assert_eq!(tc.infer_cache.1.len(), 0);
    let sort = Expr::Sort(Level::Zero, Level::Zero);
    let first = tc.infer_type(&sort).unwrap();
    assert_eq!(tc.infer_cache.1.len(), 1);
    assert_eq!(tc.infer_cache.0.len(), 0);
    // a second inference is answered from the cache and adds nothing
    let second = tc.infer_type(&sort).unwrap();
    assert!(same(&first, &second));
    assert_eq!(tc.infer_cache.1.len(), 1);
    // checking inference has a cache of its own
    assert!(same(&tc.infer_type_core(&sort, false).unwrap(), &first));
    assert_eq!(tc.infer_cache.0.len(), 1);
    // metadata: both the wrapped expression and the whole are cached
    let fv = Expr::MData(KVMap { id: 1 }, Box::new(Expr::FVar(n(1))));
    assert!(same(&tc.infer_type(&fv).unwrap(), &cnst(10)));
    assert_eq!(tc.infer_cache.1.len(), 3);
    // nothing is cached for an expression without a type
    assert!(tc.infer_type(&app(cnst(2), cnst(2))).is_none());
    assert_eq!(tc.infer_cache.1.len(), 3);
    assert_eq!(tc.whnf_core_cache.len(), 0);
    assert_eq!(tc.whnf_cache.len(), 0);
}

fn one() -> Level {
    Level::Succ(Box::new(Level::Zero))
}

fn checker_over(
    obj: &LeanRef,
    fvar_types: Vec<(Name, Expr)>,
    const_types: Vec<(Name, Expr)>,
) -> TypeChecker<'_> {
    TypeChecker::new(
        Environment { obj: LeanObj::new(obj).unwrap() },
        LocalCtx { obj: LeanObj::new(obj).unwrap() },
        DefinitionSafety::Safe,
        fvar_types,
        const_types,
    )
}

fn empty_obj() -> LeanRef {
    LeanRef::Obj(Box::new(LeanObject {
        header: LeanObjectHeader { rc: 1, cs_sz: 0, other: 0, tag: 0 },
        objs: vec![],
        scalars: vec![],
    }))
}

#[test]
fn sort_rule_keeps_hierarchy_level() {
    let obj = empty_obj();
    let mut tc = checker_over(&obj, Vec::new(), Vec::new());
    let prop_at_1 = Expr::Sort(Level::Zero, one());
    let r = tc.infer_type_core(&prop_at_1, true).unwrap();
    assert!(same(&r, &Expr::Sort(one(), one())));
}

#[test]
fn pi_rule_takes_imax_and_max() {
    let obj = empty_obj();
    let mut tc = checker_over(&obj, Vec::new(), vec![(n(7), Expr::Sort(one(), Level::Param(n(9))))]);
    // forall x : T, Prop @ 1, where T : Sort 1 @ p
    let pi = Expr::ForallE(
        n(0),
        Box::new(cnst(7)),
        Box::new(Expr::Sort(Level::Zero, one())),
        BinderInfo::Default,
    );
    let r = tc.infer_type(&pi).unwrap();
    let expected = Expr::Sort(
        Level::IMax(Box::new(one()), Box::new(one())),
        Level::Max(Box::new(Level::Param(n(9))), Box::new(one())),
    );
    assert!(same(&r, &expected));
    // the body refers to the bound variable, whose type is the domain
    let mut tc = checker_over(&obj, Vec::new(), vec![(n(7), Expr::Sort(one(), Level::Zero))]);
    let pi2 = Expr::ForallE(
        n(0),
        Box::new(Expr::Sort(Level::Zero, Level::Zero)),
        Box::new(Expr::BVar(0)),
        BinderInfo::Default,
    );
    let r2 = tc.infer_type(&pi2).unwrap();
    assert!(same(
        &r2,
        &Expr::Sort(
            Level::IMax(Box::new(one()), Box::new(Level::Zero)),
            Level::Max(Box::new(Level::Zero), Box::new(Level::Zero))
        )
    ));
    let not_a_type = Expr::ForallE(n(0), Box::new(app(cnst(7), cnst(7))), Box::new(cnst(7)), BinderInfo::Default);
    assert!(tc.infer_type(&not_a_type).is_none());
}


#[test]
fn find_ext_always_done_finds_nothing() {
    let e = app(cnst(1), cnst(2));
    let asked = std::cell::Cell::new(0u32);
    let done = |_x: &Expr| {
        asked.set(asked.get() + 1);
        FindStep::Done
    };
    assert!(lean_find_ext_expr_rs(&done, &e).is_none());
    assert_eq!(asked.get(), 1);
}

#[test]
fn find_ext_always_visit_asks_head_and_arguments() {
    // f a b: asked about the whole, then f, a and b, never about `f a`
    let e = app(app(cnst(1), cnst(2)), cnst(3));
    let seen = std::cell::RefCell::new(Vec::new());
    let visit = |x: &Expr| {
        seen.borrow_mut().push(lean_kernel_rs::expr::clone_expr(x));
        FindStep::Visit
    };
    assert!(lean_find_ext_expr_rs(&visit, &e).is_none());
    let seen = seen.into_inner();
    assert_eq!(seen.len(), 4);
    assert!(same(&seen[0], &e));
    assert!(same(&seen[1], &cnst(1)));
    assert!(same(&seen[2], &cnst(2)));
    assert!(same(&seen[3], &cnst(3)));
}

#[test]
fn find_nothing_when_no_subterm_matches() {
    let e = app(cnst(1), lam(cnst(2), Expr::BVar(0)));
    let is_sort = |x: &Expr| matches!(x, Expr::Sort(..));
    assert!(lean_find_expr_rs(&is_sort, &e).is_none());
}

#[test]
fn replace_every_c_by_d() {
    let c_to_d = |x: &Expr| match x {
        Expr::Const(m, _) if m.id == 30 => Some(cnst(31)),
        _ => None,
    };
    let r = ReplaceExpr::new(&c_to_d).apply(app(cnst(30), cnst(30)));
    assert!(same(&r, &app(cnst(31), cnst(31))));
    // the answer at the root is taken as it is
    let root = |_x: &Expr| Some(cnst(5));
    assert!(same(&lean_replace_expr_rs(&root, app(cnst(30), cnst(30))), &cnst(5)));
    // no answer anywhere gives the input back
    let none = |_x: &Expr| -> Option<Expr> { None };
    let e = app(cnst(1), lam(cnst(2), Expr::BVar(0)));
    assert!(same(&lean_replace_expr_rs(&none, app(cnst(1), lam(cnst(2), Expr::BVar(0)))), &e));
}

#[test]
fn consume_annotations_is_idempotent() {
    let e = app(app(cnst(100), app(cnst(103), cnst(7))), cnst(8));
    let once = lean_expr_consume_type_annotations_rs(e, &names());
    assert!(same(&once, &cnst(7)));
    let twice = lean_expr_consume_type_annotations_rs(lean_kernel_rs::expr::clone_expr(&once), &names());
    assert!(same(&twice, &once));
}
