use lean_kernel_rs::data::{
    lean_expr_binder_info_rs, lean_expr_has_expr_mvar_rs, lean_expr_has_fvar_rs,
    lean_expr_has_level_mvar_rs, lean_expr_has_level_param_rs, lean_expr_hash_rs,
    lean_expr_is_have_rs, lean_expr_loose_bvar_range_rs, lean_level_depth_rs,
    lean_level_has_mvar_rs, lean_level_has_param_rs, lean_level_hash_rs, ExprData, LevelData,
};
use lean_kernel_rs::declaration::{
    ConstantInfo, ConstantInfoKind, Declaration, DeclarationKind, DefinitionSafety, QuotKind,
};
use lean_kernel_rs::environment::Environment;
use lean_kernel_rs::layout::{is_likely_unshared, is_shared, lean_dec, lean_inc, lean_inc_ref_n, LeanObjectHeader};
use lean_kernel_rs::local_ctx::{BinderInfo, LocalCtx, LocalDecl};
use lean_kernel_rs::object::{data_for, LeanObj, LeanObject, LeanRef};

fn header(rc: i32, tag: u8) -> LeanObjectHeader {
    LeanObjectHeader { rc, cs_sz: 0, other: 0, tag }
}

fn obj(tag: u8, objs: Vec<LeanRef>, scalars: Vec<u8>) -> LeanRef {
    LeanRef::Obj(Box::new(LeanObject { header: header(1, tag), objs, scalars }))
}

fn with_data(tag: u8, data: u64, extra: &[u8]) -> LeanRef {
    let mut s = data.to_le_bytes().to_vec();
    s.extend_from_slice(extra);
    obj(tag, vec![], s)
}

#[test]
fn level_readers() {
    let l = with_data(1, LevelData::pack(77, 3, true, true), &[]);
    assert_eq!(lean_level_hash_rs(&l), 77);
    assert_eq!(lean_level_depth_rs(&l), 3);
    assert_eq!(lean_level_has_mvar_rs(&l), 1);
    assert_eq!(lean_level_has_param_rs(&l), 1);
    assert_eq!(lean_level_hash_rs(&LeanRef::Scalar(0)), 2221);
    assert_eq!(lean_level_hash_rs(&LeanRef::Null), 2221);
    assert_eq!(lean_level_depth_rs(&LeanRef::Scalar(0)), 0);
    assert_eq!(lean_level_has_mvar_rs(&LeanRef::Null), 0);
}

#[test]
fn expr_readers() {
    let w = ExprData::pack_with_flags(99, 12, 4, (1u64 << 41) | (1u64 << 43));
    let e = with_data(6, w, &[3]);
    assert_eq!(lean_expr_hash_rs(&e), 99);
    assert_eq!(lean_expr_loose_bvar_range_rs(&e), 12);
    assert_eq!(lean_expr_has_fvar_rs(&e), 0);
    assert_eq!(lean_expr_has_expr_mvar_rs(&e), 1);
    assert_eq!(lean_expr_has_level_mvar_rs(&e), 0);
    assert_eq!(lean_expr_has_level_param_rs(&e), 1);
    assert_eq!(lean_expr_binder_info_rs(&e), 3);
    assert_eq!(lean_expr_is_have_rs(&e), 0);
    let l = with_data(8, w, &[1]);
    assert_eq!(lean_expr_is_have_rs(&l), 1);
    assert_eq!(lean_expr_binder_info_rs(&l), 0);
    assert_eq!(lean_expr_hash_rs(&LeanRef::Null), 0);
    assert_eq!(lean_expr_binder_info_rs(&LeanRef::Scalar(5)), 0);
}

#[test]
fn data_word_is_little_endian() {
    let e = obj(0, vec![], vec![1, 2, 3, 4, 5, 6, 7, 8, 9]);
    assert_eq!(data_for(&e), Some(0x0807_0605_0403_0201));
    assert_eq!(data_for(&LeanRef::Scalar(3)), None);
    assert_eq!(data_for(&LeanRef::Null), None);
}

#[test]
fn lean_obj_fields() {
    let r = obj(4, vec![LeanRef::Scalar(7), LeanRef::Null], vec![9, 8]);
    let o = LeanObj::new(&r).unwrap();
    assert!(!o.is_scalar());
    assert_eq!(o.ctor_num_objs(), 2);
    assert_eq!(o.ctor_tag(), 4);
    assert_eq!(o.ctor_scalar_get_u8(1), 8);
    assert!(matches!(o.ctor_obj(0), LeanRef::Scalar(7)));
    assert!(LeanObj::new(&LeanRef::Null).is_none());
    assert!(LeanObj::new(&LeanRef::Scalar(1)).unwrap().is_scalar());
}

#[test]
fn reference_counting() {
    let mut r = obj(0, vec![], vec![]);
    lean_inc(&mut r);
    assert!(is_shared(&r));
    assert!(!is_likely_unshared(&r));
    assert!(!lean_dec(&mut r));
    assert!(is_likely_unshared(&r));
    assert!(lean_dec(&mut r));
    lean_inc_ref_n(&mut r, 5);
    match &r {
        LeanRef::Obj(o) => assert_eq!(o.header.rc, 6),
        _ => panic!(),
    }
    let mut shared = LeanRef::Obj(Box::new(LeanObject { header: header(-1, 0), objs: vec![], scalars: vec![] }));
    lean_inc(&mut shared);
    match &shared {
        LeanRef::Obj(o) => assert_eq!(o.header.rc, -2),
        _ => panic!(),
    }
    assert!(lean_dec(&mut shared));
    let mut persistent = LeanRef::Obj(Box::new(LeanObject { header: header(0, 0), objs: vec![], scalars: vec![] }));
    lean_inc(&mut persistent);
    assert!(!lean_dec(&mut persistent));
    let mut s = LeanRef::Scalar(3);
    lean_inc(&mut s);
    assert!(!lean_dec(&mut s));
    assert!(!is_shared(&s));
    assert!(is_likely_unshared(&s));
}

#[test]
fn header_inc_ref_n() {
    let mut h = header(2, 5);
    h.inc_ref_n(3);
    assert_eq!(h.rc, 5);
    let mut g = header(-2, 5);
    g.inc_ref_n(3);
    assert_eq!(g.rc, -5);
    let mut p = header(0, 5);
    p.inc_ref_n(3);
    assert_eq!(p.rc, 0);
}

fn constant(kind: u8, scalars: Vec<u8>) -> LeanRef {
    let cval = obj(0, vec![LeanRef::Scalar(100), LeanRef::Scalar(0), LeanRef::Scalar(200)], vec![]);
    let val = obj(0, vec![cval, LeanRef::Scalar(2), LeanRef::Scalar(3), LeanRef::Scalar(0), LeanRef::Scalar(0), LeanRef::Scalar(1), LeanRef::Scalar(0)], scalars);
    obj(kind, vec![val], vec![])
}

#[test]
fn constant_info_is_unsafe() {
    let cases: Vec<(u8, Vec<u8>, bool)> = vec![
        (0, vec![1], true),
        (0, vec![0], false),
        (1, vec![0], true),
        (1, vec![1], false),
        (1, vec![2], false),
        (2, vec![1], false),
        (3, vec![1], true),
        (4, vec![1], false),
        (5, vec![0, 1, 0], true),
        (5, vec![1, 0, 1], false),
        (6, vec![1], true),
        (7, vec![0, 1], true),
        (7, vec![1, 0], false),
    ];
    for (kind, scalars, expected) in cases {
        let r = constant(kind, scalars);
        let ci = ConstantInfo { obj: LeanObj::new(&r).unwrap() };
        assert_eq!(ci.is_unsafe(), expected, "kind {}", kind);
    }
}

#[test]
fn constant_info_views() {
    let r = constant(5, vec![1, 0, 1]);
    let ci = ConstantInfo { obj: LeanObj::new(&r).unwrap() };
    assert_eq!(ci.kind(), ConstantInfoKind::Inductive);
    let ind = ci.to_inductive_val();
    assert_eq!(ind.num_params(), 2);
    assert_eq!(ind.num_indices(), 3);
    assert_eq!(ind.num_nested(), 1);
    assert!(ind.is_rec());
    assert!(!ind.is_unsafe());
    assert!(ind.is_reflexive());
    let cv = ind.to_constant_val();
    assert!(matches!(cv.name(), LeanRef::Scalar(100)));
    assert!(matches!(cv.type_(), LeanRef::Scalar(200)));
    let d = ConstantInfo { obj: LeanObj::new(&r).unwrap() }.to_definition_val();
    assert_eq!(d.safety(), DefinitionSafety::Safe);
    let q = ConstantInfo { obj: LeanObj::new(&r).unwrap() }.to_quot_val();
    assert_eq!(q.kind(), QuotKind::Mk);
    let rec = ConstantInfo { obj: LeanObj::new(&r).unwrap() }.to_recursor_val();
    assert_eq!(rec.num_params(), 3);
    assert_eq!(rec.num_minors(), 1);
    assert!(rec.k());
    let ctor = ConstantInfo { obj: LeanObj::new(&r).unwrap() }.to_constructor_val();
    assert_eq!(ctor.cidx(), 3);
    assert_eq!(ctor.num_fields(), 0);
}

#[test]
fn declaration_kinds() {
    let r = constant(4, vec![0]);
    let d = Declaration { obj: LeanObj::new(&r).unwrap() };
    assert_eq!(d.kind(), DeclarationKind::Quot);
    assert!(!d.to_axiom_val().is_unsafe());
    assert!(matches!(d.to_definition_vals(), LeanRef::Obj(_)));
}

#[test]
fn local_decls() {
    let cdecl = obj(0, vec![LeanRef::Scalar(4), LeanRef::Scalar(11), LeanRef::Scalar(12), LeanRef::Scalar(13)], vec![2]);
    let d = LocalDecl { obj: LeanObj::new(&cdecl).unwrap() };
    assert_eq!(d.index(), 4);
    assert!(matches!(d.name(), LeanRef::Scalar(11)));
    assert!(matches!(d.user_name(), LeanRef::Scalar(12)));
    assert!(matches!(d.type_(), LeanRef::Scalar(13)));
    assert!(d.value().is_none());
    assert_eq!(d.binder_info(), Some(BinderInfo::StrictImplicit));
    let ldecl = obj(1, vec![LeanRef::Scalar(4), LeanRef::Scalar(11), LeanRef::Scalar(12), LeanRef::Scalar(13), LeanRef::Scalar(14)], vec![0]);
    let l = LocalDecl { obj: LeanObj::new(&ldecl).unwrap() };
    assert!(matches!(l.value(), Some(LeanRef::Scalar(14))));
    assert_eq!(l.binder_info(), None);
}

#[test]
fn lookups_decode_answers() {
    let ctx_obj = obj(0, vec![], vec![]);
    let lctx = LocalCtx { obj: LeanObj::new(&ctx_obj).unwrap() };
    let none = LeanRef::Scalar(0);
    assert!(lctx.find(&none).is_none());
    let some = obj(1, vec![obj(0, vec![LeanRef::Scalar(9)], vec![0])], vec![]);
    let found = lctx.find(&some).unwrap();
    assert_eq!(found.index(), 9);
    let env = Environment { obj: LeanObj::new(&ctx_obj).unwrap() };
    assert!(env.find(&none).is_none());
    let c = constant(2, vec![]);
    let some_c = obj(1, vec![c], vec![]);
    assert_eq!(env.find(&some_c).unwrap().kind(), ConstantInfoKind::Theorem);
    assert!(env.is_quot_initialized(1));
    assert!(!env.is_quot_initialized(0));
}
