use lean_kernel_rs::data::{
    lean_expr_mk_app_data_rs, lean_expr_mk_data_rs, lean_level_mk_data_rs, ExprData, LevelData,
};
use lean_kernel_rs::lean_nat::{nat_add, nat_box, nat_sub, NatResult};
use lean_kernel_rs::ptr::LeanPtr;

fn boxed(n: usize) -> LeanPtr {
    LeanPtr(n * 2 + 1)
}

#[test]
fn level_pack_reads_back() {
    let w = LevelData::pack(0xdead_beef, 5, true, false);
    let d = LevelData(w);
    assert_eq!(d.hash(), 0xdead_beef);
    assert_eq!(d.depth(), 5);
    assert_eq!(d.has_mvar(), 1);
    assert_eq!(d.has_param(), 0);
    assert_eq!(w, 0x0000_0501_dead_beef);
}

#[test]
fn level_depth_keeps_24_bits() {
    let d = LevelData(LevelData::pack(1, 0x0123_4567, false, true));
    assert_eq!(d.depth(), 0x23_4567);
    assert_eq!(d.has_param(), 1);
}

#[test]
fn level_mk_data_from_boxed_depth() {
    let w = lean_level_mk_data_rs(0x1_2345_6789, boxed(16_777_215), 0, 7);
    let d = LevelData(w);
    assert_eq!(d.hash(), 0x2345_6789);
    assert_eq!(d.depth(), 16_777_215);
    assert_eq!(d.has_mvar(), 0);
    assert_eq!(d.has_param(), 1);
}

#[test]
fn expr_pack_reads_back() {
    let flags = (1u64 << 40) | (1u64 << 43);
    let w = ExprData::pack_with_flags(0xcafe_babe, 1_048_575, 200, flags | 1);
    let d = ExprData(w);
    assert_eq!(d.hash(), 0xcafe_babe);
    assert_eq!(d.loose_bvar_range(), 1_048_575);
    assert_eq!(d.approx_depth(), 200);
    assert_eq!(d.has_fvar(), 1);
    assert_eq!(d.has_expr_mvar(), 0);
    assert_eq!(d.has_level_mvar(), 0);
    assert_eq!(d.has_level_param(), 1);
    assert_eq!(d.flags(), flags);
}

#[test]
fn expr_mk_data_clamps_depth() {
    let w = lean_expr_mk_data_rs(7, boxed(3), 300, 0, 1, 1, 0);
    let d = ExprData(w);
    assert_eq!(d.approx_depth(), 255);
    assert_eq!(d.loose_bvar_range(), 3);
    assert_eq!(d.hash(), 7);
    assert_eq!(d.has_fvar(), 0);
    assert_eq!(d.has_expr_mvar(), 1);
    assert_eq!(d.has_level_mvar(), 1);
    assert_eq!(d.has_level_param(), 0);
}

#[test]
fn app_data_combines() {
    let f = ExprData::pack_with_flags(1, 4, 10, 1u64 << 40);
    let a = ExprData::pack_with_flags(2, 9, 3, 1u64 << 42);
    let d = ExprData(lean_expr_mk_app_data_rs(f, a, 0x1_0000_0063));
    assert_eq!(d.hash(), 0x63);
    assert_eq!(d.approx_depth(), 11);
    assert_eq!(d.loose_bvar_range(), 9);
    assert_eq!(d.flags(), (1u64 << 40) | (1u64 << 42));
    let deep = ExprData::pack_with_flags(1, 0, 255, 0);
    assert_eq!(ExprData(lean_expr_mk_app_data_rs(deep, deep, 0)).approx_depth(), 255);
}

#[test]
fn nat_arithmetic_fast_paths() {
    assert_eq!(nat_add(boxed(2), boxed(3)), NatResult::Small(boxed(5)));
    assert_eq!(nat_add(boxed(usize::MAX / 2), boxed(1)), NatResult::BigFromUsize(usize::MAX / 2 + 1));
    assert_eq!(nat_add(LeanPtr(0x1000), boxed(1)), NatResult::BigOp);
    assert_eq!(nat_sub(boxed(7), boxed(3)), NatResult::Small(boxed(4)));
    assert_eq!(nat_sub(boxed(3), boxed(7)), NatResult::Small(boxed(0)));
    assert_eq!(nat_sub(boxed(3), LeanPtr(0x2000)), NatResult::BigOp);
    assert_eq!(nat_box(6), boxed(6));
}

#[test]
fn nat_add_then_sub_gives_back() {
    let sum = match nat_add(boxed(40), boxed(2)) {
        NatResult::Small(p) => p,
        _ => panic!("small sum expected"),
    };
    assert_eq!(sum, boxed(42));
    assert_eq!(nat_sub(sum, boxed(2)), NatResult::Small(boxed(40)));
}
