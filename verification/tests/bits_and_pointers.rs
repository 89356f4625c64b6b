use lean_kernel_rs::bitfield::{get, get_bit, mask};
use lean_kernel_rs::ptr::{
    box_bits, box_sets_scalar_bit, is_scalar_bits, is_scalar_ptr, roundtrip_box_unbox, unbox_bits,
    unbox_ptr, LeanPtr,
};

#[test]
fn mask_widths() {
    assert_eq!(mask(0), 0);
    assert_eq!(mask(8), 0xff);
    assert_eq!(mask(63), u64::MAX >> 1);
    assert_eq!(mask(64), u64::MAX);
    assert_eq!(mask(100), u64::MAX);
}

#[test]
fn get_reads_field() {
    assert_eq!(get(8, 8, 0x1234), 0x12);
    assert_eq!(get(0, 4, 0x1234), 0x4);
    assert_eq!(get(44, 20, 0xfffff << 44), 0xfffff);
}

#[test]
fn set_writes_field_and_reads_back() {
    let v = lean_kernel_rs::bitfield::set(8, 8, 0x1234, 0xab);
    assert_eq!(v, 0xab34);
    assert_eq!(get(8, 8, v), 0xab);
    // only the low bits of what is written are kept
    let w = lean_kernel_rs::bitfield::set(4, 4, 0, 0xff);
    assert_eq!(w, 0xf0);
    // other fields are untouched
    let x = lean_kernel_rs::bitfield::set(32, 8, 0xdead_beef, 7);
    assert_eq!(get(0, 32, x), 0xdead_beef);
    assert_eq!(get(32, 8, x), 7);
}

#[test]
fn get_bit_reads_bit() {
    assert!(get_bit(3, 8));
    assert!(!get_bit(2, 8));
    assert!(get_bit(63, 1 << 63));
}

#[test]
fn boxing_scalars() {
    assert_eq!(box_bits(5), 11);
    assert_eq!(unbox_bits(11), 5);
    assert!(is_scalar_bits(11));
    assert!(!is_scalar_bits(10));
    assert!(is_scalar_ptr(1));
    assert_eq!(unbox_ptr(7), 3);
}

#[test]
fn roundtrip_keeps_small_values() {
    assert_eq!(roundtrip_box_unbox(0), 0);
    assert_eq!(roundtrip_box_unbox(12345), 12345);
    assert_eq!(roundtrip_box_unbox(usize::MAX / 2), usize::MAX / 2);
    // the top bit is lost
    assert_eq!(roundtrip_box_unbox(usize::MAX), usize::MAX / 2);
}

#[test]
fn box_always_scalar() {
    assert!(box_sets_scalar_bit(0));
    assert!(box_sets_scalar_bit(usize::MAX));
    assert!(box_sets_scalar_bit(42));
}

#[test]
fn lean_ptr_methods() {
    let p = LeanPtr::from_raw(9);
    assert_eq!(p.to_raw(), 9);
    assert!(p.is_scalar());
    assert!(!p.is_null());
    assert_eq!(p.unbox_scalar(), 4);
    assert!(LeanPtr(0).is_null());
    assert!(!LeanPtr(0x1000).is_scalar());
}
