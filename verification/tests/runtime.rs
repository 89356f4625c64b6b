use lean_kernel_rs::runtime::{
    hash_str_rs, lean_box_usize, lean_byteslice_beq_rs, lean_runtime_rs_ping,
    lean_system_platform_nbits_rs, lean_utf8_n_strlen_rs, lean_utf8_strlen_rs, utf8_size, ByteSlice,
};
use lean_kernel_rs::expr_util::lean_kernel_rs_ping;

#[test]
fn murmur_hash_values() {
    assert_eq!(hash_str_rs(0, b"", 0), 0);
    assert_eq!(hash_str_rs(1, b"a", 0), 0x071717d2d36b6b11);
    assert_eq!(hash_str_rs(11, b"hello world", 11), 0x18837190c6f6b327);
    assert_eq!(hash_str_rs(8, b"12345678", 7), 0x0f7abbec525ef2c3);
    assert_eq!(hash_str_rs(15, b"abcdefghijklmno", 0), 0xfdaac8a629dcd46a);
    // only the first `len` bytes count
    assert_eq!(hash_str_rs(1, b"abc", 0), hash_str_rs(1, b"a", 0));
}

#[test]
fn utf8_sizes() {
    assert_eq!(utf8_size(b'a'), 1);
    assert_eq!(utf8_size(0xc3), 2);
    assert_eq!(utf8_size(0xe2), 3);
    assert_eq!(utf8_size(0xf0), 4);
    assert_eq!(utf8_size(0xf8), 5);
    assert_eq!(utf8_size(0xfc), 6);
    assert_eq!(utf8_size(0xff), 1);
    assert_eq!(utf8_size(0x80), 1);
}

#[test]
fn utf8_lengths() {
    let s = "héllo ∀x, 😀\0".as_bytes();
    assert_eq!(lean_utf8_strlen_rs(s), 11);
    assert_eq!(lean_utf8_strlen_rs(b"\0"), 0);
    let t = "a∀b".as_bytes();
    assert_eq!(lean_utf8_n_strlen_rs(t, t.len()), 3);
    assert_eq!(lean_utf8_n_strlen_rs(t, 2), 2);
    assert_eq!(lean_utf8_n_strlen_rs(t, 0), 0);
}

#[test]
fn utf8_lengths_agree_up_to_the_terminator() {
    let s = "héllo ∀x, 😀\0".as_bytes();
    let sz = s.len() - 1;
    assert_eq!(lean_utf8_strlen_rs(s), lean_utf8_n_strlen_rs(s, sz));
}

#[test]
fn byte_slices() {
    let a = ByteSlice { array: b"xxhelloyy".to_vec(), start: 2, stop: 7 };
    let b = ByteSlice { array: b"hello".to_vec(), start: 0, stop: 5 };
    let c = ByteSlice { array: b"help!".to_vec(), start: 0, stop: 5 };
    let d = ByteSlice { array: b"hell".to_vec(), start: 0, stop: 4 };
    let e1 = ByteSlice { array: b"abc".to_vec(), start: 1, stop: 1 };
    let e2 = ByteSlice { array: vec![], start: 0, stop: 0 };
    assert_eq!(lean_byteslice_beq_rs(&a, &b), 1);
    assert_eq!(lean_byteslice_beq_rs(&a, &a), 1);
    assert_eq!(lean_byteslice_beq_rs(&b, &c), 0);
    assert_eq!(lean_byteslice_beq_rs(&b, &d), 0);
    assert_eq!(lean_byteslice_beq_rs(&e1, &e2), 1);
}

#[test]
fn platform_and_pings() {
    assert_eq!(lean_system_platform_nbits_rs().0, (usize::BITS as usize) * 2 + 1);
    assert_eq!(lean_box_usize(3).0, 7);
    assert_eq!(lean_runtime_rs_ping(), 1);
    assert_eq!(lean_kernel_rs_ping(), 1);
}
