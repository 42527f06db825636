use pngme_lib::endian::{u32_from_be_bytes, u32_to_be_bytes};
use pngme_lib::text::{push_byte_list, push_decimal};

#[test]
fn test_u32_to_be_bytes() {
    assert_eq!(u32_to_be_bytes(0), [0, 0, 0, 0]);
    assert_eq!(u32_to_be_bytes(1), [0, 0, 0, 1]);
    assert_eq!(u32_to_be_bytes(42), [0, 0, 0, 42]);
    assert_eq!(u32_to_be_bytes(0x0102_0304), [1, 2, 3, 4]);
    assert_eq!(u32_to_be_bytes(2882656334), [0xab, 0xd1, 0xd8, 0x4e]);
    assert_eq!(u32_to_be_bytes(u32::MAX), [255, 255, 255, 255]);
}

#[test]
fn test_u32_from_be_bytes() {
    assert_eq!(u32_from_be_bytes([0, 0, 0, 0]), 0);
    assert_eq!(u32_from_be_bytes([0, 0, 0, 42]), 42);
    assert_eq!(u32_from_be_bytes([1, 2, 3, 4]), 0x0102_0304);
    assert_eq!(u32_from_be_bytes([0xab, 0xd1, 0xd8, 0x4e]), 2882656334);
    assert_eq!(u32_from_be_bytes([255, 255, 255, 255]), u32::MAX);
}

#[test]
fn test_be_bytes_agree_with_std() {
    let mut x: u32 = 1;
    for _ in 0..200 {
        x = x.wrapping_mul(1664525).wrapping_add(1013904223);
        assert_eq!(u32_to_be_bytes(x), x.to_be_bytes());
        assert_eq!(u32_from_be_bytes(x.to_be_bytes()), x);
        assert_eq!(u32_from_be_bytes(u32_to_be_bytes(x)), x);
    }
}

#[test]
fn test_push_decimal() {
    for n in [0u64, 1, 9, 10, 11, 99, 100, 255, 4294967295, u64::MAX] {
        let mut out = String::from("n=");
        push_decimal(&mut out, n);
        assert_eq!(out, format!("n={}", n));
    }
    let mut out = String::new();
    push_decimal(&mut out, 1672040154);
    assert_eq!(out, "1672040154");
}

#[test]
fn test_push_byte_list() {
    let mut out = String::new();
    push_byte_list(&mut out, &[]);
    assert_eq!(out, "[]");

    let mut out = String::from("data: ");
    push_byte_list(&mut out, &[7]);
    assert_eq!(out, "data: [7]");

    let mut out = String::new();
    push_byte_list(&mut out, &[0, 10, 255]);
    assert_eq!(out, "[0, 10, 255]");

    let all: Vec<u8> = (0..=255u8).collect();
    let mut out = String::new();
    push_byte_list(&mut out, &all);
    assert_eq!(out, format!("{:?}", all));
}
