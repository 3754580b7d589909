//! Lists of operations.

use hipfire::device::{addresses, extend, free_list, gemm, gemv, zeroed_list, Op};
use hipfire::names::{joined, numbered_name, push_decimal};
use hipfire::quant::{DType, WeightInfo};

#[test]
fn lists_are_joined_in_order() {
    let mut a: Vec<Op<u8, u8>> = vec![Op::SetPos { buf: 2, pos: 1 }];
    extend(&mut a, vec![Op::Sync, Op::Free { buf: 3 }]);
    let text: Vec<String> = a.iter().map(|o| format!("{:?}", o)).collect();
    assert_eq!(text, vec!["SetPos { buf: 2, pos: 1 }", "Sync", "Free { buf: 3 }"]);
}

#[test]
fn buffers_are_zeroed_and_freed() {
    let ops: Vec<Op<u8, ()>> = zeroed_list(&vec![(1, 2), (5, 3)]);
    let text: Vec<String> = ops.iter().map(|o| format!("{:?}", o)).collect();
    assert_eq!(
        text,
        vec![
            "Alloc { buf: 1, elems: 2 }",
            "Zero { buf: 1, bytes: 8 }",
            "Alloc { buf: 5, elems: 3 }",
            "Zero { buf: 5, bytes: 12 }"
        ]
    );
    let ops: Vec<Op<u8, ()>> = free_list(&vec![1, 5]);
    assert_eq!(ops.len(), 2);
}

#[test]
fn products_carry_their_sizes() {
    let info = WeightInfo { dtype: DType::F32, m: 3, k: 4 };
    assert!(matches!(gemv(info, 9u8, 1u8, 2u8), Op::Gemv { w: 9, x: 1, y: 2, m: 3, k: 4 }));
    assert!(matches!(gemm(info, 9u8, 1u8, 2u8, 7), Op::Gemm { m: 3, k: 4, rows: 7, .. }));
}

#[test]
fn names_hold_numbers() {
    assert_eq!(numbered_name("a.", 1207, ".b"), "a.1207.b");
    assert_eq!(joined("x", "y"), "xy");
    let mut s = String::new();
    push_decimal(&mut s, 0);
    push_decimal(&mut s, usize::MAX);
    assert_eq!(s, format!("0{}", usize::MAX));
}

#[test]
fn sizes_are_addressed_up_to_the_last_byte() {
    assert!(addresses(usize::MAX, 1, 1));
    assert!(!addresses(usize::MAX, 1, 2));
    assert!(!addresses(usize::MAX, 2, 1));
    assert!(addresses(usize::MAX, 0, 9));
    assert!(addresses(1 << 10, 1 << 10, 512));
}
