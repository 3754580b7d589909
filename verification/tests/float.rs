//! Arithmetic against the machine's own.

use hipfire::float::{f16_to_f32, f32_to_f16, f64_to_f32, F32};

fn single(x: f32) -> F32 {
    F32 { bits: x.to_bits() }
}

fn same(a: F32, b: f32) -> bool {
    (a.is_nan() && b.is_nan()) || a.bits == b.to_bits()
}

fn samples() -> Vec<f32> {
    let mut words: Vec<u32> = vec![
        0,
        1,
        2,
        0x007f_ffff,
        0x0080_0000,
        0x0080_0001,
        0x3f7f_ffff,
        0x3f80_0000,
        0x3f80_0001,
        0x4000_0000,
        0x4040_0000,
        0x4b00_0000,
        0x4b7f_ffff,
        0x4b80_0000,
        0x7f00_0000,
        0x7f7f_ffff,
        0x7f80_0000,
        0x7fc0_0000,
        0x3eaa_aaab,
        0x3dcc_cccd,
        0x4049_0fdb,
        0x322b_cc77,
    ];
    let mut s: u32 = 0x1234_5678;
    for _ in 0..120 {
        s ^= s << 13;
        s ^= s >> 17;
        s ^= s << 5;
        words.push(s & 0x7fff_ffff);
        // Near one another, so that sums cancel.
        words.push(0x3f80_0000 + (s % 0x0100_0000));
    }
    let mut out = Vec::new();
    for w in words {
        out.push(f32::from_bits(w));
        out.push(f32::from_bits(w | 0x8000_0000));
    }
    out
}

#[test]
fn sums_are_the_machines() {
    let xs = samples();
    for &a in &xs {
        for &b in &xs {
            assert!(same(single(a).plus(single(b)), a + b), "{:e} + {:e}", a, b);
            assert!(same(single(a).minus(single(b)), a - b), "{:e} - {:e}", a, b);
        }
    }
}

#[test]
fn products_are_the_machines() {
    let xs = samples();
    for &a in &xs {
        for &b in &xs {
            assert!(same(single(a).times(single(b)), a * b), "{:e} * {:e}", a, b);
        }
    }
}

#[test]
fn quotients_are_the_machines() {
    let xs = samples();
    for &a in &xs {
        for &b in &xs {
            assert!(same(single(a).over(single(b)), a / b), "{:e} / {:e}", a, b);
        }
    }
}

#[test]
fn roots_are_the_machines() {
    for &a in &samples() {
        assert!(same(single(a).sqrt(), a.sqrt()), "sqrt {:e}", a);
    }
}

#[test]
fn comparisons_are_the_machines() {
    let xs = samples();
    for &a in &xs {
        for &b in &xs {
            assert_eq!(single(a).lt(single(b)), a < b);
            assert_eq!(single(a).le(single(b)), a <= b);
            let m = single(a).max(single(b));
            if !(a == 0.0 && b == 0.0) {
                assert!(same(m, a.max(b)), "max {:e} {:e}", a, b);
            }
        }
        assert_eq!(single(a).is_nan(), a.is_nan());
        assert_eq!(single(a).is_finite(), a.is_finite());
        assert!(same(single(a).abs(), a.abs()));
        assert!(same(single(a).neg(), -a));
    }
}

#[test]
fn integers_convert_like_the_machine() {
    for n in [0u64, 1, 2, 3, 7, 16_777_215, 16_777_216, 16_777_217, 16_777_219, 1 << 40, (1 << 63) + 1, u64::MAX] {
        assert!(same(F32::from_u64(n), n as f32), "{}", n);
    }
    for n in [0i64, 1, -1, -16_777_217, 16_777_219, i64::MIN, i64::MAX] {
        assert!(same(F32::from_i64(n), n as f32), "{}", n);
    }
    for &a in &samples() {
        assert_eq!(single(a).to_u64(), a as u64, "{:e}", a);
        assert_eq!(single(a).round_u64(), a.round() as u64, "{:e}", a);
        assert_eq!(single(a).round_to_q8(), a.round().clamp(-127.0, 127.0) as i8, "{:e}", a);
    }
    for a in [0.5f32, 1.5, 2.5, -0.5, -1.5, 126.5, 127.5, -127.5, -128.0] {
        assert_eq!(single(a).round_to_q8(), a.round().clamp(-127.0, 127.0) as i8, "{:e}", a);
    }
}

#[test]
fn halves_convert_exactly_and_back() {
    assert_eq!(f32::from_bits(f16_to_f32(0x3c00).bits), 1.0);
    assert_eq!(f32::from_bits(f16_to_f32(0xc000).bits), -2.0);
    assert_eq!(f32::from_bits(f16_to_f32(0x0001).bits), 5.960_464_5e-8);
    assert_eq!(f32::from_bits(f16_to_f32(0x7bff).bits), 65504.0);
    assert_eq!(f32::from_bits(f16_to_f32(0x7c00).bits), f32::INFINITY);
    assert!(f16_to_f32(0x7e00).is_nan());
    for h in 0..=0xffffu32 {
        let h = h as u16;
        let x = f16_to_f32(h);
        if !x.is_nan() {
            assert_eq!(f32_to_f16(x), h);
        }
    }
    assert_eq!(f32_to_f16(single(65520.0)), 0x7c00);
    assert_eq!(f32_to_f16(single(1.0 / 3.0)), 0x3555);
    assert_eq!(f32_to_f16(single(0.0)), 0);
}

#[test]
fn doubles_round_like_the_machine() {
    let mut s: u64 = 0x9e37_79b9_7f4a_7c15;
    let mut words: Vec<u64> = vec![
        0,
        1,
        0x3ff0_0000_0000_0000,
        0x3ff0_0000_1000_0000,
        0x3ff0_0000_3000_0000,
        0x3eb0_c6f7_a0b5_ed8d,
        0x7ff0_0000_0000_0000,
        0x47ef_ffff_e000_0000,
        0x47ef_ffff_f000_0000,
        0x36a0_0000_0000_0000,
        0x3690_0000_0000_0000,
        0x3690_0000_0000_0001,
    ];
    for _ in 0..4000 {
        s ^= s << 13;
        s ^= s >> 7;
        s ^= s << 17;
        words.push(s);
        words.push((s & 0x800f_ffff_ffff_ffff) | (((s >> 52) % 300 + 850) << 52));
    }
    for w in words {
        let d = f64::from_bits(w);
        assert!(same(f64_to_f32(w), d as f32), "{:e}", d);
    }
}

#[test]
fn small_integers_come_back() {
    for n in [0u64, 1, 2, 255, 4096, 16_777_215, 16_777_216] {
        let x = F32::from_u64(n);
        assert_eq!(x.to_u64(), n);
        assert_eq!(x.times(single(1.0)).bits, x.bits);
    }
    assert_ne!(F32::from_u64(16_777_217).to_u64(), 16_777_217);
}

#[test]
fn rounding_keeps_order() {
    let mut last = single(0.0);
    for n in 16_777_200u64..16_777_260 {
        let x = F32::from_u64(n);
        assert!(last.le(x));
        last = x;
    }
}
