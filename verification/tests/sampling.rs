//! Drawing tokens.

use hipfire::float::F32;
use hipfire::order::{rank_descending, sort_by_key};
use hipfire::sampling::{sample_candidates, sample_token, SampleStep, Xorshift};

fn single(x: f32) -> F32 {
    F32 { bits: x.to_bits() }
}

fn singles(xs: &[f32]) -> Vec<F32> {
    xs.iter().map(|&x| single(x)).collect()
}

fn draw(logits: &[f32], temp: f32, top_k: usize, top_p: f32, rng: &mut Xorshift) -> u32 {
    match sample_candidates(&singles(logits), single(temp), top_k) {
        SampleStep::Token(t) => t,
        SampleStep::Weigh { idx, exponents } => {
            let exps: Vec<F32> =
                exponents.iter().map(|e| single(f32::from_bits(e.bits).exp())).collect();
            sample_token(&singles(logits), idx, &exps, single(top_p), rng)
        }
    }
}

#[test]
fn generator_follows_its_recurrence() {
    let mut rng = Xorshift::new(42);
    let mut s: u64 = 42;
    for _ in 0..100 {
        s ^= s >> 12;
        s ^= s << 25;
        s ^= s >> 27;
        assert_eq!(rng.next_u64(), s.wrapping_mul(0x2545_F491_4F6C_DD1D));
    }
}

#[test]
fn generator_is_never_stuck() {
    // A seed of zero stands for another one.
    let mut rng = Xorshift::new(0);
    let mut twin = Xorshift::new(0x9E37_79B9_7F4A_7C15);
    let first = rng.next_u64();
    assert_eq!(first, twin.next_u64());
    assert!(first != 0);
    assert!(rng.next_u64() != first);
}

#[test]
fn fractions_lie_in_the_unit_interval() {
    let mut rng = Xorshift::new(7);
    let mut twin = Xorshift::new(7);
    for _ in 0..1000 {
        let x = f32::from_bits(rng.next_f32().bits);
        assert!((0.0..1.0).contains(&x));
        assert_eq!(x, (twin.next_u64() >> 40) as f32 / (1u64 << 24) as f32);
    }
}

#[test]
fn zero_temperature_is_greedy() {
    let mut rng = Xorshift::new(1);
    assert_eq!(draw(&[0.5, 3.0, -1.0, 2.0], 0.0, 0, 1.0, &mut rng), 1);
    assert_eq!(draw(&[0.5, 3.0, -1.0, 2.0], -1.0, 2, 0.5, &mut rng), 1);
    // Of equals, the last.
    assert_eq!(draw(&[3.0, 3.0, 1.0], 0.0, 0, 1.0, &mut rng), 1);
}

#[test]
fn top_k_keeps_the_best() {
    let mut rng = Xorshift::new(3);
    for _ in 0..200 {
        let t = draw(&[5.0, 1.0, 4.9, -3.0, 0.0], 1.0, 2, 1.0, &mut rng);
        assert!(t == 0 || t == 2);
    }
}

#[test]
fn top_p_keeps_the_nucleus() {
    let mut rng = Xorshift::new(5);
    for _ in 0..200 {
        assert_eq!(draw(&[10.0, 0.0, 0.0], 1.0, 0, 0.5, &mut rng), 0);
    }
}

#[test]
fn draws_follow_the_weights() {
    let mut rng = Xorshift::new(11);
    let mut hits = [0usize; 2];
    for _ in 0..4000 {
        hits[draw(&[(3.0f32).ln(), 0.0], 1.0, 0, 1.0, &mut rng) as usize] += 1;
    }
    assert!((hits[0] as f64 / 4000.0 - 0.75).abs() < 0.05);
}

#[test]
fn unusable_weights_fall_back_to_the_best() {
    let mut rng = Xorshift::new(9);
    let logits = singles(&[1.0, 7.0, 2.0]);
    let t = sample_token(&logits, vec![0, 1, 2], &singles(&[0.0, 0.0, 0.0]), single(1.0), &mut rng);
    assert_eq!(t, 1);
    assert_eq!(sample_token(&logits, vec![], &vec![], single(1.0), &mut rng), 0);
}

#[test]
fn ranking_is_stable() {
    assert_eq!(sort_by_key(&[3, 1, 2, 1]), vec![1, 3, 2, 0]);
    assert_eq!(rank_descending(&singles(&[1.0, 5.0, -2.0, 5.0])), vec![1, 3, 0, 2]);
}

#[test]
fn fractions_lie_below_one() {
    let mut rng = Xorshift::new(7);
    let mut twin = Xorshift::new(7);
    for _ in 0..1000 {
        let x = f32::from_bits(rng.next_f32().bits);
        assert_eq!(x, (twin.next_u64() >> 40) as f32 / 16777216.0);
        assert!((0.0..1.0).contains(&x));
    }
}

#[test]
fn a_draw_is_one_of_the_best() {
    let mut rng = Xorshift::new(11);
    let logits = [0.5, 3.0, -1.0, 2.5, 2.0];
    for _ in 0..200 {
        let t = draw(&logits, 1.0, 3, 0.95, &mut rng);
        assert!([1, 3, 4].contains(&t));
    }
}

#[test]
fn switched_off_filters_do_nothing() {
    let logits: Vec<f32> = (0..30).map(|i| ((i * 17) % 23) as f32 / 5.0).collect();
    for seed in 1..60u64 {
        for top_p in [-1.0, 0.0, 0.4, 0.9, 1.0, 2.0] {
            let mut a = Xorshift::new(seed);
            let mut b = Xorshift::new(seed);
            let mut c = Xorshift::new(seed);
            let t = draw(&logits, 0.8, 0, top_p, &mut a);
            assert_eq!(t, draw(&logits, 0.8, 30, top_p, &mut b));
            assert_eq!(t, draw(&logits, 0.8, 4000, top_p, &mut c));
            let next = a.next_u64();
            assert_eq!(next, b.next_u64());
            assert_eq!(next, c.next_u64());
        }
        for top_k in [0, 1, 5, 29, 30] {
            let mut a = Xorshift::new(seed);
            let t = draw(&logits, 1.3, top_k, 1.0, &mut a);
            let next = a.next_u64();
            for top_p in [0.0, -3.0, 1.5] {
                let mut b = Xorshift::new(seed);
                assert_eq!(t, draw(&logits, 1.3, top_k, top_p, &mut b));
                assert_eq!(next, b.next_u64());
            }
        }
    }
}

#[test]
fn a_draw_lands_where_the_fraction_falls() {
    // Weights of 1/4, 1/4 and 1/2, drawn by a fraction that the twin tells.
    let logits = singles(&[0.0, 0.0, 0.0]);
    let mut rng = Xorshift::new(23);
    let mut twin = Xorshift::new(23);
    for _ in 0..200 {
        let r = f32::from_bits(twin.next_f32().bits);
        let t = sample_token(&logits, vec![0, 1, 2], &singles(&[1.0, 1.0, 2.0]), single(1.0), &mut rng);
        assert_eq!(t, if r <= 0.25 { 0 } else if r <= 0.5 { 1 } else { 2 });
    }
}
