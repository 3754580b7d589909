//! Grouping, folding and scoring of cache rows.

use hipfire::cask::{
    aggregate_scores, dequant_q8_row, greedy_group_by_l2, highest_of, quantize_q8_row,
    softmax_exponents, softmax_weights, weighted_avg_q8, zeros,
};
use hipfire::float::F32;

fn single(x: f32) -> F32 {
    F32 { bits: x.to_bits() }
}

fn value(x: F32) -> f32 {
    f32::from_bits(x.bits)
}

fn singles(xs: &[f32]) -> Vec<F32> {
    xs.iter().map(|&x| single(x)).collect()
}

fn values(xs: &[F32]) -> Vec<f32> {
    xs.iter().map(|&x| value(x)).collect()
}

fn softmax(xs: &[f32]) -> Vec<f32> {
    let exps: Vec<F32> =
        softmax_exponents(&singles(xs)).iter().map(|&d| single(value(d).exp())).collect();
    values(&softmax_weights(&exps))
}

/// The half-precision word nearest to a number that is not negative.
fn half_word(x: f32) -> u16 {
    let b = x.to_bits();
    let e = (b >> 23) as i32 - 112;
    if e <= 0 {
        return (x * 16_777_216.0).round_ties_even() as u16;
    }
    let m = b & 0x7F_FFFF;
    (((e as u32) << 10) + ((m + 0xFFF + ((m >> 13) & 1)) >> 13)) as u16
}

fn pack_q8_row(vals: &[f32], n_kv: usize, head_dim: usize) -> Vec<u8> {
    let n_blocks = head_dim / 32;
    let mut out = vec![0u8; n_kv * n_blocks * 34];
    for h in 0..n_kv {
        for b in 0..n_blocks {
            let at = (h * n_blocks + b) * 34;
            let slice = &vals[h * head_dim + b * 32..h * head_dim + b * 32 + 32];
            let max_abs = slice.iter().map(|x| x.abs()).fold(0.0f32, f32::max);
            let scale = max_abs / 127.0;
            let inv = if scale > 1e-10 { 1.0 / scale } else { 0.0 };
            let s16 = half_word(scale);
            out[at] = (s16 & 0xFF) as u8;
            out[at + 1] = (s16 >> 8) as u8;
            for q in 0..32 {
                out[at + 2 + q] = (slice[q] * inv).round().clamp(-127.0, 127.0) as i8 as u8;
            }
        }
    }
    out
}

fn unpack(row: &[u8], n_kv: usize, head_dim: usize) -> Vec<f32> {
    let mut back = zeros(n_kv * head_dim);
    dequant_q8_row(row, &mut back, n_kv, head_dim);
    values(&back)
}

#[test]
fn softmax_sums_to_one() {
    let s = softmax(&[1.0, 2.0, 3.0]);
    let sum: f32 = s.iter().sum();
    assert!((sum - 1.0).abs() < 1e-5);
    assert!(s[2] > s[1] && s[1] > s[0]);
}

#[test]
fn softmax_numerical_stability_large_inputs() {
    let s = softmax(&[1000.0, 1001.0, 1002.0]);
    let sum: f32 = s.iter().sum();
    assert!((sum - 1.0).abs() < 1e-5, "softmax overflowed on large z");
}

#[test]
fn aggregate_z_score_max_gqa() {
    let scores = singles(&[1.0, 2.0, 3.0, 4.0, 4.0, 3.0, 2.0, 1.0]);
    let agg = values(&aggregate_scores(&scores, 2, 4));
    assert!(agg[0] > agg[1]);
    assert!(agg[3] > agg[2]);
    assert!((agg[0] - agg[3]).abs() < 1e-5, "symmetric case, endpoints should tie");
}

#[test]
fn dequant_requant_q8_near_exact() {
    let n_kv = 2;
    let head_dim = 32;
    let vals: Vec<f32> = (0..n_kv * head_dim).map(|i| ((i as f32) * 0.1).sin()).collect();
    let packed = pack_q8_row(&vals, n_kv, head_dim);
    let back = unpack(&packed, n_kv, head_dim);
    for i in 0..vals.len() {
        assert!(
            (vals[i] - back[i]).abs() < 0.02,
            "dequant drift at {}: {} vs {}",
            i,
            vals[i],
            back[i]
        );
    }
}

#[test]
fn weighted_avg_of_identical_rows_is_identity() {
    let n_kv = 2;
    let head_dim = 32;
    let vals: Vec<f32> = (0..n_kv * head_dim).map(|i| (i as f32) * 0.05).collect();
    let row = pack_q8_row(&vals, n_kv, head_dim);
    let mut all = Vec::new();
    for _ in 0..3 {
        all.extend_from_slice(&row);
    }

    let merged = weighted_avg_q8(&all, &[0, 1, 2], &singles(&[0.2, 0.3, 0.5]), n_kv, head_dim);
    let back = unpack(&merged, n_kv, head_dim);
    for i in 0..vals.len() {
        assert!((vals[i] - back[i]).abs() < 0.02, "identity merge drift at {}", i);
    }
}

#[test]
fn weighted_avg_of_two_orthogonal_is_blend() {
    let n_kv = 1;
    let head_dim = 32;
    let a: Vec<f32> = (0..head_dim).map(|i| if i < 16 { 1.0 } else { 0.0 }).collect();
    let b: Vec<f32> = (0..head_dim).map(|i| if i >= 16 { 1.0 } else { 0.0 }).collect();
    let mut all = pack_q8_row(&a, n_kv, head_dim);
    all.extend_from_slice(&pack_q8_row(&b, n_kv, head_dim));

    let merged = weighted_avg_q8(&all, &[0, 1], &singles(&[0.5, 0.5]), n_kv, head_dim);
    let back = unpack(&merged, n_kv, head_dim);
    for i in 0..head_dim {
        assert!((back[i] - 0.5).abs() < 0.05, "blend drift at {}: {}", i, back[i]);
    }
}

#[test]
fn greedy_group_pairs_nearby_tokens() {
    let n_kv = 1;
    let head_dim = 32;
    let t0: Vec<f32> = (0..head_dim).map(|i| (i as f32).sin() * 0.5).collect();
    let mut t1 = t0.clone();
    t1[0] += 0.01; // near-duplicate
    let t2: Vec<f32> = (0..head_dim).map(|i| ((i as f32) * 1.3).cos() * 0.5).collect();
    let mut t3 = t2.clone();
    t3[0] += 0.01;

    let mut all = Vec::new();
    for v in [&t0, &t1, &t2, &t3] {
        all.extend_from_slice(&pack_q8_row(v, n_kv, head_dim));
    }

    let scratch_idx: Vec<u32> = vec![0, 1, 2, 3];
    let groups = greedy_group_by_l2(&all, &scratch_idx, n_kv, head_dim, 2);
    assert_eq!(groups.len(), 2);
    for g in &groups {
        let all_low = g.iter().all(|&i| i < 2);
        let all_high = g.iter().all(|&i| i >= 2);
        assert!(all_low || all_high, "group crossed clusters: {:?}", g);
    }
}

#[test]
fn groups_are_full_and_disjoint() {
    let head_dim = 32;
    let mut all = Vec::new();
    for t in 0..7 {
        let row: Vec<f32> = (0..head_dim).map(|i| ((t * 31 + i * 7) % 13) as f32).collect();
        all.extend_from_slice(&pack_q8_row(&row, 1, head_dim));
    }
    let idx: Vec<u32> = vec![6, 5, 4, 3, 2, 1, 0];
    let groups = greedy_group_by_l2(&all, &idx, 1, head_dim, 3);
    let sizes: Vec<usize> = groups.iter().map(|g| g.len()).collect();
    assert_eq!(sizes, vec![3, 3]);
    let mut seen: Vec<usize> = groups.iter().flatten().copied().collect();
    seen.sort();
    seen.dedup();
    assert_eq!(seen.len(), 6);
    assert_eq!(groups[0][0], 0);
}

#[test]
fn rows_are_packed_in_blocks() {
    let mut vals = vec![0.0f32; 64];
    vals[0] = 127.0;
    vals[1] = -63.5;
    vals[2] = 1.4;
    let row = pack_q8_row(&vals, 2, 32);
    assert_eq!(row.len(), 68);
    // A scale of one in half precision, low byte first.
    assert_eq!(&row[0..2], &[0x00, 0x3c]);
    assert_eq!(row[2] as i8, 127);
    assert_eq!(row[3] as i8, -64);
    assert_eq!(row[4] as i8, 1);
    // A block of zeros has a scale of zero.
    assert!(row[34..68].iter().all(|&b| b == 0));
}

#[test]
fn scores_are_normalized_per_head() {
    // One head: mean 2, deviation sqrt(2/3).
    let agg = values(&aggregate_scores(&singles(&[1.0, 2.0, 3.0]), 1, 3));
    let dev = (2.0f32 / 3.0).sqrt();
    assert!((agg[0] + 1.0 / dev).abs() < 1e-5);
    assert_eq!(agg[1], 0.0);
    assert!((agg[2] - 1.0 / dev).abs() < 1e-5);
}

#[test]
fn softmax_parts_have_exact_values() {
    let d = values(&softmax_exponents(&singles(&[1.0, 4.0, 2.0])));
    assert_eq!(d, vec![-3.0, 0.0, -2.0]);
    let w = values(&softmax_weights(&singles(&[1.0, 3.0])));
    assert_eq!(w, vec![0.25, 0.75]);
    assert_eq!(value(highest_of(&singles(&[-5.0, -2.0, -9.0]))), -2.0);
    assert_eq!(value(highest_of(&[])), f32::NEG_INFINITY);
}

#[test]
fn rows_are_packed_as_by_hand() {
    let vals: Vec<f32> = (0..128).map(|i| ((i as f32) * 0.37).sin() * (i as f32)).collect();
    assert_eq!(quantize_q8_row(&singles(&vals), 2, 64), pack_q8_row(&vals, 2, 64));
    assert_eq!(quantize_q8_row(&singles(&[0.0; 32]), 1, 32), vec![0u8; 34]);
}

#[test]
fn dequantizing_leaves_what_lies_beyond_the_row() {
    let vals: Vec<f32> = (0..64).map(|i| i as f32 / 10.0 - 3.0).collect();
    let packed = pack_q8_row(&vals, 2, 32);
    let mut out = singles(&[7.5; 70]);
    dequant_q8_row(&packed, &mut out, 2, 32);
    let out = values(&out);
    assert_eq!(&out[..64], &unpack(&packed, 2, 32)[..]);
    assert_eq!(&out[64..], &[7.5; 6][..]);
}
