//! Shrinking a cache.

use hipfire::cask::{softmax_exponents, softmax_weights};
use hipfire::eviction::{slot_order, CaskCtx, EvictStep, EvictionCtx, SlotSrc};
use hipfire::float::F32;

fn single(x: f32) -> F32 {
    F32 { bits: x.to_bits() }
}

fn singles(xs: &[f32]) -> Vec<F32> {
    xs.iter().map(|&x| single(x)).collect()
}

fn ctx(budget: usize, beta: usize, core_frac: f32, fold_m: usize) -> CaskCtx {
    let base = EvictionCtx {
        budget,
        beta,
        n_heads: 2,
        n_kv_heads: 1,
        head_dim: 32,
        n_rot: 16,
        rope_theta: single(10000.0),
        fa_layer_ids: vec![3, 7],
        centers_per_layer: 5,
        eviction_count: 0,
    };
    CaskCtx::new(base, single(core_frac), fold_m)
}

/// The half-precision word nearest to a number that is not negative.
fn half_word(x: f32) -> u16 {
    let b = x.to_bits();
    let e = (b >> 23) as i32 - 112;
    if e <= 0 {
        return (x * 16_777_216.0).round_ties_even() as u16;
    }
    let m = b & 0x7F_FFFF;
    (((e as u32) << 10) + ((m + 0xFFF + ((m >> 13) & 1)) >> 13)) as u16
}

fn pack_q8_row(vals: &[f32], n_kv: usize, head_dim: usize) -> Vec<u8> {
    let n_blocks = head_dim / 32;
    let mut out = vec![0u8; n_kv * n_blocks * 34];
    for h in 0..n_kv {
        for b in 0..n_blocks {
            let at = (h * n_blocks + b) * 34;
            let slice = &vals[h * head_dim + b * 32..h * head_dim + b * 32 + 32];
            let max_abs = slice.iter().map(|x| x.abs()).fold(0.0f32, f32::max);
            let scale = max_abs / 127.0;
            let inv = if scale > 1e-10 { 1.0 / scale } else { 0.0 };
            let s16 = half_word(scale);
            out[at] = (s16 & 0xFF) as u8;
            out[at + 1] = (s16 >> 8) as u8;
            for q in 0..32 {
                out[at + 2 + q] = (slice[q] * inv).round().clamp(-127.0, 127.0) as i8 as u8;
            }
        }
    }
    out
}

#[test]
fn small_caches_are_kept() {
    let c = ctx(8, 4, 0.5, 2);
    assert!(matches!(c.maybe_evict(11, 0, true), EvictStep::Keep));
    assert!(matches!(c.maybe_evict(12, 0, false), EvictStep::TopBudget));
    assert!(matches!(c.maybe_evict(12, 0, true), EvictStep::Fold(_)));
}

#[test]
fn plans_add_up_to_the_budget() {
    let c = ctx(8, 4, 0.5, 2);
    let plan = match c.maybe_evict(12, 100, true) {
        EvictStep::Fold(p) => p,
        _ => panic!("no plan"),
    };
    assert_eq!(c.target_core(), 4);
    assert_eq!(plan.merge_slots, 4);
    assert_eq!(plan.core_slots, 4);
    assert_eq!(plan.merge_pool, 8);
    assert_eq!(plan.row_bytes, 34);
    assert_eq!(f32::from_bits(plan.query_pos.bits), 112.0);
    // With few tokens above the budget, fewer slots are folded.
    let plan = match ctx(8, 1, 0.5, 2).maybe_evict(9, 0, true) {
        EvictStep::Fold(p) => p,
        _ => panic!("no plan"),
    };
    assert_eq!((plan.core_slots, plan.merge_slots, plan.merge_pool), (7, 1, 2));
}

#[test]
fn folding_keeps_the_best_rows() {
    let c = ctx(4, 2, 0.5, 2);
    let plan = match c.maybe_evict(6, 0, true) {
        EvictStep::Fold(p) => p,
        _ => panic!("no plan"),
    };
    let mut k_all = Vec::new();
    for t in 0..6 {
        k_all.extend_from_slice(&pack_q8_row(&vec![t as f32; 32], 1, 32));
    }
    let agg = singles(&[0.1, 9.0, 0.2, 0.3, 8.0, 0.4]);
    let sel = c.select_layer(&plan, &agg, &k_all);
    assert_eq!(sel.core_idx, vec![1, 4]);
    assert_eq!(sel.scratch_idx, vec![5, 3, 2, 0]);
    assert_eq!(sel.groups.len(), 2);
    let weights: Vec<Vec<F32>> = sel
        .raw_scores
        .iter()
        .map(|s| {
            let e: Vec<F32> = softmax_exponents(s)
                .iter()
                .map(|d| single(f32::from_bits(d.bits).exp()))
                .collect();
            softmax_weights(&e)
        })
        .collect();
    let (k, v) = c.fold_layer(&sel, &weights, &k_all, &k_all, 6);
    assert_eq!(k.len(), 4 * 34);
    assert_eq!(v, k);
    // The rows that stay are as they were.
    let rows: Vec<&[u8]> = k.chunks(34).collect();
    assert!(rows.contains(&&k_all[34..68]));
    assert!(rows.contains(&&k_all[4 * 34..5 * 34]));
}

#[test]
fn slots_are_in_order_of_position() {
    let slots = slot_order(&vec![9, 2], &vec![5, 0]);
    let order: Vec<(bool, usize)> = slots
        .iter()
        .map(|s| match s {
            SlotSrc::Core(i) => (true, *i),
            SlotSrc::Merged(i) => (false, *i),
        })
        .collect();
    assert_eq!(order, vec![(false, 1), (true, 1), (false, 0), (true, 0)]);
}

#[test]
fn finishing_counts_and_moves_on() {
    let mut c = ctx(8, 4, 0.5, 2);
    assert_eq!(c.eviction_count(), 0);
    assert_eq!(c.finish(12, 100), (104, 8));
    assert_eq!(c.eviction_count(), 1);
    assert_eq!(c.center_offset(1), 5);
}

#[test]
fn a_full_core_folds_nothing() {
    let plan = match ctx(8, 4, 1.0, 2).maybe_evict(20, 0, true) {
        EvictStep::Fold(p) => p,
        _ => panic!("no plan"),
    };
    assert_eq!((plan.core_slots, plan.merge_slots, plan.merge_pool), (8, 0, 0));
}

#[test]
fn an_empty_core_folds_every_slot() {
    let c = ctx(8, 4, 0.0, 3);
    assert_eq!(c.target_core(), 0);
    let plan = match c.maybe_evict(24, 0, true) {
        EvictStep::Fold(p) => p,
        _ => panic!("no plan"),
    };
    assert_eq!((plan.core_slots, plan.merge_slots, plan.merge_pool), (0, 8, 24));
}
