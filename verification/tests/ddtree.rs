//! Draft trees.

use hipfire::ddtree::{build_ddtree_tree, follow_verified_tree, topk_from_logits};
use hipfire::float::F32;

fn single(x: f32) -> F32 {
    F32 { bits: x.to_bits() }
}

fn singles(xs: &[f32]) -> Vec<F32> {
    xs.iter().map(|&x| single(x)).collect()
}

fn log_sum_exp(row: &[f32]) -> f32 {
    let top = row.iter().copied().fold(f32::NEG_INFINITY, f32::max);
    let sum: f64 = row.iter().map(|&x| ((x - top) as f64).exp()).sum();
    top + sum.ln() as f32
}

#[test]
fn empty_tree_has_root_only_visibility() {
    let t = build_ddtree_tree(&[], &[], 0, 0, 0);
    assert_eq!(t.nodes.len(), 0);
    assert_eq!(t.visibility, vec![vec![true]]);
}

#[test]
fn single_depth_single_budget_picks_top() {
    let tokens = vec![7, 3, 9];
    let logps = singles(&[-0.1, -1.0, -2.0]);
    let t = build_ddtree_tree(&tokens, &logps, 1, 3, 1);
    assert_eq!(t.nodes.len(), 1);
    assert_eq!(t.nodes[0].token, 7);
    assert_eq!(t.nodes[0].depth, 1);
    assert_eq!(t.nodes[0].parent_index, -1);
    assert_eq!(t.visibility[1][0], true);
    assert_eq!(t.visibility[1][1], true);
    assert_eq!(t.child_maps[0].get(&7), Some(&0));
}

#[test]
fn deeper_tree_maintains_heap_order() {
    let tokens = vec![10, 20, 30, 40];
    let logps = singles(&[-0.1, -1.0, -0.2, -1.5]);
    let t = build_ddtree_tree(&tokens, &logps, 2, 2, 4);
    assert_eq!(t.nodes.len(), 4);
    assert_eq!(t.nodes[0].token, 10);
    assert_eq!(t.nodes[1].token, 30);
    assert_eq!(t.nodes[1].parent_index, 0);
    assert_eq!(t.nodes[2].token, 20);
    assert_eq!(t.nodes[2].parent_index, -1);
    assert_eq!(t.nodes[3].token, 30);
    assert_eq!(t.nodes[3].parent_index, 2);
}

#[test]
fn follow_accepts_matching_chain() {
    let tokens = vec![10, 20, 30, 40];
    let logps = singles(&[-0.1, -1.0, -0.2, -1.5]);
    let t = build_ddtree_tree(&tokens, &logps, 2, 2, 4);
    let posterior = vec![10, 30, 99, 99, 99];
    let (accepted, bonus) = follow_verified_tree(&t, &posterior);
    assert_eq!(accepted, vec![0, 1]);
    assert_eq!(bonus, 99);
}

#[test]
fn follow_returns_bonus_on_root_miss() {
    let tokens = vec![10, 20];
    let logps = singles(&[-0.1, -1.0]);
    let t = build_ddtree_tree(&tokens, &logps, 1, 2, 2);
    let posterior = vec![55, 0, 0];
    let (accepted, bonus) = follow_verified_tree(&t, &posterior);
    assert_eq!(accepted.len(), 0);
    assert_eq!(bonus, 55);
}

#[test]
fn topk_log_probs_are_normalized() {
    let logits = [2.0f32, 1.0, 0.0, -1.0, -1.0, 0.0, 1.0, 2.0];
    let log_z = vec![single(log_sum_exp(&logits[..4])), single(log_sum_exp(&logits[4..]))];
    let (toks, logps) = topk_from_logits(&singles(&logits), 2, 4, 2, &log_z);
    let logps: Vec<f32> = logps.iter().map(|p| f32::from_bits(p.bits)).collect();
    assert_eq!(toks, vec![0, 1, 3, 2]);
    assert!((logps[0] - (-0.44)).abs() < 0.02);
    assert!((logps[1] - (-1.44)).abs() < 0.02);
}

#[test]
fn budget_bounds_the_tree() {
    let tokens: Vec<u32> = (0..12).collect();
    let logps = singles(&[
        -0.1, -0.2, -0.3, -0.4, -0.1, -0.2, -0.3, -0.4, -0.1, -0.2, -0.3, -0.4,
    ]);
    for budget in 0..9 {
        let t = build_ddtree_tree(&tokens, &logps, 3, 4, budget);
        assert_eq!(t.num_nodes(), budget);
        assert_eq!(t.visibility.len(), budget + 1);
        assert_eq!(t.child_maps.len(), budget + 1);
    }
}

#[test]
fn visibility_is_ancestry() {
    let tokens = vec![10, 20, 30, 40];
    let logps = singles(&[-0.1, -1.0, -0.2, -1.5]);
    let t = build_ddtree_tree(&tokens, &logps, 2, 2, 4);
    for i in 0..4 {
        let chain = t.ancestors_of(i);
        for j in 0..4 {
            assert_eq!(t.visibility[i + 1][j + 1], chain.contains(&j));
        }
        assert!(t.visibility[i + 1][0]);
    }
    assert_eq!(t.ancestors_of(3), vec![2, 3]);
}

#[test]
fn trees_start_at_the_best_chain() {
    let tokens = vec![1, 2, 3, 4];
    let logps = singles(&[-0.5, -0.6, -0.1, -3.0]);
    let t = build_ddtree_tree(&tokens, &logps, 2, 2, 3);
    let picked: Vec<(u32, u32, i32)> =
        t.nodes.iter().map(|n| (n.token, n.depth, n.parent_index)).collect();
    assert_eq!(picked[0], (1, 1, -1));
    assert_eq!(picked.len(), 3);
    // Taken in the order of their paths' weights, with none heavier left out.
    let depth_one = |t: u32| if t == 1 { -0.5f32 } else { -0.6 };
    let weights: Vec<f32> = t
        .nodes
        .iter()
        .map(|n| match n.parent_index {
            -1 => depth_one(n.token),
            p => depth_one(t.nodes[p as usize].token) + if n.token == 3 { -0.1 } else { -3.0 },
        })
        .collect();
    assert!(weights.windows(2).all(|w| w[0] >= w[1]));
    assert!(weights[2] >= -0.6 - 0.1);
}

#[test]
fn tables_of_the_best_tokens_go_down() {
    let logits: Vec<f32> = (0..40).map(|i| ((i * 7919) % 83) as f32 / 7.0 - 4.0).collect();
    let log_z: Vec<F32> = logits.chunks(10).map(|row| single(log_sum_exp(row))).collect();
    let (tokens, probs) = topk_from_logits(&singles(&logits), 4, 10, 6, &log_z);
    let probs_f: Vec<f32> = probs.iter().map(|p| f32::from_bits(p.bits)).collect();
    for row in probs_f.chunks(6) {
        assert!(row.iter().all(|&p| p <= 0.0));
        assert!(row.windows(2).all(|w| w[0] >= w[1]));
    }
    // The paths of a tree over that table come from the heaviest down.
    let t = build_ddtree_tree(&tokens, &probs, 4, 6, 30);
    let weight = |i: usize| {
        let mut w = 0.0f64;
        for j in t.ancestors_of(i) {
            let d = t.nodes[j].depth as usize - 1;
            let at = (0..6).find(|&r| tokens[d * 6 + r] == t.nodes[j].token).unwrap();
            w += probs_f[d * 6 + at] as f64;
        }
        w
    };
    for i in 1..t.num_nodes() {
        assert!(weight(i - 1) >= weight(i) - 1e-4);
    }
}

#[test]
fn weights_that_are_no_numbers_go_by_age() {
    let tokens = vec![10, 20, 30, 40];
    let nan = f32::NAN;
    // Older than the path below the first node, the sibling without a weight is next.
    let t = build_ddtree_tree(&tokens, &singles(&[-0.5, nan, -0.5, -1.0]), 2, 2, 2);
    assert_eq!((t.nodes[1].token, t.nodes[1].parent_index), (20, -1));
    // Nor is one taken that is younger than the heaviest.
    let t = build_ddtree_tree(&tokens, &singles(&[-0.5, -0.6, nan, -1.0]), 2, 2, 2);
    assert_eq!((t.nodes[1].token, t.nodes[1].parent_index), (20, -1));
    // All six paths come.
    let t = build_ddtree_tree(&tokens, &singles(&[nan, nan, nan, nan]), 2, 2, 9);
    assert_eq!(t.num_nodes(), 6);
}

/// The weight of a path by its ranks, each step as the tree takes it.
fn path_weight(logps: &[f32], topk: usize, ranks: &[usize]) -> f32 {
    let mut w = 0.0;
    for (d, &rank) in ranks.iter().enumerate() {
        w = if d == 0 { logps[0] } else { w + logps[d * topk] };
        for r in 0..rank {
            w = w - logps[d * topk + r] + logps[d * topk + r + 1];
        }
    }
    w
}

fn all_paths(depth: usize, topk: usize) -> Vec<Vec<usize>> {
    let mut all: Vec<Vec<usize>> = vec![];
    let mut last: Vec<Vec<usize>> = vec![vec![]];
    for _ in 0..depth {
        last = last
            .iter()
            .flat_map(|p| (0..topk).map(move |r| [p.clone(), vec![r]].concat()))
            .collect();
        all.extend(last.iter().cloned());
    }
    all
}

#[test]
fn a_tree_holds_the_heaviest_paths() {
    let (depth, topk) = (3, 3);
    let tokens: Vec<u32> = (0..9).collect();
    let logps = [-0.3, -1.1, -2.4, -0.7, -0.9, -1.9, -0.2, -2.0, -2.1];
    for budget in [1, 4, 10, 25, 60] {
        let t = build_ddtree_tree(&tokens, &singles(&logps), depth, topk, budget);
        let paths: Vec<Vec<usize>> = (0..t.num_nodes())
            .map(|i| {
                t.ancestors_of(i).iter().map(|&j| t.nodes[j].token as usize % topk).collect()
            })
            .collect();
        let weight = |p: &Vec<usize>| path_weight(&logps, topk, p);
        for i in 1..paths.len() {
            assert!(weight(&paths[i - 1]) >= weight(&paths[i]));
            // No path comes twice.
            assert!(!paths[..i].contains(&paths[i]));
        }
        let lightest = weight(&paths[paths.len() - 1]);
        for p in all_paths(depth, topk) {
            assert!(paths.contains(&p) || weight(&p) <= lightest);
        }
        assert_eq!(paths.len(), budget.min(3 + 9 + 27));
    }
}

#[test]
fn children_come_by_rank_and_stand_in_one_map() {
    let tokens = vec![5, 6, 7, 5, 6, 7, 8, 9, 5];
    let logps = singles(&[-0.3, -1.1, -2.4, -0.7, -0.9, -1.9, -0.2, -2.0, -2.1]);
    let t = build_ddtree_tree(&tokens, &logps, 3, 3, 30);
    for i in 0..t.num_nodes() {
        let n = t.nodes[i];
        let elders = (0..i).filter(|&j| t.nodes[j].parent_index == n.parent_index).count();
        assert_eq!(n.token, tokens[(n.depth as usize - 1) * 3 + elders]);
        let homes: Vec<(usize, u32)> = t
            .child_maps
            .iter()
            .enumerate()
            .flat_map(|(s, m)| m.iter().filter(|e| *e.1 == i).map(move |e| (s, *e.0)))
            .collect();
        assert_eq!(homes, vec![((n.parent_index + 1) as usize, n.token)]);
    }
}

#[test]
fn the_best_tokens_of_a_row_differ() {
    let logits: Vec<f32> = (0..40).map(|i| ((i * 31) % 7) as f32).collect();
    let log_z: Vec<F32> = logits.chunks(10).map(|row| single(log_sum_exp(row))).collect();
    let (tokens, _) = topk_from_logits(&singles(&logits), 4, 10, 6, &log_z);
    for row in tokens.chunks(6) {
        for r in 1..6 {
            assert!(!row[..r].contains(&row[r]));
        }
    }
}
