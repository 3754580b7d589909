//! Speculative decoding.

use hipfire::device::{Op, StateQuant};
use hipfire::float::F32;
use hipfire::qwen35::{DeltaNetState, StateBuf};
use hipfire::speculative::{
    argmax_u32, count_accepted, dflash_extract_layer_ids, download_hidden_block, probe_text,
    spec_step_greedy, verify_dflash_block, verify_drafted, DeltaNetSnapshot, HiddenStateRingBuffer,
    BlockPass, DflashVerifyOutput, KvMode, ModelSlotConfig, SnapBuf, SpecPair, SpecStats, SpecStepResult, StepAction,
};

fn single(x: f32) -> F32 {
    F32 { bits: x.to_bits() }
}

fn singles(xs: &[f32]) -> Vec<F32> {
    xs.iter().map(|&x| single(x)).collect()
}

/// Logits that are greatest at one place.
fn peak(at: usize) -> Vec<F32> {
    let mut v = singles(&[0.0; 8]);
    v[at] = single(1.0);
    v
}

#[test]
fn greedy_choice_is_the_first_maximum() {
    assert_eq!(argmax_u32(&singles(&[1.0, 3.0, 3.0, 2.0])), 1);
    assert_eq!(argmax_u32(&singles(&[f32::NAN, -1.0])), 1);
    assert_eq!(argmax_u32(&singles(&[f32::NEG_INFINITY])), 0);
    assert_eq!(argmax_u32(&[]), 0);
}

#[test]
fn layers_to_extract_are_spread_out() {
    assert_eq!(dflash_extract_layer_ids(32, 5), vec![1, 8, 15, 22, 29]);
    assert_eq!(dflash_extract_layer_ids(32, 1), vec![1]);
    assert_eq!(dflash_extract_layer_ids(32, 0), Vec::<usize>::new());
    assert_eq!(dflash_extract_layer_ids(2, 3), vec![1, 1, 1]);
}

#[test]
fn drafted_tokens_are_accepted_up_to_the_first_miss() {
    let drafted = vec![3, 4, 5];
    let at_pos = peak(3);
    let mid = vec![peak(4), peak(6), peak(7)];
    assert_eq!(count_accepted(&drafted, &at_pos, &mid), 2);
    let r = verify_drafted(drafted, &at_pos, &mid);
    assert_eq!(r.accepted, 2);
    assert_eq!(r.bonus_token, 6);
    assert_eq!(r.committed, vec![3, 4, 6]);
}

#[test]
fn a_perfect_draft_earns_a_bonus() {
    let r = verify_drafted(vec![3, 4], &peak(3), &vec![peak(4), peak(7)]);
    assert_eq!(r.accepted, 2);
    assert_eq!(r.committed, vec![3, 4, 7]);
    let r = verify_drafted(vec![3, 4], &peak(0), &vec![peak(4), peak(7)]);
    assert_eq!(r.committed, vec![0]);
}

#[test]
fn a_greedy_step_runs_to_its_end() {
    // The draft proposes 1, 2; the target wants 1, 5.
    let mut step = spec_step_greedy(10, 2);
    let mut target = vec![peak(1)];
    let mut draft = vec![peak(1)];
    let mut log = Vec::new();
    let mut fed_target = 0;
    let mut fed_draft = 0;
    loop {
        let action = step.next_action();
        log.push(format!("{:?}", action));
        let logits = match action {
            StepAction::Finish => break,
            StepAction::FetchTarget => target[target.len() - 1].clone(),
            StepAction::FetchDraft => draft[draft.len() - 1].clone(),
            StepAction::DraftForward { .. } => {
                fed_draft += 1;
                let l = peak(2);
                draft.push(l.clone());
                l
            }
            StepAction::TargetForward { .. } => {
                fed_target += 1;
                let l = peak(5);
                target.push(l.clone());
                l
            }
            _ => Vec::new(),
        };
        step.advance(logits);
        assert!(log.len() < 50, "{:?}", log);
    }
    assert!(log[0].contains("Save"));
    assert!(log.iter().any(|a| a.contains("Restore")));
    assert!(fed_target >= 2 && fed_draft >= 2);
    let r = step.finish().unwrap();
    assert_eq!(r.committed, vec![1, 5]);
    assert_eq!(r.accepted, 1);
}

#[test]
fn blocks_are_verified_position_by_position() {
    let (mut rb, _) = HiddenStateRingBuffer::new(32, 5, 2, 4);
    for _ in 0..6 {
        rb.advance_head();
    }
    let passes = verify_dflash_block(&[9, 8, 7], 20, &mut rb);
    assert_eq!(
        passes,
        vec![
            BlockPass { token: 9, pos: 20, row: 2 },
            BlockPass { token: 8, pos: 21, row: 3 },
            BlockPass { token: 7, pos: 22, row: 0 },
        ]
    );
    assert_eq!((rb.head, rb.written), (1, 9));
    let out = DflashVerifyOutput::from_rows(&vec![peak(3), peak(0), peak(7)]);
    assert_eq!(out.argmax_per_pos, vec![3, 0, 7]);
    assert_eq!(out.logits_per_pos.len(), 24);
    assert_eq!(out.logits_per_pos[8].bits, 1.0f32.to_bits());
    assert!(verify_dflash_block(&[], 0, &mut rb).is_empty());
}

#[test]
fn rings_keep_the_latest_rows() {
    let (mut rb, ops) = HiddenStateRingBuffer::new(32, 5, 2, 3);
    assert_eq!(ops.len(), 5);
    assert_eq!(rb.extract_layers, vec![1, 8, 15, 22, 29]);
    assert_eq!(rb.extract_slot(15), Some(2));
    assert_eq!(rb.extract_slot(16), None);
    let mut data: Vec<Vec<u32>> = vec![vec![0; 6]; 5];
    for t in 0..4u32 {
        for layer in 0..5 {
            let at = match rb.write_at_head(layer) {
                Op::Copy { dst_off, bytes, .. } => {
                    assert_eq!(bytes, 8);
                    dst_off / 4
                }
                _ => panic!("no copy"),
            };
            data[layer][at] = 100 * layer as u32 + t;
            data[layer][at + 1] = 100 * layer as u32 + t;
        }
        rb.advance_head();
    }
    assert_eq!((rb.head, rb.written), (1, 4));
    let block = download_hidden_block(&rb, &data, 2);
    assert_eq!(block.len(), 2 * 5 * 2);
    assert_eq!(&block[0..4], &[2, 2, 102, 102]);
    assert_eq!(&block[10..14], &[3, 3, 103, 103]);
    rb.reset();
    assert_eq!((rb.head, rb.written), (0, 0));
}

#[test]
fn snapshots_copy_both_ways() {
    let st = DeltaNetState {
        quant: StateQuant::Q8,
        layers: 2,
        matrix_bytes: 64,
        scale_elems: 4,
        conv_elems: 6,
    };
    let (snap, allocs) = DeltaNetSnapshot::new_for(&st);
    assert_eq!(allocs.len(), 6);
    let save = snap.save_from(&st);
    let back = snap.restore_to(&st);
    assert_eq!((save.len(), back.len()), (6, 6));
    for (a, b) in save.iter().zip(back.iter()) {
        match (a, b) {
            (
                Op::Copy { dst: d1, src: s1, bytes: n1, .. },
                Op::Copy { dst: d2, src: s2, bytes: n2, .. },
            ) => {
                assert!(d1 == s2 && s1 == d2 && n1 == n2);
                assert!(matches!(s1, SnapBuf::Live(_)));
            }
            _ => panic!("no copies"),
        }
    }
    assert_eq!(st.buf_bytes(StateBuf::Matrix(0)), 64);
    assert_eq!(st.buf_bytes(StateBuf::Conv(1)), 24);
}

#[test]
fn statistics_add_up() {
    let mut s = SpecStats::new(2);
    let step = |accepted: usize| SpecStepResult {
        accepted,
        bonus_token: 0,
        drafted: vec![0, 0],
        committed: vec![0; accepted + 1],
    };
    for a in [2, 0, 1, 2] {
        s.record(&step(a));
    }
    assert_eq!((s.cycles, s.accepted_tokens, s.committed_tokens), (4, 5, 9));
    assert_eq!(s.acceptance_hist, vec![1, 1, 2]);
    let of_hist: usize = s.acceptance_hist.iter().enumerate().map(|(i, n)| i * n).sum();
    assert_eq!(of_hist, s.accepted_tokens);
    assert_eq!(f32::from_bits(s.tau().bits), 1.25);
    assert_eq!(f32::from_bits(s.mean_committed().bits), 2.25);
    let none = SpecStats::new(2);
    assert_eq!(f32::from_bits(none.tau().bits), 0.0);
    assert_eq!(SpecStats::default().cycles, 0);
}

#[test]
fn smoke_tests_want_finite_logits() {
    let good = singles(&[1.0; 2000]);
    let mut bad = good.clone();
    bad[1023] = single(f32::INFINITY);
    let mut late = good.clone();
    late[1024] = single(f32::NAN);
    assert_eq!(SpecPair::smoke_test(&good, &bad), (true, false));
    assert_eq!(SpecPair::smoke_test(&late, &good), (false, true));
    assert_eq!(SpecPair::smoke_test(&good, &good), (true, true));
}

#[test]
fn defaults_of_a_slot() {
    let d = ModelSlotConfig::default();
    assert_eq!(d.max_seq, 2048);
    assert_eq!(d.kv_mode, KvMode::Q8);
    assert!(probe_text().contains("Hello world"));
}

/// A model whose recurrent state is the sum of what it was fed, and whose logits also
/// depend on the cache before the position.
#[derive(Clone)]
struct Toy {
    state: u32,
    cache: Vec<u32>,
    logits: Vec<F32>,
    skew: u32,
}

impl Toy {
    fn new(skew: u32) -> Self {
        Toy { state: 3, cache: vec![0; 64], logits: peak(1), skew }
    }

    fn feed(&mut self, token: u32, pos: usize) {
        let seen: u32 = self.cache[..pos].iter().sum();
        self.state = self.state * 5 + token;
        self.cache[pos] = token + 1;
        let drift = if pos % 3 == 2 { self.skew } else { 0 };
        self.logits = peak(((self.state + seen + drift) % 8) as usize);
    }

    fn decode(&mut self, pos: usize, n: usize) -> Vec<u32> {
        let mut out = Vec::new();
        for i in 0..n {
            let t = argmax_u32(&self.logits);
            out.push(t);
            self.feed(t, pos + i);
        }
        out
    }
}

#[test]
fn a_step_commits_what_the_target_decodes() {
    let (mut target, mut draft) = (Toy::new(0), Toy::new(1));
    let mut accepted = Vec::new();
    let mut pos = 4;
    for _ in 0..6 {
        let (alone, fed) = (target.clone(), draft.clone());
        let mut saved = (0, 0);
        let mut step = spec_step_greedy(pos, 3);
        loop {
            let logits = match step.next_action() {
                StepAction::Finish => break,
                StepAction::Save => {
                    saved = (target.state, draft.state);
                    Vec::new()
                }
                StepAction::Restore => {
                    target.state = saved.0;
                    draft.state = saved.1;
                    Vec::new()
                }
                StepAction::FetchTarget => target.logits.clone(),
                StepAction::FetchDraft => draft.logits.clone(),
                StepAction::DraftForward { token, pos } => {
                    draft.feed(token, pos);
                    Vec::new()
                }
                StepAction::TargetForward { token, pos } => {
                    target.feed(token, pos);
                    Vec::new()
                }
            };
            step.advance(logits);
        }
        let r = step.finish().unwrap();
        accepted.push(r.accepted);
        let n = r.committed.len();
        let mut own = alone.clone();
        assert_eq!(r.committed, own.decode(pos, n));
        let mut other = fed.clone();
        for i in 0..n {
            other.feed(r.committed[i], pos + i);
        }
        for (a, b) in [(&target, &own), (&draft, &other)] {
            assert_eq!(a.state, b.state);
            assert_eq!(a.cache[..pos + n], b.cache[..pos + n]);
            assert_eq!(argmax_u32(&a.logits), argmax_u32(&b.logits));
        }
        pos += n;
    }
    assert!(accepted.iter().any(|&n| n < 3) && accepted.iter().any(|&n| n > 0));
}
