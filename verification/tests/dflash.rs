//! The draft model.

use hipfire::dflash::{
    draft_forward, gemm_dispatch, hfq_weight, DflashBuf, DflashConfig, DflashLayerWeights,
    DflashScratch, DflashWeights, DflashWt,
};
use hipfire::device::Op;
use hipfire::hfq::{ConfigError, HfqFile};
use hipfire::quant::{DType, TensorError, Upload, WeightInfo};

const METADATA: &str = r#"{"dflash": {
    "num_hidden_layers": 2, "hidden_size": 16, "intermediate_size": 32,
    "num_attention_heads": 4, "num_key_value_heads": 2, "head_dim": 8, "vocab_size": 50,
    "rms_norm_eps": 1e-6, "rope_theta": 10000000.0, "block_size": 4, "mask_token_id": 49,
    "target_layer_ids": [1, 3], "num_target_layers": 6
}}"#;

fn config() -> DflashConfig {
    DflashConfig {
        n_layers: 2,
        hidden: 16,
        intermediate: 32,
        n_heads: 4,
        n_kv_heads: 2,
        head_dim: 8,
        vocab_size: 50,
        norm_eps: hipfire::float::F32 { bits: 1e-6f32.to_bits() },
        rope_theta: hipfire::float::F32 { bits: 1e7f32.to_bits() },
        block_size: 4,
        mask_token_id: 49,
        target_layer_ids: vec![1, 3],
        num_target_layers: 6,
    }
}

fn weights(dtype: DType) -> DflashWeights {
    let c = config();
    let info = |m: usize, k: usize| WeightInfo { dtype, m, k };
    let layer = DflashLayerWeights {
        wq: info(32, 16),
        wk: info(16, 16),
        wv: info(16, 16),
        wo: info(16, 32),
        w_gate: info(32, 16),
        w_up: info(32, 16),
        w_down: info(16, 32),
    };
    DflashWeights::new(info(c.hidden, 2 * c.hidden), vec![layer, layer])
}

#[test]
fn drafts_read_their_configuration() {
    let file = HfqFile { metadata_json: METADATA.to_string() };
    let c = DflashConfig::from_hfq(&file).unwrap();
    assert_eq!((c.n_layers, c.hidden, c.block_size, c.mask_token_id), (2, 16, 4, 49));
    assert_eq!(c.target_layer_ids, vec![1, 3]);
    assert_eq!((c.num_extract(), c.q_dim(), c.kv_dim()), (2, 32, 16));
    let none = METADATA.replace("\"num_attention_heads\": 4", "\"num_attention_heads\": 0").replace("\"head_dim\": 8,", "");
    let r = DflashConfig::checked_from_hfq(&HfqFile { metadata_json: none });
    assert!(matches!(r, Err(ConfigError::ZeroHeads)));
    assert!(DflashConfig::from_hfq(&HfqFile { metadata_json: "{}".to_string() }).is_none());
}

#[test]
fn drafts_load_what_they_can_multiply() {
    let (w, up) = hfq_weight(13, &[], 3, 4).unwrap();
    assert!(w.dtype == DType::MQ4G256 && matches!(up, Upload::Raw));
    let (w, up) = hfq_weight(1, &[0x00, 0x3c], 1, 1).unwrap();
    assert_eq!(w.dtype, DType::F32);
    assert!(matches!(up, Upload::Singles(v) if v[0].bits == 1.0f32.to_bits()));
    assert!(matches!(hfq_weight(77, &[], 1, 1), Err(TensorError::QuantType(77))));
    assert!(matches!(
        hfq_weight(1, &[0x00, 0x3c], 2, 1),
        Err(TensorError::Shape { expected: 2, got: 1 })
    ));
    let list = DflashWeights::load(&config());
    assert_eq!(list.len(), 3 + 2 * 11);
}

#[test]
fn draft_scratch_comes_and_goes() {
    let (s, ops) = DflashScratch::new(&config(), 4, 10);
    assert_eq!(ops.len(), 20);
    assert_eq!(s.free_gpu().len(), 20);
    let (s, ops) = DflashScratch::new_with_mq(&config(), 4, 10, true);
    assert_eq!(ops.len(), 21);
    assert!(format!("{:?}", ops).contains("buf: TargetHidden, elems: 320"));
    assert_eq!(s.free_gpu().len(), 21);
}

#[test]
fn rotated_weights_rotate_first() {
    let info = WeightInfo { dtype: DType::MQ4G256, m: 8, k: 16 };
    let ops = gemm_dispatch(info, DflashBuf::X, DflashWt::Fc, DflashBuf::Q, 3);
    assert_eq!(ops.len(), 2);
    assert!(matches!(ops[0], Op::Rotate { k: 16, rows: 3, .. }));
    let info = WeightInfo { dtype: DType::F32, m: 8, k: 16 };
    assert_eq!(gemm_dispatch(info, DflashBuf::X, DflashWt::Fc, DflashBuf::Q, 3).len(), 1);
}

#[test]
fn a_draft_pass_ends_with_a_norm() {
    let c = config();
    let (s, _) = DflashScratch::new(&c, 4, 10);
    let ops = draft_forward(&c, &weights(DType::HFQ4G256), true, true, 4, 10, &s);
    let last = format!("{:?}", ops[ops.len() - 1]);
    assert!(last.contains("RmsNormRows") && last.contains("w: Norm"));
    let attends = ops.iter().filter(|o| matches!(o, Op::CrossAttend { .. })).count();
    assert_eq!(attends, 2);
    assert_eq!(weights(DType::HFQ4G256).free_gpu().len(), 3 + 2 * 11);
    assert!(!weights(DType::HFQ4G256).has_mq);
    assert!(weights(DType::MQ4G256).has_mq);
}

#[test]
fn layers_past_the_last_are_not_run() {
    let c = config();
    let (s, _) = DflashScratch::new(&c, 4, 10);
    let plain = weights(DType::HFQ4G256);
    let odd = WeightInfo { dtype: DType::Q8_0, m: 32, k: 16 };
    let mut layers = weights(DType::HFQ4G256).layers;
    layers.push(DflashLayerWeights {
        wq: odd,
        wk: odd,
        wv: odd,
        wo: odd,
        w_gate: odd,
        w_up: odd,
        w_down: odd,
    });
    let longer = DflashWeights::new(plain.fc, layers);
    let a = draft_forward(&c, &plain, true, true, 4, 10, &s);
    let b = draft_forward(&c, &longer, true, true, 4, 10, &s);
    assert_eq!(format!("{:?}", a), format!("{:?}", b));
}
