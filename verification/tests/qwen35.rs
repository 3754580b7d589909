//! The hybrid text model.

use hipfire::device::{KvForm, Op, StateQuant};
use hipfire::float::F32;
use hipfire::hfq::{ConfigError, HfqFile};
use hipfire::quant::{DType, EmbeddingFormat, TensorError, Upload, WeightInfo};
use hipfire::qwen35::{
    checked_config_from_hfq, config_from_hfq, count_layers, forward, forward_gpu,
    forward_scratch, forward_scratch_embed, forward_with_embedding, inverse_root_of,
    load_embeddings, load_weight_tensor_raw, load_weights, lookup_names, output_names, tied_output, DeltaNetLayerWeights, DeltaNetState,
    FullAttnLayerWeights, KvCache, LayerType, LayerWeights, Qwen35Config, Qwen35Scratch,
    Qwen35Weights,
};
use hipfire::speculative::{ModelSlot, ModelSlotConfig, SpecPair};

const METADATA: &str = r#"{"config": {"text_config": {
    "hidden_size": 64, "num_hidden_layers": 4, "vocab_size": 100,
    "num_attention_heads": 4, "num_key_value_heads": 2, "head_dim": 16,
    "intermediate_size": 128, "rms_norm_eps": 1e-6, "eos_token_id": 99,
    "rope_parameters": {"rope_theta": 10000000.0, "partial_rotary_factor": 0.25},
    "linear_num_key_heads": 2, "linear_num_value_heads": 4,
    "linear_key_head_dim": 8, "linear_value_head_dim": 8, "linear_conv_kernel_dim": 4,
    "layer_types": ["linear_attention", "linear_attention", "linear_attention", "full_attention"]
}}}"#;

fn file(text: &str) -> HfqFile {
    HfqFile { metadata_json: text.to_string() }
}

fn config() -> Qwen35Config {
    config_from_hfq(&file(METADATA)).unwrap()
}

fn info(m: usize, k: usize) -> WeightInfo {
    WeightInfo { dtype: DType::HFQ4G256, m, k }
}

fn weights(c: &Qwen35Config) -> Qwen35Weights {
    let kd = c.linear_num_key_heads * c.linear_key_head_dim;
    let vd = c.linear_num_value_heads * c.linear_value_head_dim;
    let q = c.n_heads * c.head_dim;
    let kv = c.n_kv_heads * c.head_dim;
    let layers = c
        .layer_types
        .iter()
        .map(|t| match t {
            LayerType::LinearAttention => LayerWeights::DeltaNet(DeltaNetLayerWeights {
                wqkv: info(2 * kd + vd, c.dim),
                wz: info(vd, c.dim),
                w_alpha: info(c.linear_num_value_heads, c.dim),
                w_beta: info(c.linear_num_value_heads, c.dim),
                wo: info(c.dim, vd),
                w_gate: info(c.hidden_dim, c.dim),
                w_up: info(c.hidden_dim, c.dim),
                w_down: info(c.dim, c.hidden_dim),
            }),
            LayerType::FullAttention => LayerWeights::FullAttn(FullAttnLayerWeights {
                wq: info(2 * q, c.dim),
                wk: info(kv, c.dim),
                wv: info(kv, c.dim),
                wo: info(c.dim, q),
                w_gate: info(c.hidden_dim, c.dim),
                w_up: info(c.hidden_dim, c.dim),
                w_down: info(c.dim, c.hidden_dim),
            }),
        })
        .collect();
    Qwen35Weights {
        embd_format: EmbeddingFormat::Q8_0,
        output: info(c.vocab_size, c.dim),
        layers,
    }
}

fn cache() -> KvCache {
    KvCache { quant_asym: false, quant_turbo: 0, quant_q8: true, max_seq: 128 }
}

fn is_allocation<B, W>(op: &Op<B, W>) -> bool {
    matches!(op, Op::Alloc { .. } | Op::AllocBytes { .. } | Op::Free { .. })
}

#[test]
fn qwen35_reads_its_configuration() {
    let c = config();
    assert_eq!((c.dim, c.n_layers, c.vocab_size, c.eos_token), (64, 4, 100, 99));
    assert_eq!((c.n_heads, c.n_kv_heads, c.head_dim), (4, 2, 16));
    assert_eq!(f32::from_bits(c.norm_eps.bits), 1e-6);
    assert_eq!(f32::from_bits(c.partial_rotary_factor.bits), 0.25);
    assert_eq!(count_layers(&c.layer_types, LayerType::LinearAttention), 3);
    assert_eq!(count_layers(&c.layer_types, LayerType::FullAttention), 1);
}

#[test]
fn qwen35_refuses_bad_configurations() {
    assert!(config_from_hfq(&file("[]")).is_none());
    assert!(config_from_hfq(&file("{")).is_none());
    let cut = METADATA.replace("\"hidden_size\": 64,", "");
    assert!(config_from_hfq(&file(&cut)).is_none());
    let none = METADATA
        .replace("\"num_attention_heads\": 4", "\"num_attention_heads\": 0")
        .replace("\"head_dim\": 16,", "");
    assert!(matches!(checked_config_from_hfq(&file(&none)), Err(ConfigError::ZeroHeads)));
    assert!(checked_config_from_hfq(&file(METADATA)).unwrap().is_some());
}

#[test]
fn qwen35_lists_its_tensors() {
    let c = config();
    let list = load_weights(&c);
    let names: Vec<&str> = list.iter().map(|t| t.name.as_str()).collect();
    assert!(names.iter().any(|n| n.contains("layers.0.linear_attn")));
    assert!(names.iter().any(|n| n.contains("layers.3.self_attn.q_proj")));
    assert!(!names.iter().any(|n| n.contains("layers.4.")));
    assert!(lookup_names("x").len() >= 1);
    assert!(output_names().len() >= 1);
}

#[test]
fn qwen35_decides_how_to_load() {
    let (w, up) = load_weight_tensor_raw(6, &[], 3, 4).unwrap();
    assert_eq!((w.dtype, w.m, w.k), (DType::HFQ4G256, 3, 4));
    assert!(matches!(up, Upload::Raw));
    assert!(matches!(load_weight_tensor_raw(99, &[], 3, 4), Err(TensorError::QuantType(99))));
    let (f, up) = load_embeddings(3, &[]);
    assert!(f == EmbeddingFormat::Q8_0 && matches!(up, Upload::Raw));
    let (w, _) = tied_output(3, &[], 100, 64);
    assert_eq!((w.m, w.k), (100, 64));
}

#[test]
fn linear_states_are_sized_by_form() {
    let c = config();
    let (full, ops) = DeltaNetState::new_with_quant(&c, StateQuant::FP32);
    assert_eq!(full.layers, 3);
    assert_eq!(full.matrix_bytes, 4 * 4 * 8 * 8);
    assert_eq!(ops.iter().filter(|o| is_allocation(o)).count(), 9);
    let (eight, _) = DeltaNetState::new(&c);
    assert_eq!(eight.matrix_bytes * 4, full.matrix_bytes);
    let (four, _) = DeltaNetState::new_with_quant(&c, StateQuant::Q4);
    assert_eq!(four.matrix_bytes * 2, eight.matrix_bytes);
    assert_eq!(full.free_gpu().len(), 9);
}

#[test]
fn scratch_comes_and_goes() {
    let c = config();
    let (s, ops) = Qwen35Scratch::new(&c, 32);
    assert_eq!(ops.len(), 29);
    let sizes = format!("{:?}", ops);
    assert!(sizes.contains("buf: Logits, elems: 100"));
    assert!(sizes.contains("buf: RepeatBuf, elems: 32"));
    assert_eq!(s.free_gpu().len(), 29);
}

#[test]
fn both_forward_passes_do_the_same_work() {
    let c = config();
    let w = weights(&c);
    let own: Vec<String> = forward(&c, &w, 5, 7, &cache(), StateQuant::Q8)
        .iter()
        .filter(|o| !is_allocation(o))
        .map(|o| format!("{:?}", o))
        .filter(|o| !o.starts_with("SetPos") && !o.starts_with("Embed") && !o.starts_with("Download"))
        .collect();
    let scratch: Vec<String> = forward_scratch(&c, &w, 5, 7, &cache(), StateQuant::Q8)
        .iter()
        .map(|o| format!("{:?}", o))
        .filter(|o| !o.starts_with("SetPos") && !o.starts_with("Embed"))
        .collect();
    assert!(own.len() > 40);
    assert_eq!(own, scratch);
    let all: Vec<String> = forward(&c, &w, 5, 7, &cache(), StateQuant::Q8)
        .iter()
        .filter(|o| !is_allocation(o))
        .map(|o| format!("{:?}", o))
        .collect();
    assert!(all[0].starts_with("Embed") && all[1] == "SetPos { buf: Pos, pos: 7 }");
    assert_eq!(all.len(), scratch.len() + 3);
}

#[test]
fn scratch_passes_set_the_position_first() {
    let c = config();
    let w = weights(&c);
    let ops = forward_scratch(&c, &w, 5, 7, &cache(), StateQuant::Q8);
    assert_eq!(format!("{:?}", ops[0]), "SetPos { buf: Pos, pos: 7 }");
    assert!(format!("{:?}", ops[1]).contains("token: 5"));
    assert!(format!("{:?}", ops[ops.len() - 1]).contains("Logits"));
    let given = forward_scratch_embed(&c, &w, 64, 7, &cache(), StateQuant::Q8);
    assert!(given.iter().any(|o| matches!(o, Op::Upload { elems: 64, .. })));
}

#[test]
fn caches_are_told_apart() {
    let mut k = cache();
    assert_eq!(k.kv_form(), Some(KvForm::Q8));
    k.quant_q8 = false;
    assert_eq!(k.kv_form(), Some(KvForm::F32));
    k.quant_turbo = 3;
    assert_eq!(k.kv_form(), Some(KvForm::Turbo3));
    k.quant_turbo = 5;
    assert_eq!(k.kv_form(), None);
    k.quant_asym = true;
    assert_eq!(k.kv_form(), Some(KvForm::Q8Turbo4));
}

#[test]
fn inverse_roots_are_exact_on_squares() {
    assert_eq!(f32::from_bits(inverse_root_of(16).bits), 0.25);
    assert_eq!(f32::from_bits(inverse_root_of(64).bits), 0.125);
    assert_eq!(inverse_root_of(1).bits, F32 { bits: 1.0f32.to_bits() }.bits);
}

#[test]
fn slots_hold_what_they_need() {
    let c = config();
    let w = weights(&c);
    let (slot, allocs) = ModelSlot::load(c, w, ModelSlotConfig::default());
    assert_eq!(slot.kv.layers, 4);
    assert_eq!(slot.kv.kv_heads, 2);
    assert_eq!(allocs.scratch.len(), 29);
    assert_eq!(slot.reset_state().len(), 9);
    let ops = slot.forward(1, 0);
    assert!(format!("{:?}", ops).contains("form: Q8"));
}

fn texts<B: std::fmt::Debug, W: std::fmt::Debug>(ops: &[Op<B, W>]) -> Vec<String> {
    ops.iter().map(|o| format!("{:?}", o)).collect()
}

#[test]
fn logits_can_stay_on_the_device() {
    let c = config();
    let w = weights(&c);
    let host = texts(&forward(&c, &w, 5, 7, &cache(), StateQuant::Q8));
    let device = texts(&forward_gpu(&c, &w, 5, 7, &cache(), StateQuant::Q8));
    assert!(host.iter().any(|o| o == "Download { buf: Logits }"));
    assert!(host.iter().any(|o| o == "Free { buf: Logits }"));
    assert!(!device.iter().any(|o| o == "Download { buf: Logits }"));
    assert!(!device.iter().any(|o| o == "Free { buf: Logits }"));
}

#[test]
fn a_given_embedding_takes_the_place_of_a_lookup() {
    let c = config();
    let w = weights(&c);
    let looked_up = texts(&forward(&c, &w, 5, 7, &cache(), StateQuant::Q8));
    let given = texts(&forward_with_embedding(&c, &w, 7, &cache(), StateQuant::Q8));
    assert_eq!(given[0], "Alloc { buf: X, elems: 64 }");
    assert_eq!(given[1], "Upload { buf: X, elems: 64 }");
    let at = looked_up.iter().position(|o| o.starts_with("Embed")).unwrap();
    assert_eq!(looked_up[at + 1..], given[2..]);
}

#[test]
fn smoke_tests_make_eight_passes() {
    let c = config();
    let w = weights(&c);
    let (target, _) = ModelSlot::load(config(), weights(&c), ModelSlotConfig::default());
    let (draft, _) = ModelSlot::load(c, w, ModelSlotConfig::default());
    let one = target.forward(0, 0).len();
    let pair = SpecPair { target, draft };
    assert!(pair.target.is_ready() && pair.draft.is_ready());
    let plan = pair.smoke_passes();
    let passes = plan.target.iter().filter(|o| matches!(o, Op::SetPos { .. })).count();
    assert_eq!(passes, 8);
    assert!(plan.target.len() >= 8 * one);
    assert_eq!(texts(&plan.target), texts(&plan.draft));
    // Matrix, scales and convolution of three layers, all zeroed.
    assert_eq!(plan.reset_target.len(), 9);
    assert!(plan.reset_draft.iter().all(|o| matches!(o, Op::Zero { .. })));
    assert_eq!(texts(&plan.reset_target), texts(&pair.target.reset_state()));
}

#[test]
fn slots_tell_when_they_are_not_ready() {
    let c = config();
    let make = |w: Qwen35Weights| ModelSlot::load(config(), w, ModelSlotConfig::default()).0;
    assert!(make(weights(&c)).is_ready());
    let mut short = weights(&c);
    short.layers.pop();
    assert!(!make(short).is_ready());
    let mut swapped = weights(&c);
    swapped.layers.swap(0, 3);
    assert!(!make(swapped).is_ready());
    let mut other = weights(&c);
    other.embd_format = EmbeddingFormat::Q4K;
    assert!(!make(other).is_ready());
    let mut huge = make(weights(&c));
    huge.config.head_dim = usize::MAX / 2;
    assert!(!huge.is_ready());
    let mut bare = make(weights(&c));
    bare.config.linear_num_key_heads = 0;
    assert!(!bare.is_ready());
}
