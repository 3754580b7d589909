//! The model with sliding and full attention.

use hipfire::device::{CacheKind, KvForm, Op};
use hipfire::float::F32;
use hipfire::gemma4::{
    apply_moe_branch, apply_moe_branch_batched, build_pool, checked_config_from_hfq, choose_mode,
    config_from_hfq, forward_prefill_batch, forward_prefill_batch_v1, forward_scratch,
    forward_scratch_inner, graph_override, init_scratch_constants, load_embeddings, load_f32_vec,
    load_gemma4_weight, load_weights, max_kv_seq, route_on_host, tied_lm_head, Caches, Flags,
    ForwardError, FullLayerWeights, Gemma4Buf, Gemma4Config, Gemma4Scratch, Gemma4Weights,
    Gemma4Wt, GemmaOp, GraphState, KvCache, LayerCommon, LayerPart, LayerType, LayerWeights,
    MoeLayerExtras, PassMode, PoolError, RopeType, SlidingLayerWeights, MAX_PREFILL_BATCH,
};
use hipfire::hfq::{ConfigError, HfqFile};
use hipfire::names::LoadKind;
use hipfire::quant::{DType, EmbeddingFormat, TensorError, Upload, WeightInfo};

const METADATA: &str = r#"{"config": {"vision_config": {"x": 1}, "image_token_id": 7,
    "text_config": {
    "hidden_size": 64, "num_hidden_layers": 3, "vocab_size": 100, "intermediate_size": 96,
    "num_attention_heads": 4, "num_key_value_heads": 2, "head_dim": 16, "global_head_dim": 32,
    "num_global_key_value_heads": 1, "sliding_window": 64, "final_logit_softcapping": 30.0,
    "rope_parameters": {
        "sliding_attention": {"rope_theta": 10000.0},
        "full_attention": {"rope_theta": 1000000.0, "rope_type": "proportional",
            "partial_rotary_factor": 0.25}
    },
    "layer_types": ["sliding_attention", "full_attention", "sliding_attention"]
}}}"#;

fn file(text: &str) -> HfqFile {
    HfqFile { metadata_json: text.to_string() }
}

fn config() -> Gemma4Config {
    config_from_hfq(&file(METADATA)).unwrap()
}

fn expert_config() -> Gemma4Config {
    let mut c = config();
    c.enable_moe_block = true;
    c.num_experts = 16;
    c.top_k_experts = 8;
    c.moe_intermediate_size = 24;
    c
}

fn info(m: usize, k: usize) -> WeightInfo {
    WeightInfo { dtype: DType::HFQ4G256, m, k }
}

fn experts(c: &Gemma4Config, gate_up: DType, down: DType) -> MoeLayerExtras {
    let mi = c.moe_intermediate_size;
    MoeLayerExtras {
        router_proj: info(c.num_experts, c.dim),
        gate_up: WeightInfo { dtype: gate_up, m: 2 * mi, k: c.dim },
        down: WeightInfo { dtype: down, m: c.dim, k: mi },
    }
}

fn weights(c: &Gemma4Config, moe: Option<MoeLayerExtras>) -> Gemma4Weights {
    let layers = c
        .layer_types
        .iter()
        .map(|t| {
            let (hd, nk) = match t {
                LayerType::Sliding => (c.sliding_head_dim, c.sliding_n_kv_heads),
                LayerType::Full => (c.full_head_dim, c.full_n_kv_heads),
            };
            let common = LayerCommon {
                layer_scalar_host: F32 { bits: 0.5f32.to_bits() },
                q_proj: info(c.n_heads * hd, c.dim),
                k_proj: info(nk * hd, c.dim),
                o_proj: info(c.dim, c.n_heads * hd),
                gate_proj: info(c.hidden_dim, c.dim),
                up_proj: info(c.hidden_dim, c.dim),
                down_proj: info(c.dim, c.hidden_dim),
                moe,
            };
            match t {
                LayerType::Sliding => LayerWeights::Sliding(SlidingLayerWeights {
                    common,
                    v_proj: info(nk * hd, c.dim),
                }),
                LayerType::Full => LayerWeights::Full(FullLayerWeights { common }),
            }
        })
        .collect();
    Gemma4Weights {
        embd_format: EmbeddingFormat::Q8_0,
        lm_head: tied_lm_head(EmbeddingFormat::Q8_0, c),
        layers,
    }
}

fn cache(form: KvForm) -> KvCache {
    KvCache {
        quant_asym3: form == KvForm::Asym3,
        quant_asym4: form == KvForm::Asym4,
        quant_asym2: form == KvForm::Asym2,
        quant_q8: form == KvForm::Q8,
        has_givens: true,
        max_seq: 256,
        compact_offset: 0,
    }
}

fn caches(form: KvForm) -> Caches {
    Caches { sliding: cache(form), full: cache(form) }
}

fn flags() -> Flags {
    Flags { moe_bypass: false, moe_bucketed: false }
}

fn text(ops: &[GemmaOp]) -> Vec<String> {
    ops.iter().map(|o| format!("{:?}", o)).collect()
}

fn fresh() -> GraphState {
    GraphState { recorded: false, warmed_up: false, has_stream: false }
}

#[test]
fn gemma4_reads_its_configuration() {
    let c = config();
    assert_eq!((c.dim, c.n_layers, c.vocab_size, c.hidden_dim), (64, 3, 100, 96));
    assert_eq!((c.sliding_head_dim, c.sliding_n_kv_heads), (16, 2));
    assert_eq!((c.full_head_dim, c.full_n_kv_heads), (32, 1));
    assert_eq!(c.full_rope_type, RopeType::Proportional);
    assert_eq!(c.layer_types, vec![LayerType::Sliding, LayerType::Full, LayerType::Sliding]);
    assert_eq!((c.bos_token, c.eos_token, c.pad_token), (2, 1, 0));
    assert_eq!(f32::from_bits(c.embed_scale.bits), 8.0);
    assert_eq!(f32::from_bits(c.final_logit_softcapping.bits), 30.0);
    assert!(c.has_vision && c.tie_word_embeddings && !c.enable_moe_block);
    assert_eq!((c.image_token_id, c.boi_token_id, c.video_token_id), (7, 255999, 258884));
}

#[test]
fn gemma4_fills_in_defaults() {
    let c = config_from_hfq(&file(
        r#"{"config": {"hidden_size": 64, "num_hidden_layers": 2, "vocab_size": 9,
            "num_attention_heads": 4, "intermediate_size": 8, "vision_config": null}}"#,
    ))
    .unwrap();
    assert_eq!((c.sliding_head_dim, c.full_head_dim), (16, 16));
    assert_eq!((c.sliding_n_kv_heads, c.full_n_kv_heads, c.sliding_window), (4, 4, 1024));
    assert_eq!(c.layer_types, vec![LayerType::Sliding; 2]);
    assert_eq!(c.full_rope_type, RopeType::Default);
    assert_eq!(f32::from_bits(c.full_partial_rotary_factor.bits), 1.0);
    assert!(!c.has_vision);
}

#[test]
fn gemma4_refuses_bad_configurations() {
    assert!(config_from_hfq(&file("7")).is_none());
    let cut = METADATA.replace("\"intermediate_size\": 96,", "");
    assert!(config_from_hfq(&file(&cut)).is_none());
    let none = METADATA.replace("\"num_attention_heads\": 4", "\"num_attention_heads\": 0");
    assert!(matches!(checked_config_from_hfq(&file(&none)), Err(ConfigError::ZeroHeads)));
}

#[test]
fn gemma4_checks_tensors() {
    let one = 1.0f32.to_le_bytes();
    assert_eq!(load_f32_vec(2, &vec![1, 1], &one, 1).unwrap()[0].bits, 1.0f32.to_bits());
    assert!(matches!(
        load_f32_vec(2, &vec![2, 3], &one, 5),
        Err(TensorError::Shape { expected: 5, got: 6 })
    ));
    assert!(matches!(load_f32_vec(6, &vec![1], &one, 1), Err(TensorError::QuantType(6))));
    let (w, up) = load_gemma4_weight(13, &[], 3, 4).unwrap();
    assert!(w.dtype == DType::MQ4G256 && matches!(up, Upload::Raw));
    let (w, up) = load_gemma4_weight(1, &[0, 0x3c], 1, 1).unwrap();
    assert!(w.dtype == DType::F32 && matches!(up, Upload::Singles(_)));
    assert!(load_gemma4_weight(2, &[], 1, 1).is_err());
    assert_eq!(load_embeddings(7, &[]).unwrap().0, EmbeddingFormat::HFQ4G128);
    assert!(load_embeddings(13, &[]).is_err());
}

#[test]
fn experts_are_pooled_when_alike() {
    let pool = build_pool(&vec![13, 13], &vec![vec![1, 2], vec![3, 4]]).unwrap();
    assert_eq!((pool.dtype, pool.bytes_per_expert), (DType::MQ4G256, 2));
    assert_eq!(pool.bytes, vec![1, 2, 3, 4]);
    assert_eq!(&pool.bytes[2..4], &[3, 4]);
    assert!(matches!(build_pool(&vec![1], &vec![vec![]]), Err(PoolError::QuantType(1))));
    assert!(matches!(
        build_pool(&vec![13, 13], &vec![vec![1], vec![]]),
        Err(PoolError::Size { expert: 1, got: 0, expected: 1 })
    ));
    assert!(matches!(
        build_pool(&vec![13, 6], &vec![vec![1], vec![2]]),
        Err(PoolError::Mixed { expert: 1, got: 6, expected: 13 })
    ));
}

#[test]
fn gemma4_lists_its_tensors() {
    let list = load_weights(&config());
    assert_eq!(list.len(), 2 + 14 + 13 + 14);
    assert_eq!(list[0].name, "model.language_model.embed_tokens.weight");
    assert_eq!(list[1].name, "model.language_model.norm.weight");
    assert_eq!(list[2].name, "model.language_model.layers.0.layer_scalar");
    let names: Vec<&str> = list.iter().map(|t| t.name.as_str()).collect();
    assert!(names.contains(&"model.language_model.layers.0.self_attn.v_proj.weight"));
    assert!(!names.contains(&"model.language_model.layers.1.self_attn.v_proj.weight"));
    let list = load_weights(&expert_config());
    let pooled: Vec<&str> =
        list.iter().filter(|t| matches!(t.kind, LoadKind::Pooled { .. })).map(|t| t.name.as_str()).collect();
    assert_eq!(pooled.len(), 3 * 2 * 16);
    assert_eq!(pooled[0], "model.language_model.layers.0.experts.0.gate_up_proj.weight");
    assert_eq!(pooled[31], "model.language_model.layers.0.experts.15.down_proj.weight");
}

#[test]
fn gemma4_scratch_comes_and_goes() {
    assert_eq!(max_kv_seq(None), 32768);
    assert_eq!(max_kv_seq(Some(127)), 32768);
    assert_eq!(max_kv_seq(Some(128)), 128);
    assert_eq!(max_kv_seq(Some(524_289)), 32768);
    let c = config();
    let (s, ops) = Gemma4Scratch::new(&c, Some(300));
    assert_eq!((s.kv_seq, s.max_prefill_batch), (300, MAX_PREFILL_BATCH));
    let lines = text(&ops);
    // Four heads, three tiles, thirty-four numbers each.
    assert!(lines.contains(&"Alloc { buf: FlashPartials, elems: 408 }".to_string()));
    assert!(lines.contains(&"Alloc { buf: Q, elems: 128 }".to_string()));
    assert!(lines.contains(&"Alloc { buf: K, elems: 32 }".to_string()));
    assert!(lines.contains(&"AllocBytes { buf: Pos, bytes: 4 }".to_string()));
    let allocated = ops.iter().filter(|o| matches!(o, Op::Alloc { .. })).count();
    assert_eq!(s.free_gpu().len(), allocated);
    assert_eq!(ops.len(), 2 * allocated + 1);
    let (ones, up) = init_scratch_constants(5);
    assert!(ones.len() == 5 && ones.iter().all(|x| x.bits == 1.0f32.to_bits()));
    assert_eq!(text(&up), vec!["Upload { buf: VNormOnes, elems: 5 }"]);
}

#[test]
fn gemma4_weights_are_given_back_once() {
    let c = expert_config();
    let w = weights(&c, Some(experts(&c, DType::MQ4G256, DType::Q8_0)));
    let lines = text(&w.free_gpu());
    assert_eq!(lines.len(), 2 + 24 + 23 + 24);
    let mut unique = lines.clone();
    unique.sort();
    unique.dedup();
    assert_eq!(unique.len(), lines.len());
    assert!(!lines.iter().any(|l| l.contains("Expert(") || l.contains("LmHead")));
}

#[test]
fn sliding_layers_attend_in_a_window() {
    let c = config();
    let w = weights(&c, None);
    for (form, capacity) in [(KvForm::Asym3, 64), (KvForm::Q8, 0)] {
        let kv = Caches { sliding: cache(form), full: cache(KvForm::Asym3) };
        let ops = forward_scratch_inner(&c, &w, 9, &kv, false).unwrap();
        let attends: Vec<&GemmaOp> =
            ops.iter().filter(|o| matches!(o, Op::Attend { .. })).collect();
        assert_eq!(attends.len(), 3);
        match attends[0] {
            Op::Attend { cache, seq_len, window, capacity: cap, layer, dim, .. } => {
                assert_eq!(*cache, CacheKind::Sliding);
                assert_eq!((*seq_len, *window, *cap, *layer, *dim), (10, 64, capacity, 0, 16));
            }
            _ => {}
        }
        match attends[1] {
            Op::Attend { cache, window, layer, dim, heads, .. } => {
                assert_eq!(*cache, CacheKind::Full);
                assert_eq!((*window, *layer, *dim, *heads), (0, 0, 32, 4));
            }
            _ => {}
        }
        match attends[2] {
            Op::Attend { layer, .. } => assert_eq!(*layer, 1),
            _ => {}
        }
    }
}

#[test]
fn full_layers_take_values_from_keys() {
    let c = config();
    let w = weights(&c, None);
    let ops = text(&forward_scratch_inner(&c, &w, 0, &caches(KvForm::Asym3), false).unwrap());
    let copy = "Copy { dst: V, dst_off: 0, src: K, src_off: 0, bytes: 128 }".to_string();
    let at = ops.iter().position(|o| *o == copy).unwrap();
    let norm = ops
        .iter()
        .position(|o| o.starts_with("RmsNormRows { x: K, w: Layer(1, KNorm)"))
        .unwrap();
    assert!(at < norm);
    assert!(!ops.iter().any(|o| o.contains("Layer(1, VProj)")));
    // A quarter of sixteen pairs.
    assert!(ops.iter().any(|o| o.contains("RopeHalved") && o.contains("pairs: 4,")));
}

#[test]
fn passes_end_with_capped_logits() {
    let mut c = config();
    let w = weights(&c, None);
    let ops = text(&forward_scratch_inner(&c, &w, 0, &caches(KvForm::Asym3), false).unwrap());
    assert!(ops[ops.len() - 1].starts_with("Softcap { x: Logits, n: 100"));
    c.final_logit_softcapping = F32 { bits: 0 };
    let ops = text(&forward_scratch_inner(&c, &w, 0, &caches(KvForm::Asym3), false).unwrap());
    assert!(ops[ops.len() - 1].starts_with("Gemv { w: LmHead"));
}

#[test]
fn unsuitable_caches_are_refused() {
    let c = config();
    let w = weights(&c, None);
    let plan = |s: KvForm, f: KvForm| {
        forward_scratch_inner(&c, &w, 0, &Caches { sliding: cache(s), full: cache(f) }, false)
    };
    assert!(matches!(plan(KvForm::F32, KvForm::Asym3), Err(ForwardError::NoWindow)));
    assert!(matches!(
        plan(KvForm::Asym4, KvForm::Asym4),
        Err(ForwardError::NoFullKernel { form: KvForm::Asym4 })
    ));
    assert!(matches!(
        plan(KvForm::Asym2, KvForm::Q8),
        Err(ForwardError::NoFullKernel { form: KvForm::Q8 })
    ));
    assert!(plan(KvForm::Asym2, KvForm::F32).is_ok());
    let mut swapped = weights(&c, None);
    swapped.layers.swap(0, 1);
    let r = forward_scratch_inner(&c, &swapped, 0, &caches(KvForm::Asym3), false);
    assert!(matches!(r, Err(ForwardError::Mismatch { layer: 0 })));
    let mut other = weights(&c, None);
    other.embd_format = EmbeddingFormat::Q4K;
    let r = forward_scratch(&c, &other, 1, 0, &caches(KvForm::Asym3), None, false, &mut fresh());
    assert!(matches!(r, Err(ForwardError::EmbedFormat)));
}

#[test]
fn experts_run_on_the_device_or_the_host() {
    let c = expert_config();
    for down in [DType::Q8_0, DType::HFQ4G128] {
        let ops = text(&apply_moe_branch(&c, &experts(&c, DType::MQ4G256, down), 2).unwrap());
        assert_eq!(ops.len(), 15);
        let kernel = format!("dtype: {:?}", down);
        assert!(ops.iter().any(|o| o.starts_with("ExpertsDown") && o.contains(&kernel)));
    }
    let m = experts(&c, DType::HFQ4G256, DType::Q8_0);
    let ops = text(&apply_moe_branch(&c, &m, 2).unwrap());
    assert!(ops[6].starts_with("RouteOnHost"));
    assert!(ops[ops.len() - 1].contains("w: Layer(2, PostFfnNorm)"));
    let mut few = expert_config();
    few.top_k_experts = 4;
    assert!(matches!(apply_moe_branch(&few, &m, 2), Err(ForwardError::TopK { top_k: 4 })));
}

#[test]
fn the_host_weighs_each_expert() {
    let c = expert_config();
    let m = experts(&c, DType::HFQ4G256, DType::Q8_0);
    let f = |x: f32| F32 { bits: x.to_bits() };
    let indices = vec![3, 0, 15, 1, 2, 4, 5, 6];
    let router = vec![f(0.5); 8];
    let scales: Vec<F32> = (0..16).map(|i| f(i as f32)).collect();
    let ops = route_on_host(&c, &m, 1, &indices, &router, &scales).unwrap();
    assert_eq!(ops.len(), 1 + 8 * 5);
    assert!(matches!(ops[0], Op::Zero { buf: Gemma4Buf::MoeCurMoe, bytes: 256 }));
    match ops[5] {
        Op::ScaledAddTo { by, .. } => assert_eq!(f32::from_bits(by.bits), 1.5),
        _ => panic!("no sum"),
    }
    let mut wrong = indices.clone();
    wrong[4] = 16;
    assert!(matches!(
        route_on_host(&c, &m, 1, &wrong, &router, &scales),
        Err(ForwardError::NoSuchExpert { index: 16, experts: 16 })
    ));
    wrong[4] = -1;
    assert!(route_on_host(&c, &m, 1, &wrong, &router, &scales).is_err());
}

#[test]
fn batches_take_experts_at_once_or_one_by_one() {
    let c = expert_config();
    let m = experts(&c, DType::MQ4G256, DType::HFQ4G128);
    let all = text(&apply_moe_branch_batched(&c, &m, 0, 5, false).unwrap());
    assert_eq!(all.len(), 15);
    assert!(all.iter().any(|o| o.contains("ExpertsGateUp") && o.contains("Indexed")));
    let sorted = text(&apply_moe_branch_batched(&c, &m, 0, 5, true).unwrap());
    assert_eq!(sorted.len(), 16);
    assert!(sorted[6].starts_with("RouteBuckets"));
    // There is no batched kernel for eight-bit projections down.
    let m = experts(&c, DType::MQ4G256, DType::Q8_0);
    let eight = text(&apply_moe_branch_batched(&c, &m, 0, 5, false).unwrap());
    let one = text(&apply_moe_branch(&c, &m, 0).unwrap());
    assert_eq!(eight.len(), 5 * (2 + one.len() + 1));
    assert_eq!(eight[2..2 + one.len()], one[..]);
    let m = experts(&c, DType::HFQ4G256, DType::HFQ4G256);
    let single = text(&apply_moe_branch_batched(&c, &m, 0, 5, false).unwrap());
    assert_eq!(single.iter().filter(|o| o.starts_with("RouteOnHost")).count(), 5);
    assert!(single.contains(&"Copy { dst: PbMoePre2, dst_off: 1024, src: Tmp, src_off: 0, bytes: 256 }".to_string()));
}

#[test]
fn experts_can_be_left_out() {
    let c = expert_config();
    let w = weights(&c, Some(experts(&c, DType::MQ4G256, DType::Q8_0)));
    let with = text(&forward_scratch_inner(&c, &w, 0, &caches(KvForm::Asym3), false).unwrap());
    let without = text(&forward_scratch_inner(&c, &w, 0, &caches(KvForm::Asym3), true).unwrap());
    assert!(with.iter().any(|o| o.starts_with("RouteTop8")));
    assert!(!without.iter().any(|o| o.starts_with("RouteTop8")));
}

#[test]
fn prefill_fills_every_cache_and_no_logits() {
    let c = config();
    let w = weights(&c, None);
    let (s, _) = Gemma4Scratch::new(&c, None);
    let tokens = vec![4, 5, 6];
    let ops =
        forward_prefill_batch(&c, &w, &tokens, 20, &caches(KvForm::Asym3), &flags(), &s).unwrap();
    let lines = text(&ops);
    assert_eq!(lines[0], "SetPositions { buf: PbPositions, start: 20, n: 3 }");
    assert!(!lines.iter().any(|o| o.contains("Logits")));
    let stores: Vec<(usize, usize, usize, usize)> = ops
        .iter()
        .filter_map(|o| match o {
            Op::KvStoreRows { layer, dim, rows, capacity, .. } => {
                Some((*layer, *dim, *rows, *capacity))
            }
            _ => None,
        })
        .collect();
    assert_eq!(stores, vec![(0, 16, 3, 64), (0, 32, 3, 0), (1, 16, 3, 64)]);
    // Full heads are rotated one row at a time.
    assert_eq!(lines.iter().filter(|o| o.starts_with("RopeHalved")).count(), 3);
    assert!(lines.iter().any(|o| *o == "SetPos { buf: Pos, pos: 22 }"));
}

#[test]
fn prefill_has_limits() {
    let c = config();
    let w = weights(&c, None);
    let (s, _) = Gemma4Scratch::new(&c, None);
    let kv = caches(KvForm::Asym3);
    assert_eq!(forward_prefill_batch(&c, &w, &[], 0, &kv, &flags(), &s).unwrap().len(), 0);
    let mut bare = kv;
    bare.full.has_givens = false;
    assert_eq!(forward_prefill_batch(&c, &w, &[], 0, &bare, &flags(), &s).unwrap().len(), 0);
    let many = vec![1u32; 129];
    assert!(matches!(
        forward_prefill_batch(&c, &w, &many, 0, &bare, &flags(), &s),
        Err(ForwardError::TooLong { n: 129, most: 128 })
    ));
    assert!(forward_prefill_batch_v1(&c, &w, &many, 0, &kv, false, &s).is_err());
    assert!(forward_prefill_batch(&c, &w, &many[..128], 0, &kv, &flags(), &s).is_ok());
}

#[test]
fn stepwise_prefill_stores_each_token() {
    let c = config();
    let w = weights(&c, None);
    let (s, _) = Gemma4Scratch::new(&c, None);
    let ops =
        forward_prefill_batch_v1(&c, &w, &[4, 5], 20, &caches(KvForm::Asym3), false, &s).unwrap();
    let lines = text(&ops);
    assert_eq!(lines.iter().filter(|o| o.starts_with("KvStorePair")).count(), 2 * 3);
    assert!(!lines.iter().any(|o| o.contains("Logits")));
    // Every token ends each layer with its own norm, sum and scale.
    assert_eq!(lines.iter().filter(|o| o.contains("PostFfnNorm)")).count(), 2 * 3);
    assert_eq!(lines.iter().filter(|o| o.starts_with("SetPos {")).count(), 2 * 3);
}

#[test]
fn recording_waits_for_a_warm_up() {
    let c = config();
    let w = weights(&c, None);
    let kv = caches(KvForm::Asym3);
    let on = graph_override(Some(&"1".to_string()));
    assert_eq!(on, Some(true));
    assert_eq!(graph_override(Some(&"0".to_string())), Some(false));
    assert_eq!(graph_override(Some(&"yes".to_string())), None);
    assert_eq!(graph_override(None), None);
    let mut g = fresh();
    let pass = |g: &mut GraphState| forward_scratch(&c, &w, 3, 5, &kv, on, false, g).unwrap();
    let first = pass(&mut g);
    assert_eq!(first.mode, PassMode::WarmUp);
    assert_eq!(text(&first.embed).len(), 2);
    assert_eq!(pass(&mut g).mode, PassMode::Record { make_stream: true });
    let third = pass(&mut g);
    assert_eq!(third.mode, PassMode::Replay);
    assert!(third.body.is_empty() && third.pos == 5);
    let mut moved = kv;
    moved.full.compact_offset = 4;
    assert_eq!(choose_mode(on, &moved, &g), PassMode::Direct);
    assert_eq!(choose_mode(None, &kv, &g), PassMode::Direct);
}

#[test]
fn weights_have_names() {
    assert!(Gemma4Wt::Layer(0, LayerPart::QProj) != Gemma4Wt::Layer(1, LayerPart::QProj));
    assert!(Gemma4Wt::EmbedTokens != Gemma4Wt::LmHead);
}

#[test]
fn sizes_beyond_memory_are_found() {
    assert!(config().is_addressable() && expert_config().is_addressable());
    let mut wide = config();
    wide.dim = usize::MAX / 100;
    assert!(!wide.is_addressable());
    let mut heads = config();
    heads.n_heads = usize::MAX / 32;
    assert!(!heads.is_addressable());
    let mut many = expert_config();
    many.moe_intermediate_size = usize::MAX / 64;
    assert!(!many.is_addressable());
}
