//! Tensors out of a file, each into its place.

use hipfire::dflash::{DflashConfig, DflashWeights, DflashWt};
use hipfire::dots_ocr::{DotsVisionConfig, DotsVisionPart, DotsVisionWt};
use hipfire::float::F32;
use hipfire::gemma4::{Gemma4Config, Gemma4Wt};
use hipfire::hfq::HfqFile;
use hipfire::loading::{read_all, source_of, Fault, LoadError, StoredTensor, TensorFile};
use hipfire::names::{LoadKind, TensorSpec};
use hipfire::quant::{DType, EmbeddingFormat, Upload};
use hipfire::qwen35::{LayerWeights, Qwen35Config, Qwen35Wt};
use hipfire::qwen35_vl::{VisionConfig, VisionWt};

const QWEN: &str = r#"{"config": {"text_config": {
    "hidden_size": 64, "num_hidden_layers": 4, "vocab_size": 100,
    "num_attention_heads": 4, "num_key_value_heads": 2, "head_dim": 16,
    "intermediate_size": 128, "rms_norm_eps": 1e-6, "eos_token_id": 99,
    "rope_parameters": {"rope_theta": 10000000.0, "partial_rotary_factor": 0.25},
    "linear_num_key_heads": 2, "linear_num_value_heads": 4,
    "linear_key_head_dim": 8, "linear_value_head_dim": 8, "linear_conv_kernel_dim": 4,
    "layer_types": ["linear_attention", "linear_attention", "linear_attention", "full_attention"]
}}}"#;

const GEMMA: &str = r#"{"config": {"text_config": {
    "hidden_size": 64, "num_hidden_layers": 3, "vocab_size": 100, "intermediate_size": 96,
    "num_attention_heads": 4, "num_key_value_heads": 2, "head_dim": 16, "global_head_dim": 32,
    "num_global_key_value_heads": 1, "sliding_window": 64,
    "layer_types": ["sliding_attention", "full_attention", "sliding_attention"]
}}}"#;

const VISION: &str = r#"{"config": {"vision_config": {
    "hidden_size": 8, "num_heads": 2, "depth": 2, "intermediate_size": 16,
    "patch_size": 2, "temporal_patch_size": 2, "out_hidden_size": 12, "spatial_merge_size": 2
}}}"#;

fn file(text: &str) -> HfqFile {
    HfqFile { metadata_json: text.to_string() }
}

fn qwen() -> Qwen35Config {
    hipfire::qwen35::config_from_hfq(&file(QWEN)).unwrap()
}

fn gemma(experts: usize) -> Gemma4Config {
    let mut c = hipfire::gemma4::config_from_hfq(&file(GEMMA)).unwrap();
    if experts > 0 {
        c.enable_moe_block = true;
        c.num_experts = experts;
        c.top_k_experts = 8;
        c.moe_intermediate_size = 24;
    }
    c
}

fn draft() -> DflashConfig {
    DflashConfig {
        n_layers: 2,
        hidden: 16,
        intermediate: 32,
        n_heads: 4,
        n_kv_heads: 2,
        head_dim: 8,
        vocab_size: 50,
        norm_eps: F32 { bits: 1e-6f32.to_bits() },
        rope_theta: F32 { bits: 1e7f32.to_bits() },
        block_size: 4,
        mask_token_id: 49,
        target_layer_ids: vec![1, 3],
        num_target_layers: 6,
    }
}

fn vision() -> VisionConfig {
    hipfire::qwen35_vl::vision_config_from_hfq(&file(VISION)).unwrap()
}

fn tower() -> DotsVisionConfig {
    let mut c = DotsVisionConfig::dots_ocr_defaults();
    c.embed_dim = 4;
    c.num_hidden_layers = 2;
    c.intermediate_size = 3;
    c.patch_size = 2;
    c.out_hidden_size = 5;
    c
}

/// The place of an entry in its list.
fn numbers(j: usize, n: usize) -> Vec<u8> {
    (0..n).flat_map(|i| ((1000 * j + i) as f32).to_le_bytes()).collect()
}

/// A tensor that fits an entry.
fn stored<P>(spec: &TensorSpec<P>, j: usize) -> StoredTensor {
    let n = spec.m * spec.k;
    let (quant_type, data) = match spec.kind {
        LoadKind::Shaped
        | LoadKind::Scalar
        | LoadKind::Exact
        | LoadKind::First
        | LoadKind::ShiftedNorm
        | LoadKind::Numbers => (2, numbers(j, n)),
        LoadKind::Weight | LoadKind::Head => (6, vec![j as u8]),
        LoadKind::AnyWeight | LoadKind::DraftWeight | LoadKind::Pooled { .. } => {
            (13, vec![j as u8; 3])
        }
        LoadKind::HalfWeight | LoadKind::AsHalf | LoadKind::AsHalfWithNext => {
            (1, vec![j as u8; 2 * n])
        }
        LoadKind::Embedding | LoadKind::AnyEmbedding => (3, vec![j as u8]),
    };
    StoredTensor {
        name: spec.name.clone(),
        quant_type,
        group_size: 256,
        shape: vec![spec.m, spec.k],
        data,
    }
}

fn whole<P>(list: &[TensorSpec<P>]) -> TensorFile {
    TensorFile { tensors: list.iter().enumerate().map(|(j, s)| stored(s, j)).collect() }
}

fn singles(up: &Upload) -> Vec<f32> {
    match up {
        Upload::Singles(v) => v.iter().map(|x| f32::from_bits(x.bits)).collect(),
        _ => panic!("not sent in single precision"),
    }
}

#[test]
fn qwen35_weights_are_assembled() {
    let c = qwen();
    let list = hipfire::qwen35::load_weights(&c);
    let mut f = whole(&list);
    // One matrix of layer 2 in another type than the rest.
    let at = list.iter().position(|t| t.name.contains("layers.2.linear_attn.in_proj_z")).unwrap();
    f.tensors[at].quant_type = 3;
    let (w, loaded) = hipfire::qwen35::assemble(&c, &f).ok().unwrap();
    assert_eq!(loaded.len(), list.len());
    assert_eq!(w.embd_format, EmbeddingFormat::Q8_0);
    assert_eq!((w.output.dtype, w.output.m, w.output.k), (DType::HFQ4G256, 100, 64));
    assert_eq!(w.layers.len(), 4);
    for (i, layer) in w.layers.iter().enumerate() {
        match layer {
            LayerWeights::DeltaNet(l) => {
                assert!(i < 3);
                let z = if i == 2 { DType::Q8_0 } else { DType::HFQ4G256 };
                assert_eq!((l.wz.dtype, l.wz.m, l.wz.k), (z, 32, 64));
                assert_eq!((l.wqkv.dtype, l.wqkv.m), (DType::HFQ4G256, 64));
                assert_eq!((l.wo.m, l.wo.k, l.w_down.k), (64, 32, 128));
            }
            LayerWeights::FullAttn(l) => {
                assert_eq!(i, 3);
                assert_eq!((l.wq.m, l.wk.m, l.wv.m, l.wo.k), (128, 32, 32, 64));
            }
        }
    }
    // Norms are stored as their offset from one.
    let norm = list.iter().position(|t| t.kind == LoadKind::ShiftedNorm).unwrap();
    assert_eq!(singles(&loaded[norm].up)[0], (1000 * norm) as f32 + 1.0);
    assert!(matches!(list[0].place, Qwen35Wt::TokenEmbd));
}

#[test]
fn qwen35_finds_names_with_and_without_a_prefix() {
    let c = qwen();
    let list = hipfire::qwen35::load_weights(&c);
    let mut f = whole(&list);
    let at = list.iter().position(|t| t.kind == LoadKind::Weight).unwrap();
    let full = format!("model.language_model.{}", list[at].name);
    f.tensors[at].name = full;
    assert_eq!(source_of(&f, &list, at), Some(at));
    assert!(hipfire::qwen35::assemble(&c, &f).is_ok());
    // Without an output matrix the embedding table is used.
    let head = list.iter().position(|t| t.kind == LoadKind::Head).unwrap();
    f.tensors[head].name = "other".to_string();
    f.tensors[0].name = "model.language_model.embed_tokens.weight".to_string();
    let (w, _) = hipfire::qwen35::assemble(&c, &f).ok().unwrap();
    assert_eq!((w.output.dtype, w.output.m), (DType::Q8_0, 100));
    assert_eq!(source_of(&f, &list, head), Some(0));
}

#[test]
fn the_first_fault_is_reported() {
    let c = qwen();
    let list = hipfire::qwen35::load_weights(&c);
    let mut f = whole(&list);
    f.tensors[9].name = "other".to_string();
    f.tensors[7].quant_type = 99;
    let e = hipfire::qwen35::assemble(&c, &f).err().unwrap();
    assert_eq!(e, LoadError { at: 7, fault: Fault::QuantType(99) });
    f.tensors[7].quant_type = 6;
    let e = hipfire::qwen35::assemble(&c, &f).err().unwrap();
    assert_eq!(e, LoadError { at: 9, fault: Fault::Missing });
    assert_eq!(source_of(&f, &list, 9), None);
}

#[test]
fn gemma4_weights_are_assembled() {
    let c = gemma(0);
    let list = hipfire::gemma4::load_weights(&c);
    let mut f = whole(&list);
    let q = list.iter().position(|t| t.name.contains("layers.1.self_attn.q_proj")).unwrap();
    f.tensors[q].quant_type = 6;
    let (w, loaded) = hipfire::gemma4::assemble(&c, &f).ok().unwrap();
    assert_eq!(w.embd_format, EmbeddingFormat::Q8_0);
    assert_eq!((w.lm_head.dtype, w.lm_head.m, w.lm_head.k), (DType::Q8_0, 100, 64));
    assert_eq!(w.layers.len(), 3);
    for (i, layer) in w.layers.iter().enumerate() {
        let common = match layer {
            hipfire::gemma4::LayerWeights::Sliding(l) => {
                assert_eq!((l.v_proj.m, l.v_proj.k), (32, 64));
                &l.common
            }
            hipfire::gemma4::LayerWeights::Full(l) => &l.common,
        };
        let heads = if i == 1 { 4 * 32 } else { 4 * 16 };
        let dtype = if i == 1 { DType::HFQ4G256 } else { DType::MQ4G256 };
        assert_eq!((common.q_proj.dtype, common.q_proj.m), (dtype, heads));
        assert_eq!((common.k_proj.dtype, common.k_proj.m), (DType::MQ4G256, 32));
        assert_eq!((common.o_proj.m, common.o_proj.k), (64, heads));
        assert!(common.moe.is_none());
        let at = list
            .iter()
            .position(|t| t.name.contains(&format!("layers.{i}.layer_scalar")))
            .unwrap();
        assert_eq!(f32::from_bits(common.layer_scalar_host.bits), (1000 * at) as f32);
        assert_eq!(singles(&loaded[at].up)[0], (1000 * at) as f32);
    }
    assert!(matches!(list[0].place, Gemma4Wt::EmbedTokens));
}

#[test]
fn gemma4_experts_are_alike() {
    let c = gemma(16);
    let list = hipfire::gemma4::load_weights(&c);
    let mut f = whole(&list);
    let at = list.iter().position(|t| t.name.ends_with("experts.3.down_proj.weight")).unwrap();
    let (w, _) = hipfire::gemma4::assemble(&c, &f).ok().unwrap();
    let moe = match &w.layers[2] {
        hipfire::gemma4::LayerWeights::Sliding(l) => l.common.moe.unwrap(),
        _ => panic!("not a sliding layer"),
    };
    assert_eq!((moe.gate_up.dtype, moe.gate_up.m, moe.gate_up.k), (DType::MQ4G256, 48, 64));
    assert_eq!((moe.down.dtype, moe.down.m, moe.down.k), (DType::MQ4G256, 64, 24));
    assert_eq!(moe.router_proj.m, 16);
    f.tensors[at].quant_type = 6;
    let e = hipfire::gemma4::assemble(&c, &f).err().unwrap();
    assert_eq!(e, LoadError { at, fault: Fault::Mixed { got: 6, expected: 13 } });
    f.tensors[at].data.pop();
    let e = hipfire::gemma4::assemble(&c, &f).err().unwrap();
    assert_eq!(e, LoadError { at, fault: Fault::Size { got: 2, expected: 3 } });
}

#[test]
fn gemma4_checks_shapes() {
    let c = gemma(0);
    let list = hipfire::gemma4::load_weights(&c);
    let mut f = whole(&list);
    f.tensors[1].shape = vec![2, 3];
    let e = hipfire::gemma4::assemble(&c, &f).err().unwrap();
    assert_eq!(e, LoadError { at: 1, fault: Fault::Shape { expected: 64, got: 6 } });
}

#[test]
fn drafts_are_assembled() {
    let c = draft();
    let list = DflashWeights::load(&c);
    let mut f = whole(&list);
    let (w, loaded) = hipfire::dflash::assemble(&c, &f).ok().unwrap();
    assert!(w.has_mq);
    assert_eq!((w.fc.m, w.fc.k), (16, 32));
    assert_eq!((w.layers[1].wq.m, w.layers[1].wk.m, w.layers[1].wo.k), (32, 16, 32));
    assert_eq!((w.layers[0].w_gate.m, w.layers[0].w_down.k), (32, 32));
    assert_eq!(loaded.len(), list.len());
    assert!(matches!(list[0].place, DflashWt::Fc));
    for (j, t) in f.tensors.iter_mut().enumerate() {
        if t.quant_type == 13 {
            t.quant_type = 2;
            t.data = numbers(j, list[j].m * list[j].k);
        }
    }
    assert!(!hipfire::dflash::assemble(&c, &f).ok().unwrap().0.has_mq);
    let norm = list.iter().position(|t| t.kind == LoadKind::Exact).unwrap();
    f.tensors[norm].data.truncate(4);
    let e = hipfire::dflash::assemble(&c, &f).err().unwrap();
    assert_eq!(e, LoadError { at: norm, fault: Fault::Shape { expected: 16, got: 1 } });
}

#[test]
fn the_encoder_is_assembled() {
    let c = vision();
    let list = hipfire::qwen35_vl::load_vision_weights(&c);
    let mut f = whole(&list);
    let v = hipfire::qwen35_vl::assemble(&c, &f).ok().unwrap();
    assert_eq!(v.len(), 3 + 2 * 12 + 6);
    assert!(matches!(v[0].place, VisionWt::PatchEmbedW));
    for (j, p) in v.iter().enumerate() {
        assert!(p.place == list[j].place);
        assert_eq!((p.info.m, p.info.k), (list[j].m, list[j].k));
        if list[j].kind == LoadKind::First {
            assert_eq!(singles(&p.up)[0], (1000 * j) as f32);
            assert_eq!(singles(&p.up).len(), list[j].m * list[j].k);
        }
    }
    let at = v.len() - 1;
    f.tensors[at].quant_type = 6;
    let e = hipfire::qwen35_vl::assemble(&c, &f).err().unwrap();
    assert_eq!(e.at, at);
}

#[test]
fn gate_projections_are_stacked() {
    let c = tower();
    let list = hipfire::dots_ocr::load_vision_weights(&c);
    let f = whole(&list);
    let v = hipfire::dots_ocr::assemble(&c, &f).ok().unwrap();
    assert_eq!(v.len(), list.len() - 2);
    for i in 0..2usize {
        let p = &v[3 + 6 * i + 4];
        assert!(p.place == DotsVisionWt::Block(i, DotsVisionPart::Fc13));
        assert_eq!((p.info.dtype, p.info.m, p.info.k), (DType::F16, 6, 4));
        let fc1 = (3 + 7 * i + 4) as u8;
        let expected: Vec<u8> = vec![fc1; 24].into_iter().chain(vec![fc1 + 1; 24]).collect();
        assert!(matches!(&p.up, Upload::Halves(b) if *b == expected));
        assert!(v[3 + 6 * i + 5].place == DotsVisionWt::Block(i, DotsVisionPart::Fc2));
    }
    for j in 0..v.len() {
        for k in 0..j {
            assert!(v[j].place != v[k].place);
        }
    }
    let mut short = whole(&list);
    short.tensors[7].data.pop();
    short.tensors[7].data.pop();
    let e = hipfire::dots_ocr::assemble(&c, &short).err().unwrap();
    assert_eq!(e, LoadError { at: 7, fault: Fault::Shape { expected: 12, got: 11 } });
    let mut grouped = whole(&list);
    grouped.tensors[0].quant_type = 6;
    grouped.tensors[0].group_size = 0;
    let e = hipfire::dots_ocr::assemble(&c, &grouped).err().unwrap();
    assert_eq!(e.fault, Fault::Group);
}

#[test]
fn an_empty_list_needs_nothing() {
    let f = TensorFile { tensors: Vec::new() };
    let none: Vec<TensorSpec<u8>> = Vec::new();
    assert_eq!(read_all(&f, &none).ok().unwrap().len(), 0);
    let one = vec![TensorSpec {
        place: 3u8,
        name: "x".to_string(),
        kind: LoadKind::Exact,
        m: usize::MAX,
        k: 2,
    }];
    let e = read_all(&f, &one).err().unwrap();
    assert_eq!(e, LoadError { at: 0, fault: Fault::Missing });
    let held = TensorFile { tensors: vec![stored_empty("x")] };
    let e = read_all(&held, &one).err().unwrap();
    assert_eq!(e, LoadError { at: 0, fault: Fault::TooLarge });
}

fn stored_empty(name: &str) -> StoredTensor {
    StoredTensor {
        name: name.to_string(),
        quant_type: 2,
        group_size: 0,
        shape: Vec::new(),
        data: Vec::new(),
    }
}
