//! Configuration of the two-tower text model.

use hipfire::hfq::HfqFile;
use hipfire::qwen2::{config_from_hfq, config_from_metadata_json, Qwen2Config, Qwen2State, Qwen2Weights};

const QWEN2_1P5B_METADATA: &str = r#"{
    "config": {
        "architectures": ["Qwen2ForCausalLM"],
        "hidden_size": 1536,
        "num_hidden_layers": 28,
        "num_attention_heads": 12,
        "num_key_value_heads": 2,
        "intermediate_size": 8960,
        "vocab_size": 151936,
        "max_position_embeddings": 32768,
        "rope_theta": 1000000.0,
        "rms_norm_eps": 1e-06,
        "tie_word_embeddings": true,
        "hidden_act": "silu",
        "eos_token_id": 151645,
        "torch_dtype": "bfloat16"
    }
}"#;

const DOTS_OCR_TEXT_METADATA: &str = r#"{
    "config": {
        "architectures": ["DotsOCRForCausalLM"],
        "hidden_size": 1536,
        "num_hidden_layers": 28,
        "num_attention_heads": 12,
        "num_key_value_heads": 2,
        "intermediate_size": 8960,
        "vocab_size": 151936,
        "max_position_embeddings": 131072,
        "rope_theta": 1000000.0,
        "rms_norm_eps": 1e-06,
        "attention_bias": true,
        "tie_word_embeddings": false,
        "hidden_act": "silu",
        "eos_token_id": [151643, 151673],
        "torch_dtype": "bfloat16"
    }
}"#;

fn file(text: &str) -> HfqFile {
    HfqFile { metadata_json: text.to_string() }
}

#[test]
fn parses_qwen2_1p5b_instruct_config() {
    let cfg = config_from_metadata_json(QWEN2_1P5B_METADATA)
        .expect("parser returned None on a valid Qwen2-1.5B-Instruct config");
    assert_eq!(cfg.hidden_size, 1536);
    assert_eq!(cfg.num_hidden_layers, 28);
    assert_eq!(cfg.num_attention_heads, 12);
    assert_eq!(cfg.num_key_value_heads, 2);
    assert_eq!(cfg.head_dim, 128, "head_dim should derive from 1536/12 when absent");
    assert_eq!(cfg.intermediate_size, 8960);
    assert_eq!(cfg.vocab_size, 151936);
    assert_eq!(cfg.max_position_embeddings, 32768);
    assert!((f32::from_bits(cfg.rope_theta.bits) - 1_000_000.0).abs() < 1.0);
    assert!((f32::from_bits(cfg.rms_norm_eps.bits) - 1e-6).abs() < 1e-9);
    assert!(cfg.attention_bias);
    assert!(cfg.tie_word_embeddings, "1.5B-Instruct has tie_word_embeddings=true");
    assert_eq!(cfg.eos_token_id, 151645);
}

#[test]
fn parses_dots_ocr_text_config() {
    let cfg = config_from_metadata_json(DOTS_OCR_TEXT_METADATA)
        .expect("parser returned None on a valid dots.ocr text config");
    assert!(cfg.attention_bias, "dots.ocr explicitly sets attention_bias=true");
    assert!(!cfg.tie_word_embeddings, "dots.ocr does not tie embeddings");
    assert_eq!(cfg.eos_token_id, 151643);
    assert_eq!(cfg.max_position_embeddings, 131072);
}

#[test]
fn missing_required_field_returns_none() {
    let bad = r#"{"config": {"hidden_size": 1536}}"#; // missing num_hidden_layers etc.
    assert!(config_from_metadata_json(bad).is_none());
}

#[test]
fn missing_optional_fields_get_defaults() {
    let minimal = r#"{
        "config": {
            "hidden_size": 768,
            "num_hidden_layers": 12,
            "num_attention_heads": 12,
            "intermediate_size": 3072,
            "vocab_size": 32000
        }
    }"#;
    let cfg = config_from_metadata_json(minimal).expect("minimal config should parse");
    assert_eq!(cfg.num_key_value_heads, 12, "fallback to MHA");
    assert_eq!(cfg.head_dim, 64, "fallback to hidden/heads");
    assert!(cfg.attention_bias, "Qwen2 modeling default is true");
    assert!(!cfg.tie_word_embeddings, "HF transformers default is false");
    assert_eq!(cfg.eos_token_id, 151645, "default <|im_end|>");
    assert!((f32::from_bits(cfg.rope_theta.bits) - 1_000_000.0).abs() < 1.0);
}

#[test]
fn qwen2_reports_what_is_wrong() {
    assert!(config_from_metadata_json("not a document").is_none());
    assert!(config_from_hfq(&file(QWEN2_1P5B_METADATA)).is_some());
    assert!(Qwen2Config::from_hfq(&file(QWEN2_1P5B_METADATA)).is_ok());
    assert!(Qwen2Config::from_hfq(&file("{}")).is_err());
    let none = QWEN2_1P5B_METADATA.replace("\"num_attention_heads\": 12", "\"num_attention_heads\": 0");
    assert!(config_from_metadata_json(&none).is_none());
    assert_eq!(
        Qwen2Config::from_hfq(&file(&none)).err(),
        Some("qwen2: failed to parse config from HFQ metadata".to_string())
    );
    let headed = r#"{"config": {"hidden_size": 8, "num_hidden_layers": 1,
        "num_attention_heads": 0, "head_dim": 8, "intermediate_size": 8, "vocab_size": 8}}"#;
    assert!(config_from_metadata_json(headed).is_none());
}

#[test]
fn qwen2_starts_empty() {
    let mut cfg = config_from_metadata_json(QWEN2_1P5B_METADATA).unwrap();
    cfg.vocab_size = 3;
    cfg.hidden_size = 4;
    let w = Qwen2Weights::load(&file("{}"), &cfg).unwrap();
    assert_eq!(w.embeddings.len(), 12);
    assert!(w.embeddings.iter().all(|x| x.bits == 0));
    assert_eq!(Qwen2State::new(&cfg).unwrap().token_count, 0);
}
