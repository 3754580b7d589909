//! The document reader.

use hipfire::device::Op;
use hipfire::dots_ocr::{
    linear_f16, load_vision_weights, parse_vision_config, vision_forward, DotsOcrConfig,
    DotsOcrWeights, DotsVisionConfig, DotsVisionWeights, DotsVisionWt, IMGPAD_ID, IMG_END_ID,
    IMG_START_ID,
};
use hipfire::hfq::{ConfigError, HfqFile};
use hipfire::names::LoadKind;

#[test]
fn vision_defaults_match_plan() {
    let d = DotsVisionConfig::dots_ocr_defaults();
    assert_eq!(d.embed_dim, 1536);
    assert_eq!(d.num_hidden_layers, 42);
    assert_eq!(d.num_attention_heads, 12);
    assert_eq!(d.head_dim, 128);
    assert_eq!(d.intermediate_size, 4224);
    assert_eq!(d.patch_size, 14);
    assert_eq!(d.spatial_merge_size, 2);
    assert_eq!(d.temporal_patch_size, 1);
    assert!(!d.use_bias);
    assert!(d.post_norm);
    assert_eq!(f32::from_bits(d.rms_norm_eps.bits), 1e-5);
    assert_eq!(d.out_hidden_size, 1536);
}

#[test]
fn parse_vision_config_picks_up_overrides() {
    let json = r#"{
      "config": {
        "vision_config": {
          "embed_dim": 2048,
          "num_hidden_layers": 24,
          "num_attention_heads": 16,
          "intermediate_size": 8192
        },
        "text_config": { "hidden_size": 2048 }
      }
    }"#;
    let cfg = parse_vision_config(json).unwrap();
    assert_eq!(cfg.embed_dim, 2048);
    assert_eq!(cfg.num_hidden_layers, 24);
    assert_eq!(cfg.num_attention_heads, 16);
    assert_eq!(cfg.head_dim, 2048 / 16);
    assert_eq!(cfg.intermediate_size, 8192);
    assert_eq!(cfg.out_hidden_size, 2048);
    assert_eq!(cfg.patch_size, 14);
    assert_eq!(cfg.spatial_merge_size, 2);
}

#[test]
fn token_id_constants_match_plan() {
    assert_eq!(IMGPAD_ID, 151665);
    assert_eq!(IMG_START_ID, 151666);
    assert_eq!(IMG_END_ID, 151667);
}

const METADATA: &str = r#"{"config": {"hidden_size": 8, "num_hidden_layers": 1,
    "num_attention_heads": 2, "intermediate_size": 16, "vocab_size": 3,
    "vision_config": {"num_hidden_layers": 2}}}"#;

#[test]
fn dots_ocr_loads_both_halves() {
    let file = HfqFile { metadata_json: METADATA.to_string() };
    let cfg = DotsOcrConfig::from_hfq(&file).unwrap();
    assert_eq!(cfg.text.hidden_size, 8);
    assert_eq!(cfg.vision.num_hidden_layers, 2);
    let (w, list) = DotsOcrWeights::load(&file, &cfg).unwrap();
    assert_eq!(w.text.embeddings.len(), 24);
    let names: Vec<&str> = list.iter().map(|t| t.name.as_str()).collect();
    assert_eq!(names[0], "vision_tower.patch_embed.patchifier.proj.weight");
    assert!(names.contains(&"vision_tower.blocks.1.mlp.fc2.weight"));
    assert!(list.iter().any(|t| t.kind == LoadKind::AsHalfWithNext));
    assert_eq!(load_vision_weights(&cfg.vision).len(), list.len());
    // Each loaded weight is given back, fc1 and fc3 as one.
    assert_eq!(w.free_gpu().len(), list.len() - 2);
    assert!(DotsOcrConfig::from_hfq(&HfqFile { metadata_json: "{}".to_string() }).is_err());
    let bare = METADATA.replace("\"num_attention_heads\": 2", "\"num_attention_heads\": 0");
    let r = DotsOcrConfig::checked_from_hfq(&HfqFile { metadata_json: bare });
    assert_eq!(
        r.unwrap().err(),
        Some("qwen2: failed to parse config from HFQ metadata".to_string())
    );
    let blind = METADATA.replace("{\"num_hidden_layers\": 2}", "{\"num_attention_heads\": 0}");
    let r = DotsOcrConfig::checked_from_hfq(&HfqFile { metadata_json: blind });
    assert!(matches!(r, Err(ConfigError::ZeroHeads)));
}

#[test]
fn vision_weights_are_given_back_once() {
    let list = DotsVisionWeights { blocks: 3 }.free_gpu();
    assert_eq!(list.len(), 3 + 3 * 6 + 7);
    for i in 0..list.len() {
        for j in 0..i {
            assert!(list[i] != list[j]);
        }
    }
    assert_eq!(list[0], DotsVisionWt::PatchEmbedW);
}

#[test]
fn there_is_no_vision_forward() {
    let cfg = DotsVisionConfig::dots_ocr_defaults();
    let r = vision_forward(&DotsVisionWeights { blocks: 42 }, &cfg, &[], 2, 2);
    assert_eq!(
        r.err().unwrap(),
        "dots-ocr: vision_forward is a phase 2c stub. Implementation pending — see \
         docs/plans/qwen_2.0_vlm_plus_dots_ocr.md phase 2c."
    );
}

#[test]
fn linear_transposes_its_result() {
    let ops: Vec<Op<u8, u8>> = linear_f16(7, 0, 9, 1, 2, 6, 4, 5);
    let text = format!("{:?}", ops);
    assert!(text.contains("GemmF16"));
    assert!(text.contains("Transpose"));
    assert!(text.contains("BiasAdd"));
}
