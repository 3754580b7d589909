//! The vision tower.

use hipfire::device::Op;
use hipfire::hfq::{ConfigError, HfqFile};
use hipfire::quant::TensorError;
use hipfire::qwen35_vl::{
    check_f16, checked_vision_config_from_hfq, load_f32, load_vision_weights, merge_patches,
    merger_forward, vision_config_from_hfq, vision_forward, VisionConfig,
};

const METADATA: &str = r#"{"config": {"vision_config": {
    "hidden_size": 8, "num_heads": 2, "depth": 2, "intermediate_size": 16,
    "patch_size": 2, "temporal_patch_size": 2, "out_hidden_size": 12, "spatial_merge_size": 2
}}}"#;

fn file(text: &str) -> HfqFile {
    HfqFile { metadata_json: text.to_string() }
}

fn config() -> VisionConfig {
    vision_config_from_hfq(&file(METADATA)).unwrap()
}

#[test]
fn vision_towers_read_their_configuration() {
    let c = config();
    assert_eq!((c.hidden_size, c.num_heads, c.head_dim, c.num_layers), (8, 2, 4, 2));
    assert_eq!((c.mlp_dim, c.patch_size, c.out_hidden_size), (16, 2, 12));
    assert_eq!(f32::from_bits(c.norm_eps.bits), 1e-6);
    assert!(vision_config_from_hfq(&file(r#"{"config": {}}"#)).is_none());
    let none = METADATA.replace("\"num_heads\": 2", "\"num_heads\": 0");
    assert!(matches!(checked_vision_config_from_hfq(&file(&none)), Err(ConfigError::ZeroHeads)));
}

#[test]
fn vision_tensors_are_checked() {
    assert!(check_f16(1).is_ok());
    assert!(matches!(check_f16(6), Err(TensorError::QuantType(6))));
    assert_eq!(load_f32(2, &1.5f32.to_le_bytes(), 1).unwrap()[0].bits, 1.5f32.to_bits());
    assert!(load_f32(99, &[], 1).is_err());
    let list = load_vision_weights(&config());
    assert!(list.iter().any(|t| t.name.contains("blocks.1.attn.qkv.weight")));
    assert!(!list.iter().any(|t| t.name.contains("blocks.2.")));
}

#[test]
fn encoding_frees_what_it_allocates() {
    let ops = vision_forward(&config(), 4, 4);
    let mut held: Vec<String> = Vec::new();
    for op in &ops {
        match op {
            Op::Alloc { buf, .. } => {
                let b = format!("{:?}", buf);
                assert!(!held.contains(&b));
                held.push(b);
            }
            Op::Free { buf } => {
                let b = format!("{:?}", buf);
                assert!(held.contains(&b));
                held.retain(|x| *x != b);
            }
            _ => {}
        }
    }
    assert!(held.is_empty(), "{:?}", held);
}

#[test]
fn merging_takes_two_by_two_blocks() {
    let mut c = config();
    c.hidden_size = 1;
    let rows: Vec<u32> = (0..16).collect();
    let merged = merge_patches(&c, &rows, 4, 4);
    assert_eq!(merged, vec![0, 1, 4, 5, 2, 3, 6, 7, 8, 9, 12, 13, 10, 11, 14, 15]);
}

#[test]
fn merging_ends_at_the_output_width() {
    let ops = merger_forward(&config(), 16);
    let text = format!("{:?}", ops);
    assert!(text.contains("m: 12"));
    assert!(text.contains("GeluTanh"));
}

#[test]
fn merging_leaves_what_lies_beyond_the_grid() {
    let mut c = config();
    c.hidden_size = 1;
    let rows: Vec<u32> = (0..21).collect();
    let merged = merge_patches(&c, &rows, 4, 4);
    assert_eq!(merged, vec![0, 1, 4, 5, 2, 3, 6, 7, 8, 9, 12, 13, 10, 11, 14, 15]);
}
