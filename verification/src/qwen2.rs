//! The Qwen2 text model: its shape, read from a model file's metadata.

use vstd::prelude::*;

use crate::float::{f64_to_f32, F32};
use crate::hfq::{first_of, text_config, value_or, HfqFile, D_1E6, D_1E_6};
use crate::json::Json;

verus! {

/// Shape constants of a Qwen2 model.
#[derive(Debug, Clone, Copy)]
pub struct Qwen2Config {
    pub hidden_size: usize,
    pub num_hidden_layers: usize,
    pub num_attention_heads: usize,
    pub num_key_value_heads: usize,
    pub head_dim: usize,
    pub intermediate_size: usize,
    pub vocab_size: usize,
    pub max_position_embeddings: usize,
    pub rope_theta: F32,
    pub rms_norm_eps: F32,
    pub attention_bias: bool,
    pub tie_word_embeddings: bool,
    pub eos_token_id: u32,
}

/// The end-of-text token: a number, or the first of a list of numbers.
pub open spec fn eos_of(tc: crate::json::JVal) -> Option<u64> {
    match tc.get("eos_token_id"@) {
        None => None,
        Some(v) => crate::hfq::or_else(
            v.as_u64(),
            match v.as_array() {
                Some(items) => if items.len() > 0 {
                    items[0].as_u64()
                } else {
                    None
                },
                None => None,
            },
        ),
    }
}

/// The numbers that have no default are all there, and there are heads.
pub open spec fn complete(tc: crate::json::JVal) -> bool {
    &&& tc.get_u64("hidden_size"@) is Some
    &&& tc.get_u64("num_hidden_layers"@) is Some
    &&& tc.get_u64("num_attention_heads"@) is Some
    &&& tc.get_u64("num_attention_heads"@)->0 as usize != 0
    &&& tc.get_u64("intermediate_size"@) is Some
    &&& tc.get_u64("vocab_size"@) is Some
}

/// The shape that a text section describes. Missing are taken: as many key/value
/// heads as heads, an even share of the hidden size per head, 32768 positions, a
/// RoPE base of a million, an epsilon of 1e-6, biases, separate embeddings, and
/// the chat end token.
pub open spec fn shape(tc: crate::json::JVal) -> Qwen2Config {
    let hidden = tc.get_u64("hidden_size"@)->0 as usize;
    let heads = tc.get_u64("num_attention_heads"@)->0 as usize;
    Qwen2Config {
        hidden_size: hidden,
        num_hidden_layers: tc.get_u64("num_hidden_layers"@)->0 as usize,
        num_attention_heads: heads,
        num_key_value_heads: crate::hfq::or(
            tc.get_u64("num_key_value_heads"@),
            heads as u64,
        ) as usize,
        head_dim: match tc.get_u64("head_dim"@) {
            Some(d) => d as usize,
            None => (hidden / heads) as usize,
        },
        intermediate_size: tc.get_u64("intermediate_size"@)->0 as usize,
        vocab_size: tc.get_u64("vocab_size"@)->0 as usize,
        max_position_embeddings: crate::hfq::or(
            tc.get_u64("max_position_embeddings"@),
            32768,
        ) as usize,
        rope_theta: crate::float::of_double(crate::hfq::or(tc.get_f64("rope_theta"@), D_1E6)),
        rms_norm_eps: crate::float::of_double(crate::hfq::or(tc.get_f64("rms_norm_eps"@), D_1E_6)),
        attention_bias: crate::hfq::or(tc.get_bool("attention_bias"@), true),
        tie_word_embeddings: crate::hfq::or(tc.get_bool("tie_word_embeddings"@), false),
        eos_token_id: crate::hfq::or(eos_of(tc), 151645) as u32,
    }
}

/// The configuration in a metadata document, where it is complete.
pub open spec fn config_in(meta: crate::json::JVal) -> Option<Qwen2Config> {
    match crate::hfq::text_section(meta) {
        Some(tc) => if complete(tc) {
            Some(shape(tc))
        } else {
            None
        },
        None => None,
    }
}

/// The configuration in a text, where it is a complete document.
pub open spec fn config_of(text: Seq<char>) -> Option<Qwen2Config> {
    match crate::json::parsed(text) {
        Some(meta) => config_in(meta),
        None => None,
    }
}

/// The first number of a list.
fn first_u64(v: &Json) -> (r: Option<u64>)
    ensures
        r == (match v@.as_array() {
            Some(items) => if items.len() > 0 {
                items[0].as_u64()
            } else {
                None
            },
            None => None,
        }),
{
    match v.as_array() {
        Some(items) => {
            if items.len() > 0 {
                assert(items@[0]@ == v@.as_array()->0[0]);
                items[0].as_u64()
            } else {
                None
            }
        },
        None => None,
    }
}

fn eos_token(tc: &Json) -> (r: Option<u64>)
    ensures
        r == eos_of(tc@),
{
    match tc.get("eos_token_id") {
        Some(v) => first_of(v.as_u64(), first_u64(v)),
        None => None,
    }
}

/// The configuration in a parsed metadata document.
pub fn config_from_metadata(meta: &Json) -> (r: Option<Qwen2Config>)
    ensures
        r == config_in(meta@),
{
    let tc: &Json = match text_config(meta) {
        Some(tc) => tc,
        None => return None,
    };
    let hidden_size: usize = match tc.get_u64("hidden_size") {
        Some(v) => v as usize,
        None => return None,
    };
    let num_hidden_layers: usize = match tc.get_u64("num_hidden_layers") {
        Some(v) => v as usize,
        None => return None,
    };
    let num_attention_heads: usize = match tc.get_u64("num_attention_heads") {
        Some(v) => v as usize,
        None => return None,
    };
    if num_attention_heads == 0 {
        return None;
    }
    let num_key_value_heads: usize = value_or(
        tc.get_u64("num_key_value_heads"),
        num_attention_heads as u64,
    ) as usize;
    let head_dim: usize = match tc.get_u64("head_dim") {
        Some(v) => v as usize,
        None => hidden_size / num_attention_heads,
    };
    let intermediate_size: usize = match tc.get_u64("intermediate_size") {
        Some(v) => v as usize,
        None => return None,
    };
    let vocab_size: usize = match tc.get_u64("vocab_size") {
        Some(v) => v as usize,
        None => return None,
    };
    Some(
        Qwen2Config {
            hidden_size,
            num_hidden_layers,
            num_attention_heads,
            num_key_value_heads,
            head_dim,
            intermediate_size,
            vocab_size,
            max_position_embeddings: value_or(
                tc.get_u64("max_position_embeddings"),
                32768,
            ) as usize,
            rope_theta: f64_to_f32(value_or(tc.get_f64("rope_theta"), D_1E6)),
            rms_norm_eps: f64_to_f32(value_or(tc.get_f64("rms_norm_eps"), D_1E_6)),
            attention_bias: value_or(tc.get_bool("attention_bias"), true),
            tie_word_embeddings: value_or(tc.get_bool("tie_word_embeddings"), false),
            eos_token_id: value_or(eos_token(tc), 151645) as u32,
        },
    )
}

/// The configuration in the text of a metadata document; `None` where the document
/// does not describe a model: a number is missing, or it has no heads.
pub fn config_from_metadata_json(metadata_json: &str) -> (r: Option<Qwen2Config>)
    ensures
        r == config_of(metadata_json@),
{
    match crate::json::parse(metadata_json) {
        Some(meta) => config_from_metadata(&meta),
        None => None,
    }
}

/// The configuration in a model file.
pub fn config_from_hfq(hfq: &HfqFile) -> (r: Option<Qwen2Config>)
    ensures
        r == config_of(hfq.metadata_json@),
{
    config_from_metadata_json(hfq.metadata_json.as_str())
}

impl Qwen2Config {
    /// The configuration in a model file, or a message where there is none.
    pub fn from_hfq(hfq: &HfqFile) -> (r: Result<Self, String>)
        ensures
            match r {
                Ok(c) => config_of(hfq.metadata_json@) == Some(c),
                Err(e) => config_of(hfq.metadata_json@) is None && e@
                    == "qwen2: failed to parse config from HFQ metadata"@,
            },
    {
        match config_from_hfq(hfq) {
            Some(c) => Ok(c),
            None => Err("qwen2: failed to parse config from HFQ metadata".to_owned()),
        }
    }
}

/// Weights held on the host: for now the embedding table alone.
pub struct Qwen2Weights {
    pub embeddings: Vec<F32>,
}

impl Qwen2Weights {
    /// An embedding table of zeros, one row per token.
    pub fn load(_hfq: &HfqFile, cfg: &Qwen2Config) -> (r: Result<Self, String>)
        requires
            cfg.vocab_size * cfg.hidden_size <= usize::MAX,
        ensures
            match r {
                Ok(w) => w.embeddings@ == Seq::new(
                    (cfg.vocab_size * cfg.hidden_size) as nat,
                    |i: int| F32 { bits: 0 },
                ),
                Err(_) => false,
            },
    {
        Ok(Qwen2Weights { embeddings: crate::cask::zeros(cfg.vocab_size * cfg.hidden_size) })
    }
}

/// Progress of one decode.
pub struct Qwen2State {
    pub token_count: usize,
}

impl Qwen2State {
    /// Nothing decoded yet.
    pub fn new(_cfg: &Qwen2Config) -> (r: Result<Self, String>)
        ensures
            match r {
                Ok(s) => s.token_count == 0,
                Err(_) => false,
            },
    {
        Ok(Qwen2State { token_count: 0 })
    }
}

} // verus!
