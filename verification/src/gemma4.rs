//! A language model with sliding-window and full attention, and on some sizes a
//! mixture of experts beside the feed-forward part.
//!
//! Full layers have no value projection: the values are the keys before their
//! norm. Queries are scaled up so that attention kernels, which divide by the root
//! of the head size, come out at a scale of one.

use vstd::prelude::*;

use crate::device::{
    extend, free_list, gemm, gemv, zeroed_list, CacheKind, KvForm, KvSide, Op, Routing,
};
use crate::float::{f64_to_f32, F32};
use crate::hfq::{
    first_of, text_config, value_or, ConfigError, HfqFile, D_1E4, D_1E6, D_1E_6, D_ONE, D_ZERO,
};
use crate::json::Json;
use crate::loading::Loaded;
use crate::names::{numbered_name, push_decimal, push_tensor, LoadKind, TensorSpec};
use crate::quant::{
    decode_f16, decode_plain, raw_dtype_of, DType, EmbeddingFormat, TensorError, Upload, WeightInfo,
};

verus! {

/// The two kinds of layers.
#[derive(Debug, Clone, Copy, PartialEq, Eq, Structural)]
pub enum LayerType {
    /// Attention over the last positions only.
    Sliding,
    /// Attention over all positions.
    Full,
}

/// Which dimensions of a head positions rotate.
#[derive(Debug, Clone, Copy, PartialEq, Eq, Structural)]
pub enum RopeType {
    /// All of them.
    Default,
    /// The first part of each half.
    Proportional,
}

/// Shape constants of the model.
#[derive(Debug, Clone)]
pub struct Gemma4Config {
    pub dim: usize,
    pub n_layers: usize,
    pub vocab_size: usize,
    pub norm_eps: F32,
    pub bos_token: u32,
    pub eos_token: u32,
    pub pad_token: u32,
    pub n_heads: usize,
    pub sliding_head_dim: usize,
    pub sliding_n_kv_heads: usize,
    pub sliding_rope_theta: F32,
    pub sliding_window: usize,
    pub full_head_dim: usize,
    pub full_n_kv_heads: usize,
    pub full_rope_theta: F32,
    pub full_rope_type: RopeType,
    pub full_partial_rotary_factor: F32,
    /// Full layers take their values from the keys.
    pub attention_k_eq_v: bool,
    /// Width of the feed-forward part.
    pub hidden_dim: usize,
    /// Every layer has experts.
    pub enable_moe_block: bool,
    pub moe_intermediate_size: usize,
    pub num_experts: usize,
    pub top_k_experts: usize,
    pub final_logit_softcapping: F32,
    pub tie_word_embeddings: bool,
    /// What embeddings are multiplied by: the root of the width.
    pub embed_scale: F32,
    pub layer_types: Vec<LayerType>,
    pub has_vision: bool,
    pub image_token_id: u32,
    pub boi_token_id: u32,
    pub eoi_token_id: u32,
    pub audio_token_id: u32,
    pub video_token_id: u32,
}

// Configuration.

/// The kind of layer that a list entry names; what is not full slides.
pub open spec fn layer_kind(v: crate::json::JVal) -> LayerType {
    if v.as_str() == Some("full_attention"@) {
        LayerType::Full
    } else {
        LayerType::Sliding
    }
}

/// The kinds of the layers; all sliding where there is no list.
pub open spec fn layer_kinds(tc: crate::json::JVal, n_layers: nat) -> Seq<LayerType> {
    match tc.get("layer_types"@) {
        Some(v) => match v.as_array() {
            Some(items) => Seq::new(items.len(), |i: int| layer_kind(items[i])),
            None => Seq::new(n_layers, |i: int| LayerType::Sliding),
        },
        None => Seq::new(n_layers, |i: int| LayerType::Sliding),
    }
}

/// A member of the rotary section for one kind of layer.
pub open spec fn rope_member(
    tc: crate::json::JVal,
    kind: Seq<char>,
    key: Seq<char>,
) -> Option<crate::json::JVal> {
    match tc.get("rope_parameters"@) {
        Some(r) => match r.get(kind) {
            Some(r) => r.get(key),
            None => None,
        },
        None => None,
    }
}

/// A number in a member that may be missing.
pub open spec fn number_in(v: Option<crate::json::JVal>) -> Option<u64> {
    match v {
        Some(v) => v.as_f64(),
        None => None,
    }
}

/// What has no default is there.
pub open spec fn complete(tc: crate::json::JVal) -> bool {
    &&& tc.get_u64("hidden_size"@) is Some
    &&& tc.get_u64("num_hidden_layers"@) is Some
    &&& tc.get_u64("vocab_size"@) is Some
    &&& tc.get_u64("num_attention_heads"@) is Some
    &&& tc.get_u64("intermediate_size"@) is Some
}

/// A head size is needed and there are no heads.
pub open spec fn zero_heads(meta: crate::json::JVal) -> bool {
    match crate::hfq::text_section(meta) {
        Some(tc) => {
            &&& tc.get_u64("hidden_size"@) is Some
            &&& tc.get_u64("num_hidden_layers"@) is Some
            &&& tc.get_u64("vocab_size"@) is Some
            &&& tc.get_u64("num_attention_heads"@) is Some
            &&& tc.get_u64("num_attention_heads"@)->0 as usize == 0
        },
        None => false,
    }
}

pub open spec fn zero_heads_in(text: Seq<char>) -> bool {
    crate::json::parsed(text) is Some && zero_heads(crate::json::parsed(text)->0)
}

/// A document with a complete text section.
pub open spec fn readable(meta: crate::json::JVal) -> bool {
    crate::hfq::text_section(meta) is Some && complete(crate::hfq::text_section(meta)->0)
}

/// A text that parses to a document with a complete text section.
pub open spec fn readable_in(text: Seq<char>) -> bool {
    crate::json::parsed(text) is Some && readable(crate::json::parsed(text)->0)
}

/// The attention part of `c` is what the text section `tc` describes. Missing are
/// taken: as many key/value heads as heads, an even share of the width per head, a
/// window of 1024, RoPE bases of ten thousand and a million, all dimensions
/// rotated; for full layers what holds for sliding ones.
pub open spec fn describes_attention(tc: crate::json::JVal, c: Gemma4Config) -> bool {
    &&& c.n_heads == tc.get_u64("num_attention_heads"@)->0 as usize
    &&& c.sliding_head_dim == match tc.get_u64("head_dim"@) {
        Some(d) => d as usize,
        None => (c.dim / c.n_heads) as usize,
    }
    &&& c.sliding_n_kv_heads == crate::hfq::or(
        tc.get_u64("num_key_value_heads"@),
        c.n_heads as u64,
    ) as usize
    &&& c.sliding_window == crate::hfq::or(tc.get_u64("sliding_window"@), 1024) as usize
    &&& c.full_head_dim == match tc.get_u64("global_head_dim"@) {
        Some(d) => d as usize,
        None => c.sliding_head_dim,
    }
    &&& c.full_n_kv_heads == crate::hfq::or(
        tc.get_u64("num_global_key_value_heads"@),
        c.sliding_n_kv_heads as u64,
    ) as usize
    &&& c.attention_k_eq_v == crate::hfq::or(tc.get_bool("attention_k_eq_v"@), false)
    &&& c.sliding_rope_theta == crate::float::of_double(
        crate::hfq::or(
            number_in(rope_member(tc, "sliding_attention"@, "rope_theta"@)),
            D_1E4,
        ),
    )
    &&& c.full_rope_theta == crate::float::of_double(
        crate::hfq::or(number_in(rope_member(tc, "full_attention"@, "rope_theta"@)), D_1E6),
    )
    &&& c.full_rope_type == match rope_member(tc, "full_attention"@, "rope_type"@) {
        Some(v) => if v.as_str() == Some("proportional"@) {
            RopeType::Proportional
        } else {
            RopeType::Default
        },
        None => RopeType::Default,
    }
    &&& c.full_partial_rotary_factor == crate::float::of_double(
        crate::hfq::or(
            number_in(rope_member(tc, "full_attention"@, "partial_rotary_factor"@)),
            D_ONE,
        ),
    )
}

/// `c` is what a configuration and its text section `tc` describe. Missing are
/// taken: an epsilon of 1e-6, the usual token ids, no experts, no cap on the
/// logits, and a tied output matrix.
pub open spec fn describes(config: crate::json::JVal, tc: crate::json::JVal, c: Gemma4Config) -> bool {
    &&& c.dim == tc.get_u64("hidden_size"@)->0 as usize
    &&& c.n_layers == tc.get_u64("num_hidden_layers"@)->0 as usize
    &&& c.vocab_size == tc.get_u64("vocab_size"@)->0 as usize
    &&& c.norm_eps == crate::float::of_double(crate::hfq::or(tc.get_f64("rms_norm_eps"@), D_1E_6))
    &&& c.bos_token == crate::hfq::or(tc.get_u64("bos_token_id"@), 2) as u32
    &&& c.eos_token == crate::hfq::or(tc.get_u64("eos_token_id"@), 1) as u32
    &&& c.pad_token == crate::hfq::or(tc.get_u64("pad_token_id"@), 0) as u32
    &&& describes_attention(tc, c)
    &&& c.hidden_dim == tc.get_u64("intermediate_size"@)->0 as usize
    &&& c.enable_moe_block == crate::hfq::or(tc.get_bool("enable_moe_block"@), false)
    &&& c.moe_intermediate_size == crate::hfq::or(
        tc.get_u64("moe_intermediate_size"@),
        0,
    ) as usize
    &&& c.num_experts == crate::hfq::or(tc.get_u64("num_experts"@), 0) as usize
    &&& c.top_k_experts == crate::hfq::or(tc.get_u64("top_k_experts"@), 0) as usize
    &&& c.final_logit_softcapping == crate::float::of_double(
        crate::hfq::or(tc.get_f64("final_logit_softcapping"@), D_ZERO),
    )
    &&& c.tie_word_embeddings == crate::hfq::or(
        crate::hfq::or_else(
            tc.get_bool("tie_word_embeddings"@),
            config.get_bool("tie_word_embeddings"@),
        ),
        true,
    )
    &&& c.embed_scale == crate::float::square_root(crate::float::of_nat(c.dim as nat))
    &&& c.layer_types@ == layer_kinds(tc, c.n_layers as nat)
    &&& c.has_vision == match config.get("vision_config"@) {
        Some(v) => !(v is Null),
        None => false,
    }
    &&& c.image_token_id == crate::hfq::or(config.get_u64("image_token_id"@), 258880) as u32
    &&& c.boi_token_id == crate::hfq::or(config.get_u64("boi_token_id"@), 255999) as u32
    &&& c.eoi_token_id == crate::hfq::or(config.get_u64("eoi_token_id"@), 258882) as u32
    &&& c.audio_token_id == crate::hfq::or(config.get_u64("audio_token_id"@), 258881) as u32
    &&& c.video_token_id == crate::hfq::or(config.get_u64("video_token_id"@), 258884) as u32
}

fn kind_of(v: &Json) -> (r: LayerType)
    ensures
        r == layer_kind(v@),
{
    match v.as_str() {
        Some(s) => if *s == "full_attention".to_owned() {
            LayerType::Full
        } else {
            LayerType::Sliding
        },
        None => LayerType::Sliding,
    }
}

fn all_sliding(n: usize) -> (r: Vec<LayerType>)
    ensures
        r@ == Seq::new(n as nat, |i: int| LayerType::Sliding),
{
    let mut r: Vec<LayerType> = Vec::new();
    let mut i: usize = 0;
    while i < n
        invariant
            i <= n,
            r@.len() == i,
            forall|k: int| 0 <= k < i ==> #[trigger] r@[k] == LayerType::Sliding,
        decreases n - i,
    {
        r.push(LayerType::Sliding);
        i = i + 1;
    }
    assert(r@ =~= Seq::new(n as nat, |i: int| LayerType::Sliding));
    r
}

fn kinds_of(tc: &Json, n_layers: usize) -> (r: Vec<LayerType>)
    ensures
        r@ == layer_kinds(tc@, n_layers as nat),
{
    let v: &Json = match tc.get("layer_types") {
        Some(v) => v,
        None => return all_sliding(n_layers),
    };
    let items: &Vec<Json> = match v.as_array() {
        Some(items) => items,
        None => return all_sliding(n_layers),
    };
    let ghost all = v@.as_array()->0;
    let mut r: Vec<LayerType> = Vec::new();
    let mut i: usize = 0;
    while i < items.len()
        invariant
            i <= items@.len(),
            r@.len() == i,
            all.len() == items@.len(),
            forall|k: int| 0 <= k < items@.len() ==> (#[trigger] items@[k])@ == all[k],
            forall|k: int| 0 <= k < i ==> #[trigger] r@[k] == layer_kind(all[k]),
        decreases items@.len() - i,
    {
        assert(items@[i as int]@ == all[i as int]);
        r.push(kind_of(&items[i]));
        i = i + 1;
    }
    assert(r@ =~= layer_kinds(tc@, n_layers as nat));
    r
}

fn rope_part<'a>(tc: &'a Json, kind: &str, key: &str) -> (r: Option<&'a Json>)
    ensures
        match r {
            Some(v) => rope_member(tc@, kind@, key@) == Some(v@),
            None => rope_member(tc@, kind@, key@) is None,
        },
{
    match tc.get("rope_parameters") {
        Some(r) => match r.get(kind) {
            Some(r) => r.get(key),
            None => None,
        },
        None => None,
    }
}

fn double_in(v: Option<&Json>) -> (r: Option<u64>)
    ensures
        r == number_in(match v {
            Some(v) => Some(v@),
            None => None,
        }),
{
    match v {
        Some(v) => v.as_f64(),
        None => None,
    }
}

fn rope_type_of(tc: &Json) -> (r: RopeType)
    ensures
        r == match rope_member(tc@, "full_attention"@, "rope_type"@) {
            Some(v) => if v.as_str() == Some("proportional"@) {
                RopeType::Proportional
            } else {
                RopeType::Default
            },
            None => RopeType::Default,
        },
{
    match rope_part(tc, "full_attention", "rope_type") {
        Some(v) => match v.as_str() {
            Some(s) => if *s == "proportional".to_owned() {
                RopeType::Proportional
            } else {
                RopeType::Default
            },
            None => RopeType::Default,
        },
        None => RopeType::Default,
    }
}

/// The configuration in a parsed metadata document.
pub fn config_from_metadata(meta: &Json) -> (r: Option<Gemma4Config>)
    requires
        !zero_heads(meta@),
    ensures
        match r {
            Some(c) => readable(meta@) && describes(
                meta@.get("config"@)->0,
                crate::hfq::text_section(meta@)->0,
                c,
            ),
            None => !readable(meta@),
        },
{
    let tc: &Json = match text_config(meta) {
        Some(tc) => tc,
        None => return None,
    };
    let config: &Json = match meta.get("config") {
        Some(config) => config,
        None => return None,
    };
    let dim: usize = match tc.get_u64("hidden_size") {
        Some(v) => v as usize,
        None => return None,
    };
    let n_layers: usize = match tc.get_u64("num_hidden_layers") {
        Some(v) => v as usize,
        None => return None,
    };
    let vocab_size: usize = match tc.get_u64("vocab_size") {
        Some(v) => v as usize,
        None => return None,
    };
    let n_heads: usize = match tc.get_u64("num_attention_heads") {
        Some(v) => v as usize,
        None => return None,
    };
    let sliding_head_dim: usize = match tc.get_u64("head_dim") {
        Some(v) => v as usize,
        None => dim / n_heads,
    };
    let sliding_n_kv_heads: usize = value_or(
        tc.get_u64("num_key_value_heads"),
        n_heads as u64,
    ) as usize;
    let full_head_dim: usize = match tc.get_u64("global_head_dim") {
        Some(v) => v as usize,
        None => sliding_head_dim,
    };
    let full_n_kv_heads: usize = value_or(
        tc.get_u64("num_global_key_value_heads"),
        sliding_n_kv_heads as u64,
    ) as usize;
    let hidden_dim: usize = match tc.get_u64("intermediate_size") {
        Some(v) => v as usize,
        None => return None,
    };
    let has_vision: bool = match config.get("vision_config") {
        Some(v) => !v.is_null(),
        None => false,
    };
    Some(
        Gemma4Config {
            dim,
            n_layers,
            vocab_size,
            norm_eps: f64_to_f32(value_or(tc.get_f64("rms_norm_eps"), D_1E_6)),
            bos_token: value_or(tc.get_u64("bos_token_id"), 2) as u32,
            eos_token: value_or(tc.get_u64("eos_token_id"), 1) as u32,
            pad_token: value_or(tc.get_u64("pad_token_id"), 0) as u32,
            n_heads,
            sliding_head_dim,
            sliding_n_kv_heads,
            sliding_rope_theta: f64_to_f32(
                value_or(double_in(rope_part(tc, "sliding_attention", "rope_theta")), D_1E4),
            ),
            sliding_window: value_or(tc.get_u64("sliding_window"), 1024) as usize,
            full_head_dim,
            full_n_kv_heads,
            full_rope_theta: f64_to_f32(
                value_or(double_in(rope_part(tc, "full_attention", "rope_theta")), D_1E6),
            ),
            full_rope_type: rope_type_of(tc),
            full_partial_rotary_factor: f64_to_f32(
                value_or(
                    double_in(rope_part(tc, "full_attention", "partial_rotary_factor")),
                    D_ONE,
                ),
            ),
            attention_k_eq_v: value_or(tc.get_bool("attention_k_eq_v"), false),
            hidden_dim,
            enable_moe_block: value_or(tc.get_bool("enable_moe_block"), false),
            moe_intermediate_size: value_or(tc.get_u64("moe_intermediate_size"), 0) as usize,
            num_experts: value_or(tc.get_u64("num_experts"), 0) as usize,
            top_k_experts: value_or(tc.get_u64("top_k_experts"), 0) as usize,
            final_logit_softcapping: f64_to_f32(
                value_or(tc.get_f64("final_logit_softcapping"), D_ZERO),
            ),
            tie_word_embeddings: value_or(
                first_of(
                    tc.get_bool("tie_word_embeddings"),
                    config.get_bool("tie_word_embeddings"),
                ),
                true,
            ),
            embed_scale: F32::from_u64(dim as u64).sqrt(),
            layer_types: kinds_of(tc, n_layers),
            has_vision,
            image_token_id: value_or(config.get_u64("image_token_id"), 258880) as u32,
            boi_token_id: value_or(config.get_u64("boi_token_id"), 255999) as u32,
            eoi_token_id: value_or(config.get_u64("eoi_token_id"), 258882) as u32,
            audio_token_id: value_or(config.get_u64("audio_token_id"), 258881) as u32,
            video_token_id: value_or(config.get_u64("video_token_id"), 258884) as u32,
        },
    )
}

/// Whether a document has no heads to divide by.
pub fn has_zero_heads(meta: &Json) -> (r: bool)
    ensures
        r == zero_heads(meta@),
{
    match text_config(meta) {
        Some(tc) => match tc.get_u64("num_attention_heads") {
            Some(h) => h as usize == 0 && tc.get_u64("hidden_size").is_some() && tc.get_u64(
                "num_hidden_layers",
            ).is_some() && tc.get_u64("vocab_size").is_some(),
            None => false,
        },
        None => false,
    }
}

/// The configuration in a model file.
pub fn config_from_hfq(hfq: &HfqFile) -> (r: Option<Gemma4Config>)
    requires
        !zero_heads_in(hfq.metadata_json@),
    ensures
        match r {
            Some(c) => {
                let meta = crate::json::parsed(hfq.metadata_json@)->0;
                &&& readable_in(hfq.metadata_json@)
                &&& describes(meta.get("config"@)->0, crate::hfq::text_section(meta)->0, c)
            },
            None => !readable_in(hfq.metadata_json@),
        },
{
    match crate::json::parse(hfq.metadata_json.as_str()) {
        Some(meta) => config_from_metadata(&meta),
        None => None,
    }
}

/// Like [`config_from_hfq`], for any model file: one without heads is reported.
pub fn checked_config_from_hfq(hfq: &HfqFile) -> (r: Result<Option<Gemma4Config>, ConfigError>)
    ensures
        match r {
            Ok(Some(c)) => {
                let meta = crate::json::parsed(hfq.metadata_json@)->0;
                &&& !zero_heads_in(hfq.metadata_json@)
                &&& readable_in(hfq.metadata_json@)
                &&& describes(meta.get("config"@)->0, crate::hfq::text_section(meta)->0, c)
            },
            Ok(None) => !zero_heads_in(hfq.metadata_json@) && !readable_in(hfq.metadata_json@),
            Err(e) => zero_heads_in(hfq.metadata_json@) && e == ConfigError::ZeroHeads,
        },
{
    match crate::json::parse(hfq.metadata_json.as_str()) {
        Some(meta) => {
            if has_zero_heads(&meta) {
                return Err(ConfigError::ZeroHeads);
            }
        },
        None => {},
    }
    Ok(config_from_hfq(hfq))
}

// Tensors.

/// The product of the first `n` extents of a shape.
pub open spec fn extent(shape: Seq<usize>, n: nat) -> int
    decreases n,
{
    if n == 0 {
        1
    } else {
        extent(shape, (n - 1) as nat) * shape[n - 1]
    }
}

/// The numbers of an unquantized tensor whose shape must hold `expected` of them.
pub fn load_f32_vec(quant_type: u8, shape: &Vec<usize>, data: &[u8], expected: usize) -> (r: Result<
    Vec<F32>,
    TensorError,
>)
    requires
        forall|k: nat| k <= shape@.len() ==> #[trigger] extent(shape@, k) <= usize::MAX,
    ensures
        match r {
            Ok(v) => {
                &&& extent(shape@, shape@.len()) == expected
                &&& crate::quant::plain(quant_type, data@) == Some(v@)
            },
            Err(TensorError::Shape { expected: e, got }) => {
                &&& e == expected
                &&& got == extent(shape@, shape@.len())
                &&& got != expected
            },
            Err(TensorError::QuantType(q)) => {
                &&& q == quant_type
                &&& extent(shape@, shape@.len()) == expected
                &&& crate::quant::plain(quant_type, data@) is None
            },
        },
{
    let mut n: usize = 1;
    let mut i: usize = 0;
    while i < shape.len()
        invariant
            i <= shape@.len(),
            n == extent(shape@, i as nat),
            forall|k: nat| k <= shape@.len() ==> #[trigger] extent(shape@, k) <= usize::MAX,
        decreases shape@.len() - i,
    {
        proof {
            assert(extent(shape@, (i + 1) as nat) <= usize::MAX);
            assert(0 <= n * shape@[i as int]) by (nonlinear_arith)
                requires
                    n >= 0,
                    shape@[i as int] >= 0,
            ;
        }
        n = n * shape[i];
        i = i + 1;
    }
    if n != expected {
        return Err(TensorError::Shape { expected, got: n });
    }
    decode_plain(quant_type, data)
}

/// A weight of `m` rows of `k` from its stored bytes: half precision as single,
/// quantized ones as stored.
pub fn load_gemma4_weight(quant_type: u8, data: &[u8], m: usize, k: usize) -> (r: Result<
    (WeightInfo, Upload),
    TensorError,
>)
    ensures
        match r {
            Ok((info, up)) => {
                &&& info.m == m && info.k == k
                &&& match up {
                    Upload::Halves(_) => false,
                    Upload::Raw => crate::quant::raw_dtype(quant_type) == Some(info.dtype),
                    Upload::Singles(v) => {
                        &&& quant_type == 1
                        &&& info.dtype == DType::F32
                        &&& v@ == crate::quant::halves(data@)
                    },
                }
            },
            Err(e) => {
                &&& crate::quant::raw_dtype(quant_type) is None
                &&& quant_type != 1
                &&& e == TensorError::QuantType(quant_type)
            },
        },
{
    if quant_type == 1 {
        return Ok((WeightInfo { dtype: DType::F32, m, k }, Upload::Singles(decode_f16(data))));
    }
    match raw_dtype_of(quant_type) {
        Some(dtype) => Ok((WeightInfo { dtype, m, k }, Upload::Raw)),
        None => Err(TensorError::QuantType(quant_type)),
    }
}

/// Why the weights of a layer's experts cannot be pooled.
#[allow(inconsistent_fields)]
#[derive(Debug, Clone, Copy, PartialEq, Eq, Structural)]
pub enum PoolError {
    /// The first expert's storage type has no kernels.
    QuantType(u8),
    /// An expert has another number of bytes than the first.
    Size { expert: usize, got: usize, expected: usize },
    /// An expert has another storage type than the first.
    Mixed { expert: usize, got: u8, expected: u8 },
}

/// The weights of a layer's experts, one after the other.
pub struct Pool {
    pub dtype: DType,
    pub bytes_per_expert: usize,
    pub bytes: Vec<u8>,
}

/// The bytes of the first `n` experts, one after the other.
pub open spec fn pooled(data: Seq<Vec<u8>>, n: nat) -> Seq<u8>
    decreases n,
{
    if n == 0 {
        Seq::empty()
    } else {
        pooled(data, (n - 1) as nat) + data[n - 1]@
    }
}

/// Expert `x` is like the first.
pub open spec fn alike(quant_types: Seq<u8>, data: Seq<Vec<u8>>, x: int) -> bool {
    data[x]@.len() == data[0]@.len() && quant_types[x] == quant_types[0]
}

/// Pools the weights of a layer's experts: all alike, one after the other.
pub fn build_pool(quant_types: &Vec<u8>, data: &Vec<Vec<u8>>) -> (r: Result<Pool, PoolError>)
    requires
        quant_types@.len() == data@.len(),
        data@.len() >= 1,
    ensures
        match r {
            Ok(p) => {
                &&& crate::quant::raw_dtype(quant_types@[0]) == Some(p.dtype)
                &&& forall|x: int| 0 <= x < data@.len() ==> #[trigger] alike(quant_types@, data@, x)
                &&& p.bytes_per_expert == data@[0]@.len()
                &&& p.bytes@ == pooled(data@, data@.len())
            },
            Err(PoolError::QuantType(q)) => q == quant_types@[0] && crate::quant::raw_dtype(
                q,
            ) is None,
            Err(PoolError::Size { expert, got, expected }) => {
                &&& crate::quant::raw_dtype(quant_types@[0]) is Some
                &&& expert < data@.len()
                &&& forall|x: int| 0 <= x < expert ==> #[trigger] alike(quant_types@, data@, x)
                &&& got == data@[expert as int]@.len()
                &&& expected == data@[0]@.len()
                &&& got != expected
            },
            Err(PoolError::Mixed { expert, got, expected }) => {
                &&& crate::quant::raw_dtype(quant_types@[0]) is Some
                &&& expert < data@.len()
                &&& forall|x: int| 0 <= x < expert ==> #[trigger] alike(quant_types@, data@, x)
                &&& data@[expert as int]@.len() == data@[0]@.len()
                &&& got == quant_types@[expert as int]
                &&& expected == quant_types@[0]
                &&& got != expected
            },
        },
{
    let dtype: DType = match raw_dtype_of(quant_types[0]) {
        Some(d) => d,
        None => return Err(PoolError::QuantType(quant_types[0])),
    };
    let bytes_per_expert: usize = data[0].len();
    let mut bytes: Vec<u8> = Vec::new();
    let mut x: usize = 0;
    while x < data.len()
        invariant
            x <= data@.len() == quant_types@.len(),
            data@.len() >= 1,
            crate::quant::raw_dtype(quant_types@[0]) == Some(dtype),
            bytes_per_expert == data@[0]@.len(),
            forall|k: int| 0 <= k < x ==> #[trigger] alike(quant_types@, data@, k),
            bytes@ == pooled(data@, x as nat),
        decreases data@.len() - x,
    {
        let got: usize = data[x].len();
        if got != bytes_per_expert {
            return Err(PoolError::Size { expert: x, got, expected: bytes_per_expert });
        }
        if quant_types[x] != quant_types[0] {
            return Err(
                PoolError::Mixed { expert: x, got: quant_types[x], expected: quant_types[0] },
            );
        }
        bytes = crate::quant::concat_rows(bytes, &data[x]);
        assert(alike(quant_types@, data@, x as int));
        x = x + 1;
    }
    Ok(Pool { dtype, bytes_per_expert, bytes })
}

proof fn lemma_pool_len(quant_types: Seq<u8>, data: Seq<Vec<u8>>, n: nat)
    requires
        n <= data.len(),
        forall|x: int| 0 <= x < data.len() ==> #[trigger] alike(quant_types, data, x),
    ensures
        pooled(data, n).len() == n * data[0]@.len(),
    decreases n,
{
    let b = data[0]@.len();
    if n > 0 {
        lemma_pool_len(quant_types, data, (n - 1) as nat);
        assert(alike(quant_types, data, n - 1));
        assert((n - 1) * b + b == n * b) by (nonlinear_arith);
    } else {
        assert(0 * b == 0);
    }
}

/// The share of expert `x` in a pool is its own weights.
pub proof fn law_pool_holds_experts(quant_types: Seq<u8>, data: Seq<Vec<u8>>, n: nat, x: int)
    requires
        n <= data.len(),
        forall|x: int| 0 <= x < data.len() ==> #[trigger] alike(quant_types, data, x),
        0 <= x < n,
    ensures
        (x + 1) * data[0]@.len() <= pooled(data, n).len(),
        pooled(data, n).subrange(x * data[0]@.len(), (x + 1) * data[0]@.len()) == data[x]@,
    decreases n,
{
    let b = data[0]@.len() as int;
    let m = (n - 1) as nat;
    lemma_pool_len(quant_types, data, n);
    lemma_pool_len(quant_types, data, m);
    assert(alike(quant_types, data, n - 1));
    assert((x + 1) * b == x * b + b && 0 <= x * b && (x + 1) * b <= n * b) by (nonlinear_arith)
        requires
            0 <= x < n,
            b >= 0,
    ;
    if x == n - 1 {
        assert(pooled(data, n).subrange(x * b, (x + 1) * b) =~= data[x]@);
    } else {
        law_pool_holds_experts(quant_types, data, m, x);
        assert(pooled(data, n).subrange(x * b, (x + 1) * b) =~= pooled(data, m).subrange(
            x * b,
            (x + 1) * b,
        ));
    }
}

/// An embedding table: four- and eight-bit ones as stored, half precision as
/// single, nothing else.
pub fn load_embeddings(quant_type: u8, data: &[u8]) -> (r: Result<
    (EmbeddingFormat, Upload),
    TensorError,
>)
    ensures
        match r {
            Ok((_, Upload::Halves(_))) => false,
            Ok((f, Upload::Raw)) => {
                ||| quant_type == 3 && f == EmbeddingFormat::Q8_0
                ||| quant_type == 6 && f == EmbeddingFormat::HFQ4G256
                ||| quant_type == 7 && f == EmbeddingFormat::HFQ4G128
            },
            Ok((f, Upload::Singles(v))) => quant_type == 1 && f == EmbeddingFormat::F32 && v@
                == crate::quant::halves(data@),
            Err(e) => quant_type != 1 && quant_type != 3 && quant_type != 6 && quant_type != 7 && e
                == TensorError::QuantType(quant_type),
        },
{
    match quant_type {
        3 => Ok((EmbeddingFormat::Q8_0, Upload::Raw)),
        6 => Ok((EmbeddingFormat::HFQ4G256, Upload::Raw)),
        7 => Ok((EmbeddingFormat::HFQ4G128, Upload::Raw)),
        1 => Ok((EmbeddingFormat::F32, Upload::Singles(decode_f16(data)))),
        _ => Err(TensorError::QuantType(quant_type)),
    }
}

/// The element type of the embedding table when it serves as the output matrix.
pub open spec fn tied_dtype(format: EmbeddingFormat) -> DType {
    match format {
        EmbeddingFormat::Q8_0 => DType::Q8_0,
        EmbeddingFormat::HFQ4G256 => DType::HFQ4G256,
        EmbeddingFormat::HFQ4G128 => DType::HFQ4G128,
        EmbeddingFormat::F32 => DType::F32,
        EmbeddingFormat::Q4K => DType::Q4K,
    }
}

/// The element type of the embedding table when it serves as the output matrix.
pub fn tied_dtype_of(format: EmbeddingFormat) -> (r: DType)
    ensures
        r == tied_dtype(format),
{
    match format {
        EmbeddingFormat::Q8_0 => DType::Q8_0,
        EmbeddingFormat::HFQ4G256 => DType::HFQ4G256,
        EmbeddingFormat::HFQ4G128 => DType::HFQ4G128,
        EmbeddingFormat::F32 => DType::F32,
        EmbeddingFormat::Q4K => DType::Q4K,
    }
}

/// The output matrix: the embedding table itself.
pub fn tied_lm_head(format: EmbeddingFormat, c: &Gemma4Config) -> (r: WeightInfo)
    ensures
        r == (WeightInfo { dtype: tied_dtype(format), m: c.vocab_size, k: c.dim }),
{
    WeightInfo { dtype: tied_dtype_of(format), m: c.vocab_size, k: c.dim }
}

/// Heads, head size and key/value heads of a kind of layer.
pub open spec fn head_dim(c: Gemma4Config, kind: LayerType) -> usize {
    if kind == LayerType::Sliding {
        c.sliding_head_dim
    } else {
        c.full_head_dim
    }
}

pub open spec fn n_kv_heads(c: Gemma4Config, kind: LayerType) -> usize {
    if kind == LayerType::Sliding {
        c.sliding_n_kv_heads
    } else {
        c.full_n_kv_heads
    }
}

impl Gemma4Config {
    /// Width of the queries in a kind of layer.
    pub open spec fn q_dim(self, kind: LayerType) -> int {
        self.n_heads * head_dim(self, kind)
    }

    /// Width of the keys in a kind of layer.
    pub open spec fn kv_dim(self, kind: LayerType) -> int {
        n_kv_heads(self, kind) * head_dim(self, kind)
    }

    /// The sizes of all weights can be told.
    pub open spec fn weights_fit(self) -> bool {
        &&& self.q_dim(LayerType::Sliding) <= usize::MAX
        &&& self.q_dim(LayerType::Full) <= usize::MAX
        &&& self.kv_dim(LayerType::Sliding) <= usize::MAX
        &&& self.kv_dim(LayerType::Full) <= usize::MAX
        &&& 2 * self.moe_intermediate_size <= usize::MAX
    }
}

pub fn head_dim_of(c: &Gemma4Config, kind: LayerType) -> (r: usize)
    ensures
        r == head_dim(*c, kind),
{
    if kind == LayerType::Sliding {
        c.sliding_head_dim
    } else {
        c.full_head_dim
    }
}

pub fn n_kv_heads_of(c: &Gemma4Config, kind: LayerType) -> (r: usize)
    ensures
        r == n_kv_heads(*c, kind),
{
    if kind == LayerType::Sliding {
        c.sliding_n_kv_heads
    } else {
        c.full_n_kv_heads
    }
}

/// The start of the names of layer tensors.
pub open spec fn tensor(
    place: Gemma4Wt,
    i: nat,
    tail: Seq<char>,
    kind: LoadKind,
    m: nat,
    k: nat,
) -> crate::names::Tensor<Gemma4Wt> {
    crate::names::Tensor {
        place,
        name: crate::names::numbered("model.language_model.layers."@, i, tail),
        kind,
        m,
        k,
    }
}

/// A tensor of expert `x` of layer `i`.
pub open spec fn expert_tensor(
    i: nat,
    x: nat,
    part: ExpertPart,
    tail: Seq<char>,
    m: nat,
    k: nat,
) -> crate::names::Tensor<Gemma4Wt> {
    crate::names::Tensor {
        place: Gemma4Wt::Expert(i as usize, x as usize, part),
        name: crate::names::numbered(
            crate::names::numbered("model.language_model.layers."@, i, ".experts."@),
            x,
            tail,
        ),
        kind: LoadKind::Pooled { back: x as usize },
        m,
        k,
    }
}

/// The tensors of the first `n` experts of layer `i`.
pub open spec fn expert_tensors(
    i: nat,
    part: ExpertPart,
    tail: Seq<char>,
    m: nat,
    k: nat,
    n: nat,
) -> Seq<crate::names::Tensor<Gemma4Wt>> {
    Seq::new(n, |x: int| expert_tensor(i, x as nat, part, tail, m, k))
}

/// How many experts are read: the first in any case.
pub open spec fn read_experts(c: Gemma4Config) -> nat {
    if c.num_experts == 0 {
        1
    } else {
        c.num_experts as nat
    }
}

/// The tensors of the experts of layer `i`: the router, then all gates and
/// projections up, then all projections down.
pub open spec fn moe_tensors(c: Gemma4Config, i: nat) -> Seq<crate::names::Tensor<Gemma4Wt>> {
    let dim = c.dim as nat;
    let ne = c.num_experts as nat;
    let mi = c.moe_intermediate_size as nat;
    seq![
        tensor(
            Gemma4Wt::Layer(i as usize, LayerPart::RouterProj),
            i,
            ".router.proj.weight"@,
            LoadKind::AnyWeight,
            ne,
            dim,
        ),
        tensor(
            Gemma4Wt::Layer(i as usize, LayerPart::RouterScale),
            i,
            ".router.scale"@,
            LoadKind::Shaped,
            1,
            dim,
        ),
        tensor(
            Gemma4Wt::Layer(i as usize, LayerPart::PerExpertScale),
            i,
            ".router.per_expert_scale"@,
            LoadKind::Shaped,
            1,
            ne,
        ),
        tensor(
            Gemma4Wt::Layer(i as usize, LayerPart::PreFfnNorm2),
            i,
            ".pre_feedforward_layernorm_2.weight"@,
            LoadKind::Shaped,
            1,
            dim,
        ),
        tensor(
            Gemma4Wt::Layer(i as usize, LayerPart::PostFfnNorm1),
            i,
            ".post_feedforward_layernorm_1.weight"@,
            LoadKind::Shaped,
            1,
            dim,
        ),
        tensor(
            Gemma4Wt::Layer(i as usize, LayerPart::PostFfnNorm2),
            i,
            ".post_feedforward_layernorm_2.weight"@,
            LoadKind::Shaped,
            1,
            dim,
        ),
    ] + expert_tensors(
        i,
        ExpertPart::GateUp,
        ".gate_up_proj.weight"@, 2 * mi, dim, read_experts(c)) + expert_tensors(
        i,
        ExpertPart::Down,
        ".down_proj.weight"@,
        dim,
        mi,
        read_experts(c),
    )
}

/// The norms of layer `i`.
pub open spec fn norm_tensors(c: Gemma4Config, i: nat) -> Seq<crate::names::Tensor<Gemma4Wt>> {
    let dim = c.dim as nat;
    seq![
        tensor(
            Gemma4Wt::Layer(i as usize, LayerPart::InputNorm),
            i,
            ".input_layernorm.weight"@,
            LoadKind::Shaped,
            1,
            dim,
        ),
        tensor(
            Gemma4Wt::Layer(i as usize, LayerPart::PostAttnNorm),
            i,
            ".post_attention_layernorm.weight"@,
            LoadKind::Shaped,
            1,
            dim,
        ),
        tensor(
            Gemma4Wt::Layer(i as usize, LayerPart::PreFfnNorm),
            i,
            ".pre_feedforward_layernorm.weight"@,
            LoadKind::Shaped,
            1,
            dim,
        ),
        tensor(
            Gemma4Wt::Layer(i as usize, LayerPart::PostFfnNorm),
            i,
            ".post_feedforward_layernorm.weight"@,
            LoadKind::Shaped,
            1,
            dim,
        ),
    ]
}

/// The attention of layer `i`: a full layer has no value projection.
pub open spec fn attn_tensors(c: Gemma4Config, kind: LayerType, i: nat) -> Seq<
    crate::names::Tensor<Gemma4Wt>,
> {
    let dim = c.dim as nat;
    let q = c.q_dim(kind) as nat;
    let kv = c.kv_dim(kind) as nat;
    let hd = head_dim(c, kind) as nat;
    if kind == LayerType::Sliding {
        seq![
            tensor(
                Gemma4Wt::Layer(i as usize, LayerPart::QProj),
                i,
                ".self_attn.q_proj.weight"@,
                LoadKind::AnyWeight,
                q,
                dim,
            ),
            tensor(
                Gemma4Wt::Layer(i as usize, LayerPart::KProj),
                i,
                ".self_attn.k_proj.weight"@,
                LoadKind::AnyWeight,
                kv,
                dim,
            ),
            tensor(
                Gemma4Wt::Layer(i as usize, LayerPart::VProj),
                i,
                ".self_attn.v_proj.weight"@,
                LoadKind::AnyWeight,
                kv,
                dim,
            ),
            tensor(
                Gemma4Wt::Layer(i as usize, LayerPart::OProj),
                i,
                ".self_attn.o_proj.weight"@,
                LoadKind::AnyWeight,
                dim,
                q,
            ),
            tensor(
                Gemma4Wt::Layer(i as usize, LayerPart::QNorm),
                i,
                ".self_attn.q_norm.weight"@,
                LoadKind::Shaped,
                1,
                hd,
            ),
            tensor(
                Gemma4Wt::Layer(i as usize, LayerPart::KNorm),
                i,
                ".self_attn.k_norm.weight"@,
                LoadKind::Shaped,
                1,
                hd,
            ),
        ]
    } else {
        seq![
            tensor(
                Gemma4Wt::Layer(i as usize, LayerPart::QProj),
                i,
                ".self_attn.q_proj.weight"@,
                LoadKind::AnyWeight,
                q,
                dim,
            ),
            tensor(
                Gemma4Wt::Layer(i as usize, LayerPart::KProj),
                i,
                ".self_attn.k_proj.weight"@,
                LoadKind::AnyWeight,
                kv,
                dim,
            ),
            tensor(
                Gemma4Wt::Layer(i as usize, LayerPart::OProj),
                i,
                ".self_attn.o_proj.weight"@,
                LoadKind::AnyWeight,
                dim,
                q,
            ),
            tensor(
                Gemma4Wt::Layer(i as usize, LayerPart::QNorm),
                i,
                ".self_attn.q_norm.weight"@,
                LoadKind::Shaped,
                1,
                hd,
            ),
            tensor(
                Gemma4Wt::Layer(i as usize, LayerPart::KNorm),
                i,
                ".self_attn.k_norm.weight"@,
                LoadKind::Shaped,
                1,
                hd,
            ),
        ]
    }
}

/// The feed-forward part of layer `i`.
pub open spec fn ffn_tensors(c: Gemma4Config, i: nat) -> Seq<crate::names::Tensor<Gemma4Wt>> {
    let dim = c.dim as nat;
    let hidden = c.hidden_dim as nat;
    seq![
        tensor(
            Gemma4Wt::Layer(i as usize, LayerPart::GateProj),
            i,
            ".mlp.gate_proj.weight"@,
            LoadKind::AnyWeight,
            hidden,
            dim,
        ),
        tensor(
            Gemma4Wt::Layer(i as usize, LayerPart::UpProj),
            i,
            ".mlp.up_proj.weight"@,
            LoadKind::AnyWeight,
            hidden,
            dim,
        ),
        tensor(
            Gemma4Wt::Layer(i as usize, LayerPart::DownProj),
            i,
            ".mlp.down_proj.weight"@,
            LoadKind::AnyWeight,
            dim,
            hidden,
        ),
    ]
}

/// The tensors of layer `i`, in the order in which they are loaded.
#[verifier::opaque]
pub open spec fn layer_tensors(c: Gemma4Config, kind: LayerType, i: nat) -> Seq<
    crate::names::Tensor<Gemma4Wt>,
> {
    seq![
        tensor(
            Gemma4Wt::Layer(i as usize, LayerPart::LayerScalar),
            i,
            ".layer_scalar"@,
            LoadKind::Scalar,
            1,
            1,
        ),
    ] + (if c.enable_moe_block {
        moe_tensors(c, i)
    } else {
        Seq::empty()
    }) + norm_tensors(c, i) + attn_tensors(c, kind, i) + ffn_tensors(c, i)
}

/// The tensors of the first `n` layers.
pub open spec fn layers_tensors(c: Gemma4Config, n: nat) -> Seq<crate::names::Tensor<Gemma4Wt>>
    decreases n,
{
    if n == 0 {
        Seq::empty()
    } else {
        layers_tensors(c, (n - 1) as nat) + layer_tensors(
            c,
            c.layer_types@[n - 1],
            (n - 1) as nat,
        )
    }
}

fn push_experts(
    v: &mut Vec<TensorSpec<Gemma4Wt>>,
    i: usize,
    part: ExpertPart,
    tail: &str,
    m: usize,
    k: usize,
    n: usize,
)
    ensures
        crate::names::tensors(final(v)@) == crate::names::tensors(old(v)@) + expert_tensors(
            i as nat,
            part,
            tail@,
            m as nat,
            k as nat,
            n as nat,
        ),
{
    let ghost before = crate::names::tensors(v@);
    let mut x: usize = 0;
    assert(before + expert_tensors(i as nat, part, tail@, m as nat, k as nat, 0) =~= before);
    while x < n
        invariant
            x <= n,
            crate::names::tensors(v@) == before + expert_tensors(
                i as nat,
                part,
                tail@,
                m as nat,
                k as nat,
                x as nat,
            ),
        decreases n - x,
    {
        let mut name: String = numbered_name("model.language_model.layers.", i, ".experts.");
        push_decimal(&mut name, x);
        name.append(tail);
        assert(name@ =~= expert_tensor(i as nat, x as nat, part, tail@, m as nat, k as nat).name);
        push_tensor(
            v,
            Gemma4Wt::Expert(i, x, part),
            name,
            LoadKind::Pooled { back: x },
            m,
            k,
        );
        assert(crate::names::tensors(v@) =~= before + expert_tensors(
            i as nat,
            part,
            tail@,
            m as nat,
            k as nat,
            (x + 1) as nat,
        ));
        x = x + 1;
    }
}

fn push_moe(v: &mut Vec<TensorSpec<Gemma4Wt>>, c: &Gemma4Config, i: usize)
    requires
        c.weights_fit(),
    ensures
        crate::names::tensors(final(v)@) == crate::names::tensors(old(v)@) + moe_tensors(
            *c,
            i as nat,
        ),
{
    let ghost before = crate::names::tensors(v@);
    let dim: usize = c.dim;
    let ne: usize = c.num_experts;
    let mi: usize = c.moe_intermediate_size;
    push_tensor(
        v,
        Gemma4Wt::Layer(i, LayerPart::RouterProj),
        numbered_name("model.language_model.layers.", i, ".router.proj.weight"),
        LoadKind::AnyWeight,
        ne,
        dim,
    );
    push_tensor(
        v,
        Gemma4Wt::Layer(i, LayerPart::RouterScale),
        numbered_name("model.language_model.layers.", i, ".router.scale"),
        LoadKind::Shaped,
        1,
        dim,
    );
    push_tensor(
        v,
        Gemma4Wt::Layer(i, LayerPart::PerExpertScale),
        numbered_name("model.language_model.layers.", i, ".router.per_expert_scale"),
        LoadKind::Shaped,
        1,
        ne,
    );
    push_tensor(
        v,
        Gemma4Wt::Layer(i, LayerPart::PreFfnNorm2),
        numbered_name("model.language_model.layers.", i, ".pre_feedforward_layernorm_2.weight"),
        LoadKind::Shaped,
        1,
        dim,
    );
    push_tensor(
        v,
        Gemma4Wt::Layer(i, LayerPart::PostFfnNorm1),
        numbered_name("model.language_model.layers.", i, ".post_feedforward_layernorm_1.weight"),
        LoadKind::Shaped,
        1,
        dim,
    );
    push_tensor(
        v,
        Gemma4Wt::Layer(i, LayerPart::PostFfnNorm2),
        numbered_name("model.language_model.layers.", i, ".post_feedforward_layernorm_2.weight"),
        LoadKind::Shaped,
        1,
        dim,
    );
    let n: usize = if ne == 0 {
        1
    } else {
        ne
    };
    push_experts(v, i, ExpertPart::GateUp, ".gate_up_proj.weight", 2 * mi, dim, n);
    push_experts(v, i, ExpertPart::Down, ".down_proj.weight", dim, mi, n);
    assert(crate::names::tensors(v@) =~= before + moe_tensors(*c, i as nat));
}

fn push_norms(v: &mut Vec<TensorSpec<Gemma4Wt>>, c: &Gemma4Config, i: usize)
    ensures
        crate::names::tensors(final(v)@) == crate::names::tensors(old(v)@) + norm_tensors(
            *c,
            i as nat,
        ),
{
    let ghost before = crate::names::tensors(v@);
    let dim: usize = c.dim;
    push_tensor(
        v,
        Gemma4Wt::Layer(i, LayerPart::InputNorm),
        numbered_name("model.language_model.layers.", i, ".input_layernorm.weight"),
        LoadKind::Shaped,
        1,
        dim,
    );
    push_tensor(
        v,
        Gemma4Wt::Layer(i, LayerPart::PostAttnNorm),
        numbered_name("model.language_model.layers.", i, ".post_attention_layernorm.weight"),
        LoadKind::Shaped,
        1,
        dim,
    );
    push_tensor(
        v,
        Gemma4Wt::Layer(i, LayerPart::PreFfnNorm),
        numbered_name("model.language_model.layers.", i, ".pre_feedforward_layernorm.weight"),
        LoadKind::Shaped,
        1,
        dim,
    );
    push_tensor(
        v,
        Gemma4Wt::Layer(i, LayerPart::PostFfnNorm),
        numbered_name("model.language_model.layers.", i, ".post_feedforward_layernorm.weight"),
        LoadKind::Shaped,
        1,
        dim,
    );
    assert(crate::names::tensors(v@) =~= before + norm_tensors(*c, i as nat));
}

fn push_attn(v: &mut Vec<TensorSpec<Gemma4Wt>>, c: &Gemma4Config, kind: LayerType, i: usize)
    requires
        c.weights_fit(),
    ensures
        crate::names::tensors(final(v)@) == crate::names::tensors(old(v)@) + attn_tensors(
            *c,
            kind,
            i as nat,
        ),
{
    let ghost before = crate::names::tensors(v@);
    proof {
        assert(kind == LayerType::Sliding || kind == LayerType::Full);
        let h = head_dim(*c, kind);
        let n = n_kv_heads(*c, kind);
        assert(0 <= c.n_heads * h && 0 <= n * h) by (nonlinear_arith);
    }
    let dim: usize = c.dim;
    let hd: usize = head_dim_of(c, kind);
    let q: usize = c.n_heads * hd;
    let kv: usize = n_kv_heads_of(c, kind) * hd;
    push_tensor(
        v,
        Gemma4Wt::Layer(i, LayerPart::QProj),
        numbered_name("model.language_model.layers.", i, ".self_attn.q_proj.weight"),
        LoadKind::AnyWeight,
        q,
        dim,
    );
    push_tensor(
        v,
        Gemma4Wt::Layer(i, LayerPart::KProj),
        numbered_name("model.language_model.layers.", i, ".self_attn.k_proj.weight"),
        LoadKind::AnyWeight,
        kv,
        dim,
    );
    if kind == LayerType::Sliding {
        push_tensor(
        v,
        Gemma4Wt::Layer(i, LayerPart::VProj),
        numbered_name("model.language_model.layers.", i, ".self_attn.v_proj.weight"),
            LoadKind::AnyWeight,
            kv,
            dim,
        );
    }
    push_tensor(
        v,
        Gemma4Wt::Layer(i, LayerPart::OProj),
        numbered_name("model.language_model.layers.", i, ".self_attn.o_proj.weight"),
        LoadKind::AnyWeight,
        dim,
        q,
    );
    push_tensor(
        v,
        Gemma4Wt::Layer(i, LayerPart::QNorm),
        numbered_name("model.language_model.layers.", i, ".self_attn.q_norm.weight"),
        LoadKind::Shaped,
        1,
        hd,
    );
    push_tensor(
        v,
        Gemma4Wt::Layer(i, LayerPart::KNorm),
        numbered_name("model.language_model.layers.", i, ".self_attn.k_norm.weight"),
        LoadKind::Shaped,
        1,
        hd,
    );
    assert(crate::names::tensors(v@) =~= before + attn_tensors(*c, kind, i as nat));
}

fn push_ffn(v: &mut Vec<TensorSpec<Gemma4Wt>>, c: &Gemma4Config, i: usize)
    ensures
        crate::names::tensors(final(v)@) == crate::names::tensors(old(v)@) + ffn_tensors(
            *c,
            i as nat,
        ),
{
    let ghost before = crate::names::tensors(v@);
    let dim: usize = c.dim;
    let hidden: usize = c.hidden_dim;
    push_tensor(
        v,
        Gemma4Wt::Layer(i, LayerPart::GateProj),
        numbered_name("model.language_model.layers.", i, ".mlp.gate_proj.weight"),
        LoadKind::AnyWeight,
        hidden,
        dim,
    );
    push_tensor(
        v,
        Gemma4Wt::Layer(i, LayerPart::UpProj),
        numbered_name("model.language_model.layers.", i, ".mlp.up_proj.weight"),
        LoadKind::AnyWeight,
        hidden,
        dim,
    );
    push_tensor(
        v,
        Gemma4Wt::Layer(i, LayerPart::DownProj),
        numbered_name("model.language_model.layers.", i, ".mlp.down_proj.weight"),
        LoadKind::AnyWeight,
        dim,
        hidden,
    );
    assert(crate::names::tensors(v@) =~= before + ffn_tensors(*c, i as nat));
}

fn push_layer(v: &mut Vec<TensorSpec<Gemma4Wt>>, c: &Gemma4Config, kind: LayerType, i: usize)
    requires
        c.weights_fit(),
    ensures
        crate::names::tensors(final(v)@) == crate::names::tensors(old(v)@) + layer_tensors(
            *c,
            kind,
            i as nat,
        ),
{
    let ghost before = crate::names::tensors(v@);
    push_tensor(
        v,
        Gemma4Wt::Layer(i, LayerPart::LayerScalar),
        numbered_name("model.language_model.layers.", i, ".layer_scalar"),
        LoadKind::Scalar,
        1,
        1,
    );
    let ghost first = seq![
        tensor(
            Gemma4Wt::Layer(i, LayerPart::LayerScalar),
            i as nat,
            ".layer_scalar"@,
            LoadKind::Scalar,
            1,
            1,
        ),
    ];
    assert(crate::names::tensors(v@) =~= before + first);
    if c.enable_moe_block {
        push_moe(v, c, i);
    }
    push_norms(v, c, i);
    push_attn(v, c, kind, i);
    push_ffn(v, c, i);
    proof {
        reveal(layer_tensors);
        let moe = if c.enable_moe_block {
            moe_tensors(*c, i as nat)
        } else {
            Seq::empty()
        };
        let norms = norm_tensors(*c, i as nat);
        let attn = attn_tensors(*c, kind, i as nat);
        let ffn = ffn_tensors(*c, i as nat);
        assert(before + first + moe + norms + attn + ffn =~= before + (first + moe + norms + attn
            + ffn));
        if !c.enable_moe_block {
            assert(before + first + moe =~= before + first);
        }
    }
}

/// The embedding table and the final norm.
pub open spec fn head_tensors(c: Gemma4Config) -> Seq<crate::names::Tensor<Gemma4Wt>> {
    seq![
        crate::names::Tensor {
            place: Gemma4Wt::EmbedTokens,
            name: "model.language_model.embed_tokens.weight"@,
            kind: LoadKind::Embedding,
            m: c.vocab_size as nat,
            k: c.dim as nat,
        },
        crate::names::Tensor {
            place: Gemma4Wt::FinalNorm,
            name: "model.language_model.norm.weight"@,
            kind: LoadKind::Shaped,
            m: 1,
            k: c.dim as nat,
        },
    ]
}

/// All the tensors of the model, in the order in which they are loaded.
pub open spec fn all_tensors(c: Gemma4Config) -> Seq<crate::names::Tensor<Gemma4Wt>> {
    head_tensors(c) + layers_tensors(c, c.n_layers as nat)
}

/// The tensors to load, in order.
pub fn load_weights(c: &Gemma4Config) -> (v: Vec<TensorSpec<Gemma4Wt>>)
    requires
        c.weights_fit(),
        c.layer_types@.len() >= c.n_layers,
    ensures
        crate::names::tensors(v@) == all_tensors(*c),
{
    let mut v: Vec<TensorSpec<Gemma4Wt>> = Vec::new();
    assert(crate::names::tensors(v@) =~= Seq::<crate::names::Tensor<Gemma4Wt>>::empty());
    push_tensor(
        &mut v,
        Gemma4Wt::EmbedTokens,
        "model.language_model.embed_tokens.weight".to_owned(),
        LoadKind::Embedding,
        c.vocab_size,
        c.dim,
    );
    push_tensor(
        &mut v,
        Gemma4Wt::FinalNorm,
        "model.language_model.norm.weight".to_owned(),
        LoadKind::Shaped,
        1,
        c.dim,
    );
    let ghost head = crate::names::tensors(v@);
    assert(head + layers_tensors(*c, 0) =~= head);
    let mut i: usize = 0;
    while i < c.n_layers
        invariant
            i <= c.n_layers <= c.layer_types@.len(),
            c.weights_fit(),
            crate::names::tensors(v@) == head + layers_tensors(*c, i as nat),
        decreases c.n_layers - i,
    {
        push_layer(&mut v, c, c.layer_types[i], i);
        assert(crate::names::tensors(v@) =~= head + layers_tensors(*c, (i + 1) as nat));
        i = i + 1;
    }
    assert(head =~= head_tensors(*c));
    v
}

// Weights.

/// The parts of a layer.
#[derive(Debug, Clone, Copy, PartialEq, Eq, Structural)]
pub enum LayerPart {
    InputNorm,
    PostAttnNorm,
    PreFfnNorm,
    PostFfnNorm,
    LayerScalar,
    QNorm,
    KNorm,
    QProj,
    KProj,
    VProj,
    OProj,
    GateProj,
    UpProj,
    DownProj,
    RouterProj,
    RouterScale,
    PerExpertScale,
    PreFfnNorm2,
    PostFfnNorm1,
    PostFfnNorm2,
    GateUpPool,
    DownPool,
    GateUpPtrs,
    DownPtrs,
}

/// The two matrices of an expert.
#[derive(Debug, Clone, Copy, PartialEq, Eq, Structural)]
pub enum ExpertPart {
    /// Gate and projection up, one above the other.
    GateUp,
    Down,
}

/// The weights of the model.
#[derive(Debug, Clone, Copy, PartialEq, Eq, Structural)]
pub enum Gemma4Wt {
    EmbedTokens,
    LmHead,
    FinalNorm,
    /// The ones in `VNormOnes`.
    Ones,
    Layer(usize, LayerPart),
    /// A share of a layer's pool: layer, expert, matrix.
    Expert(usize, usize, ExpertPart),
}

/// What a layer's experts are like.
#[derive(Debug, Clone, Copy)]
pub struct MoeLayerExtras {
    pub router_proj: WeightInfo,
    /// Gate and projection up of every expert.
    pub gate_up: WeightInfo,
    /// Projection down of every expert.
    pub down: WeightInfo,
}

/// What a sliding layer is like.
#[derive(Debug, Clone, Copy)]
pub struct SlidingLayerWeights {
    pub common: LayerCommon,
    pub v_proj: WeightInfo,
}

/// What a full layer is like: its values come from its keys.
#[derive(Debug, Clone, Copy)]
pub struct FullLayerWeights {
    pub common: LayerCommon,
}

/// What the two kinds of layers share.
#[derive(Debug, Clone, Copy)]
pub struct LayerCommon {
    /// What the layer's result is multiplied by.
    pub layer_scalar_host: F32,
    pub q_proj: WeightInfo,
    pub k_proj: WeightInfo,
    pub o_proj: WeightInfo,
    pub gate_proj: WeightInfo,
    pub up_proj: WeightInfo,
    pub down_proj: WeightInfo,
    pub moe: Option<MoeLayerExtras>,
}

#[derive(Debug, Clone, Copy)]
pub enum LayerWeights {
    Sliding(SlidingLayerWeights),
    Full(FullLayerWeights),
}

/// What the model's weights are like.
#[derive(Debug, Clone)]
pub struct Gemma4Weights {
    pub embd_format: EmbeddingFormat,
    pub lm_head: WeightInfo,
    pub layers: Vec<LayerWeights>,
}

pub open spec fn common_of(w: LayerWeights) -> LayerCommon {
    match w {
        LayerWeights::Sliding(s) => s.common,
        LayerWeights::Full(f) => f.common,
    }
}

/// An operation of this model.
pub type GemmaOp = Op<Gemma4Buf, Gemma4Wt>;

// Assembly.

/// What a layer keeps of the tensor in a place.
pub open spec fn kept_info(w: LayerWeights, place: Gemma4Wt) -> Option<WeightInfo> {
    let common = common_of(w);
    match place {
        Gemma4Wt::Layer(_, part) => match part {
            LayerPart::QProj => Some(common.q_proj),
            LayerPart::KProj => Some(common.k_proj),
            LayerPart::VProj => match w {
                LayerWeights::Sliding(s) => Some(s.v_proj),
                LayerWeights::Full(_) => None,
            },
            LayerPart::OProj => Some(common.o_proj),
            LayerPart::GateProj => Some(common.gate_proj),
            LayerPart::UpProj => Some(common.up_proj),
            LayerPart::DownProj => Some(common.down_proj),
            LayerPart::RouterProj => match common.moe {
                Some(m) => Some(m.router_proj),
                None => None,
            },
            _ => None,
        },
        Gemma4Wt::Expert(_, _, part) => match common.moe {
            Some(m) => Some(
                if part == ExpertPart::GateUp {
                    m.gate_up
                } else {
                    m.down
                },
            ),
            None => None,
        },
        _ => None,
    }
}

/// A layer holds the tensor of an entry in the place of that entry.
pub open spec fn holds(w: LayerWeights, e: crate::names::Tensor<Gemma4Wt>, l: crate::loading::Told) -> bool {
    &&& e.kind == LoadKind::AnyWeight || e.kind is Pooled ==> kept_info(w, e.place) == Some(l.info)
    &&& e.kind == LoadKind::Scalar ==> l.sent == crate::loading::Sent::Singles(
        l.sent->Singles_0,
    ) && common_of(w).layer_scalar_host == l.sent->Singles_0[0]
}

/// The layer of a place.
pub open spec fn layer_of(place: Gemma4Wt) -> Option<usize> {
    match place {
        Gemma4Wt::Layer(i, _) => Some(i),
        Gemma4Wt::Expert(i, _, _) => Some(i),
        _ => None,
    }
}

/// Tensors per expert matrix and layer beside the experts.
pub open spec fn moe_len(c: Gemma4Config) -> int {
    if c.enable_moe_block {
        (6 + 2 * read_experts(c)) as int
    } else {
        0
    }
}

pub open spec fn attn_len(kind: LayerType) -> int {
    if kind == LayerType::Sliding {
        6
    } else {
        5
    }
}

/// Place, kind and size of entry `k` of the experts of layer `i`.
pub open spec fn moe_slot(c: Gemma4Config, i: nat, k: int) -> (Gemma4Wt, LoadKind, nat, nat) {
    let x = i as usize;
    let n = read_experts(c) as int;
    let dim = c.dim as nat;
    let ne = c.num_experts as nat;
    let mi = c.moe_intermediate_size as nat;
    if k == 0 {
        (Gemma4Wt::Layer(x, LayerPart::RouterProj), LoadKind::AnyWeight, ne, dim)
    } else if k == 1 {
        (Gemma4Wt::Layer(x, LayerPart::RouterScale), LoadKind::Shaped, 1, dim)
    } else if k == 2 {
        (Gemma4Wt::Layer(x, LayerPart::PerExpertScale), LoadKind::Shaped, 1, ne)
    } else if k == 3 {
        (Gemma4Wt::Layer(x, LayerPart::PreFfnNorm2), LoadKind::Shaped, 1, dim)
    } else if k == 4 {
        (Gemma4Wt::Layer(x, LayerPart::PostFfnNorm1), LoadKind::Shaped, 1, dim)
    } else if k == 5 {
        (Gemma4Wt::Layer(x, LayerPart::PostFfnNorm2), LoadKind::Shaped, 1, dim)
    } else if k < 6 + n {
        let e = (k - 6) as usize;
        (Gemma4Wt::Expert(x, e, ExpertPart::GateUp), LoadKind::Pooled { back: e }, 2 * mi, dim)
    } else {
        let e = (k - 6 - n) as usize;
        (Gemma4Wt::Expert(x, e, ExpertPart::Down), LoadKind::Pooled { back: e }, dim, mi)
    }
}

/// Place, kind and size of entry `k` of the attention of layer `i`.
pub open spec fn attn_slot(c: Gemma4Config, kind: LayerType, i: nat, k: int) -> (
    Gemma4Wt,
    LoadKind,
    nat,
    nat,
) {
    let x = i as usize;
    let dim = c.dim as nat;
    let q = c.q_dim(kind) as nat;
    let kv = c.kv_dim(kind) as nat;
    let hd = head_dim(c, kind) as nat;
    let o: int = if kind == LayerType::Sliding {
        3
    } else {
        2
    };
    if k == 0 {
        (Gemma4Wt::Layer(x, LayerPart::QProj), LoadKind::AnyWeight, q, dim)
    } else if k == 1 {
        (Gemma4Wt::Layer(x, LayerPart::KProj), LoadKind::AnyWeight, kv, dim)
    } else if k < o {
        (Gemma4Wt::Layer(x, LayerPart::VProj), LoadKind::AnyWeight, kv, dim)
    } else if k == o {
        (Gemma4Wt::Layer(x, LayerPart::OProj), LoadKind::AnyWeight, dim, q)
    } else if k == o + 1 {
        (Gemma4Wt::Layer(x, LayerPart::QNorm), LoadKind::Shaped, 1, hd)
    } else {
        (Gemma4Wt::Layer(x, LayerPart::KNorm), LoadKind::Shaped, 1, hd)
    }
}

/// Place, kind and size of entry `k` of layer `i`.
pub open spec fn slot(c: Gemma4Config, kind: LayerType, i: nat, k: int) -> (
    Gemma4Wt,
    LoadKind,
    nat,
    nat,
) {
    let x = i as usize;
    let dim = c.dim as nat;
    let hidden = c.hidden_dim as nat;
    let m = 1 + moe_len(c);
    let f = m + 4 + attn_len(kind);
    if k < 1 {
        (Gemma4Wt::Layer(x, LayerPart::LayerScalar), LoadKind::Scalar, 1, 1)
    } else if k < m {
        moe_slot(c, i, k - 1)
    } else if k == m {
        (Gemma4Wt::Layer(x, LayerPart::InputNorm), LoadKind::Shaped, 1, dim)
    } else if k == m + 1 {
        (Gemma4Wt::Layer(x, LayerPart::PostAttnNorm), LoadKind::Shaped, 1, dim)
    } else if k == m + 2 {
        (Gemma4Wt::Layer(x, LayerPart::PreFfnNorm), LoadKind::Shaped, 1, dim)
    } else if k == m + 3 {
        (Gemma4Wt::Layer(x, LayerPart::PostFfnNorm), LoadKind::Shaped, 1, dim)
    } else if k < f {
        attn_slot(c, kind, i, k - m - 4)
    } else if k == f {
        (Gemma4Wt::Layer(x, LayerPart::GateProj), LoadKind::AnyWeight, hidden, dim)
    } else if k == f + 1 {
        (Gemma4Wt::Layer(x, LayerPart::UpProj), LoadKind::AnyWeight, hidden, dim)
    } else {
        (Gemma4Wt::Layer(x, LayerPart::DownProj), LoadKind::AnyWeight, dim, hidden)
    }
}

pub open spec fn in_slot(
    e: crate::names::Tensor<Gemma4Wt>,
    s: (Gemma4Wt, LoadKind, nat, nat),
) -> bool {
    e.place == s.0 && e.kind == s.1 && e.m == s.2 && e.k == s.3
}

proof fn lemma_moe_entry(c: Gemma4Config, i: nat, k: int)
    requires
        0 <= k < moe_tensors(c, i).len(),
    ensures
        in_slot(moe_tensors(c, i)[k], moe_slot(c, i, k)),
{
}

proof fn lemma_attn_entry(c: Gemma4Config, kind: LayerType, i: nat, k: int)
    requires
        0 <= k < attn_tensors(c, kind, i).len(),
    ensures
        in_slot(attn_tensors(c, kind, i)[k], attn_slot(c, kind, i, k)),
{
    assert(kind == LayerType::Sliding || kind == LayerType::Full);
}

/// Entry `k` of a layer's tensors.
proof fn lemma_layer_entry(c: Gemma4Config, kind: LayerType, i: nat, k: int)
    ensures
        layer_tensors(c, kind, i).len() == 8 + moe_len(c) + attn_len(kind),
        0 <= k < layer_tensors(c, kind, i).len() ==> in_slot(
            layer_tensors(c, kind, i)[k],
            slot(c, kind, i, k),
        ),
{
    reveal(layer_tensors);
    assert(kind == LayerType::Sliding || kind == LayerType::Full);
    let m = moe_len(c);
    assert(norm_tensors(c, i).len() == 4);
    assert(ffn_tensors(c, i).len() == 3);
    assert(attn_tensors(c, kind, i).len() == attn_len(kind));
    assert(c.enable_moe_block ==> moe_tensors(c, i).len() == m);
    if 1 <= k < 1 + m {
        lemma_moe_entry(c, i, k - 1);
    } else if 5 + m <= k < 5 + m + attn_len(kind) {
        lemma_attn_entry(c, kind, i, k - 5 - m);
    }
}

/// Entry `k` of the tensors of layer `i`, among those of `n` layers.
proof fn lemma_layers_entry(c: Gemma4Config, i: int, n: nat, k: int)
    requires
        0 <= i < n,
        0 <= k < layer_tensors(c, c.layer_types@[i], i as nat).len(),
    ensures
        layers_tensors(c, i as nat).len() + k < layers_tensors(c, n).len(),
        layers_tensors(c, n)[layers_tensors(c, i as nat).len() + k] == layer_tensors(
            c,
            c.layer_types@[i],
            i as nat,
        )[k],
    decreases n,
{
    if i < n - 1 {
        lemma_layers_entry(c, i, (n - 1) as nat, k);
    }
}

/// Every entry belongs to the head or to a layer.
proof fn lemma_entry_layer(c: Gemma4Config, n: nat, j: int) -> (r: (int, int))
    requires
        0 <= j < layers_tensors(c, n).len(),
    ensures
        0 <= r.0 < n,
        0 <= r.1 < layer_tensors(c, c.layer_types@[r.0], r.0 as nat).len(),
        j == layers_tensors(c, r.0 as nat).len() + r.1,
    decreases n,
{
    let m = (n - 1) as nat;
    if j < layers_tensors(c, m).len() {
        lemma_entry_layer(c, m, j)
    } else {
        (n - 1, j - layers_tensors(c, m).len())
    }
}

proof fn lemma_pools_back(c: Gemma4Config)
    ensures
        crate::loading::pools_back(all_tensors(c)),
{
    let list = all_tensors(c);
    assert forall|j: int| 0 <= j < list.len() implies ((#[trigger] list[j]).kind matches LoadKind::Pooled {
        back,
    } ==> back <= j) by {
        if j >= 2 {
            let (i, k) = lemma_entry_layer(c, c.n_layers as nat, j - 2);
            lemma_layers_entry(c, i, c.n_layers as nat, k);
            lemma_layer_entry(c, c.layer_types@[i], i as nat, k);
        }
    }
}

/// The value of a scalar.
fn scalar_of(l: &Loaded) -> (r: F32)
    requires
        l@.sent matches crate::loading::Sent::Singles(v) && v.len() >= 1,
    ensures
        r == l@.sent->Singles_0[0],
{
    match &l.up {
        Upload::Singles(v) => v[0],
        _ => F32::zero(),
    }
}

/// What the entries of layer `i` were read as, from place `at` on.
#[verifier::opaque]
pub open spec fn layer_read(
    c: Gemma4Config,
    kind: LayerType,
    i: nat,
    ts: Seq<crate::loading::StoredTensor>,
    list: Seq<crate::names::Tensor<Gemma4Wt>>,
    loaded: Seq<Loaded>,
    at: int,
) -> bool {
    let part = layer_tensors(c, kind, i);
    &&& 0 <= at
    &&& at + part.len() <= loaded.len() == list.len()
    &&& crate::loading::agrees(ts, list, loaded)
    &&& forall|k: int| 0 <= k < part.len() ==> list[at + k] == #[trigger] part[k]
}

proof fn lemma_layer_told(
    c: Gemma4Config,
    kind: LayerType,
    i: nat,
    ts: Seq<crate::loading::StoredTensor>,
    list: Seq<crate::names::Tensor<Gemma4Wt>>,
    loaded: Seq<Loaded>,
    at: int,
    k: int,
)
    requires
        layer_read(c, kind, i, ts, list, loaded, at),
        0 <= k < layer_tensors(c, kind, i).len(),
    ensures
        0 <= at,
        at + layer_tensors(c, kind, i).len() <= loaded.len(),
        ({
            let e = layer_tensors(c, kind, i)[k];
            let l = loaded[at + k]@;
            &&& l.info.m == e.m as usize && l.info.k == e.k as usize
            &&& e.kind == LoadKind::Scalar ==> l.sent is Singles && l.sent->Singles_0.len() >= 1
        }),
{
    reveal(layer_read);
    let e = layer_tensors(c, kind, i)[k];
    assert(list[at + k] == e);
    assert(crate::loading::told(ts, list, at + k) == Ok::<
        crate::loading::Told,
        crate::loading::Fault,
    >(loaded[at + k]@));
    crate::loading::lemma_told_size(ts, list, at + k);
}

/// The experts of a pool are alike.
proof fn lemma_pool_alike(
    c: Gemma4Config,
    kind: LayerType,
    i: nat,
    ts: Seq<crate::loading::StoredTensor>,
    list: Seq<crate::names::Tensor<Gemma4Wt>>,
    loaded: Seq<Loaded>,
    at: int,
    k: int,
    first: int,
)
    requires
        layer_read(c, kind, i, ts, list, loaded, at),
        c.enable_moe_block,
        first == 7 || first == 7 + read_experts(c),
        first <= k < first + read_experts(c),
    ensures
        loaded[at + k]@.info == loaded[at + first]@.info,
{
    reveal(layer_read);
    let part = layer_tensors(c, kind, i);
    lemma_layer_entry(c, kind, i, k);
    lemma_layer_entry(c, kind, i, first);
    lemma_layer_told(c, kind, i, ts, list, loaded, at, k);
    lemma_layer_told(c, kind, i, ts, list, loaded, at, first);
    assert(list[at + k] == part[k]);
    assert(list[at + first] == part[first]);
    assert(crate::loading::told(ts, list, at + k) == Ok::<
        crate::loading::Told,
        crate::loading::Fault,
    >(loaded[at + k]@));
    assert(crate::loading::told(ts, list, at + first) == Ok::<
        crate::loading::Told,
        crate::loading::Fault,
    >(loaded[at + first]@));
    assert(part[k].kind == LoadKind::Pooled { back: (k - first) as usize });
    assert(part[first].kind == LoadKind::Pooled { back: 0 });
}

/// A layer from its tensors, which were read from place `at` on.
pub open spec fn built(c: Gemma4Config, kind: LayerType, loaded: Seq<Loaded>, at: int) -> LayerWeights {
    let q = at + 5 + moe_len(c);
    let o = if kind == LayerType::Sliding {
        q + 3
    } else {
        q + 2
    };
    let common = LayerCommon {
        layer_scalar_host: loaded[at]@.sent->Singles_0[0],
        q_proj: loaded[q].info,
        k_proj: loaded[q + 1].info,
        o_proj: loaded[o].info,
        gate_proj: loaded[o + 3].info,
        up_proj: loaded[o + 4].info,
        down_proj: loaded[o + 5].info,
        moe: if c.enable_moe_block {
            Some(
                MoeLayerExtras {
                    router_proj: loaded[at + 1].info,
                    gate_up: loaded[at + 7].info,
                    down: loaded[at + 7 + read_experts(c)].info,
                },
            )
        } else {
            None
        },
    };
    if kind == LayerType::Sliding {
        LayerWeights::Sliding(SlidingLayerWeights { common, v_proj: loaded[q + 2].info })
    } else {
        LayerWeights::Full(FullLayerWeights { common })
    }
}

proof fn lemma_built_holds(
    c: Gemma4Config,
    kind: LayerType,
    i: nat,
    ts: Seq<crate::loading::StoredTensor>,
    list: Seq<crate::names::Tensor<Gemma4Wt>>,
    loaded: Seq<Loaded>,
    at: int,
    k: int,
)
    requires
        layer_read(c, kind, i, ts, list, loaded, at),
        0 <= k < layer_tensors(c, kind, i).len(),
    ensures
        holds(built(c, kind, loaded, at), layer_tensors(c, kind, i)[k], loaded[at + k]@),
{
    let n = read_experts(c) as int;
    assert(kind == LayerType::Sliding || kind == LayerType::Full);
    lemma_layer_entry(c, kind, i, k);
    lemma_layer_told(c, kind, i, ts, list, loaded, at, k);
    if 7 <= k < 1 + moe_len(c) {
        let first = if k < 7 + n {
            7
        } else {
            7 + n
        };
        lemma_pool_alike(c, kind, i, ts, list, loaded, at, k, first);
    }
}

/// A layer from its tensors.
fn build_layer(
    c: &Gemma4Config,
    kind: LayerType,
    i: usize,
    loaded: &Vec<Loaded>,
    at: usize,
    Ghost(ts): Ghost<Seq<crate::loading::StoredTensor>>,
    Ghost(list): Ghost<Seq<crate::names::Tensor<Gemma4Wt>>>,
) -> (r: LayerWeights)
    requires
        c.weights_fit(),
        layer_read(*c, kind, i as nat, ts, list, loaded@, at as int),
    ensures
        r is Sliding <==> kind == LayerType::Sliding,
        common_of(r).moe is Some <==> c.enable_moe_block,
        forall|k: int|
            0 <= k < layer_tensors(*c, kind, i as nat).len() ==> holds(
                r,
                #[trigger] layer_tensors(*c, kind, i as nat)[k],
                loaded@[at + k]@,
            ),
        layer_shaped(r, *c),
{
    proof {
        lemma_layer_entry(*c, kind, i as nat, 0);
        lemma_layer_told(*c, kind, i as nat, ts, list, loaded@, at as int, 0);
        assert(kind == LayerType::Sliding || kind == LayerType::Full);
    }
    let total: usize = loaded.len();
    assert(at + layer_tensors(*c, kind, i as nat).len() <= total);
    let ne: usize = if c.num_experts == 0 {
        1
    } else {
        c.num_experts
    };
    let moe_entries: usize = if c.enable_moe_block {
        6 + 2 * ne
    } else {
        0
    };
    let q: usize = at + 5 + moe_entries;
    let moe: Option<MoeLayerExtras> = if c.enable_moe_block {
        Some(
            MoeLayerExtras {
                router_proj: loaded[at + 1].info,
                gate_up: loaded[at + 7].info,
                down: loaded[at + 7 + ne].info,
            },
        )
    } else {
        None
    };
    let sliding: bool = kind == LayerType::Sliding;
    let o: usize = if sliding {
        q + 3
    } else {
        q + 2
    };
    let f: usize = o + 3;
    let common: LayerCommon = LayerCommon {
        layer_scalar_host: scalar_of(&loaded[at]),
        q_proj: loaded[q].info,
        k_proj: loaded[q + 1].info,
        o_proj: loaded[o].info,
        gate_proj: loaded[f].info,
        up_proj: loaded[f + 1].info,
        down_proj: loaded[f + 2].info,
        moe,
    };
    let r: LayerWeights = if sliding {
        LayerWeights::Sliding(SlidingLayerWeights { common, v_proj: loaded[q + 2].info })
    } else {
        LayerWeights::Full(FullLayerWeights { common })
    };
    proof {
        let part = layer_tensors(*c, kind, i as nat);
        assert(r == built(*c, kind, loaded@, at as int));
        assert forall|k: int| 0 <= k < part.len() implies holds(
            r,
            #[trigger] part[k],
            loaded@[at + k]@,
        ) by {
            lemma_built_holds(*c, kind, i as nat, ts, list, loaded@, at as int, k);
        }
        lemma_built_shape(*c, kind, i as nat, ts, list, loaded@, at as int, r);
    }
    r
}

proof fn lemma_built_shape(
    c: Gemma4Config,
    kind: LayerType,
    i: nat,
    ts: Seq<crate::loading::StoredTensor>,
    list: Seq<crate::names::Tensor<Gemma4Wt>>,
    loaded: Seq<Loaded>,
    at: int,
    r: LayerWeights,
)
    requires
        c.weights_fit(),
        layer_read(c, kind, i, ts, list, loaded, at),
        r is Sliding <==> kind == LayerType::Sliding,
        common_of(r).moe is Some <==> c.enable_moe_block,
        forall|k: int|
            0 <= k < layer_tensors(c, kind, i).len() ==> holds(
                r,
                #[trigger] layer_tensors(c, kind, i)[k],
                loaded[at + k]@,
            ),
    ensures
        layer_shaped(r, c),
{
    let m = moe_len(c);
    let a = attn_len(kind);
    assert(kind == LayerType::Sliding || kind == LayerType::Full);
    assert(c.n_heads * head_dim(c, kind) >= 0 && n_kv_heads(c, kind) * head_dim(c, kind) >= 0)
        by (nonlinear_arith);
    lemma_layer_entry(c, kind, i, 0);
    lemma_slot_held(c, kind, i, ts, list, loaded, at, r, 5 + m);
    lemma_slot_held(c, kind, i, ts, list, loaded, at, r, 6 + m);
    lemma_slot_held(c, kind, i, ts, list, loaded, at, r, 7 + m);
    lemma_slot_held(c, kind, i, ts, list, loaded, at, r, 8 + m);
    lemma_slot_held(c, kind, i, ts, list, loaded, at, r, 5 + m + a);
    lemma_slot_held(c, kind, i, ts, list, loaded, at, r, 6 + m + a);
    lemma_slot_held(c, kind, i, ts, list, loaded, at, r, 7 + m + a);
    if c.enable_moe_block {
        let d = (7 + read_experts(c)) as int;
        lemma_slot_held(c, kind, i, ts, list, loaded, at, r, 1);
        lemma_slot_held(c, kind, i, ts, list, loaded, at, r, 7);
        lemma_slot_held(c, kind, i, ts, list, loaded, at, r, d);
    }
}

/// What a layer keeps in a slot has the size of the slot.
proof fn lemma_slot_held(
    c: Gemma4Config,
    kind: LayerType,
    i: nat,
    ts: Seq<crate::loading::StoredTensor>,
    list: Seq<crate::names::Tensor<Gemma4Wt>>,
    loaded: Seq<Loaded>,
    at: int,
    r: LayerWeights,
    k: int,
)
    requires
        layer_read(c, kind, i, ts, list, loaded, at),
        0 <= k < layer_tensors(c, kind, i).len(),
        holds(r, layer_tensors(c, kind, i)[k], loaded[at + k]@),
    ensures
        ({
            let s = slot(c, kind, i, k);
            s.1 == LoadKind::AnyWeight || s.1 is Pooled ==> {
                &&& kept_info(r, s.0) is Some
                &&& kept_info(r, s.0)->0.m == s.2 as usize
                &&& kept_info(r, s.0)->0.k == s.3 as usize
            }
        }),
{
    lemma_layer_entry(c, kind, i, k);
    lemma_layer_told(c, kind, i, ts, list, loaded, at, k);
}

/// The lookup format of an embedding table by its element type.
pub fn format_of(dtype: DType) -> (r: EmbeddingFormat)
    ensures
        r == EmbeddingFormat::Q4K <==> dtype == DType::Q4K,
        tied_dtype(r) == dtype || r == EmbeddingFormat::F32,
        dtype == DType::F32 || dtype == DType::Q8_0 || dtype == DType::HFQ4G256 || dtype
            == DType::HFQ4G128 || dtype == DType::Q4K ==> tied_dtype(r) == dtype,
{
    match dtype {
        DType::Q8_0 => EmbeddingFormat::Q8_0,
        DType::HFQ4G256 => EmbeddingFormat::HFQ4G256,
        DType::HFQ4G128 => EmbeddingFormat::HFQ4G128,
        DType::Q4K => EmbeddingFormat::Q4K,
        _ => EmbeddingFormat::F32,
    }
}

/// Weights hold every tensor that was read in its own place: each matrix of a layer,
/// its scalar, and the embedding table, which is the output matrix too.
pub open spec fn assembled(c: Gemma4Config, w: Gemma4Weights, loaded: Seq<Loaded>) -> bool {
    let list = all_tensors(c);
    &&& w.lm_head == loaded[0].info
    &&& tied_dtype(w.embd_format) == loaded[0].info.dtype
    &&& w.layers@.len() == c.n_layers
    &&& forall|i: int|
        0 <= i < c.n_layers ==> ((#[trigger] w.layers@[i]) is Sliding <==> c.layer_types@[i]
            == LayerType::Sliding)
    &&& forall|i: int|
        0 <= i < c.n_layers ==> (common_of(#[trigger] w.layers@[i]).moe is Some
            <==> c.enable_moe_block)
    &&& forall|j: int|
        0 <= j < list.len() ==> (layer_of((#[trigger] list[j]).place) matches Some(i) ==> {
            &&& i < w.layers@.len()
            &&& holds(w.layers@[i as int], list[j], loaded[j]@)
        })
}

/// The model's weights out of a file, each tensor in its place, and what is sent to
/// the device for each entry of [`load_weights`]; or the first tensor that is
/// missing, of another shape or storage type, or unlike the first expert's.
pub fn assemble(c: &Gemma4Config, file: &crate::loading::TensorFile) -> (r: Result<
    (Gemma4Weights, Vec<Loaded>),
    crate::loading::LoadError,
>)
    requires
        c.weights_fit(),
        c.layer_types@.len() >= c.n_layers,
    ensures
        match r {
            Ok((w, loaded)) => {
                &&& loaded@.len() == all_tensors(*c).len()
                &&& crate::loading::agrees(file.tensors@, all_tensors(*c), loaded@)
                &&& assembled(*c, w, loaded@)
                &&& shaped(w, *c)
            },
            Err(e) => crate::loading::first_fault(file.tensors@, all_tensors(*c), e),
        },
{
    let specs: Vec<TensorSpec<Gemma4Wt>> = load_weights(c);
    let ghost list = all_tensors(*c);
    let ghost ts = file.tensors@;
    proof {
        lemma_pools_back(*c);
    }
    let loaded: Vec<Loaded> = match crate::loading::read_all(file, &specs) {
        Ok(v) => v,
        Err(e) => return Err(e),
    };
    proof {
        assert(list.len() >= 2);
        assert(crate::loading::told(ts, list, 0) == Ok::<
            crate::loading::Told,
            crate::loading::Fault,
        >(loaded@[0]@));
        crate::loading::lemma_told_size(ts, list, 0);
    }
    let lm_head: WeightInfo = loaded[0].info;
    let embd_format: EmbeddingFormat = format_of(lm_head.dtype);
    let mut layers: Vec<LayerWeights> = Vec::new();
    let total: usize = loaded.len();
    let mut at: usize = 2;
    let mut i: usize = 0;
    while i < c.n_layers
        invariant
            i <= c.n_layers <= c.layer_types@.len(),
            c.weights_fit(),
            total == loaded@.len(),
            list == all_tensors(*c),
            loaded@.len() == list.len(),
            crate::loading::agrees(ts, list, loaded@),
            at == 2 + layers_tensors(*c, i as nat).len(),
            layers@.len() == i,
            forall|x: int|
                0 <= x < i ==> ((#[trigger] layers@[x]) is Sliding <==> c.layer_types@[x]
                    == LayerType::Sliding),
            forall|x: int|
                0 <= x < i ==> (common_of(#[trigger] layers@[x]).moe is Some
                    <==> c.enable_moe_block),
            forall|x: int| 0 <= x < i ==> layer_shaped(#[trigger] layers@[x], *c),
            forall|x: int, k: int|
                0 <= x < i && 0 <= k < layer_tensors(*c, c.layer_types@[x], x as nat).len()
                    ==> holds(
                    #[trigger] layers@[x],
                    #[trigger] layer_tensors(*c, c.layer_types@[x], x as nat)[k],
                    loaded@[2 + layers_tensors(*c, x as nat).len() + k]@,
                ),
        decreases c.n_layers - i,
    {
        let kind: LayerType = c.layer_types[i];
        proof {
            let part = layer_tensors(*c, kind, i as nat);
            lemma_layer_entry(*c, kind, i as nat, 0);
            lemma_layers_entry(*c, i as int, c.n_layers as nat, part.len() - 1);
            assert forall|k: int| 0 <= k < part.len() implies list[at + k] == #[trigger] part[k] by {
                lemma_layers_entry(*c, i as int, c.n_layers as nat, k);
            }
            assert(layer_read(*c, kind, i as nat, ts, list, loaded@, at as int)) by {
                reveal(layer_read);
            }
        }
        let layer: LayerWeights = build_layer(c, kind, i, &loaded, at, Ghost(ts), Ghost(list));
        let ghost before = layers@;
        layers.push(layer);
        let ne: usize = if c.num_experts == 0 {
            1
        } else {
            c.num_experts
        };
        at = at + 8 + (if c.enable_moe_block {
            6 + 2 * ne
        } else {
            0
        }) + (if kind == LayerType::Sliding {
            6
        } else {
            5
        });
        i = i + 1;
    }
    let w: Gemma4Weights = Gemma4Weights { embd_format, lm_head, layers };
    proof {
        assert forall|j: int| 0 <= j < list.len() implies (layer_of(
            (#[trigger] list[j]).place,
        ) matches Some(x) ==> x < w.layers@.len() && holds(
            w.layers@[x as int],
            list[j],
            loaded@[j]@,
        )) by {
            if j >= 2 {
                let (x, k) = lemma_entry_layer(*c, c.n_layers as nat, j - 2);
                lemma_layers_entry(*c, x, c.n_layers as nat, k);
                lemma_entry_place(*c, c.layer_types@[x], x as nat, k);
                assert(holds(
                    w.layers@[x],
                    layer_tensors(*c, c.layer_types@[x], x as nat)[k],
                    loaded@[2 + layers_tensors(*c, x as nat).len() + k]@,
                ));
            }
        }
    }
    Ok((w, loaded))
}

proof fn lemma_entry_place(c: Gemma4Config, kind: LayerType, i: nat, k: int)
    requires
        0 <= k < layer_tensors(c, kind, i).len(),
    ensures
        layer_of(layer_tensors(c, kind, i)[k].place) == Some(i as usize),
{
    lemma_layer_entry(c, kind, i, k);
}

/// The releases of a layer's experts: the pools go, not each expert's share.
pub open spec fn moe_frees(i: usize) -> Seq<GemmaOp> {
    seq![
        Op::FreeWeight { w: Gemma4Wt::Layer(i, LayerPart::RouterProj) },
        Op::FreeWeight { w: Gemma4Wt::Layer(i, LayerPart::RouterScale) },
        Op::FreeWeight { w: Gemma4Wt::Layer(i, LayerPart::PerExpertScale) },
        Op::FreeWeight { w: Gemma4Wt::Layer(i, LayerPart::PreFfnNorm2) },
        Op::FreeWeight { w: Gemma4Wt::Layer(i, LayerPart::PostFfnNorm1) },
        Op::FreeWeight { w: Gemma4Wt::Layer(i, LayerPart::PostFfnNorm2) },
        Op::FreeWeight { w: Gemma4Wt::Layer(i, LayerPart::GateUpPool) },
        Op::FreeWeight { w: Gemma4Wt::Layer(i, LayerPart::DownPool) },
        Op::FreeWeight { w: Gemma4Wt::Layer(i, LayerPart::GateUpPtrs) },
        Op::FreeWeight { w: Gemma4Wt::Layer(i, LayerPart::DownPtrs) },
    ]
}

/// The releases of a layer's weights.
pub open spec fn layer_frees(w: LayerWeights, i: usize) -> Seq<GemmaOp> {
    seq![
        Op::FreeWeight { w: Gemma4Wt::Layer(i, LayerPart::InputNorm) },
        Op::FreeWeight { w: Gemma4Wt::Layer(i, LayerPart::PostAttnNorm) },
        Op::FreeWeight { w: Gemma4Wt::Layer(i, LayerPart::PreFfnNorm) },
        Op::FreeWeight { w: Gemma4Wt::Layer(i, LayerPart::PostFfnNorm) },
        Op::FreeWeight { w: Gemma4Wt::Layer(i, LayerPart::LayerScalar) },
        Op::FreeWeight { w: Gemma4Wt::Layer(i, LayerPart::QNorm) },
        Op::FreeWeight { w: Gemma4Wt::Layer(i, LayerPart::KNorm) },
    ] + (match w {
        LayerWeights::Sliding(s) => seq![
            Op::FreeWeight { w: Gemma4Wt::Layer(i, LayerPart::QProj) },
            Op::FreeWeight { w: Gemma4Wt::Layer(i, LayerPart::KProj) },
            Op::FreeWeight { w: Gemma4Wt::Layer(i, LayerPart::VProj) },
            Op::FreeWeight { w: Gemma4Wt::Layer(i, LayerPart::OProj) },
            Op::FreeWeight { w: Gemma4Wt::Layer(i, LayerPart::GateProj) },
            Op::FreeWeight { w: Gemma4Wt::Layer(i, LayerPart::UpProj) },
            Op::FreeWeight { w: Gemma4Wt::Layer(i, LayerPart::DownProj) },
        ],
        LayerWeights::Full(f) => seq![
            Op::FreeWeight { w: Gemma4Wt::Layer(i, LayerPart::QProj) },
            Op::FreeWeight { w: Gemma4Wt::Layer(i, LayerPart::KProj) },
            Op::FreeWeight { w: Gemma4Wt::Layer(i, LayerPart::OProj) },
            Op::FreeWeight { w: Gemma4Wt::Layer(i, LayerPart::GateProj) },
            Op::FreeWeight { w: Gemma4Wt::Layer(i, LayerPart::UpProj) },
            Op::FreeWeight { w: Gemma4Wt::Layer(i, LayerPart::DownProj) },
        ],
    }) + (if common_of(w).moe is Some {
        moe_frees(i)
    } else {
        Seq::empty()
    })
}

/// The releases of the first `n` layers.
pub open spec fn layers_frees(layers: Seq<LayerWeights>, n: nat) -> Seq<GemmaOp>
    decreases n,
{
    if n == 0 {
        Seq::empty()
    } else {
        layers_frees(layers, (n - 1) as nat) + layer_frees(layers[n - 1], (n - 1) as usize)
    }
}

fn free_moe(i: usize) -> (ops: Vec<GemmaOp>)
    ensures
        ops@ == moe_frees(i),
{
    vec![
        Op::FreeWeight { w: Gemma4Wt::Layer(i, LayerPart::RouterProj) },
        Op::FreeWeight { w: Gemma4Wt::Layer(i, LayerPart::RouterScale) },
        Op::FreeWeight { w: Gemma4Wt::Layer(i, LayerPart::PerExpertScale) },
        Op::FreeWeight { w: Gemma4Wt::Layer(i, LayerPart::PreFfnNorm2) },
        Op::FreeWeight { w: Gemma4Wt::Layer(i, LayerPart::PostFfnNorm1) },
        Op::FreeWeight { w: Gemma4Wt::Layer(i, LayerPart::PostFfnNorm2) },
        Op::FreeWeight { w: Gemma4Wt::Layer(i, LayerPart::GateUpPool) },
        Op::FreeWeight { w: Gemma4Wt::Layer(i, LayerPart::DownPool) },
        Op::FreeWeight { w: Gemma4Wt::Layer(i, LayerPart::GateUpPtrs) },
        Op::FreeWeight { w: Gemma4Wt::Layer(i, LayerPart::DownPtrs) },
    ]
}

fn free_layer(w: &LayerWeights, i: usize) -> (ops: Vec<GemmaOp>)
    ensures
        ops@ == layer_frees(*w, i),
{
    let mut ops: Vec<GemmaOp> = vec![
        Op::FreeWeight { w: Gemma4Wt::Layer(i, LayerPart::InputNorm) },
        Op::FreeWeight { w: Gemma4Wt::Layer(i, LayerPart::PostAttnNorm) },
        Op::FreeWeight { w: Gemma4Wt::Layer(i, LayerPart::PreFfnNorm) },
        Op::FreeWeight { w: Gemma4Wt::Layer(i, LayerPart::PostFfnNorm) },
        Op::FreeWeight { w: Gemma4Wt::Layer(i, LayerPart::LayerScalar) },
        Op::FreeWeight { w: Gemma4Wt::Layer(i, LayerPart::QNorm) },
        Op::FreeWeight { w: Gemma4Wt::Layer(i, LayerPart::KNorm) },
    ];
    let has_experts: bool = match w {
        LayerWeights::Sliding(s) => {
            extend(
                &mut ops,
                vec![
                    Op::FreeWeight { w: Gemma4Wt::Layer(i, LayerPart::QProj) },
                    Op::FreeWeight { w: Gemma4Wt::Layer(i, LayerPart::KProj) },
                    Op::FreeWeight { w: Gemma4Wt::Layer(i, LayerPart::VProj) },
                    Op::FreeWeight { w: Gemma4Wt::Layer(i, LayerPart::OProj) },
                    Op::FreeWeight { w: Gemma4Wt::Layer(i, LayerPart::GateProj) },
                    Op::FreeWeight { w: Gemma4Wt::Layer(i, LayerPart::UpProj) },
                    Op::FreeWeight { w: Gemma4Wt::Layer(i, LayerPart::DownProj) },
                ],
            );
            s.common.moe.is_some()
        },
        LayerWeights::Full(f) => {
            extend(
                &mut ops,
                vec![
                    Op::FreeWeight { w: Gemma4Wt::Layer(i, LayerPart::QProj) },
                    Op::FreeWeight { w: Gemma4Wt::Layer(i, LayerPart::KProj) },
                    Op::FreeWeight { w: Gemma4Wt::Layer(i, LayerPart::OProj) },
                    Op::FreeWeight { w: Gemma4Wt::Layer(i, LayerPart::GateProj) },
                    Op::FreeWeight { w: Gemma4Wt::Layer(i, LayerPart::UpProj) },
                    Op::FreeWeight { w: Gemma4Wt::Layer(i, LayerPart::DownProj) },
                ],
            );
            f.common.moe.is_some()
        },
    };
    let ghost before = ops@;
    if has_experts {
        extend(&mut ops, free_moe(i));
    } else {
        assert(before + Seq::empty() =~= before);
    }
    ops
}

impl Gemma4Weights {
    /// Gives all the weights back. The output matrix is the embedding table and the
    /// experts are shares of their pools, so neither goes twice.
    pub fn free_gpu(self) -> (ops: Vec<GemmaOp>)
        ensures
            ops@ == seq![
                Op::FreeWeight { w: Gemma4Wt::EmbedTokens },
                Op::FreeWeight { w: Gemma4Wt::FinalNorm },
            ] + layers_frees(self.layers@, self.layers@.len()),
    {
        let mut ops: Vec<GemmaOp> = vec![
            Op::FreeWeight { w: Gemma4Wt::EmbedTokens },
            Op::FreeWeight { w: Gemma4Wt::FinalNorm },
        ];
        let ghost head = ops@;
        assert(head + layers_frees(self.layers@, 0) =~= head);
        let mut i: usize = 0;
        while i < self.layers.len()
            invariant
                i <= self.layers@.len(),
                ops@ == head + layers_frees(self.layers@, i as nat),
            decreases self.layers@.len() - i,
        {
            extend(&mut ops, free_layer(&self.layers[i], i));
            assert(ops@ =~= head + layers_frees(self.layers@, (i + 1) as nat));
            i = i + 1;
        }
        ops
    }
}

/// No weight is given back twice.
pub proof fn law_weights_are_returned_once(w: Gemma4Weights, x: int, y: int)
    requires
        w.layers@.len() <= usize::MAX,
        0 <= x < y < layers_frees(w.layers@, w.layers@.len()).len(),
    ensures
        layers_frees(w.layers@, w.layers@.len())[x] != layers_frees(w.layers@, w.layers@.len())[y],
{
    lemma_released_once(w.layers@, w.layers@.len(), x, y);
}

/// The layer whose weight an operation gives back.
pub open spec fn released_layer(op: GemmaOp) -> int {
    match op {
        Op::FreeWeight { w: Gemma4Wt::Layer(i, part) } => i as int,
        _ => -1,
    }
}

proof fn lemma_layer_released(w: LayerWeights, i: usize)
    ensures
        forall|x: int|
            0 <= x < layer_frees(w, i).len() ==> released_layer(#[trigger] layer_frees(w, i)[x])
                == i,
        forall|x: int, y: int|
            0 <= x < y < layer_frees(w, i).len() ==> #[trigger] layer_frees(w, i)[x]
                != #[trigger] layer_frees(w, i)[y],
{
}

proof fn lemma_released_below(layers: Seq<LayerWeights>, n: nat, x: int)
    requires
        n <= layers.len() <= usize::MAX,
        0 <= x < layers_frees(layers, n).len(),
    ensures
        0 <= released_layer(layers_frees(layers, n)[x]) < n,
    decreases n,
{
    let m = (n - 1) as nat;
    let before = layers_frees(layers, m);
    let last = layer_frees(layers[m as int], m as usize);
    if x < before.len() {
        lemma_released_below(layers, m, x);
    } else {
        lemma_layer_released(layers[m as int], m as usize);
        assert(layers_frees(layers, n)[x] == last[x - before.len()]);
    }
}

proof fn lemma_released_once(layers: Seq<LayerWeights>, n: nat, x: int, y: int)
    requires
        n <= layers.len() <= usize::MAX,
        0 <= x < y < layers_frees(layers, n).len(),
    ensures
        layers_frees(layers, n)[x] != layers_frees(layers, n)[y],
    decreases n,
{
    let m = (n - 1) as nat;
    let before = layers_frees(layers, m);
    let last = layer_frees(layers[m as int], m as usize);
    lemma_layer_released(layers[m as int], m as usize);
    if y < before.len() {
        lemma_released_once(layers, m, x, y);
    } else {
        assert(layers_frees(layers, n)[y] == last[y - before.len()]);
        if x < before.len() {
            lemma_released_below(layers, m, x);
            assert(layers_frees(layers, n)[x] == before[x]);
        } else {
            assert(layers_frees(layers, n)[x] == last[x - before.len()]);
        }
    }
}

// Scratch buffers.

/// Tokens in a batch, at most.
pub const MAX_PREFILL_BATCH: usize = 128;

/// The buffers of the model, used over and over.
#[derive(Debug, Clone, Copy, PartialEq, Eq, Structural)]
pub enum Gemma4Buf {
    /// The hidden state.
    X,
    /// The hidden state that a layer adds to.
    Residual,
    Tmp,
    /// The position where kernels read it.
    Pos,
    Q,
    K,
    V,
    AttnOut,
    GateFfn,
    UpFfn,
    FfnHidden,
    FfnOut,
    Logits,
    SampleBuf,
    RepeatBuf,
    /// Partial results of attention.
    FlashPartials,
    /// Ones, the weight of a norm without one.
    VNormOnes,
    /// The feed-forward part beside the experts, after its norm.
    MoeCurMlp,
    /// What the experts work on.
    MoePre2,
    MoeRouterIn,
    MoeRouterLogits,
    MoeTopkIndices,
    MoeTopkWeights,
    /// What the experts add up to.
    MoeCurMoe,
    MoeExpertGateUp,
    MoeExpertHidden,
    MoeExpertOut,
    MoePre2Rot,
    MoeExpertGateBatch,
    MoeExpertUpBatch,
    MoeExpertHiddenBatch,
    /// First half of `MoeExpertGateUp`.
    MoeExpertGate,
    /// Second half of `MoeExpertGateUp`.
    MoeExpertUp,
    /// The hidden states of a batch after attention.
    PbAttnOut,
    PbFfnOut,
    /// What the experts of a batch work on, and the result.
    PbMoePre2,
    PbMoePre2Rot,
    PbMoeRouterIn,
    PbMoeRouterLogits,
    PbMoeTopkIndices,
    PbMoeTopkWeights,
    PbMoeExpertOffsets,
    PbMoeExpertTokenList,
    PbMoeGateBatch,
    PbMoeUpBatch,
    PbMoeHiddenBatch,
    PbMoeCurMoe,
    PbMoeCurMlp,
    /// The hidden states of a batch.
    PbResidual,
    PbTmp,
    PbQ,
    PbK,
    PbV,
    PbGate,
    PbUp,
    PbFfnHidden,
    PbPositions,
}

pub open spec fn larger(a: int, b: int) -> int {
    if a >= b {
        a
    } else {
        b
    }
}

impl Gemma4Config {
    /// Width of the queries in the wider kind of layer.
    pub open spec fn widest_q(self) -> int {
        larger(self.q_dim(LayerType::Sliding), self.q_dim(LayerType::Full))
    }

    /// Width of the keys in the wider kind of layer.
    pub open spec fn widest_kv(self) -> int {
        larger(self.kv_dim(LayerType::Sliding), self.kv_dim(LayerType::Full))
    }

    /// The larger head size.
    pub open spec fn widest_head(self) -> int {
        larger(self.sliding_head_dim as int, self.full_head_dim as int)
    }

    /// Experts, width of an expert and experts per token; at least one, so that no
    /// buffer is empty.
    pub open spec fn ne(self) -> int {
        larger(self.num_experts as int, 1)
    }

    pub open spec fn mi(self) -> int {
        larger(self.moe_intermediate_size as int, 1)
    }

    pub open spec fn top(self) -> int {
        larger(self.top_k_experts as int, 1)
    }

    /// Every buffer's size in bytes can be addressed, apart from the partial results
    /// of attention.
    pub open spec fn fits(self) -> bool {
        &&& self.weights_fit()
        &&& forall|buf: Gemma4Buf|
            buf != Gemma4Buf::FlashPartials ==> #[trigger] addressable(self, buf)
    }
}

proof fn lemma_addressable(c: Gemma4Config)
    requires
        512 * c.dim <= usize::MAX,
        512 * c.hidden_dim <= usize::MAX,
        4 * c.vocab_size <= usize::MAX,
        4 * c.widest_head() <= usize::MAX,
        512 * (c.n_heads * c.widest_head()) <= usize::MAX,
        512 * c.kv_dim(LayerType::Sliding) <= usize::MAX,
        512 * c.kv_dim(LayerType::Full) <= usize::MAX,
        512 * c.ne() <= usize::MAX,
        8 * c.mi() <= usize::MAX,
        512 * (c.top() * c.mi()) <= usize::MAX,
    ensures
        c.fits(),
{
    let h = c.n_heads as int;
    let w = c.widest_head();
    let s = c.sliding_head_dim as int;
    let f = c.full_head_dim as int;
    assert(0 <= h * s <= h * w && 0 <= h * f <= h * w) by (nonlinear_arith)
        requires
            0 <= h,
            0 <= s <= w,
            0 <= f <= w,
    ;
    assert(c.top() <= c.top() * c.mi()) by (nonlinear_arith)
        requires
            c.top() >= 1,
            c.mi() >= 1,
    ;
    assert(0 <= c.kv_dim(LayerType::Sliding) && 0 <= c.kv_dim(LayerType::Full)) by (nonlinear_arith);
}

impl Gemma4Config {
    /// Whether every buffer's size can be addressed, apart from the partial results of
    /// attention.
    pub fn is_addressable(&self) -> (r: bool)
        ensures
            r == self.fits(),
    {
        let head: usize = if self.sliding_head_dim < self.full_head_dim {
            self.full_head_dim
        } else {
            self.sliding_head_dim
        };
        let ne: usize = if self.num_experts < 1 {
            1
        } else {
            self.num_experts
        };
        let mi: usize = if self.moe_intermediate_size < 1 {
            1
        } else {
            self.moe_intermediate_size
        };
        let top: usize = if self.top_k_experts < 1 {
            1
        } else {
            self.top_k_experts
        };
        let r: bool = crate::device::addresses(self.dim, 1, 512) && crate::device::addresses(
            self.hidden_dim,
            1,
            512,
        ) && crate::device::addresses(self.vocab_size, 1, 4) && crate::device::addresses(
            head,
            1,
            4,
        ) && crate::device::addresses(self.n_heads, head, 512) && crate::device::addresses(
            self.sliding_n_kv_heads,
            self.sliding_head_dim,
            512,
        ) && crate::device::addresses(
            self.full_n_kv_heads,
            self.full_head_dim,
            512,
        ) && crate::device::addresses(ne, 1, 512) && crate::device::addresses(mi, 1, 8)
            && crate::device::addresses(top, mi, 512);
        proof {
            if r {
                lemma_addressable(*self);
            }
            if self.fits() {
                assert(addressable(*self, Gemma4Buf::PbTmp));
                assert(addressable(*self, Gemma4Buf::PbGate));
                assert(addressable(*self, Gemma4Buf::Logits));
                assert(addressable(*self, Gemma4Buf::VNormOnes));
                assert(addressable(*self, Gemma4Buf::PbQ));
                assert(addressable(*self, Gemma4Buf::PbK));
                assert(addressable(*self, Gemma4Buf::PbMoeRouterLogits));
                assert(addressable(*self, Gemma4Buf::MoeExpertGateUp));
                assert(addressable(*self, Gemma4Buf::PbMoeGateBatch));
            }
        }
        r
    }
}

/// Partial results of attention over `kv_seq` positions: a maximum, a sum and a
/// head per head and tile of 128 positions.
pub open spec fn partials(c: Gemma4Config, kv_seq: int) -> int {
    c.n_heads * ((kv_seq + 127) / 128) * (2 + c.full_head_dim)
}

/// A buffer's size in bytes can be addressed.
pub open spec fn addressable(c: Gemma4Config, buf: Gemma4Buf) -> bool {
    4 * buf_elems(c, 0, buf) <= usize::MAX
}

/// Elements of each buffer.
pub open spec fn buf_elems(c: Gemma4Config, kv_seq: int, buf: Gemma4Buf) -> int {
    match buf {
        Gemma4Buf::X => c.dim as int,
        Gemma4Buf::Residual => c.dim as int,
        Gemma4Buf::Tmp => c.dim as int,
        Gemma4Buf::Pos => 1,
        Gemma4Buf::Q => c.widest_q(),
        Gemma4Buf::K => c.widest_kv(),
        Gemma4Buf::V => c.widest_kv(),
        Gemma4Buf::AttnOut => c.widest_q(),
        Gemma4Buf::GateFfn => c.hidden_dim as int,
        Gemma4Buf::UpFfn => c.hidden_dim as int,
        Gemma4Buf::FfnHidden => c.hidden_dim as int,
        Gemma4Buf::FfnOut => c.dim as int,
        Gemma4Buf::Logits => c.vocab_size as int,
        Gemma4Buf::SampleBuf => 2,
        Gemma4Buf::RepeatBuf => 1024,
        Gemma4Buf::FlashPartials => partials(c, kv_seq),
        Gemma4Buf::VNormOnes => c.widest_head(),
        Gemma4Buf::MoeCurMlp => c.dim as int,
        Gemma4Buf::MoePre2 => c.dim as int,
        Gemma4Buf::MoeRouterIn => c.dim as int,
        Gemma4Buf::MoeRouterLogits => c.ne(),
        Gemma4Buf::MoeTopkIndices => c.top(),
        Gemma4Buf::MoeTopkWeights => c.top(),
        Gemma4Buf::MoeCurMoe => c.dim as int,
        Gemma4Buf::MoeExpertGateUp => 2 * c.mi(),
        Gemma4Buf::MoeExpertHidden => c.mi(),
        Gemma4Buf::MoeExpertOut => c.dim as int,
        Gemma4Buf::MoePre2Rot => c.dim as int,
        Gemma4Buf::MoeExpertGateBatch => c.top() * c.mi(),
        Gemma4Buf::MoeExpertUpBatch => c.top() * c.mi(),
        Gemma4Buf::MoeExpertHiddenBatch => c.top() * c.mi(),
        Gemma4Buf::MoeExpertGate => c.mi(),
        Gemma4Buf::MoeExpertUp => c.mi(),
        Gemma4Buf::PbAttnOut => 128 * c.dim,
        Gemma4Buf::PbFfnOut => 128 * c.dim,
        Gemma4Buf::PbMoePre2 => 128 * c.dim,
        Gemma4Buf::PbMoePre2Rot => 128 * c.dim,
        Gemma4Buf::PbMoeRouterIn => 128 * c.dim,
        Gemma4Buf::PbMoeRouterLogits => 128 * c.ne(),
        Gemma4Buf::PbMoeTopkIndices => 128 * c.top(),
        Gemma4Buf::PbMoeTopkWeights => 128 * c.top(),
        Gemma4Buf::PbMoeExpertOffsets => c.ne() + 1,
        Gemma4Buf::PbMoeExpertTokenList => 128 * c.top(),
        Gemma4Buf::PbMoeGateBatch => 128 * (c.top() * c.mi()),
        Gemma4Buf::PbMoeUpBatch => 128 * (c.top() * c.mi()),
        Gemma4Buf::PbMoeHiddenBatch => 128 * (c.top() * c.mi()),
        Gemma4Buf::PbMoeCurMoe => 128 * c.dim,
        Gemma4Buf::PbMoeCurMlp => 128 * c.dim,
        Gemma4Buf::PbResidual => 128 * c.dim,
        Gemma4Buf::PbTmp => 128 * c.dim,
        Gemma4Buf::PbQ => 128 * (c.n_heads * c.widest_head()),
        Gemma4Buf::PbK => 128 * c.widest_kv(),
        Gemma4Buf::PbV => 128 * c.widest_kv(),
        Gemma4Buf::PbGate => 128 * c.hidden_dim,
        Gemma4Buf::PbUp => 128 * c.hidden_dim,
        Gemma4Buf::PbFfnHidden => 128 * c.hidden_dim,
        Gemma4Buf::PbPositions => 128,
    }
}

/// The buffers that a token needs before the position buffer.
pub open spec fn state_bufs() -> Seq<Gemma4Buf> {
    seq![Gemma4Buf::X, Gemma4Buf::Residual, Gemma4Buf::Tmp]
}

/// The other buffers that a token needs.
pub open spec fn token_bufs() -> Seq<Gemma4Buf> {
    seq![
        Gemma4Buf::Q,
        Gemma4Buf::K,
        Gemma4Buf::V,
        Gemma4Buf::AttnOut,
        Gemma4Buf::GateFfn,
        Gemma4Buf::UpFfn,
        Gemma4Buf::FfnHidden,
        Gemma4Buf::FfnOut,
        Gemma4Buf::Logits,
        Gemma4Buf::SampleBuf,
        Gemma4Buf::RepeatBuf,
        Gemma4Buf::FlashPartials,
        Gemma4Buf::VNormOnes,
        Gemma4Buf::MoeCurMlp,
        Gemma4Buf::MoePre2,
        Gemma4Buf::MoeRouterIn,
        Gemma4Buf::MoeRouterLogits,
        Gemma4Buf::MoeTopkIndices,
        Gemma4Buf::MoeTopkWeights,
        Gemma4Buf::MoeCurMoe,
        Gemma4Buf::MoeExpertGateUp,
        Gemma4Buf::MoeExpertHidden,
        Gemma4Buf::MoeExpertOut,
        Gemma4Buf::MoePre2Rot,
        Gemma4Buf::MoeExpertGateBatch,
        Gemma4Buf::MoeExpertUpBatch,
        Gemma4Buf::MoeExpertHiddenBatch,
    ]
}

/// The buffers that a batch needs.
pub open spec fn batch_bufs() -> Seq<Gemma4Buf> {
    seq![
        Gemma4Buf::PbAttnOut,
        Gemma4Buf::PbFfnOut,
        Gemma4Buf::PbMoePre2,
        Gemma4Buf::PbMoePre2Rot,
        Gemma4Buf::PbMoeRouterIn,
        Gemma4Buf::PbMoeRouterLogits,
        Gemma4Buf::PbMoeTopkIndices,
        Gemma4Buf::PbMoeTopkWeights,
        Gemma4Buf::PbMoeExpertOffsets,
        Gemma4Buf::PbMoeExpertTokenList,
        Gemma4Buf::PbMoeGateBatch,
        Gemma4Buf::PbMoeUpBatch,
        Gemma4Buf::PbMoeHiddenBatch,
        Gemma4Buf::PbMoeCurMoe,
        Gemma4Buf::PbMoeCurMlp,
        Gemma4Buf::PbResidual,
        Gemma4Buf::PbTmp,
        Gemma4Buf::PbQ,
        Gemma4Buf::PbK,
        Gemma4Buf::PbV,
        Gemma4Buf::PbGate,
        Gemma4Buf::PbUp,
        Gemma4Buf::PbFfnHidden,
        Gemma4Buf::PbPositions,
    ]
}

/// Positions that the cache is made for: what the user asks for if it is between
/// 128 and 524288, else 32768.
pub open spec fn kv_seq_or_default(asked: Option<usize>) -> usize {
    match asked {
        Some(n) => if 128 <= n <= 524288 {
            n
        } else {
            32768
        },
        None => 32768,
    }
}

/// Positions that the cache is made for.
pub fn max_kv_seq(asked: Option<usize>) -> (r: usize)
    ensures
        r == kv_seq_or_default(asked),
{
    match asked {
        Some(n) => if n >= 128 && n <= 524288 {
            n
        } else {
            32768
        },
        None => 32768,
    }
}

fn max_of(a: usize, b: usize) -> (r: usize)
    ensures
        r == larger(a as int, b as int),
{
    if a >= b {
        a
    } else {
        b
    }
}

/// What the sizes of the buffers say of their parts.
proof fn lemma_sizes(c: Gemma4Config)
    requires
        c.fits(),
    ensures
        0 <= c.q_dim(LayerType::Sliding) && 512 * c.q_dim(LayerType::Sliding) <= usize::MAX,
        0 <= c.q_dim(LayerType::Full) && 512 * c.q_dim(LayerType::Full) <= usize::MAX,
        0 <= c.kv_dim(LayerType::Sliding) && 512 * c.kv_dim(LayerType::Sliding) <= usize::MAX,
        0 <= c.kv_dim(LayerType::Full) && 512 * c.kv_dim(LayerType::Full) <= usize::MAX,
        c.n_heads * c.widest_head() == c.widest_q(),
        0 <= c.widest_q() && 512 * c.widest_q() <= usize::MAX,
        0 <= c.widest_kv() && 512 * c.widest_kv() <= usize::MAX,
        512 * c.dim <= usize::MAX,
        512 * c.hidden_dim <= usize::MAX,
        4 * c.vocab_size <= usize::MAX,
        512 * c.ne() <= usize::MAX,
        512 * c.top() <= usize::MAX,
        8 * c.mi() <= usize::MAX,
        0 < c.top() * c.mi(),
        512 * (c.top() * c.mi()) <= usize::MAX,
        4 * c.widest_head() <= usize::MAX,
{
    let n = c.n_heads as int;
    let s = c.sliding_head_dim as int;
    let f = c.full_head_dim as int;
    let ns = c.sliding_n_kv_heads as int;
    let nf = c.full_n_kv_heads as int;
    assert(0 <= n * s && 0 <= n * f && 0 <= ns * s && 0 <= nf * f) by (nonlinear_arith)
        requires
            n >= 0,
            s >= 0,
            f >= 0,
            ns >= 0,
            nf >= 0,
    ;
    assert(s >= f ==> n * s >= n * f) by (nonlinear_arith)
        requires
            n >= 0,
    ;
    assert(f >= s ==> n * f >= n * s) by (nonlinear_arith)
        requires
            n >= 0,
    ;
    let t = c.top();
    let m = c.mi();
    assert(0 < t * m) by (nonlinear_arith)
        requires
            t >= 1,
            m >= 1,
    ;
    assert(addressable(c, Gemma4Buf::PbQ));
    assert(addressable(c, Gemma4Buf::PbK));
    assert(addressable(c, Gemma4Buf::PbTmp));
    assert(addressable(c, Gemma4Buf::PbGate));
    assert(addressable(c, Gemma4Buf::Logits));
    assert(addressable(c, Gemma4Buf::PbMoeRouterLogits));
    assert(addressable(c, Gemma4Buf::PbMoeTopkIndices));
    assert(addressable(c, Gemma4Buf::MoeExpertGateUp));
    assert(addressable(c, Gemma4Buf::PbMoeGateBatch));
    assert(addressable(c, Gemma4Buf::VNormOnes));
    assert(c.q_dim(LayerType::Sliding) == n * s && c.q_dim(LayerType::Full) == n * f);
    assert(c.kv_dim(LayerType::Sliding) == ns * s && c.kv_dim(LayerType::Full) == nf * f);
}

/// The set of buffers.
#[derive(Debug, Clone, Copy)]
pub struct Gemma4Scratch {
    /// Positions that the partial results of attention have room for.
    pub kv_seq: usize,
    /// Tokens in a batch, at most.
    pub max_prefill_batch: usize,
}

impl Gemma4Scratch {
    /// Elements of each buffer.
    pub open spec fn elems(self, c: Gemma4Config) -> spec_fn(Gemma4Buf) -> int {
        |buf: Gemma4Buf| buf_elems(c, self.kv_seq as int, buf)
    }

    /// The allocations of a set: everything starts out as zeros but the position.
    pub open spec fn alloc_ops(self, c: Gemma4Config) -> Seq<GemmaOp> {
        crate::device::zeroed_all::<Gemma4Buf, Gemma4Wt>(
            crate::device::sized(state_bufs(), self.elems(c)),
        ) + seq![
            Op::<Gemma4Buf, Gemma4Wt>::AllocBytes { buf: Gemma4Buf::Pos, bytes: 4 },
        ] + crate::device::zeroed_all::<Gemma4Buf, Gemma4Wt>(
            crate::device::sized(token_bufs(), self.elems(c)),
        ) + crate::device::zeroed_all::<Gemma4Buf, Gemma4Wt>(
            crate::device::sized(batch_bufs(), self.elems(c)),
        )
    }

    /// The releases of a set, but for the position buffer, which its owner drops.
    pub open spec fn free_ops(self) -> Seq<GemmaOp> {
        crate::device::free_all::<Gemma4Buf, Gemma4Wt>(state_bufs() + token_bufs() + batch_bufs())
    }

    /// A set of buffers, and the allocations that make it. `asked` is how many
    /// positions the user wants the cache to have.
    pub fn new(c: &Gemma4Config, asked: Option<usize>) -> (r: (Self, Vec<GemmaOp>))
        requires
            c.fits(),
            c.n_heads * ((kv_seq_or_default(asked) + 127) / 128) <= usize::MAX,
            4 * partials(*c, kv_seq_or_default(asked) as int) <= usize::MAX,
        ensures
            r.0.kv_seq == kv_seq_or_default(asked),
            r.0.max_prefill_batch == MAX_PREFILL_BATCH,
            r.1@ == r.0.alloc_ops(*c),
    {
        let kv_seq: usize = max_kv_seq(asked);
        let s: Gemma4Scratch = Gemma4Scratch { kv_seq, max_prefill_batch: MAX_PREFILL_BATCH };
        let mut ops: Vec<GemmaOp> = zeroed_list(&s.state_list(c));
        extend(&mut ops, vec![Op::AllocBytes { buf: Gemma4Buf::Pos, bytes: 4 }]);
        extend(&mut ops, zeroed_list(&s.token_list(c)));
        extend(&mut ops, zeroed_list(&s.batch_list(c)));
        (s, ops)
    }

    fn state_list(&self, c: &Gemma4Config) -> (list: Vec<(Gemma4Buf, usize)>)
        requires
            c.fits(),
        ensures
            list@ == crate::device::sized(state_bufs(), self.elems(*c)),
            forall|i: int| 0 <= i < list@.len() ==> 4 * (#[trigger] list@[i]).1 <= usize::MAX,
    {
        proof {
            lemma_sizes(*c);
        }
        let dim: usize = c.dim;
        vec![
            (Gemma4Buf::X, dim),
            (Gemma4Buf::Residual, dim),
            (Gemma4Buf::Tmp, dim),
        ]
    }

    #[verifier::rlimit(40)]
    fn token_list(&self, c: &Gemma4Config) -> (list: Vec<(Gemma4Buf, usize)>)
        requires
            c.fits(),
            self.kv_seq + 127 <= usize::MAX,
            c.n_heads * ((self.kv_seq + 127) / 128) <= usize::MAX,
            4 * partials(*c, self.kv_seq as int) <= usize::MAX,
        ensures
            list@ == crate::device::sized(token_bufs(), self.elems(*c)),
            forall|i: int| 0 <= i < list@.len() ==> 4 * (#[trigger] list@[i]).1 <= usize::MAX,
    {
        proof {
            lemma_sizes(*c);
            let h = c.n_heads as int;
            let t = (self.kv_seq + 127) / 128;
            assert(0 <= h * t && 0 <= h * t * (2 + c.full_head_dim)) by (nonlinear_arith)
                requires
                    h >= 0,
                    t >= 0,
            ;
            assert(2 + c.full_head_dim <= usize::MAX) by {
                assert(addressable(*c, Gemma4Buf::VNormOnes));
            }
            assert(c.q_dim(LayerType::Sliding) >= 0 && c.q_dim(LayerType::Full) >= 0);
            assert(c.kv_dim(LayerType::Sliding) >= 0 && c.kv_dim(LayerType::Full) >= 0);
        }
        let dim: usize = c.dim;
        let q: usize = max_of(c.n_heads * c.sliding_head_dim, c.n_heads * c.full_head_dim);
        let kv: usize = max_of(
            c.sliding_n_kv_heads * c.sliding_head_dim,
            c.full_n_kv_heads * c.full_head_dim,
        );
        let hidden: usize = c.hidden_dim;
        let vocab: usize = c.vocab_size;
        let partials: usize = c.n_heads * ((self.kv_seq + 127) / 128) * (2 + c.full_head_dim);
        let ones: usize = max_of(c.sliding_head_dim, c.full_head_dim);
        let ne: usize = max_of(c.num_experts, 1);
        let mi: usize = max_of(c.moe_intermediate_size, 1);
        let top: usize = max_of(c.top_k_experts, 1);
        let mi2: usize = 2 * mi;
        let tm: usize = top * mi;
        let list: Vec<(Gemma4Buf, usize)> = vec![
            (Gemma4Buf::Q, q),
            (Gemma4Buf::K, kv),
            (Gemma4Buf::V, kv),
            (Gemma4Buf::AttnOut, q),
            (Gemma4Buf::GateFfn, hidden),
            (Gemma4Buf::UpFfn, hidden),
            (Gemma4Buf::FfnHidden, hidden),
            (Gemma4Buf::FfnOut, dim),
            (Gemma4Buf::Logits, vocab),
            (Gemma4Buf::SampleBuf, 2),
            (Gemma4Buf::RepeatBuf, 1024),
            (Gemma4Buf::FlashPartials, partials),
            (Gemma4Buf::VNormOnes, ones),
            (Gemma4Buf::MoeCurMlp, dim),
            (Gemma4Buf::MoePre2, dim),
            (Gemma4Buf::MoeRouterIn, dim),
            (Gemma4Buf::MoeRouterLogits, ne),
            (Gemma4Buf::MoeTopkIndices, top),
            (Gemma4Buf::MoeTopkWeights, top),
            (Gemma4Buf::MoeCurMoe, dim),
            (Gemma4Buf::MoeExpertGateUp, mi2),
            (Gemma4Buf::MoeExpertHidden, mi),
            (Gemma4Buf::MoeExpertOut, dim),
            (Gemma4Buf::MoePre2Rot, dim),
            (Gemma4Buf::MoeExpertGateBatch, tm),
            (Gemma4Buf::MoeExpertUpBatch, tm),
            (Gemma4Buf::MoeExpertHiddenBatch, tm),
        ];
        assert(list@ =~= crate::device::sized(token_bufs(), self.elems(*c)));
        list
    }

    #[verifier::rlimit(40)]
    fn batch_list(&self, c: &Gemma4Config) -> (list: Vec<(Gemma4Buf, usize)>)
        requires
            c.fits(),
        ensures
            list@ == crate::device::sized(batch_bufs(), self.elems(*c)),
            forall|i: int| 0 <= i < list@.len() ==> 4 * (#[trigger] list@[i]).1 <= usize::MAX,
    {
        proof {
            lemma_sizes(*c);
            assert(c.kv_dim(LayerType::Sliding) >= 0 && c.kv_dim(LayerType::Full) >= 0);
        }
        let kv: usize = max_of(
            c.sliding_n_kv_heads * c.sliding_head_dim,
            c.full_n_kv_heads * c.full_head_dim,
        );
        let ne: usize = max_of(c.num_experts, 1);
        let mi: usize = max_of(c.moe_intermediate_size, 1);
        let top: usize = max_of(c.top_k_experts, 1);
        let tm: usize = top * mi;
        let ne1: usize = ne + 1;
        let pdim: usize = 128 * c.dim;
        let pne: usize = 128 * ne;
        let ptop: usize = 128 * top;
        let ptm: usize = 128 * tm;
        let pq: usize = 128 * (c.n_heads * max_of(c.sliding_head_dim, c.full_head_dim));
        let pkv: usize = 128 * kv;
        let phid: usize = 128 * c.hidden_dim;
        let list: Vec<(Gemma4Buf, usize)> = vec![
            (Gemma4Buf::PbAttnOut, pdim),
            (Gemma4Buf::PbFfnOut, pdim),
            (Gemma4Buf::PbMoePre2, pdim),
            (Gemma4Buf::PbMoePre2Rot, pdim),
            (Gemma4Buf::PbMoeRouterIn, pdim),
            (Gemma4Buf::PbMoeRouterLogits, pne),
            (Gemma4Buf::PbMoeTopkIndices, ptop),
            (Gemma4Buf::PbMoeTopkWeights, ptop),
            (Gemma4Buf::PbMoeExpertOffsets, ne1),
            (Gemma4Buf::PbMoeExpertTokenList, ptop),
            (Gemma4Buf::PbMoeGateBatch, ptm),
            (Gemma4Buf::PbMoeUpBatch, ptm),
            (Gemma4Buf::PbMoeHiddenBatch, ptm),
            (Gemma4Buf::PbMoeCurMoe, pdim),
            (Gemma4Buf::PbMoeCurMlp, pdim),
            (Gemma4Buf::PbResidual, pdim),
            (Gemma4Buf::PbTmp, pdim),
            (Gemma4Buf::PbQ, pq),
            (Gemma4Buf::PbK, pkv),
            (Gemma4Buf::PbV, pkv),
            (Gemma4Buf::PbGate, phid),
            (Gemma4Buf::PbUp, phid),
            (Gemma4Buf::PbFfnHidden, phid),
            (Gemma4Buf::PbPositions, 128),
        ];
        assert(list@ =~= crate::device::sized(batch_bufs(), self.elems(*c)));
        list
    }

    /// Gives the buffers back.
    pub fn free_gpu(self) -> (ops: Vec<GemmaOp>)
        ensures
            ops@ == self.free_ops(),
    {
        let bufs: Vec<Gemma4Buf> = vec![
            Gemma4Buf::X,
            Gemma4Buf::Residual,
            Gemma4Buf::Tmp,
            Gemma4Buf::Q,
            Gemma4Buf::K,
            Gemma4Buf::V,
            Gemma4Buf::AttnOut,
            Gemma4Buf::GateFfn,
            Gemma4Buf::UpFfn,
            Gemma4Buf::FfnHidden,
            Gemma4Buf::FfnOut,
            Gemma4Buf::Logits,
            Gemma4Buf::SampleBuf,
            Gemma4Buf::RepeatBuf,
            Gemma4Buf::FlashPartials,
            Gemma4Buf::VNormOnes,
            Gemma4Buf::MoeCurMlp,
            Gemma4Buf::MoePre2,
            Gemma4Buf::MoeRouterIn,
            Gemma4Buf::MoeRouterLogits,
            Gemma4Buf::MoeTopkIndices,
            Gemma4Buf::MoeTopkWeights,
            Gemma4Buf::MoeCurMoe,
            Gemma4Buf::MoeExpertGateUp,
            Gemma4Buf::MoeExpertHidden,
            Gemma4Buf::MoeExpertOut,
            Gemma4Buf::MoePre2Rot,
            Gemma4Buf::MoeExpertGateBatch,
            Gemma4Buf::MoeExpertUpBatch,
            Gemma4Buf::MoeExpertHiddenBatch,
            Gemma4Buf::PbAttnOut,
            Gemma4Buf::PbFfnOut,
            Gemma4Buf::PbMoePre2,
            Gemma4Buf::PbMoePre2Rot,
            Gemma4Buf::PbMoeRouterIn,
            Gemma4Buf::PbMoeRouterLogits,
            Gemma4Buf::PbMoeTopkIndices,
            Gemma4Buf::PbMoeTopkWeights,
            Gemma4Buf::PbMoeExpertOffsets,
            Gemma4Buf::PbMoeExpertTokenList,
            Gemma4Buf::PbMoeGateBatch,
            Gemma4Buf::PbMoeUpBatch,
            Gemma4Buf::PbMoeHiddenBatch,
            Gemma4Buf::PbMoeCurMoe,
            Gemma4Buf::PbMoeCurMlp,
            Gemma4Buf::PbResidual,
            Gemma4Buf::PbTmp,
            Gemma4Buf::PbQ,
            Gemma4Buf::PbK,
            Gemma4Buf::PbV,
            Gemma4Buf::PbGate,
            Gemma4Buf::PbUp,
            Gemma4Buf::PbFfnHidden,
            Gemma4Buf::PbPositions,
        ];
        assert(bufs@ =~= state_bufs() + token_bufs() + batch_bufs());
        free_list(&bufs)
    }
}

/// A set of scratch buffers gives back all that it took but the position buffer.
pub proof fn law_scratch_is_returned(c: Gemma4Config, s: Gemma4Scratch, buf: Gemma4Buf)
    ensures
        crate::device::balance(s.alloc_ops(c) + s.free_ops(), buf) == if buf == Gemma4Buf::Pos {
            1int
        } else {
            0int
        },
{
    let e = s.elems(c);
    let a = crate::device::zeroed_all::<Gemma4Buf, Gemma4Wt>(
        crate::device::sized(state_bufs(), e),
    );
    let p: Seq<GemmaOp> = seq![Op::AllocBytes { buf: Gemma4Buf::Pos, bytes: 4 }];
    let b = crate::device::zeroed_all::<Gemma4Buf, Gemma4Wt>(
        crate::device::sized(token_bufs(), e),
    );
    let d = crate::device::zeroed_all::<Gemma4Buf, Gemma4Wt>(
        crate::device::sized(batch_bufs(), e),
    );
    crate::device::lemma_balance_of_zeroed::<Gemma4Buf, Gemma4Wt>(state_bufs(), e, buf);
    crate::device::lemma_balance_of_zeroed::<Gemma4Buf, Gemma4Wt>(token_bufs(), e, buf);
    crate::device::lemma_balance_of_zeroed::<Gemma4Buf, Gemma4Wt>(batch_bufs(), e, buf);
    crate::device::lemma_balance_of_frees::<Gemma4Buf, Gemma4Wt>(
        state_bufs() + token_bufs() + batch_bufs(),
        buf,
    );
    crate::device::lemma_occurrences_concat(state_bufs(), token_bufs(), buf);
    crate::device::lemma_occurrences_concat(state_bufs() + token_bufs(), batch_bufs(), buf);
    assert(crate::device::balance(p, buf) == if buf == Gemma4Buf::Pos {
        1int
    } else {
        0int
    }) by {
        reveal_with_fuel(crate::device::tally, 2);
    }
    crate::device::lemma_balance_concat(a, p, buf);
    crate::device::lemma_balance_concat(a + p, b, buf);
    crate::device::lemma_balance_concat(a + p + b, d, buf);
    crate::device::lemma_balance_concat(s.alloc_ops(c), s.free_ops(), buf);
}

/// The ones that a norm without a weight takes, `full_head_dim` of them, and the
/// upload that puts them in place.
pub fn init_scratch_constants(full_head_dim: usize) -> (r: (Vec<F32>, Vec<GemmaOp>))
    ensures
        r.0@ == Seq::new(full_head_dim as nat, |i: int| F32 { bits: crate::cask::ONE }),
        r.1@ == seq![Op::<Gemma4Buf, Gemma4Wt>::Upload {
            buf: Gemma4Buf::VNormOnes,
            elems: full_head_dim,
        }],
{
    let mut ones: Vec<F32> = Vec::new();
    let mut i: usize = 0;
    while i < full_head_dim
        invariant
            i <= full_head_dim,
            ones@ == Seq::new(i as nat, |i: int| F32 { bits: crate::cask::ONE }),
        decreases full_head_dim - i,
    {
        ones.push(F32 { bits: crate::cask::ONE });
        assert(ones@ =~= Seq::new((i + 1) as nat, |i: int| F32 { bits: crate::cask::ONE }));
        i = i + 1;
    }
    (ones, vec![Op::Upload { buf: Gemma4Buf::VNormOnes, elems: full_head_dim }])
}

// Forward pass of one token.

/// Why a forward pass cannot be planned.
#[derive(Debug, Clone, Copy, PartialEq, Eq, Structural)]
pub enum ForwardError {
    /// The embedding table has a format without a lookup.
    EmbedFormat,
    /// A layer's weights are of the other kind.
    Mismatch { layer: usize },
    /// A sliding layer on a cache whose kernels have no window.
    NoWindow,
    /// A full layer on a cache without kernels for its head size.
    NoFullKernel { form: KvForm },
    /// Another number of experts per token than eight.
    TopK { top_k: usize },
    /// The router named an expert that is not there.
    NoSuchExpert { index: usize, experts: usize },
    /// More tokens than a batch holds.
    TooLong { n: usize, most: usize },
}

/// What a planned list is, or why there is none.
pub open spec fn agrees(
    r: Result<Vec<GemmaOp>, ForwardError>,
    planned: Result<Seq<GemmaOp>, ForwardError>,
) -> bool {
    match (r, planned) {
        (Ok(v), Ok(s)) => v@ == s,
        (Err(e), Err(f)) => e == f,
        _ => false,
    }
}

/// One list after the other, or the first error.
pub open spec fn chained(
    a: Result<Seq<GemmaOp>, ForwardError>,
    b: Result<Seq<GemmaOp>, ForwardError>,
) -> Result<Seq<GemmaOp>, ForwardError> {
    match a {
        Err(e) => Err(e),
        Ok(x) => match b {
            Err(e) => Err(e),
            Ok(y) => Ok(x + y),
        },
    }
}

/// What a key/value cache is like.
#[derive(Debug, Clone, Copy)]
pub struct KvCache {
    pub quant_asym3: bool,
    pub quant_asym4: bool,
    pub quant_asym2: bool,
    pub quant_q8: bool,
    /// The tables that rotated keys need are there.
    pub has_givens: bool,
    pub max_seq: usize,
    /// Positions that eviction has dropped.
    pub compact_offset: usize,
}

impl KvCache {
    /// How the cache is stored.
    pub open spec fn form(self) -> KvForm {
        if self.quant_asym3 {
            KvForm::Asym3
        } else if self.quant_asym4 {
            KvForm::Asym4
        } else if self.quant_asym2 {
            KvForm::Asym2
        } else if self.quant_q8 {
            KvForm::Q8
        } else {
            KvForm::F32
        }
    }

    /// Rotated keys have their tables.
    pub open spec fn wf(self) -> bool {
        self.quant_asym3 || self.quant_asym4 || self.quant_asym2 ==> self.has_givens
    }

    /// How the cache is stored.
    pub fn kv_form(&self) -> (r: KvForm)
        ensures
            r == self.form(),
    {
        if self.quant_asym3 {
            KvForm::Asym3
        } else if self.quant_asym4 {
            KvForm::Asym4
        } else if self.quant_asym2 {
            KvForm::Asym2
        } else if self.quant_q8 {
            KvForm::Q8
        } else {
            KvForm::F32
        }
    }
}

/// What queries are multiplied by: the root of the head size.
pub open spec fn query_scale(head_dim: nat) -> F32 {
    crate::float::square_root(crate::float::of_nat(head_dim))
}

/// One half.
pub const HALF: u32 = 0x3f00_0000;

/// Pairs of a full layer's heads that positions rotate.
pub open spec fn rotated_pairs(c: Gemma4Config) -> usize {
    crate::float::trunc_nat(
        crate::float::product(
            crate::float::product(
                crate::float::of_nat(c.full_head_dim as nat),
                c.full_partial_rotary_factor,
            ),
            F32 { bits: HALF },
        ),
    ) as usize
}

fn rotated_pairs_of(c: &Gemma4Config) -> (r: usize)
    ensures
        r == rotated_pairs(*c),
{
    let rotated: F32 = F32::from_u64(c.full_head_dim as u64).times(c.full_partial_rotary_factor);
    rotated.times(F32 { bits: HALF }).to_u64() as usize
}

fn query_scale_of(head_dim: usize) -> (r: F32)
    ensures
        r == query_scale(head_dim as nat),
{
    F32::from_u64(head_dim as u64).sqrt()
}

/// The sliding window, as kernels take it.
pub open spec fn window(c: Gemma4Config) -> usize {
    (c.sliding_window as u32) as usize
}

/// A sliding layer up to its cache: keep the state, project, norm, scale and rotate.
pub open spec fn sliding_in_ops(c: Gemma4Config, w: SlidingLayerWeights, i: usize) -> Seq<GemmaOp> {
    let d4 = (4 * c.dim) as usize;
    let hd = c.sliding_head_dim;
    let nk = c.sliding_n_kv_heads;
    let nh = c.n_heads;
    let eps = c.norm_eps;
    let by = query_scale(hd as nat);
    seq![
        Op::Copy { dst: Gemma4Buf::Residual, dst_off: 0, src: Gemma4Buf::X, src_off: 0, bytes: d4 },
        Op::RmsNorm {
            x: Gemma4Buf::X,
            w: Gemma4Wt::Layer(i, LayerPart::InputNorm),
            out: Gemma4Buf::Tmp,
            eps,
        },
        crate::device::gemv_op(
            w.common.q_proj,
            Gemma4Wt::Layer(i, LayerPart::QProj),
            Gemma4Buf::Tmp,
            Gemma4Buf::Q,
        ),
        crate::device::gemv_op(
            w.common.k_proj,
            Gemma4Wt::Layer(i, LayerPart::KProj),
            Gemma4Buf::Tmp,
            Gemma4Buf::K,
        ),
        crate::device::gemv_op(
            w.v_proj,
            Gemma4Wt::Layer(i, LayerPart::VProj),
            Gemma4Buf::Tmp,
            Gemma4Buf::V,
        ),
        Op::RmsNormRows {
            x: Gemma4Buf::Q,
            w: Gemma4Wt::Layer(i, LayerPart::QNorm),
            out: Gemma4Buf::Q,
            rows: nh,
            n: hd,
            eps,
        },
        Op::RmsNormRows {
            x: Gemma4Buf::K,
            w: Gemma4Wt::Layer(i, LayerPart::KNorm),
            out: Gemma4Buf::K,
            rows: nk,
            n: hd,
            eps,
        },
        Op::RmsNormRows {
            x: Gemma4Buf::V,
            w: Gemma4Wt::Ones,
            out: Gemma4Buf::V,
            rows: nk,
            n: hd,
            eps,
        },
        Op::Scale { x: Gemma4Buf::Q, by },
        Op::Rope {
            q: Gemma4Buf::Q,
            k: Gemma4Buf::K,
            q_heads: nh,
            k_heads: nk,
            dim: hd,
            theta: c.sliding_rope_theta,
        },
    ]
}

fn sliding_in(c: &Gemma4Config, w: &SlidingLayerWeights, i: usize) -> (ops: Vec<GemmaOp>)
    requires
        c.fits(),
    ensures
        ops@ == sliding_in_ops(*c, *w, i),
{
    proof {
        lemma_sizes(*c);
    }
    let d4: usize = 4 * c.dim;
    let hd: usize = c.sliding_head_dim;
    let nk: usize = c.sliding_n_kv_heads;
    let nh: usize = c.n_heads;
    let eps: F32 = c.norm_eps;
    let by: F32 = query_scale_of(hd);
    vec![
        Op::Copy { dst: Gemma4Buf::Residual, dst_off: 0, src: Gemma4Buf::X, src_off: 0, bytes: d4 },
        Op::RmsNorm {
            x: Gemma4Buf::X,
            w: Gemma4Wt::Layer(i, LayerPart::InputNorm),
            out: Gemma4Buf::Tmp,
            eps,
        },
        gemv(w.common.q_proj, Gemma4Wt::Layer(i, LayerPart::QProj), Gemma4Buf::Tmp, Gemma4Buf::Q),
        gemv(w.common.k_proj, Gemma4Wt::Layer(i, LayerPart::KProj), Gemma4Buf::Tmp, Gemma4Buf::K),
        gemv(w.v_proj, Gemma4Wt::Layer(i, LayerPart::VProj), Gemma4Buf::Tmp, Gemma4Buf::V),
        Op::RmsNormRows {
            x: Gemma4Buf::Q,
            w: Gemma4Wt::Layer(i, LayerPart::QNorm),
            out: Gemma4Buf::Q,
            rows: nh,
            n: hd,
            eps,
        },
        Op::RmsNormRows {
            x: Gemma4Buf::K,
            w: Gemma4Wt::Layer(i, LayerPart::KNorm),
            out: Gemma4Buf::K,
            rows: nk,
            n: hd,
            eps,
        },
        Op::RmsNormRows {
            x: Gemma4Buf::V,
            w: Gemma4Wt::Ones,
            out: Gemma4Buf::V,
            rows: nk,
            n: hd,
            eps,
        },
        Op::Scale { x: Gemma4Buf::Q, by },
        Op::Rope {
            q: Gemma4Buf::Q,
            k: Gemma4Buf::K,
            q_heads: nh,
            k_heads: nk,
            dim: hd,
            theta: c.sliding_rope_theta,
        },
    ]
}

/// A full layer up to its cache. The values are the keys before their norm.
pub open spec fn full_in_ops(c: Gemma4Config, w: FullLayerWeights, i: usize) -> Seq<GemmaOp> {
    let d4 = (4 * c.dim) as usize;
    let kv4 = (4 * c.kv_dim(LayerType::Full)) as usize;
    let hd = c.full_head_dim;
    let nk = c.full_n_kv_heads;
    let nh = c.n_heads;
    let eps = c.norm_eps;
    let by = query_scale(hd as nat);
    let pairs = rotated_pairs(c);
    seq![
        Op::Copy { dst: Gemma4Buf::Residual, dst_off: 0, src: Gemma4Buf::X, src_off: 0, bytes: d4 },
        Op::RmsNorm {
            x: Gemma4Buf::X,
            w: Gemma4Wt::Layer(i, LayerPart::InputNorm),
            out: Gemma4Buf::Tmp,
            eps,
        },
        crate::device::gemv_op(
            w.common.q_proj,
            Gemma4Wt::Layer(i, LayerPart::QProj),
            Gemma4Buf::Tmp,
            Gemma4Buf::Q,
        ),
        crate::device::gemv_op(
            w.common.k_proj,
            Gemma4Wt::Layer(i, LayerPart::KProj),
            Gemma4Buf::Tmp,
            Gemma4Buf::K,
        ),
        Op::Copy { dst: Gemma4Buf::V, dst_off: 0, src: Gemma4Buf::K, src_off: 0, bytes: kv4 },
        Op::RmsNormRows {
            x: Gemma4Buf::Q,
            w: Gemma4Wt::Layer(i, LayerPart::QNorm),
            out: Gemma4Buf::Q,
            rows: nh,
            n: hd,
            eps,
        },
        Op::RmsNormRows {
            x: Gemma4Buf::K,
            w: Gemma4Wt::Layer(i, LayerPart::KNorm),
            out: Gemma4Buf::K,
            rows: nk,
            n: hd,
            eps,
        },
        Op::RmsNormRows {
            x: Gemma4Buf::V,
            w: Gemma4Wt::Ones,
            out: Gemma4Buf::V,
            rows: nk,
            n: hd,
            eps,
        },
        Op::Scale { x: Gemma4Buf::Q, by },
        Op::RopeHalved {
            q: Gemma4Buf::Q,
            k: Gemma4Buf::K,
            q_heads: nh,
            k_heads: nk,
            dim: hd,
            pairs,
            theta: c.full_rope_theta,
        },
    ]
}

fn full_in(c: &Gemma4Config, w: &FullLayerWeights, i: usize) -> (ops: Vec<GemmaOp>)
    requires
        c.fits(),
    ensures
        ops@ == full_in_ops(*c, *w, i),
{
    proof {
        lemma_sizes(*c);
        assert(0 <= c.kv_dim(LayerType::Full));
    }
    let d4: usize = 4 * c.dim;
    let kv4: usize = 4 * (c.full_n_kv_heads * c.full_head_dim);
    let hd: usize = c.full_head_dim;
    let nk: usize = c.full_n_kv_heads;
    let nh: usize = c.n_heads;
    let eps: F32 = c.norm_eps;
    let by: F32 = query_scale_of(hd);
    let pairs: usize = rotated_pairs_of(c);
    vec![
        Op::Copy { dst: Gemma4Buf::Residual, dst_off: 0, src: Gemma4Buf::X, src_off: 0, bytes: d4 },
        Op::RmsNorm {
            x: Gemma4Buf::X,
            w: Gemma4Wt::Layer(i, LayerPart::InputNorm),
            out: Gemma4Buf::Tmp,
            eps,
        },
        gemv(w.common.q_proj, Gemma4Wt::Layer(i, LayerPart::QProj), Gemma4Buf::Tmp, Gemma4Buf::Q),
        gemv(w.common.k_proj, Gemma4Wt::Layer(i, LayerPart::KProj), Gemma4Buf::Tmp, Gemma4Buf::K),
        Op::Copy { dst: Gemma4Buf::V, dst_off: 0, src: Gemma4Buf::K, src_off: 0, bytes: kv4 },
        Op::RmsNormRows {
            x: Gemma4Buf::Q,
            w: Gemma4Wt::Layer(i, LayerPart::QNorm),
            out: Gemma4Buf::Q,
            rows: nh,
            n: hd,
            eps,
        },
        Op::RmsNormRows {
            x: Gemma4Buf::K,
            w: Gemma4Wt::Layer(i, LayerPart::KNorm),
            out: Gemma4Buf::K,
            rows: nk,
            n: hd,
            eps,
        },
        Op::RmsNormRows {
            x: Gemma4Buf::V,
            w: Gemma4Wt::Ones,
            out: Gemma4Buf::V,
            rows: nk,
            n: hd,
            eps,
        },
        Op::Scale { x: Gemma4Buf::Q, by },
        Op::RopeHalved {
            q: Gemma4Buf::Q,
            k: Gemma4Buf::K,
            q_heads: nh,
            k_heads: nk,
            dim: hd,
            pairs,
            theta: c.full_rope_theta,
        },
    ]
}

/// A sliding layer on its cache: write the token, then attend over the window. A
/// three-bit cache is a ring of the window's size.
pub open spec fn sliding_cache_ops(
    c: Gemma4Config,
    s: usize,
    pos: usize,
    kv: KvCache,
) -> Result<Seq<GemmaOp>, ForwardError> {
    match kv.form() {
        KvForm::Asym3 => Ok(seq![
            Op::KvStorePair {
                cache: CacheKind::Sliding,
                form: KvForm::Asym3,
                layer: s,
                k: Gemma4Buf::K,
                v: Gemma4Buf::V,
                heads: c.sliding_n_kv_heads,
                dim: c.sliding_head_dim,
                capacity: window(c),
            },
            Op::Attend {
                cache: CacheKind::Sliding,
                form: KvForm::Asym3,
                layer: s,
                q: Gemma4Buf::Q,
                out: Gemma4Buf::AttnOut,
                seq_len: (pos + 1) as usize,
                heads: c.n_heads,
                kv_heads: c.sliding_n_kv_heads,
                dim: c.sliding_head_dim,
                max_seq: kv.max_seq,
                window: window(c),
                capacity: window(c),
            },
        ]),
        KvForm::Asym4 => Ok(seq![
            Op::KvStorePair {
                cache: CacheKind::Sliding,
                form: KvForm::Asym4,
                layer: s,
                k: Gemma4Buf::K,
                v: Gemma4Buf::V,
                heads: c.sliding_n_kv_heads,
                dim: c.sliding_head_dim,
                capacity: 0,
            },
            Op::Attend {
                cache: CacheKind::Sliding,
                form: KvForm::Asym4,
                layer: s,
                q: Gemma4Buf::Q,
                out: Gemma4Buf::AttnOut,
                seq_len: (pos + 1) as usize,
                heads: c.n_heads,
                kv_heads: c.sliding_n_kv_heads,
                dim: c.sliding_head_dim,
                max_seq: kv.max_seq,
                window: window(c),
                capacity: 0,
            },
        ]),
        KvForm::Asym2 => Ok(seq![
            Op::KvStorePair {
                cache: CacheKind::Sliding,
                form: KvForm::Asym2,
                layer: s,
                k: Gemma4Buf::K,
                v: Gemma4Buf::V,
                heads: c.sliding_n_kv_heads,
                dim: c.sliding_head_dim,
                capacity: 0,
            },
            Op::Attend {
                cache: CacheKind::Sliding,
                form: KvForm::Asym2,
                layer: s,
                q: Gemma4Buf::Q,
                out: Gemma4Buf::AttnOut,
                seq_len: (pos + 1) as usize,
                heads: c.n_heads,
                kv_heads: c.sliding_n_kv_heads,
                dim: c.sliding_head_dim,
                max_seq: kv.max_seq,
                window: window(c),
                capacity: 0,
            },
        ]),
        KvForm::Q8 => Ok(seq![
            Op::KvStore {
                cache: CacheKind::Sliding,
                form: KvForm::Q8,
                side: KvSide::Keys,
                layer: s,
                src: Gemma4Buf::K,
                heads: c.sliding_n_kv_heads,
                dim: c.sliding_head_dim,
            },
            Op::KvStore {
                cache: CacheKind::Sliding,
                form: KvForm::Q8,
                side: KvSide::Values,
                layer: s,
                src: Gemma4Buf::V,
                heads: c.sliding_n_kv_heads,
                dim: c.sliding_head_dim,
            },
            Op::Attend {
                cache: CacheKind::Sliding,
                form: KvForm::Q8,
                layer: s,
                q: Gemma4Buf::Q,
                out: Gemma4Buf::AttnOut,
                seq_len: (pos + 1) as usize,
                heads: c.n_heads,
                kv_heads: c.sliding_n_kv_heads,
                dim: c.sliding_head_dim,
                max_seq: kv.max_seq,
                window: window(c),
                capacity: 0,
            },
        ]),
        _ => Err(ForwardError::NoWindow),
    }
}

fn sliding_cache(c: &Gemma4Config, s: usize, pos: usize, kv: &KvCache) -> (r: Result<
    Vec<GemmaOp>,
    ForwardError,
>)
    requires
        pos < usize::MAX,
    ensures
        agrees(r, sliding_cache_ops(*c, s, pos, *kv)),
{
    let window: usize = (c.sliding_window as u32) as usize;
    match kv.kv_form() {
        KvForm::Asym3 => Ok(vec![
            Op::KvStorePair {
                cache: CacheKind::Sliding,
                form: KvForm::Asym3,
                layer: s,
                k: Gemma4Buf::K,
                v: Gemma4Buf::V,
                heads: c.sliding_n_kv_heads,
                dim: c.sliding_head_dim,
                capacity: window,
            },
            Op::Attend {
                cache: CacheKind::Sliding,
                form: KvForm::Asym3,
                layer: s,
                q: Gemma4Buf::Q,
                out: Gemma4Buf::AttnOut,
                seq_len: pos + 1,
                heads: c.n_heads,
                kv_heads: c.sliding_n_kv_heads,
                dim: c.sliding_head_dim,
                max_seq: kv.max_seq,
                window: window,
                capacity: window,
            },
        ]),
        KvForm::Asym4 => Ok(vec![
            Op::KvStorePair {
                cache: CacheKind::Sliding,
                form: KvForm::Asym4,
                layer: s,
                k: Gemma4Buf::K,
                v: Gemma4Buf::V,
                heads: c.sliding_n_kv_heads,
                dim: c.sliding_head_dim,
                capacity: 0,
            },
            Op::Attend {
                cache: CacheKind::Sliding,
                form: KvForm::Asym4,
                layer: s,
                q: Gemma4Buf::Q,
                out: Gemma4Buf::AttnOut,
                seq_len: pos + 1,
                heads: c.n_heads,
                kv_heads: c.sliding_n_kv_heads,
                dim: c.sliding_head_dim,
                max_seq: kv.max_seq,
                window: window,
                capacity: 0,
            },
        ]),
        KvForm::Asym2 => Ok(vec![
            Op::KvStorePair {
                cache: CacheKind::Sliding,
                form: KvForm::Asym2,
                layer: s,
                k: Gemma4Buf::K,
                v: Gemma4Buf::V,
                heads: c.sliding_n_kv_heads,
                dim: c.sliding_head_dim,
                capacity: 0,
            },
            Op::Attend {
                cache: CacheKind::Sliding,
                form: KvForm::Asym2,
                layer: s,
                q: Gemma4Buf::Q,
                out: Gemma4Buf::AttnOut,
                seq_len: pos + 1,
                heads: c.n_heads,
                kv_heads: c.sliding_n_kv_heads,
                dim: c.sliding_head_dim,
                max_seq: kv.max_seq,
                window: window,
                capacity: 0,
            },
        ]),
        KvForm::Q8 => Ok(vec![
            Op::KvStore {
                cache: CacheKind::Sliding,
                form: KvForm::Q8,
                side: KvSide::Keys,
                layer: s,
                src: Gemma4Buf::K,
                heads: c.sliding_n_kv_heads,
                dim: c.sliding_head_dim,
            },
            Op::KvStore {
                cache: CacheKind::Sliding,
                form: KvForm::Q8,
                side: KvSide::Values,
                layer: s,
                src: Gemma4Buf::V,
                heads: c.sliding_n_kv_heads,
                dim: c.sliding_head_dim,
            },
            Op::Attend {
                cache: CacheKind::Sliding,
                form: KvForm::Q8,
                layer: s,
                q: Gemma4Buf::Q,
                out: Gemma4Buf::AttnOut,
                seq_len: pos + 1,
                heads: c.n_heads,
                kv_heads: c.sliding_n_kv_heads,
                dim: c.sliding_head_dim,
                max_seq: kv.max_seq,
                window: window,
                capacity: 0,
            },
        ]),
        _ => Err(ForwardError::NoWindow),
    }
}

/// A full layer on its cache: write the token, then attend over all positions.
pub open spec fn full_cache_ops(
    c: Gemma4Config,
    s: usize,
    pos: usize,
    kv: KvCache,
) -> Result<Seq<GemmaOp>, ForwardError> {
    match kv.form() {
        KvForm::Asym3 => Ok(seq![
            Op::KvStorePair {
                cache: CacheKind::Full,
                form: KvForm::Asym3,
                layer: s,
                k: Gemma4Buf::K,
                v: Gemma4Buf::V,
                heads: c.full_n_kv_heads,
                dim: c.full_head_dim,
                capacity: 0,
            },
            Op::Attend {
                cache: CacheKind::Full,
                form: KvForm::Asym3,
                layer: s,
                q: Gemma4Buf::Q,
                out: Gemma4Buf::AttnOut,
                seq_len: (pos + 1) as usize,
                heads: c.n_heads,
                kv_heads: c.full_n_kv_heads,
                dim: c.full_head_dim,
                max_seq: kv.max_seq,
                window: 0,
                capacity: 0,
            },
        ]),
        KvForm::F32 => Ok(seq![
            Op::KvStore {
                cache: CacheKind::Full,
                form: KvForm::F32,
                side: KvSide::Keys,
                layer: s,
                src: Gemma4Buf::K,
                heads: c.full_n_kv_heads,
                dim: c.full_head_dim,
            },
            Op::KvStore {
                cache: CacheKind::Full,
                form: KvForm::F32,
                side: KvSide::Values,
                layer: s,
                src: Gemma4Buf::V,
                heads: c.full_n_kv_heads,
                dim: c.full_head_dim,
            },
            Op::Attend {
                cache: CacheKind::Full,
                form: KvForm::F32,
                layer: s,
                q: Gemma4Buf::Q,
                out: Gemma4Buf::AttnOut,
                seq_len: (pos + 1) as usize,
                heads: c.n_heads,
                kv_heads: c.full_n_kv_heads,
                dim: c.full_head_dim,
                max_seq: kv.max_seq,
                window: 0,
                capacity: 0,
            },
        ]),
        form => Err(ForwardError::NoFullKernel { form }),
    }
}

fn full_cache(c: &Gemma4Config, s: usize, pos: usize, kv: &KvCache) -> (r: Result<
    Vec<GemmaOp>,
    ForwardError,
>)
    requires
        pos < usize::MAX,
    ensures
        agrees(r, full_cache_ops(*c, s, pos, *kv)),
{
    match kv.kv_form() {
        KvForm::Asym3 => Ok(vec![
            Op::KvStorePair {
                cache: CacheKind::Full,
                form: KvForm::Asym3,
                layer: s,
                k: Gemma4Buf::K,
                v: Gemma4Buf::V,
                heads: c.full_n_kv_heads,
                dim: c.full_head_dim,
                capacity: 0,
            },
            Op::Attend {
                cache: CacheKind::Full,
                form: KvForm::Asym3,
                layer: s,
                q: Gemma4Buf::Q,
                out: Gemma4Buf::AttnOut,
                seq_len: pos + 1,
                heads: c.n_heads,
                kv_heads: c.full_n_kv_heads,
                dim: c.full_head_dim,
                max_seq: kv.max_seq,
                window: 0,
                capacity: 0,
            },
        ]),
        KvForm::F32 => Ok(vec![
            Op::KvStore {
                cache: CacheKind::Full,
                form: KvForm::F32,
                side: KvSide::Keys,
                layer: s,
                src: Gemma4Buf::K,
                heads: c.full_n_kv_heads,
                dim: c.full_head_dim,
            },
            Op::KvStore {
                cache: CacheKind::Full,
                form: KvForm::F32,
                side: KvSide::Values,
                layer: s,
                src: Gemma4Buf::V,
                heads: c.full_n_kv_heads,
                dim: c.full_head_dim,
            },
            Op::Attend {
                cache: CacheKind::Full,
                form: KvForm::F32,
                layer: s,
                q: Gemma4Buf::Q,
                out: Gemma4Buf::AttnOut,
                seq_len: pos + 1,
                heads: c.n_heads,
                kv_heads: c.full_n_kv_heads,
                dim: c.full_head_dim,
                max_seq: kv.max_seq,
                window: 0,
                capacity: 0,
            },
        ]),
        form => Err(ForwardError::NoFullKernel { form }),
    }
}

/// A layer from its attention to the feed-forward result.
pub open spec fn after_cache_ops(c: Gemma4Config, w: LayerCommon, i: usize) -> Seq<GemmaOp> {
    let d4 = (4 * c.dim) as usize;
    let eps = c.norm_eps;
    seq![
        crate::device::gemv_op(
            w.o_proj,
            Gemma4Wt::Layer(i, LayerPart::OProj),
            Gemma4Buf::AttnOut,
            Gemma4Buf::Tmp,
        ),
        Op::RmsNorm {
            x: Gemma4Buf::Tmp,
            w: Gemma4Wt::Layer(i, LayerPart::PostAttnNorm),
            out: Gemma4Buf::Tmp,
            eps,
        },
        Op::Copy { dst: Gemma4Buf::X, dst_off: 0, src: Gemma4Buf::Residual, src_off: 0, bytes: d4 },
        Op::AddTo { x: Gemma4Buf::X, y: Gemma4Buf::Tmp },
        Op::Copy { dst: Gemma4Buf::Residual, dst_off: 0, src: Gemma4Buf::X, src_off: 0, bytes: d4 },
        Op::RmsNorm {
            x: Gemma4Buf::X,
            w: Gemma4Wt::Layer(i, LayerPart::PreFfnNorm),
            out: Gemma4Buf::Tmp,
            eps,
        },
        crate::device::gemv_op(
            w.gate_proj,
            Gemma4Wt::Layer(i, LayerPart::GateProj),
            Gemma4Buf::Tmp,
            Gemma4Buf::GateFfn,
        ),
        crate::device::gemv_op(
            w.up_proj,
            Gemma4Wt::Layer(i, LayerPart::UpProj),
            Gemma4Buf::Tmp,
            Gemma4Buf::UpFfn,
        ),
        Op::GeluTanh { x: Gemma4Buf::GateFfn, out: Gemma4Buf::FfnHidden, n: c.hidden_dim },
        Op::Mul { a: Gemma4Buf::FfnHidden, b: Gemma4Buf::UpFfn, out: Gemma4Buf::FfnHidden },
        crate::device::gemv_op(
            w.down_proj,
            Gemma4Wt::Layer(i, LayerPart::DownProj),
            Gemma4Buf::FfnHidden,
            Gemma4Buf::FfnOut,
        ),
    ]
}

fn after_cache(c: &Gemma4Config, w: &LayerCommon, i: usize) -> (ops: Vec<GemmaOp>)
    requires
        c.fits(),
    ensures
        ops@ == after_cache_ops(*c, *w, i),
{
    proof {
        lemma_sizes(*c);
    }
    let d4: usize = 4 * c.dim;
    let eps: F32 = c.norm_eps;
    vec![
        gemv(w.o_proj, Gemma4Wt::Layer(i, LayerPart::OProj), Gemma4Buf::AttnOut, Gemma4Buf::Tmp),
        Op::RmsNorm {
            x: Gemma4Buf::Tmp,
            w: Gemma4Wt::Layer(i, LayerPart::PostAttnNorm),
            out: Gemma4Buf::Tmp,
            eps,
        },
        Op::Copy { dst: Gemma4Buf::X, dst_off: 0, src: Gemma4Buf::Residual, src_off: 0, bytes: d4 },
        Op::AddTo { x: Gemma4Buf::X, y: Gemma4Buf::Tmp },
        Op::Copy { dst: Gemma4Buf::Residual, dst_off: 0, src: Gemma4Buf::X, src_off: 0, bytes: d4 },
        Op::RmsNorm {
            x: Gemma4Buf::X,
            w: Gemma4Wt::Layer(i, LayerPart::PreFfnNorm),
            out: Gemma4Buf::Tmp,
            eps,
        },
        gemv(
            w.gate_proj,
            Gemma4Wt::Layer(i, LayerPart::GateProj),
            Gemma4Buf::Tmp,
            Gemma4Buf::GateFfn,
        ),
        gemv(w.up_proj, Gemma4Wt::Layer(i, LayerPart::UpProj), Gemma4Buf::Tmp, Gemma4Buf::UpFfn),
        Op::GeluTanh { x: Gemma4Buf::GateFfn, out: Gemma4Buf::FfnHidden, n: c.hidden_dim },
        Op::Mul { a: Gemma4Buf::FfnHidden, b: Gemma4Buf::UpFfn, out: Gemma4Buf::FfnHidden },
        gemv(
            w.down_proj,
            Gemma4Wt::Layer(i, LayerPart::DownProj),
            Gemma4Buf::FfnHidden,
            Gemma4Buf::FfnOut,
        ),
    ]
}

/// The experts' input and the eight best experts of a token.
pub open spec fn route_ops(c: Gemma4Config, m: MoeLayerExtras, i: usize) -> Seq<GemmaOp> {
    let eps = c.norm_eps;
    let by = crate::qwen35::inverse_root(c.dim as nat);
    seq![
        Op::RmsNorm {
            x: Gemma4Buf::FfnOut,
            w: Gemma4Wt::Layer(i, LayerPart::PostFfnNorm1),
            out: Gemma4Buf::MoeCurMlp,
            eps,
        },
        Op::RmsNorm {
            x: Gemma4Buf::Residual,
            w: Gemma4Wt::Layer(i, LayerPart::PreFfnNorm2),
            out: Gemma4Buf::MoePre2,
            eps,
        },
        Op::RmsNorm {
            x: Gemma4Buf::Residual,
            w: Gemma4Wt::Layer(i, LayerPart::RouterScale),
            out: Gemma4Buf::MoeRouterIn,
            eps,
        },
        Op::Scale { x: Gemma4Buf::MoeRouterIn, by },
        crate::device::gemv_op(
            m.router_proj,
            Gemma4Wt::Layer(i, LayerPart::RouterProj),
            Gemma4Buf::MoeRouterIn,
            Gemma4Buf::MoeRouterLogits,
        ),
        Op::RouteTop8 {
            logits: Gemma4Buf::MoeRouterLogits,
            indices: Gemma4Buf::MoeTopkIndices,
            weights: Gemma4Buf::MoeTopkWeights,
            experts: c.num_experts,
            rows: 1,
        },
    ]
}

fn route(c: &Gemma4Config, m: &MoeLayerExtras, i: usize) -> (ops: Vec<GemmaOp>)
    ensures
        ops@ == route_ops(*c, *m, i),
{
    let eps: F32 = c.norm_eps;
    let by: F32 = crate::qwen35::inverse_root_of(c.dim);
    vec![
        Op::RmsNorm {
            x: Gemma4Buf::FfnOut,
            w: Gemma4Wt::Layer(i, LayerPart::PostFfnNorm1),
            out: Gemma4Buf::MoeCurMlp,
            eps,
        },
        Op::RmsNorm {
            x: Gemma4Buf::Residual,
            w: Gemma4Wt::Layer(i, LayerPart::PreFfnNorm2),
            out: Gemma4Buf::MoePre2,
            eps,
        },
        Op::RmsNorm {
            x: Gemma4Buf::Residual,
            w: Gemma4Wt::Layer(i, LayerPart::RouterScale),
            out: Gemma4Buf::MoeRouterIn,
            eps,
        },
        Op::Scale { x: Gemma4Buf::MoeRouterIn, by },
        gemv(
            m.router_proj,
            Gemma4Wt::Layer(i, LayerPart::RouterProj),
            Gemma4Buf::MoeRouterIn,
            Gemma4Buf::MoeRouterLogits,
        ),
        Op::RouteTop8 {
            logits: Gemma4Buf::MoeRouterLogits,
            indices: Gemma4Buf::MoeTopkIndices,
            weights: Gemma4Buf::MoeTopkWeights,
            experts: c.num_experts,
            rows: 1,
        },
    ]
}

/// The experts of a token, all on the device.
pub open spec fn experts_ops(c: Gemma4Config, dtype: DType, i: usize) -> Seq<GemmaOp> {
    let d4 = (4 * c.dim) as usize;
    let mi = c.moe_intermediate_size;
    let top = c.top_k_experts;
    let mi2 = (2 * mi) as usize;
    let n = (top * mi) as usize;
    seq![
        Op::Rotate { x: Gemma4Buf::MoePre2, out: Gemma4Buf::MoePre2Rot, k: c.dim, rows: 1 },
        Op::ExpertsGateUp {
            experts: Gemma4Wt::Layer(i, LayerPart::GateUpPtrs),
            routing: Routing::Indexed { indices: Gemma4Buf::MoeTopkIndices },
            x: Gemma4Buf::MoePre2Rot,
            gate: Gemma4Buf::MoeExpertGateBatch,
            up: Gemma4Buf::MoeExpertUpBatch,
            m: mi2,
            k: c.dim,
            top_k: top,
            rows: 1,
        },
        Op::GeluTanh { x: Gemma4Buf::MoeExpertGateBatch, out: Gemma4Buf::MoeExpertHiddenBatch, n },
        Op::Mul {
            a: Gemma4Buf::MoeExpertHiddenBatch,
            b: Gemma4Buf::MoeExpertUpBatch,
            out: Gemma4Buf::MoeExpertHiddenBatch,
        },
        Op::Zero { buf: Gemma4Buf::MoeCurMoe, bytes: d4 },
        Op::ExpertsDown {
            experts: Gemma4Wt::Layer(i, LayerPart::DownPtrs),
            dtype,
            scale: Gemma4Wt::Layer(i, LayerPart::PerExpertScale),
            routing: Routing::Indexed { indices: Gemma4Buf::MoeTopkIndices },
            weights: Gemma4Buf::MoeTopkWeights,
            x: Gemma4Buf::MoeExpertHiddenBatch,
            out: Gemma4Buf::MoeCurMoe,
            m: c.dim,
            k: mi,
            top_k: top,
            rows: 1,
        },
    ]
}

fn experts(c: &Gemma4Config, dtype: DType, i: usize) -> (ops: Vec<GemmaOp>)
    requires
        c.fits(),
    ensures
        ops@ == experts_ops(*c, dtype, i),
{
    proof {
        lemma_sizes(*c);
        lemma_expert_sizes(*c);
    }
    let d4: usize = 4 * c.dim;
    let mi: usize = c.moe_intermediate_size;
    let top: usize = c.top_k_experts;
    let mi2: usize = 2 * mi;
    let n: usize = top * mi;
    vec![
        Op::Rotate { x: Gemma4Buf::MoePre2, out: Gemma4Buf::MoePre2Rot, k: c.dim, rows: 1 },
        Op::ExpertsGateUp {
            experts: Gemma4Wt::Layer(i, LayerPart::GateUpPtrs),
            routing: Routing::Indexed { indices: Gemma4Buf::MoeTopkIndices },
            x: Gemma4Buf::MoePre2Rot,
            gate: Gemma4Buf::MoeExpertGateBatch,
            up: Gemma4Buf::MoeExpertUpBatch,
            m: mi2,
            k: c.dim,
            top_k: top,
            rows: 1,
        },
        Op::GeluTanh { x: Gemma4Buf::MoeExpertGateBatch, out: Gemma4Buf::MoeExpertHiddenBatch, n },
        Op::Mul {
            a: Gemma4Buf::MoeExpertHiddenBatch,
            b: Gemma4Buf::MoeExpertUpBatch,
            out: Gemma4Buf::MoeExpertHiddenBatch,
        },
        Op::Zero { buf: Gemma4Buf::MoeCurMoe, bytes: d4 },
        Op::ExpertsDown {
            experts: Gemma4Wt::Layer(i, LayerPart::DownPtrs),
            dtype,
            scale: Gemma4Wt::Layer(i, LayerPart::PerExpertScale),
            routing: Routing::Indexed { indices: Gemma4Buf::MoeTopkIndices },
            weights: Gemma4Buf::MoeTopkWeights,
            x: Gemma4Buf::MoeExpertHiddenBatch,
            out: Gemma4Buf::MoeCurMoe,
            m: c.dim,
            k: mi,
            top_k: top,
            rows: 1,
        },
    ]
}

/// The experts' result and the feed-forward result, each after its norm, added up.
pub open spec fn join_experts_ops(c: Gemma4Config, i: usize) -> Seq<GemmaOp> {
    let eps = c.norm_eps;
    seq![
        Op::RmsNorm {
            x: Gemma4Buf::MoeCurMoe,
            w: Gemma4Wt::Layer(i, LayerPart::PostFfnNorm2),
            out: Gemma4Buf::MoeCurMoe,
            eps,
        },
        Op::Add { a: Gemma4Buf::MoeCurMlp, b: Gemma4Buf::MoeCurMoe, out: Gemma4Buf::Tmp },
        Op::RmsNorm {
            x: Gemma4Buf::Tmp,
            w: Gemma4Wt::Layer(i, LayerPart::PostFfnNorm),
            out: Gemma4Buf::Tmp,
            eps,
        },
    ]
}

fn join_experts(c: &Gemma4Config, i: usize) -> (ops: Vec<GemmaOp>)
    ensures
        ops@ == join_experts_ops(*c, i),
{
    let eps: F32 = c.norm_eps;
    vec![
        Op::RmsNorm {
            x: Gemma4Buf::MoeCurMoe,
            w: Gemma4Wt::Layer(i, LayerPart::PostFfnNorm2),
            out: Gemma4Buf::MoeCurMoe,
            eps,
        },
        Op::Add { a: Gemma4Buf::MoeCurMlp, b: Gemma4Buf::MoeCurMoe, out: Gemma4Buf::Tmp },
        Op::RmsNorm {
            x: Gemma4Buf::Tmp,
            w: Gemma4Wt::Layer(i, LayerPart::PostFfnNorm),
            out: Gemma4Buf::Tmp,
            eps,
        },
    ]
}

/// The experts' weights are in forms that run on the device alone.
pub open spec fn on_device(m: MoeLayerExtras) -> bool {
    m.gate_up.dtype == DType::MQ4G256 && (m.down.dtype == DType::Q8_0 || m.down.dtype
        == DType::HFQ4G128)
}

fn is_on_device(m: &MoeLayerExtras) -> (r: bool)
    ensures
        r == on_device(*m),
{
    m.gate_up.dtype == DType::MQ4G256 && (m.down.dtype == DType::Q8_0 || m.down.dtype
        == DType::HFQ4G128)
}

proof fn lemma_expert_sizes(c: Gemma4Config)
    requires
        c.fits(),
    ensures
        0 <= c.top_k_experts * c.moe_intermediate_size <= c.top() * c.mi(),
        2 * c.moe_intermediate_size <= usize::MAX,
{
    let t = c.top_k_experts as int;
    let m = c.moe_intermediate_size as int;
    let u = c.top();
    let v = c.mi();
    assert(0 <= t * m <= u * v) by (nonlinear_arith)
        requires
            0 <= t <= u,
            0 <= m <= v,
    ;
}

/// The experts beside the feed-forward part: routed on the device or, where their
/// weights are in other forms, by the host.
pub open spec fn moe_ops(c: Gemma4Config, m: MoeLayerExtras, i: usize) -> Result<
    Seq<GemmaOp>,
    ForwardError,
> {
    if c.top_k_experts != 8 {
        Err(ForwardError::TopK { top_k: c.top_k_experts })
    } else {
        Ok(
            route_ops(c, m, i) + (if on_device(m) {
                experts_ops(c, m.down.dtype, i)
            } else {
                seq![
                    Op::RouteOnHost {
                        experts: Gemma4Wt::Layer(i, LayerPart::GateUpPool),
                        indices: Gemma4Buf::MoeTopkIndices,
                        weights: Gemma4Buf::MoeTopkWeights,
                    },
                ]
            }) + join_experts_ops(c, i),
        )
    }
}

/// The experts beside the feed-forward part, of the token whose state is in
/// `Residual` and whose feed-forward result is in `FfnOut`; the sum of both goes to
/// `Tmp`.
pub fn apply_moe_branch(c: &Gemma4Config, m: &MoeLayerExtras, i: usize) -> (r: Result<
    Vec<GemmaOp>,
    ForwardError,
>)
    requires
        c.fits(),
    ensures
        agrees(r, moe_ops(*c, *m, i)),
{
    if c.top_k_experts != 8 {
        return Err(ForwardError::TopK { top_k: c.top_k_experts });
    }
    let mut ops: Vec<GemmaOp> = route(c, m, i);
    if is_on_device(m) {
        extend(&mut ops, experts(c, m.down.dtype, i));
    } else {
        extend(
            &mut ops,
            vec![
                Op::RouteOnHost {
                    experts: Gemma4Wt::Layer(i, LayerPart::GateUpPool),
                    indices: Gemma4Buf::MoeTopkIndices,
                    weights: Gemma4Buf::MoeTopkWeights,
                },
            ],
        );
    }
    extend(&mut ops, join_experts(c, i));
    assert(ops@ =~= moe_ops(*c, *m, i)->Ok_0);
    Ok(ops)
}

/// Expert `e` of layer `i` on a token, added up under a weight.
pub open spec fn one_expert_ops(
    c: Gemma4Config,
    m: MoeLayerExtras,
    i: usize,
    e: usize,
    weight: F32,
) -> Seq<GemmaOp> {
    seq![
        crate::device::gemv_op(
            m.gate_up,
            Gemma4Wt::Expert(i, e, ExpertPart::GateUp),
            Gemma4Buf::MoePre2,
            Gemma4Buf::MoeExpertGateUp,
        ),
        Op::GeluTanh {
            x: Gemma4Buf::MoeExpertGate,
            out: Gemma4Buf::MoeExpertHidden,
            n: c.moe_intermediate_size,
        },
        Op::Mul {
            a: Gemma4Buf::MoeExpertHidden,
            b: Gemma4Buf::MoeExpertUp,
            out: Gemma4Buf::MoeExpertHidden,
        },
        crate::device::gemv_op(
            m.down,
            Gemma4Wt::Expert(i, e, ExpertPart::Down),
            Gemma4Buf::MoeExpertHidden,
            Gemma4Buf::MoeExpertOut,
        ),
        Op::ScaledAddTo { x: Gemma4Buf::MoeCurMoe, y: Gemma4Buf::MoeExpertOut, by: weight },
    ]
}

fn one_expert(
    c: &Gemma4Config,
    m: &MoeLayerExtras,
    i: usize,
    e: usize,
    weight: F32,
) -> (ops: Vec<GemmaOp>)
    ensures
        ops@ == one_expert_ops(*c, *m, i, e, weight),
{
    vec![
        gemv(
            m.gate_up,
            Gemma4Wt::Expert(i, e, ExpertPart::GateUp),
            Gemma4Buf::MoePre2,
            Gemma4Buf::MoeExpertGateUp,
        ),
        Op::GeluTanh {
            x: Gemma4Buf::MoeExpertGate,
            out: Gemma4Buf::MoeExpertHidden,
            n: c.moe_intermediate_size,
        },
        Op::Mul {
            a: Gemma4Buf::MoeExpertHidden,
            b: Gemma4Buf::MoeExpertUp,
            out: Gemma4Buf::MoeExpertHidden,
        },
        gemv(
            m.down,
            Gemma4Wt::Expert(i, e, ExpertPart::Down),
            Gemma4Buf::MoeExpertHidden,
            Gemma4Buf::MoeExpertOut,
        ),
        Op::ScaledAddTo { x: Gemma4Buf::MoeCurMoe, y: Gemma4Buf::MoeExpertOut, by: weight },
    ]
}

/// The first `n` of the experts that the router named, each under the router's
/// weight times the expert's own.
pub open spec fn routed_ops(
    c: Gemma4Config,
    m: MoeLayerExtras,
    i: usize,
    indices: Seq<i32>,
    weights: Seq<F32>,
    scales: Seq<F32>,
    n: nat,
) -> Seq<GemmaOp>
    decreases n,
{
    if n == 0 {
        Seq::empty()
    } else {
        let k = n - 1;
        routed_ops(c, m, i, indices, weights, scales, k as nat) + one_expert_ops(
            c,
            m,
            i,
            indices[k] as usize,
            crate::float::product(weights[k], scales[indices[k] as int]),
        )
    }
}

/// The router's choice names an expert.
pub open spec fn names_expert(c: Gemma4Config, index: i32) -> bool {
    0 <= index < c.num_experts
}

/// The experts of a token, one by one, when the host has read the router's choice:
/// what takes the place of `RouteOnHost`.
pub fn route_on_host(
    c: &Gemma4Config,
    m: &MoeLayerExtras,
    i: usize,
    indices: &Vec<i32>,
    weights: &Vec<F32>,
    scales: &Vec<F32>,
) -> (r: Result<Vec<GemmaOp>, ForwardError>)
    requires
        c.fits(),
        indices@.len() >= c.top_k_experts,
        weights@.len() >= c.top_k_experts,
        scales@.len() >= c.num_experts,
    ensures
        match r {
            Ok(ops) => {
                &&& forall|k: int|
                    0 <= k < c.top_k_experts ==> names_expert(*c, #[trigger] indices@[k])
                &&& ops@ == seq![
                    Op::<Gemma4Buf, Gemma4Wt>::Zero {
                        buf: Gemma4Buf::MoeCurMoe,
                        bytes: (4 * c.dim) as usize,
                    },
                ] + routed_ops(
                    *c,
                    *m,
                    i,
                    indices@,
                    weights@,
                    scales@,
                    c.top_k_experts as nat,
                )
            },
            Err(e) => exists|k: int| #[trigger]
                names_no_expert(*c, indices@, k) && e == (ForwardError::NoSuchExpert {
                    index: indices@[k] as usize,
                    experts: c.num_experts,
                }),
        },
{
    proof {
        lemma_sizes(*c);
    }
    let top: usize = c.top_k_experts;
    let mut k: usize = 0;
    while k < top
        invariant
            k <= top == c.top_k_experts,
            indices@.len() >= top,
            forall|j: int| 0 <= j < k ==> names_expert(*c, #[trigger] indices@[j]),
        decreases top - k,
    {
        let index: i32 = indices[k];
        if index < 0 || index as usize >= c.num_experts {
            assert(names_no_expert(*c, indices@, k as int));
            return Err(
                ForwardError::NoSuchExpert { index: index as usize, experts: c.num_experts },
            );
        }
        k = k + 1;
    }
    let mut ops: Vec<GemmaOp> = vec![Op::Zero { buf: Gemma4Buf::MoeCurMoe, bytes: 4 * c.dim }];
    let ghost head = ops@;
    assert(head + routed_ops(*c, *m, i, indices@, weights@, scales@, 0) =~= head);
    k = 0;
    while k < top
        invariant
            k <= top == c.top_k_experts,
            indices@.len() >= top,
            weights@.len() >= top,
            scales@.len() >= c.num_experts,
            forall|j: int| 0 <= j < top ==> names_expert(*c, #[trigger] indices@[j]),
            ops@ == head + routed_ops(*c, *m, i, indices@, weights@, scales@, k as nat),
        decreases top - k,
    {
        assert(names_expert(*c, indices@[k as int]));
        let e: usize = indices[k] as usize;
        extend(&mut ops, one_expert(c, m, i, e, weights[k].times(scales[e])));
        assert(ops@ =~= head + routed_ops(
            *c,
            *m,
            i,
            indices@,
            weights@,
            scales@,
            (k + 1) as nat,
        ));
        k = k + 1;
    }
    Ok(ops)
}

/// Choice `k` is the first that names no expert.
pub open spec fn names_no_expert(c: Gemma4Config, indices: Seq<i32>, k: int) -> bool {
    &&& 0 <= k < c.top_k_experts
    &&& !names_expert(c, indices[k])
    &&& forall|j: int| 0 <= j < k ==> names_expert(c, #[trigger] indices[j])
}

/// The end of a layer: add to the kept state and scale.
pub open spec fn finish_ops(c: Gemma4Config, w: LayerCommon) -> Seq<GemmaOp> {
    let d4 = (4 * c.dim) as usize;
    seq![
        Op::Copy { dst: Gemma4Buf::X, dst_off: 0, src: Gemma4Buf::Residual, src_off: 0, bytes: d4 },
        Op::AddTo { x: Gemma4Buf::X, y: Gemma4Buf::Tmp },
        Op::Scale { x: Gemma4Buf::X, by: w.layer_scalar_host },
    ]
}

fn finish(c: &Gemma4Config, w: &LayerCommon) -> (ops: Vec<GemmaOp>)
    requires
        c.fits(),
    ensures
        ops@ == finish_ops(*c, *w),
{
    proof {
        lemma_sizes(*c);
    }
    let d4: usize = 4 * c.dim;
    vec![
        Op::Copy { dst: Gemma4Buf::X, dst_off: 0, src: Gemma4Buf::Residual, src_off: 0, bytes: d4 },
        Op::AddTo { x: Gemma4Buf::X, y: Gemma4Buf::Tmp },
        Op::Scale { x: Gemma4Buf::X, by: w.layer_scalar_host },
    ]
}

/// What takes the feed-forward result to `Tmp`: a norm, or the experts beside it.
pub open spec fn branch_ops(c: Gemma4Config, w: LayerCommon, i: usize, bypass: bool) -> Result<
    Seq<GemmaOp>,
    ForwardError,
> {
    match w.moe {
        Some(m) if !bypass => moe_ops(c, m, i),
        _ => Ok(
            seq![
                Op::RmsNorm {
                    x: Gemma4Buf::FfnOut,
                    w: Gemma4Wt::Layer(i, LayerPart::PostFfnNorm),
                    out: Gemma4Buf::Tmp,
                    eps: c.norm_eps,
                },
            ],
        ),
    }
}

fn branch(c: &Gemma4Config, w: &LayerCommon, i: usize, bypass: bool) -> (r: Result<
    Vec<GemmaOp>,
    ForwardError,
>)
    requires
        c.fits(),
    ensures
        agrees(r, branch_ops(*c, *w, i, bypass)),
{
    match &w.moe {
        Some(m) if !bypass => apply_moe_branch(c, m, i),
        _ => {
            let ops: Vec<GemmaOp> = vec![
                Op::RmsNorm {
                    x: Gemma4Buf::FfnOut,
                    w: Gemma4Wt::Layer(i, LayerPart::PostFfnNorm),
                    out: Gemma4Buf::Tmp,
                    eps: c.norm_eps,
                },
            ];
            assert(ops@ =~= branch_ops(*c, *w, i, bypass)->Ok_0);
            Ok(ops)
        },
    }
}

/// A layer after attention: up to the feed-forward result in `FfnOut` and the state
/// in `Residual`, or to its end.
pub open spec fn rest_ops(
    c: Gemma4Config,
    w: LayerCommon,
    i: usize,
    stop_before_moe: bool,
    bypass: bool,
) -> Result<Seq<GemmaOp>, ForwardError> {
    if stop_before_moe {
        Ok(after_cache_ops(c, w, i))
    } else {
        chained(
            Ok(after_cache_ops(c, w, i)),
            chained(branch_ops(c, w, i, bypass), Ok(finish_ops(c, w))),
        )
    }
}

fn rest(c: &Gemma4Config, w: &LayerCommon, i: usize, stop_before_moe: bool, bypass: bool) -> (r:
    Result<Vec<GemmaOp>, ForwardError>)
    requires
        c.fits(),
    ensures
        agrees(r, rest_ops(*c, *w, i, stop_before_moe, bypass)),
{
    let mut ops: Vec<GemmaOp> = after_cache(c, w, i);
    if !stop_before_moe {
        let mut end: Vec<GemmaOp> = match branch(c, w, i, bypass) {
            Ok(b) => b,
            Err(e) => return Err(e),
        };
        extend(&mut end, finish(c, w));
        extend(&mut ops, end);
    }
    Ok(ops)
}

/// A sliding layer on one token. `s` counts the sliding layers before it.
pub open spec fn sliding_layer_ops(
    c: Gemma4Config,
    w: SlidingLayerWeights,
    i: usize,
    s: usize,
    pos: usize,
    kv: KvCache,
    stop_before_moe: bool,
    bypass: bool,
) -> Result<Seq<GemmaOp>, ForwardError> {
    chained(
        chained(Ok(sliding_in_ops(c, w, i)), sliding_cache_ops(c, s, pos, kv)),
        rest_ops(c, w.common, i, stop_before_moe, bypass),
    )
}

fn sliding_layer_decode(
    c: &Gemma4Config,
    w: &SlidingLayerWeights,
    i: usize,
    s: usize,
    pos: usize,
    kv: &KvCache,
    stop_before_moe: bool,
    bypass: bool,
) -> (r: Result<Vec<GemmaOp>, ForwardError>)
    requires
        c.fits(),
        pos < usize::MAX,
    ensures
        agrees(r, sliding_layer_ops(*c, *w, i, s, pos, *kv, stop_before_moe, bypass)),
{
    let mut ops: Vec<GemmaOp> = sliding_in(c, w, i);
    match sliding_cache(c, s, pos, kv) {
        Ok(more) => extend(&mut ops, more),
        Err(e) => return Err(e),
    }
    match rest(c, &w.common, i, stop_before_moe, bypass) {
        Ok(more) => extend(&mut ops, more),
        Err(e) => return Err(e),
    }
    Ok(ops)
}

/// A full layer on one token. `s` counts the full layers before it.
pub open spec fn full_layer_ops(
    c: Gemma4Config,
    w: FullLayerWeights,
    i: usize,
    s: usize,
    pos: usize,
    kv: KvCache,
    stop_before_moe: bool,
    bypass: bool,
) -> Result<Seq<GemmaOp>, ForwardError> {
    chained(
        chained(Ok(full_in_ops(c, w, i)), full_cache_ops(c, s, pos, kv)),
        rest_ops(c, w.common, i, stop_before_moe, bypass),
    )
}

fn full_layer_decode(
    c: &Gemma4Config,
    w: &FullLayerWeights,
    i: usize,
    s: usize,
    pos: usize,
    kv: &KvCache,
    stop_before_moe: bool,
    bypass: bool,
) -> (r: Result<Vec<GemmaOp>, ForwardError>)
    requires
        c.fits(),
        pos < usize::MAX,
    ensures
        agrees(r, full_layer_ops(*c, *w, i, s, pos, *kv, stop_before_moe, bypass)),
{
    let mut ops: Vec<GemmaOp> = full_in(c, w, i);
    match full_cache(c, s, pos, kv) {
        Ok(more) => extend(&mut ops, more),
        Err(e) => return Err(e),
    }
    match rest(c, &w.common, i, stop_before_moe, bypass) {
        Ok(more) => extend(&mut ops, more),
        Err(e) => return Err(e),
    }
    Ok(ops)
}

/// How many of the first `n` layers are of a kind.
pub open spec fn count_kind(kinds: Seq<LayerType>, kind: LayerType, n: nat) -> nat
    decreases n,
{
    if n == 0 {
        0
    } else {
        count_kind(kinds, kind, (n - 1) as nat) + if kinds[n - 1] == kind {
            1nat
        } else {
            0nat
        }
    }
}

/// The two caches.
#[derive(Debug, Clone, Copy)]
pub struct Caches {
    pub sliding: KvCache,
    pub full: KvCache,
}

/// Layer `i` on one token.
pub open spec fn layer_ops(
    c: Gemma4Config,
    w: LayerWeights,
    i: usize,
    pos: usize,
    kv: Caches,
    stop_before_moe: bool,
    bypass: bool,
) -> Result<Seq<GemmaOp>, ForwardError> {
    let kind = c.layer_types@[i as int];
    let s = count_kind(c.layer_types@, kind, i as nat) as usize;
    match (kind, w) {
        (LayerType::Sliding, LayerWeights::Sliding(l)) => sliding_layer_ops(
            c,
            l,
            i,
            s,
            pos,
            kv.sliding,
            stop_before_moe,
            bypass,
        ),
        (LayerType::Full, LayerWeights::Full(l)) => full_layer_ops(
            c,
            l,
            i,
            s,
            pos,
            kv.full,
            stop_before_moe,
            bypass,
        ),
        _ => Err(ForwardError::Mismatch { layer: i }),
    }
}

/// The first `n` layers on one token, or the first error.
pub open spec fn layers_ops(
    c: Gemma4Config,
    layers: Seq<LayerWeights>,
    pos: usize,
    kv: Caches,
    bypass: bool,
    n: nat,
) -> Result<Seq<GemmaOp>, ForwardError>
    decreases n,
{
    if n == 0 {
        Ok(Seq::empty())
    } else {
        chained(
            layers_ops(c, layers, pos, kv, bypass, (n - 1) as nat),
            layer_ops(c, layers[n - 1], (n - 1) as usize, pos, kv, false, bypass),
        )
    }
}

/// From the state of the last layer to the logits.
pub open spec fn output_ops(c: Gemma4Config, w: Gemma4Weights) -> Seq<GemmaOp> {
    let head = seq![
        Op::RmsNorm {
            x: Gemma4Buf::X,
            w: Gemma4Wt::FinalNorm,
            out: Gemma4Buf::Tmp,
            eps: c.norm_eps,
        },
        crate::device::gemv_op(w.lm_head, Gemma4Wt::LmHead, Gemma4Buf::Tmp, Gemma4Buf::Logits),
    ];
    if (F32 { bits: 0 }).below(c.final_logit_softcapping) {
        head + seq![
            Op::Softcap {
                x: Gemma4Buf::Logits,
                n: c.vocab_size,
                cap: c.final_logit_softcapping,
            },
        ]
    } else {
        head
    }
}

/// Everything after the embedding: all the layers, then the logits.
pub open spec fn inner_ops(
    c: Gemma4Config,
    w: Gemma4Weights,
    pos: usize,
    kv: Caches,
    bypass: bool,
) -> Result<Seq<GemmaOp>, ForwardError> {
    chained(
        layers_ops(c, w.layers@, pos, kv, bypass, c.layer_types@.len()),
        Ok(output_ops(c, w)),
    )
}

fn kind_is(a: LayerType, b: LayerType) -> (r: bool)
    ensures
        r == (a == b),
{
    a == b
}

fn layer(
    c: &Gemma4Config,
    w: &LayerWeights,
    i: usize,
    s: usize,
    pos: usize,
    kv: &Caches,
    stop_before_moe: bool,
    bypass: bool,
) -> (r: Result<Vec<GemmaOp>, ForwardError>)
    requires
        c.fits(),
        pos < usize::MAX,
        i < c.layer_types@.len(),
        s == count_kind(c.layer_types@, c.layer_types@[i as int], i as nat),
    ensures
        agrees(r, layer_ops(*c, *w, i, pos, *kv, stop_before_moe, bypass)),
{
    match (c.layer_types[i], w) {
        (LayerType::Sliding, LayerWeights::Sliding(l)) => sliding_layer_decode(
            c,
            l,
            i,
            s,
            pos,
            &kv.sliding,
            stop_before_moe,
            bypass,
        ),
        (LayerType::Full, LayerWeights::Full(l)) => full_layer_decode(
            c,
            l,
            i,
            s,
            pos,
            &kv.full,
            stop_before_moe,
            bypass,
        ),
        _ => Err(ForwardError::Mismatch { layer: i }),
    }
}

fn output(c: &Gemma4Config, w: &Gemma4Weights) -> (ops: Vec<GemmaOp>)
    ensures
        ops@ == output_ops(*c, *w),
{
    let mut ops: Vec<GemmaOp> = vec![
        Op::RmsNorm {
            x: Gemma4Buf::X,
            w: Gemma4Wt::FinalNorm,
            out: Gemma4Buf::Tmp,
            eps: c.norm_eps,
        },
        gemv(w.lm_head, Gemma4Wt::LmHead, Gemma4Buf::Tmp, Gemma4Buf::Logits),
    ];
    if F32::zero().lt(c.final_logit_softcapping) {
        extend(
            &mut ops,
            vec![
                Op::Softcap {
                    x: Gemma4Buf::Logits,
                    n: c.vocab_size,
                    cap: c.final_logit_softcapping,
                },
            ],
        );
    }
    ops
}

/// Everything after the embedding. The state is in `X` and the position where
/// kernels read it.
pub fn forward_scratch_inner(
    c: &Gemma4Config,
    w: &Gemma4Weights,
    pos: usize,
    kv: &Caches,
    bypass: bool,
) -> (r: Result<Vec<GemmaOp>, ForwardError>)
    requires
        c.fits(),
        pos < usize::MAX,
        w.layers@.len() >= c.layer_types@.len(),
    ensures
        agrees(r, inner_ops(*c, *w, pos, *kv, bypass)),
{
    let mut ops: Vec<GemmaOp> = Vec::new();
    let mut sliding: usize = 0;
    let mut full: usize = 0;
    let n: usize = c.layer_types.len();
    let mut i: usize = 0;
    assert(ops@ =~= Seq::<GemmaOp>::empty());
    while i < n
        invariant
            i <= n == c.layer_types@.len(),
            c.fits(),
            pos < usize::MAX,
            w.layers@.len() >= n,
            sliding <= i,
            full <= i,
            sliding == count_kind(c.layer_types@, LayerType::Sliding, i as nat),
            full == count_kind(c.layer_types@, LayerType::Full, i as nat),
            layers_ops(*c, w.layers@, pos, *kv, bypass, i as nat) == Ok::<
                Seq<GemmaOp>,
                ForwardError,
            >(ops@),
        decreases n - i,
    {
        let s: usize = if kind_is(c.layer_types[i], LayerType::Sliding) {
            sliding
        } else {
            full
        };
        let ghost upto = layers_ops(*c, w.layers@, pos, *kv, bypass, (i + 1) as nat);
        match layer(c, &w.layers[i], i, s, pos, kv, false, bypass) {
            Ok(more) => {
                extend(&mut ops, more);
            },
            Err(e) => {
                assert(upto == Err::<Seq<GemmaOp>, ForwardError>(e));
                proof {
                    lemma_error_stays(*c, w.layers@, pos, *kv, bypass, (i + 1) as nat, n as nat);
                }
                return Err(e);
            },
        }
        if kind_is(c.layer_types[i], LayerType::Sliding) {
            sliding = sliding + 1;
        } else {
            full = full + 1;
        }
        i = i + 1;
    }
    extend(&mut ops, output(c, w));
    Ok(ops)
}

proof fn lemma_error_stays(
    c: Gemma4Config,
    layers: Seq<LayerWeights>,
    pos: usize,
    kv: Caches,
    bypass: bool,
    n: nat,
    more: nat,
)
    requires
        n <= more,
        layers_ops(c, layers, pos, kv, bypass, n) is Err,
    ensures
        layers_ops(c, layers, pos, kv, bypass, more) == layers_ops(c, layers, pos, kv, bypass, n),
    decreases more,
{
    if n < more {
        lemma_error_stays(c, layers, pos, kv, bypass, n, (more - 1) as nat);
    }
}

/// The embedding table has a lookup.
pub open spec fn has_lookup(format: EmbeddingFormat) -> bool {
    !(format is Q4K)
}

/// A token's embedding, scaled, in `X`.
pub open spec fn embed_ops(c: Gemma4Config, format: EmbeddingFormat, token: u32) -> Seq<GemmaOp> {
    seq![
        Op::Embed { format, token, out: Gemma4Buf::X, dim: c.dim },
        Op::Scale { x: Gemma4Buf::X, by: c.embed_scale },
    ]
}

fn embed(c: &Gemma4Config, format: EmbeddingFormat, token: u32) -> (r: Result<
    Vec<GemmaOp>,
    ForwardError,
>)
    ensures
        agrees(
            r,
            if has_lookup(format) {
                Ok(embed_ops(*c, format, token))
            } else {
                Err(ForwardError::EmbedFormat)
            },
        ),
{
    match format {
        EmbeddingFormat::Q4K => Err(ForwardError::EmbedFormat),
        _ => Ok(
            vec![
                Op::Embed { format, token, out: Gemma4Buf::X, dim: c.dim },
                Op::Scale { x: Gemma4Buf::X, by: c.embed_scale },
            ],
        ),
    }
}

// Recording a pass and replaying it.

/// What is known of the device between passes.
#[derive(Debug, Clone, Copy, PartialEq, Eq, Structural)]
pub struct GraphState {
    /// A pass has been recorded.
    pub recorded: bool,
    /// A pass has been made while recording was wanted.
    pub warmed_up: bool,
    /// There is a stream to record on.
    pub has_stream: bool,
}

impl GraphState {
    /// Recording comes after warming up and needs a stream.
    pub open spec fn wf(self) -> bool {
        self.recorded ==> self.warmed_up && self.has_stream
    }
}

/// How a pass is made.
#[derive(Debug, Clone, Copy, PartialEq, Eq, Structural)]
pub enum PassMode {
    /// Do the operations.
    Direct,
    /// Do the operations; the next pass can be recorded.
    WarmUp,
    /// Record the operations, then replay them once. A stream is made first if there
    /// is none.
    Record { make_stream: bool },
    /// Set the position on the stream and replay what was recorded.
    Replay,
}

/// What the user asks of recording: "0" off, "1" on, else nothing.
pub open spec fn override_of(value: Option<Seq<char>>) -> Option<bool> {
    match value {
        Some(v) => if v == "0"@ {
            Some(false)
        } else if v == "1"@ {
            Some(true)
        } else {
            None
        },
        None => None,
    }
}

/// What the user asks of recording.
pub fn graph_override(value: Option<&String>) -> (r: Option<bool>)
    ensures
        r == override_of(match value {
            Some(v) => Some(v@),
            None => None,
        }),
{
    match value {
        Some(v) => if *v == "0".to_owned() {
            Some(false)
        } else if *v == "1".to_owned() {
            Some(true)
        } else {
            None
        },
        None => None,
    }
}

/// How a pass is made: recording only where it was asked for and nothing has been
/// evicted from the caches.
pub open spec fn pass_mode(asked: Option<bool>, kv: Caches, g: GraphState) -> PassMode {
    if asked != Some(true) || kv.sliding.compact_offset != 0 || kv.full.compact_offset != 0 {
        PassMode::Direct
    } else if g.recorded {
        PassMode::Replay
    } else if !g.warmed_up {
        PassMode::WarmUp
    } else {
        PassMode::Record { make_stream: !g.has_stream }
    }
}

/// What is known after a pass.
pub open spec fn after_pass(mode: PassMode, g: GraphState) -> GraphState {
    match mode {
        PassMode::WarmUp => GraphState { warmed_up: true, ..g },
        PassMode::Record { make_stream } => GraphState { recorded: true, has_stream: true, ..g },
        _ => g,
    }
}

/// How a pass is made.
pub fn choose_mode(asked: Option<bool>, kv: &Caches, g: &GraphState) -> (r: PassMode)
    ensures
        r == pass_mode(asked, *kv, *g),
{
    let wanted: bool = match asked {
        Some(b) => b,
        None => false,
    };
    if !wanted || kv.sliding.compact_offset != 0 || kv.full.compact_offset != 0 {
        PassMode::Direct
    } else if g.recorded {
        PassMode::Replay
    } else if !g.warmed_up {
        PassMode::WarmUp
    } else {
        PassMode::Record { make_stream: !g.has_stream }
    }
}

/// A pass over one token: first `embed`, then `body` in the way that `mode` says.
pub struct TokenPass {
    pub embed: Vec<GemmaOp>,
    pub mode: PassMode,
    pub pos: usize,
    /// Empty where a recorded pass is replayed.
    pub body: Vec<GemmaOp>,
}

/// One token through the model; the logits stay in `Logits`.
pub fn forward_scratch(
    c: &Gemma4Config,
    w: &Gemma4Weights,
    token: u32,
    pos: usize,
    kv: &Caches,
    asked: Option<bool>,
    bypass: bool,
    g: &mut GraphState,
) -> (r: Result<TokenPass, ForwardError>)
    requires
        c.fits(),
        pos < usize::MAX,
        kv.sliding.wf(),
        kv.full.wf(),
        w.layers@.len() >= c.layer_types@.len(),
        old(g).wf(),
    ensures
        final(g).wf(),
        !has_lookup(w.embd_format) ==> r == Err::<TokenPass, ForwardError>(
            ForwardError::EmbedFormat,
        ),
        has_lookup(w.embd_format) ==> {
            let mode = pass_mode(asked, *kv, *old(g));
            let body = inner_ops(*c, *w, pos, *kv, bypass);
            match r {
                Ok(p) => {
                    &&& p.embed@ == embed_ops(*c, w.embd_format, token)
                    &&& p.mode == mode
                    &&& p.pos == pos
                    &&& mode == PassMode::Replay ==> p.body@.len() == 0
                    &&& mode != PassMode::Replay ==> body == Ok::<Seq<GemmaOp>, ForwardError>(
                        p.body@,
                    )
                },
                Err(e) => mode != PassMode::Replay && body == Err::<Seq<GemmaOp>, ForwardError>(e),
            }
        },
        *final(g) == match r {
            Ok(p) => after_pass(p.mode, *old(g)),
            Err(e) => if has_lookup(w.embd_format) && pass_mode(asked, *kv, *old(g))
                == PassMode::WarmUp {
                after_pass(PassMode::WarmUp, *old(g))
            } else {
                *old(g)
            },
        },
{
    let embed: Vec<GemmaOp> = match embed(c, w.embd_format, token) {
        Ok(v) => v,
        Err(e) => return Err(e),
    };
    let mode: PassMode = choose_mode(asked, kv, g);
    match mode {
        PassMode::Replay => {
            return Ok(TokenPass { embed, mode, pos, body: Vec::new() });
        },
        PassMode::WarmUp => {
            g.warmed_up = true;
        },
        _ => {},
    }
    let body: Vec<GemmaOp> = match forward_scratch_inner(c, w, pos, kv, bypass) {
        Ok(v) => v,
        Err(e) => return Err(e),
    };
    match mode {
        PassMode::Record { make_stream } => {
            g.recorded = true;
            g.has_stream = true;
        },
        _ => {},
    }
    Ok(TokenPass { embed, mode, pos, body })
}

/// A pass is recorded only after one that was made directly, and replayed only
/// after it was recorded.
pub proof fn law_recording_follows_warm_up(asked: Option<bool>, kv: Caches, g: GraphState)
    requires
        g.wf(),
    ensures
        after_pass(pass_mode(asked, kv, g), g).wf(),
        pass_mode(asked, kv, g) is Record ==> g.warmed_up && !g.recorded,
        pass_mode(asked, kv, g) is Replay ==> g.recorded && g.has_stream,
        asked != Some(true) ==> pass_mode(asked, kv, g) is Direct,
{
}

/// With recording on and nothing evicted, a fresh device warms up, then records,
/// then replays for good.
pub proof fn law_third_pass_replays(kv: Caches, g: GraphState)
    requires
        g.wf(),
        !g.warmed_up,
        kv.sliding.compact_offset == 0,
        kv.full.compact_offset == 0,
    ensures
        ({
            let asked = Some(true);
            let first = pass_mode(asked, kv, g);
            let g1 = after_pass(first, g);
            let second = pass_mode(asked, kv, g1);
            let g2 = after_pass(second, g1);
            let third = pass_mode(asked, kv, g2);
            &&& first is WarmUp
            &&& second is Record
            &&& third is Replay
            &&& after_pass(third, g2) == g2
        }),
{
}

/// After an eviction nothing that was recorded is replayed.
pub proof fn law_eviction_ends_replay(asked: Option<bool>, kv: Caches, g: GraphState)
    requires
        kv.sliding.compact_offset != 0 || kv.full.compact_offset != 0,
    ensures
        pass_mode(asked, kv, g) is Direct,
{
}

// Batches of tokens.

impl Gemma4Config {
    /// The sizes of a whole batch can be addressed.
    pub open spec fn batch_fits(self) -> bool {
        &&& self.fits()
        &&& 128 * self.n_heads <= usize::MAX
        &&& 128 * self.sliding_n_kv_heads <= usize::MAX
        &&& 128 * self.full_n_kv_heads <= usize::MAX
    }
}

/// What a batch of `n` takes fits where a full batch does.
pub proof fn lemma_batch_sizes(c: Gemma4Config, n: int)
    requires
        c.batch_fits(),
        0 <= n <= 128,
    ensures
        0 <= n * c.n_heads <= 128 * c.n_heads,
        0 <= n * c.sliding_n_kv_heads <= 128 * c.sliding_n_kv_heads,
        0 <= n * c.full_n_kv_heads <= 128 * c.full_n_kv_heads,
        0 <= n * c.dim && 4 * (n * c.dim) <= usize::MAX,
        0 <= n * c.hidden_dim && 4 * (n * c.hidden_dim) <= usize::MAX,
        0 <= n * c.kv_dim(LayerType::Sliding),
        4 * (n * c.kv_dim(LayerType::Sliding)) <= usize::MAX,
        0 <= n * c.kv_dim(LayerType::Full),
        4 * (n * c.kv_dim(LayerType::Full)) <= usize::MAX,
        0 <= n * c.top_k_experts <= 128 * c.top_k_experts <= usize::MAX,
        0 <= n * c.top_k_experts * c.moe_intermediate_size,
        4 * (n * c.top_k_experts * c.moe_intermediate_size) <= usize::MAX,
        n * c.top_k_experts * c.moe_intermediate_size <= 128 * (c.top() * c.mi()),
        2 * c.moe_intermediate_size <= usize::MAX,
{
    lemma_sizes(c);
    lemma_expert_sizes(c);
    lemma_at_most(n, c.n_heads as int);
    lemma_at_most(n, c.sliding_n_kv_heads as int);
    lemma_at_most(n, c.full_n_kv_heads as int);
    lemma_at_most(n, c.dim as int);
    lemma_at_most(n, c.hidden_dim as int);
    lemma_at_most(n, c.top_k_experts as int);
    lemma_at_most(n, c.kv_dim(LayerType::Sliding));
    lemma_at_most(n, c.kv_dim(LayerType::Full));
    let t = c.top_k_experts as int;
    let m = c.moe_intermediate_size as int;
    lemma_at_most(n, t * m);
    assert(n * t * m == n * (t * m)) by (nonlinear_arith);
}

proof fn lemma_at_most(n: int, x: int)
    requires
        0 <= n <= 128,
        0 <= x,
    ensures
        0 <= n * x <= 128 * x,
{
    assert(0 <= n * x <= 128 * x) by (nonlinear_arith)
        requires
            0 <= n <= 128,
            0 <= x,
    ;
}

/// A sliding layer on a batch, up to its attention.
pub open spec fn batch_sliding_ops(
    c: Gemma4Config,
    w: SlidingLayerWeights,
    i: usize,
    s: usize,
    start: usize,
    n: usize,
    kv: KvCache,
) -> Seq<GemmaOp> {
    let dim = c.dim;
    let hd = c.sliding_head_dim;
    let nk = c.sliding_n_kv_heads;
    let nh = c.n_heads;
    let eps = c.norm_eps;
    let by = query_scale(hd as nat);
    let qrows = (n * c.n_heads) as usize;
    let krows = (n * c.sliding_n_kv_heads) as usize;
    let win = window(c);
    seq![
        Op::RmsNormRows {
            x: Gemma4Buf::PbResidual,
            w: Gemma4Wt::Layer(i, LayerPart::InputNorm),
            out: Gemma4Buf::PbTmp,
            rows: n,
            n: dim,
            eps,
        },
        crate::device::gemm_op(
            w.common.q_proj,
            Gemma4Wt::Layer(i, LayerPart::QProj),
            Gemma4Buf::PbTmp,
            Gemma4Buf::PbQ,
            n,
        ),
        crate::device::gemm_op(
            w.common.k_proj,
            Gemma4Wt::Layer(i, LayerPart::KProj),
            Gemma4Buf::PbTmp,
            Gemma4Buf::PbK,
            n,
        ),
        crate::device::gemm_op(
            w.v_proj,
            Gemma4Wt::Layer(i, LayerPart::VProj),
            Gemma4Buf::PbTmp,
            Gemma4Buf::PbV,
            n,
        ),
        Op::RmsNormRows {
            x: Gemma4Buf::PbQ,
            w: Gemma4Wt::Layer(i, LayerPart::QNorm),
            out: Gemma4Buf::PbQ,
            rows: qrows,
            n: hd,
            eps,
        },
        Op::RmsNormRows {
            x: Gemma4Buf::PbK,
            w: Gemma4Wt::Layer(i, LayerPart::KNorm),
            out: Gemma4Buf::PbK,
            rows: krows,
            n: hd,
            eps,
        },
        Op::RmsNormRows {
            x: Gemma4Buf::PbV,
            w: Gemma4Wt::Ones,
            out: Gemma4Buf::PbV,
            rows: krows,
            n: hd,
            eps,
        },
        Op::Scale { x: Gemma4Buf::PbQ, by },
        Op::RopeRows {
            q: Gemma4Buf::PbQ,
            k: Gemma4Buf::PbK,
            positions: Gemma4Buf::PbPositions,
            q_heads: nh,
            k_heads: nk,
            dim: hd,
            theta: c.sliding_rope_theta,
            rows: n,
        },
        Op::KvStoreRows {
            cache: CacheKind::Sliding,
            form: KvForm::Asym3,
            layer: s,
            k: Gemma4Buf::PbK,
            v: Gemma4Buf::PbV,
            positions: Gemma4Buf::PbPositions,
            heads: nk,
            dim: hd,
            rows: n,
            capacity: win,
        },
        Op::AttendRows {
            cache: CacheKind::Sliding,
            form: KvForm::Asym3,
            layer: s,
            q: Gemma4Buf::PbQ,
            out: Gemma4Buf::PbQ,
            positions: Gemma4Buf::PbPositions,
            heads: nh,
            kv_heads: nk,
            dim: hd,
            max_seq: kv.max_seq,
            max_ctx: (start + n) as usize,
            rows: n,
            window: win,
            capacity: win,
        },
    ]
}

fn batch_sliding(
    c: &Gemma4Config,
    w: &SlidingLayerWeights,
    i: usize,
    s: usize,
    start: usize,
    n: usize,
    kv: &KvCache,
) -> (ops: Vec<GemmaOp>)
    requires
        c.batch_fits(),
        n <= 128,
        start + n <= usize::MAX,
    ensures
        ops@ == batch_sliding_ops(*c, *w, i, s, start, n, *kv),
{
    proof {
        lemma_batch_sizes(*c, n as int);
    }
    let dim: usize = c.dim;
    let hd: usize = c.sliding_head_dim;
    let nk: usize = c.sliding_n_kv_heads;
    let nh: usize = c.n_heads;
    let eps: F32 = c.norm_eps;
    let by: F32 = query_scale_of(hd);
    let qrows: usize = n * c.n_heads;
    let krows: usize = n * c.sliding_n_kv_heads;
    let win: usize = (c.sliding_window as u32) as usize;
    vec![
        Op::RmsNormRows {
            x: Gemma4Buf::PbResidual,
            w: Gemma4Wt::Layer(i, LayerPart::InputNorm),
            out: Gemma4Buf::PbTmp,
            rows: n,
            n: dim,
            eps,
        },
        gemm(
            w.common.q_proj,
            Gemma4Wt::Layer(i, LayerPart::QProj),
            Gemma4Buf::PbTmp,
            Gemma4Buf::PbQ,
            n,
        ),
        gemm(
            w.common.k_proj,
            Gemma4Wt::Layer(i, LayerPart::KProj),
            Gemma4Buf::PbTmp,
            Gemma4Buf::PbK,
            n,
        ),
        gemm(w.v_proj, Gemma4Wt::Layer(i, LayerPart::VProj), Gemma4Buf::PbTmp, Gemma4Buf::PbV, n),
        Op::RmsNormRows {
            x: Gemma4Buf::PbQ,
            w: Gemma4Wt::Layer(i, LayerPart::QNorm),
            out: Gemma4Buf::PbQ,
            rows: qrows,
            n: hd,
            eps,
        },
        Op::RmsNormRows {
            x: Gemma4Buf::PbK,
            w: Gemma4Wt::Layer(i, LayerPart::KNorm),
            out: Gemma4Buf::PbK,
            rows: krows,
            n: hd,
            eps,
        },
        Op::RmsNormRows {
            x: Gemma4Buf::PbV,
            w: Gemma4Wt::Ones,
            out: Gemma4Buf::PbV,
            rows: krows,
            n: hd,
            eps,
        },
        Op::Scale { x: Gemma4Buf::PbQ, by },
        Op::RopeRows {
            q: Gemma4Buf::PbQ,
            k: Gemma4Buf::PbK,
            positions: Gemma4Buf::PbPositions,
            q_heads: nh,
            k_heads: nk,
            dim: hd,
            theta: c.sliding_rope_theta,
            rows: n,
        },
        Op::KvStoreRows {
            cache: CacheKind::Sliding,
            form: KvForm::Asym3,
            layer: s,
            k: Gemma4Buf::PbK,
            v: Gemma4Buf::PbV,
            positions: Gemma4Buf::PbPositions,
            heads: nk,
            dim: hd,
            rows: n,
            capacity: win,
        },
        Op::AttendRows {
            cache: CacheKind::Sliding,
            form: KvForm::Asym3,
            layer: s,
            q: Gemma4Buf::PbQ,
            out: Gemma4Buf::PbQ,
            positions: Gemma4Buf::PbPositions,
            heads: nh,
            kv_heads: nk,
            dim: hd,
            max_seq: kv.max_seq,
            max_ctx: start + n,
            rows: n,
            window: win,
            capacity: win,
        },
    ]
}

/// A full layer on a batch, up to the rotation of its heads.
pub open spec fn batch_full_in_ops(
    c: Gemma4Config,
    w: FullLayerWeights,
    i: usize,
    n: usize,
) -> Seq<GemmaOp> {
    let dim = c.dim;
    let hd = c.full_head_dim;
    let nh = c.n_heads;
    let eps = c.norm_eps;
    let by = query_scale(hd as nat);
    let qrows = (n * c.n_heads) as usize;
    let krows = (n * c.full_n_kv_heads) as usize;
    let nkv4 = (4 * (n * c.kv_dim(LayerType::Full))) as usize;
    seq![
        Op::RmsNormRows {
            x: Gemma4Buf::PbResidual,
            w: Gemma4Wt::Layer(i, LayerPart::InputNorm),
            out: Gemma4Buf::PbTmp,
            rows: n,
            n: dim,
            eps,
        },
        crate::device::gemm_op(
            w.common.q_proj,
            Gemma4Wt::Layer(i, LayerPart::QProj),
            Gemma4Buf::PbTmp,
            Gemma4Buf::PbQ,
            n,
        ),
        crate::device::gemm_op(
            w.common.k_proj,
            Gemma4Wt::Layer(i, LayerPart::KProj),
            Gemma4Buf::PbTmp,
            Gemma4Buf::PbK,
            n,
        ),
        Op::Copy { dst: Gemma4Buf::PbV, dst_off: 0, src: Gemma4Buf::PbK, src_off: 0, bytes: nkv4 },
        Op::RmsNormRows {
            x: Gemma4Buf::PbQ,
            w: Gemma4Wt::Layer(i, LayerPart::QNorm),
            out: Gemma4Buf::PbQ,
            rows: qrows,
            n: hd,
            eps,
        },
        Op::RmsNormRows {
            x: Gemma4Buf::PbK,
            w: Gemma4Wt::Layer(i, LayerPart::KNorm),
            out: Gemma4Buf::PbK,
            rows: krows,
            n: hd,
            eps,
        },
        Op::RmsNormRows {
            x: Gemma4Buf::PbV,
            w: Gemma4Wt::Ones,
            out: Gemma4Buf::PbV,
            rows: krows,
            n: hd,
            eps,
        },
        Op::Scale { x: Gemma4Buf::PbQ, by },
    ]
}

fn batch_full_in(c: &Gemma4Config, w: &FullLayerWeights, i: usize, n: usize) -> (ops: Vec<GemmaOp>)
    requires
        c.batch_fits(),
        n <= 128,
    ensures
        ops@ == batch_full_in_ops(*c, *w, i, n),
{
    proof {
        lemma_sizes(*c);
        lemma_batch_sizes(*c, n as int);
        assert(0 <= n * c.kv_dim(LayerType::Full));
        assert(0 <= c.kv_dim(LayerType::Full));
    }
    let dim: usize = c.dim;
    let hd: usize = c.full_head_dim;
    let nh: usize = c.n_heads;
    let eps: F32 = c.norm_eps;
    let by: F32 = query_scale_of(hd);
    let qrows: usize = n * c.n_heads;
    let krows: usize = n * c.full_n_kv_heads;
    let nkv4: usize = 4 * (n * (c.full_n_kv_heads * c.full_head_dim));
    vec![
        Op::RmsNormRows {
            x: Gemma4Buf::PbResidual,
            w: Gemma4Wt::Layer(i, LayerPart::InputNorm),
            out: Gemma4Buf::PbTmp,
            rows: n,
            n: dim,
            eps,
        },
        gemm(
            w.common.q_proj,
            Gemma4Wt::Layer(i, LayerPart::QProj),
            Gemma4Buf::PbTmp,
            Gemma4Buf::PbQ,
            n,
        ),
        gemm(
            w.common.k_proj,
            Gemma4Wt::Layer(i, LayerPart::KProj),
            Gemma4Buf::PbTmp,
            Gemma4Buf::PbK,
            n,
        ),
        Op::Copy { dst: Gemma4Buf::PbV, dst_off: 0, src: Gemma4Buf::PbK, src_off: 0, bytes: nkv4 },
        Op::RmsNormRows {
            x: Gemma4Buf::PbQ,
            w: Gemma4Wt::Layer(i, LayerPart::QNorm),
            out: Gemma4Buf::PbQ,
            rows: qrows,
            n: hd,
            eps,
        },
        Op::RmsNormRows {
            x: Gemma4Buf::PbK,
            w: Gemma4Wt::Layer(i, LayerPart::KNorm),
            out: Gemma4Buf::PbK,
            rows: krows,
            n: hd,
            eps,
        },
        Op::RmsNormRows {
            x: Gemma4Buf::PbV,
            w: Gemma4Wt::Ones,
            out: Gemma4Buf::PbV,
            rows: krows,
            n: hd,
            eps,
        },
        Op::Scale { x: Gemma4Buf::PbQ, by },
    ]
}

/// Rotates row `t` of a batch of full heads by its position.
pub open spec fn rotate_row_ops(c: Gemma4Config, start: usize, t: usize) -> Seq<GemmaOp> {
    let q4 = (4 * c.q_dim(LayerType::Full)) as usize;
    let k4 = (4 * c.kv_dim(LayerType::Full)) as usize;
    let pairs = rotated_pairs(c);
    seq![
        Op::SetPos { buf: Gemma4Buf::Pos, pos: (start + t) as usize },
        Op::Copy { dst: Gemma4Buf::Q, dst_off: 0, src: Gemma4Buf::PbQ, src_off: (t * q4) as usize, bytes: q4 },
        Op::Copy { dst: Gemma4Buf::K, dst_off: 0, src: Gemma4Buf::PbK, src_off: (t * k4) as usize, bytes: k4 },
        Op::RopeHalved {
            q: Gemma4Buf::Q,
            k: Gemma4Buf::K,
            q_heads: c.n_heads,
            k_heads: c.full_n_kv_heads,
            dim: c.full_head_dim,
            pairs,
            theta: c.full_rope_theta,
        },
        Op::Copy { dst: Gemma4Buf::PbQ, dst_off: (t * q4) as usize, src: Gemma4Buf::Q, src_off: 0, bytes: q4 },
        Op::Copy { dst: Gemma4Buf::PbK, dst_off: (t * k4) as usize, src: Gemma4Buf::K, src_off: 0, bytes: k4 },
    ]
}

fn rotate_row(c: &Gemma4Config, start: usize, t: usize) -> (ops: Vec<GemmaOp>)
    requires
        c.batch_fits(),
        t < 128,
        start + t <= usize::MAX,
    ensures
        ops@ == rotate_row_ops(*c, start, t),
{
    proof {
        lemma_sizes(*c);
        assert(0 <= c.q_dim(LayerType::Full) && 0 <= c.kv_dim(LayerType::Full));
        lemma_at_most(t as int, 4 * c.q_dim(LayerType::Full));
        lemma_at_most(t as int, 4 * c.kv_dim(LayerType::Full));
    }
    let q4: usize = 4 * (c.n_heads * c.full_head_dim);
    let k4: usize = 4 * (c.full_n_kv_heads * c.full_head_dim);
    let pairs: usize = rotated_pairs_of(c);
    vec![
        Op::SetPos { buf: Gemma4Buf::Pos, pos: start + t },
        Op::Copy { dst: Gemma4Buf::Q, dst_off: 0, src: Gemma4Buf::PbQ, src_off: t * q4, bytes: q4 },
        Op::Copy { dst: Gemma4Buf::K, dst_off: 0, src: Gemma4Buf::PbK, src_off: t * k4, bytes: k4 },
        Op::RopeHalved {
            q: Gemma4Buf::Q,
            k: Gemma4Buf::K,
            q_heads: c.n_heads,
            k_heads: c.full_n_kv_heads,
            dim: c.full_head_dim,
            pairs,
            theta: c.full_rope_theta,
        },
        Op::Copy { dst: Gemma4Buf::PbQ, dst_off: t * q4, src: Gemma4Buf::Q, src_off: 0, bytes: q4 },
        Op::Copy { dst: Gemma4Buf::PbK, dst_off: t * k4, src: Gemma4Buf::K, src_off: 0, bytes: k4 },
    ]
}

/// A full layer on a batch, on its cache.
pub open spec fn batch_full_cache_ops(
    c: Gemma4Config,
    s: usize,
    start: usize,
    n: usize,
    kv: KvCache,
) -> Seq<GemmaOp> {
    let hd = c.full_head_dim;
    let nk = c.full_n_kv_heads;
    let nh = c.n_heads;
    seq![
        Op::KvStoreRows {
            cache: CacheKind::Full,
            form: KvForm::Asym3,
            layer: s,
            k: Gemma4Buf::PbK,
            v: Gemma4Buf::PbV,
            positions: Gemma4Buf::PbPositions,
            heads: nk,
            dim: hd,
            rows: n,
            capacity: 0,
        },
        Op::AttendRows {
            cache: CacheKind::Full,
            form: KvForm::Asym3,
            layer: s,
            q: Gemma4Buf::PbQ,
            out: Gemma4Buf::PbQ,
            positions: Gemma4Buf::PbPositions,
            heads: nh,
            kv_heads: nk,
            dim: hd,
            max_seq: kv.max_seq,
            max_ctx: (start + n) as usize,
            rows: n,
            window: 0,
            capacity: 0,
        },
    ]
}

fn batch_full_cache(
    c: &Gemma4Config,
    s: usize,
    start: usize,
    n: usize,
    kv: &KvCache,
) -> (ops: Vec<GemmaOp>)
    requires
        start + n <= usize::MAX,
    ensures
        ops@ == batch_full_cache_ops(*c, s, start, n, *kv),
{
    let hd: usize = c.full_head_dim;
    let nk: usize = c.full_n_kv_heads;
    let nh: usize = c.n_heads;
    vec![
        Op::KvStoreRows {
            cache: CacheKind::Full,
            form: KvForm::Asym3,
            layer: s,
            k: Gemma4Buf::PbK,
            v: Gemma4Buf::PbV,
            positions: Gemma4Buf::PbPositions,
            heads: nk,
            dim: hd,
            rows: n,
            capacity: 0,
        },
        Op::AttendRows {
            cache: CacheKind::Full,
            form: KvForm::Asym3,
            layer: s,
            q: Gemma4Buf::PbQ,
            out: Gemma4Buf::PbQ,
            positions: Gemma4Buf::PbPositions,
            heads: nh,
            kv_heads: nk,
            dim: hd,
            max_seq: kv.max_seq,
            max_ctx: start + n,
            rows: n,
            window: 0,
            capacity: 0,
        },
    ]
}

/// A layer on a batch, from its attention to the feed-forward result.
pub open spec fn batch_rest_ops(
    c: Gemma4Config,
    w: LayerCommon,
    i: usize,
    n: usize,
) -> Seq<GemmaOp> {
    let dim = c.dim;
    let eps = c.norm_eps;
    let nd4 = (4 * (n * c.dim)) as usize;
    let nh = (n * c.hidden_dim) as usize;
    seq![
        crate::device::gemm_op(
            w.o_proj,
            Gemma4Wt::Layer(i, LayerPart::OProj),
            Gemma4Buf::PbQ,
            Gemma4Buf::PbAttnOut,
            n,
        ),
        Op::RmsNormRows {
            x: Gemma4Buf::PbAttnOut,
            w: Gemma4Wt::Layer(i, LayerPart::PostAttnNorm),
            out: Gemma4Buf::PbAttnOut,
            rows: n,
            n: dim,
            eps,
        },
        Op::AddTo { x: Gemma4Buf::PbResidual, y: Gemma4Buf::PbAttnOut },
        Op::Copy {
            dst: Gemma4Buf::PbAttnOut,
            dst_off: 0,
            src: Gemma4Buf::PbResidual,
            src_off: 0,
            bytes: nd4,
        },
        Op::RmsNormRows {
            x: Gemma4Buf::PbResidual,
            w: Gemma4Wt::Layer(i, LayerPart::PreFfnNorm),
            out: Gemma4Buf::PbTmp,
            rows: n,
            n: dim,
            eps,
        },
        crate::device::gemm_op(
            w.gate_proj,
            Gemma4Wt::Layer(i, LayerPart::GateProj),
            Gemma4Buf::PbTmp,
            Gemma4Buf::PbGate,
            n,
        ),
        crate::device::gemm_op(
            w.up_proj,
            Gemma4Wt::Layer(i, LayerPart::UpProj),
            Gemma4Buf::PbTmp,
            Gemma4Buf::PbUp,
            n,
        ),
        Op::GeluTanh { x: Gemma4Buf::PbGate, out: Gemma4Buf::PbFfnHidden, n: nh },
        Op::Mul { a: Gemma4Buf::PbFfnHidden, b: Gemma4Buf::PbUp, out: Gemma4Buf::PbFfnHidden },
        crate::device::gemm_op(
            w.down_proj,
            Gemma4Wt::Layer(i, LayerPart::DownProj),
            Gemma4Buf::PbFfnHidden,
            Gemma4Buf::PbFfnOut,
            n,
        ),
    ]
}

fn batch_rest(c: &Gemma4Config, w: &LayerCommon, i: usize, n: usize) -> (ops: Vec<GemmaOp>)
    requires
        c.batch_fits(),
        n <= 128,
    ensures
        ops@ == batch_rest_ops(*c, *w, i, n),
{
    proof {
        lemma_batch_sizes(*c, n as int);
    }
    let dim: usize = c.dim;
    let eps: F32 = c.norm_eps;
    let nd4: usize = 4 * (n * c.dim);
    let nh: usize = n * c.hidden_dim;
    vec![
        gemm(
            w.o_proj,
            Gemma4Wt::Layer(i, LayerPart::OProj),
            Gemma4Buf::PbQ,
            Gemma4Buf::PbAttnOut,
            n,
        ),
        Op::RmsNormRows {
            x: Gemma4Buf::PbAttnOut,
            w: Gemma4Wt::Layer(i, LayerPart::PostAttnNorm),
            out: Gemma4Buf::PbAttnOut,
            rows: n,
            n: dim,
            eps,
        },
        Op::AddTo { x: Gemma4Buf::PbResidual, y: Gemma4Buf::PbAttnOut },
        Op::Copy {
            dst: Gemma4Buf::PbAttnOut,
            dst_off: 0,
            src: Gemma4Buf::PbResidual,
            src_off: 0,
            bytes: nd4,
        },
        Op::RmsNormRows {
            x: Gemma4Buf::PbResidual,
            w: Gemma4Wt::Layer(i, LayerPart::PreFfnNorm),
            out: Gemma4Buf::PbTmp,
            rows: n,
            n: dim,
            eps,
        },
        gemm(
            w.gate_proj,
            Gemma4Wt::Layer(i, LayerPart::GateProj),
            Gemma4Buf::PbTmp,
            Gemma4Buf::PbGate,
            n,
        ),
        gemm(
            w.up_proj,
            Gemma4Wt::Layer(i, LayerPart::UpProj),
            Gemma4Buf::PbTmp,
            Gemma4Buf::PbUp,
            n,
        ),
        Op::GeluTanh { x: Gemma4Buf::PbGate, out: Gemma4Buf::PbFfnHidden, n: nh },
        Op::Mul { a: Gemma4Buf::PbFfnHidden, b: Gemma4Buf::PbUp, out: Gemma4Buf::PbFfnHidden },
        gemm(
            w.down_proj,
            Gemma4Wt::Layer(i, LayerPart::DownProj),
            Gemma4Buf::PbFfnHidden,
            Gemma4Buf::PbFfnOut,
            n,
        ),
    ]
}

/// The experts' input and the eight best experts of every token of a batch.
pub open spec fn batch_route_ops(
    c: Gemma4Config,
    m: MoeLayerExtras,
    i: usize,
    n: usize,
) -> Seq<GemmaOp> {
    let dim = c.dim;
    let eps = c.norm_eps;
    let by = crate::qwen35::inverse_root(c.dim as nat);
    seq![
        Op::RmsNormRows {
            x: Gemma4Buf::PbFfnOut,
            w: Gemma4Wt::Layer(i, LayerPart::PostFfnNorm1),
            out: Gemma4Buf::PbMoeCurMlp,
            rows: n,
            n: dim,
            eps,
        },
        Op::RmsNormRows {
            x: Gemma4Buf::PbAttnOut,
            w: Gemma4Wt::Layer(i, LayerPart::PreFfnNorm2),
            out: Gemma4Buf::PbMoePre2,
            rows: n,
            n: dim,
            eps,
        },
        Op::RmsNormRows {
            x: Gemma4Buf::PbAttnOut,
            w: Gemma4Wt::Layer(i, LayerPart::RouterScale),
            out: Gemma4Buf::PbMoeRouterIn,
            rows: n,
            n: dim,
            eps,
        },
        Op::Scale { x: Gemma4Buf::PbMoeRouterIn, by },
        crate::device::gemm_op(
            m.router_proj,
            Gemma4Wt::Layer(i, LayerPart::RouterProj),
            Gemma4Buf::PbMoeRouterIn,
            Gemma4Buf::PbMoeRouterLogits,
            n,
        ),
        Op::RouteTop8 {
            logits: Gemma4Buf::PbMoeRouterLogits,
            indices: Gemma4Buf::PbMoeTopkIndices,
            weights: Gemma4Buf::PbMoeTopkWeights,
            experts: c.num_experts,
            rows: n,
        },
    ]
}

fn batch_route(c: &Gemma4Config, m: &MoeLayerExtras, i: usize, n: usize) -> (ops: Vec<GemmaOp>)
    ensures
        ops@ == batch_route_ops(*c, *m, i, n),
{
    let dim: usize = c.dim;
    let eps: F32 = c.norm_eps;
    let by: F32 = crate::qwen35::inverse_root_of(c.dim);
    vec![
        Op::RmsNormRows {
            x: Gemma4Buf::PbFfnOut,
            w: Gemma4Wt::Layer(i, LayerPart::PostFfnNorm1),
            out: Gemma4Buf::PbMoeCurMlp,
            rows: n,
            n: dim,
            eps,
        },
        Op::RmsNormRows {
            x: Gemma4Buf::PbAttnOut,
            w: Gemma4Wt::Layer(i, LayerPart::PreFfnNorm2),
            out: Gemma4Buf::PbMoePre2,
            rows: n,
            n: dim,
            eps,
        },
        Op::RmsNormRows {
            x: Gemma4Buf::PbAttnOut,
            w: Gemma4Wt::Layer(i, LayerPart::RouterScale),
            out: Gemma4Buf::PbMoeRouterIn,
            rows: n,
            n: dim,
            eps,
        },
        Op::Scale { x: Gemma4Buf::PbMoeRouterIn, by },
        gemm(
            m.router_proj,
            Gemma4Wt::Layer(i, LayerPart::RouterProj),
            Gemma4Buf::PbMoeRouterIn,
            Gemma4Buf::PbMoeRouterLogits,
            n,
        ),
        Op::RouteTop8 {
            logits: Gemma4Buf::PbMoeRouterLogits,
            indices: Gemma4Buf::PbMoeTopkIndices,
            weights: Gemma4Buf::PbMoeTopkWeights,
            experts: c.num_experts,
            rows: n,
        },
    ]
}

/// How the rows of a batch find their experts.
pub open spec fn batch_routing(bucketed: bool) -> Routing<Gemma4Buf> {
    if bucketed {
        Routing::Bucketed {
            offsets: Gemma4Buf::PbMoeExpertOffsets,
            list: Gemma4Buf::PbMoeExpertTokenList,
        }
    } else {
        Routing::Indexed { indices: Gemma4Buf::PbMoeTopkIndices }
    }
}

fn batch_routing_of(bucketed: bool) -> (r: Routing<Gemma4Buf>)
    ensures
        r == batch_routing(bucketed),
{
    if bucketed {
        Routing::Bucketed {
            offsets: Gemma4Buf::PbMoeExpertOffsets,
            list: Gemma4Buf::PbMoeExpertTokenList,
        }
    } else {
        Routing::Indexed { indices: Gemma4Buf::PbMoeTopkIndices }
    }
}

/// Sorts a batch by expert, where that is asked for.
pub open spec fn bucket_ops(c: Gemma4Config, n: usize, bucketed: bool) -> Seq<GemmaOp> {
    if bucketed {
        seq![
            Op::RouteBuckets {
                indices: Gemma4Buf::PbMoeTopkIndices,
                offsets: Gemma4Buf::PbMoeExpertOffsets,
                list: Gemma4Buf::PbMoeExpertTokenList,
                rows: n,
                top_k: c.top_k_experts,
                experts: c.num_experts,
            },
        ]
    } else {
        Seq::empty()
    }
}

fn bucket(c: &Gemma4Config, n: usize, bucketed: bool) -> (ops: Vec<GemmaOp>)
    ensures
        ops@ == bucket_ops(*c, n, bucketed),
{
    if bucketed {
        vec![
            Op::RouteBuckets {
                indices: Gemma4Buf::PbMoeTopkIndices,
                offsets: Gemma4Buf::PbMoeExpertOffsets,
                list: Gemma4Buf::PbMoeExpertTokenList,
                rows: n,
                top_k: c.top_k_experts,
                experts: c.num_experts,
            },
        ]
    } else {
        Vec::new()
    }
}

/// The experts of a batch, all on the device.
pub open spec fn batch_experts_ops(
    c: Gemma4Config,
    dtype: DType,
    i: usize,
    n: usize,
    bucketed: bool,
) -> Seq<GemmaOp> {
    let nd4 = (4 * (n * c.dim)) as usize;
    let mi = c.moe_intermediate_size;
    let top = c.top_k_experts;
    let mi2 = (2 * mi) as usize;
    let all = (n * top * mi) as usize;
    let routing = batch_routing(bucketed);
    seq![
        Op::Rotate { x: Gemma4Buf::PbMoePre2, out: Gemma4Buf::PbMoePre2Rot, k: c.dim, rows: n },
        Op::ExpertsGateUp {
            experts: Gemma4Wt::Layer(i, LayerPart::GateUpPtrs),
            routing,
            x: Gemma4Buf::PbMoePre2Rot,
            gate: Gemma4Buf::PbMoeGateBatch,
            up: Gemma4Buf::PbMoeUpBatch,
            m: mi2,
            k: c.dim,
            top_k: top,
            rows: n,
        },
        Op::GeluTanh { x: Gemma4Buf::PbMoeGateBatch, out: Gemma4Buf::PbMoeHiddenBatch, n: all },
        Op::Mul {
            a: Gemma4Buf::PbMoeHiddenBatch,
            b: Gemma4Buf::PbMoeUpBatch,
            out: Gemma4Buf::PbMoeHiddenBatch,
        },
        Op::Zero { buf: Gemma4Buf::PbMoeCurMoe, bytes: nd4 },
        Op::ExpertsDown {
            experts: Gemma4Wt::Layer(i, LayerPart::DownPtrs),
            dtype,
            scale: Gemma4Wt::Layer(i, LayerPart::PerExpertScale),
            routing,
            weights: Gemma4Buf::PbMoeTopkWeights,
            x: Gemma4Buf::PbMoeHiddenBatch,
            out: Gemma4Buf::PbMoeCurMoe,
            m: c.dim,
            k: mi,
            top_k: top,
            rows: n,
        },
    ]
}

fn batch_experts(c: &Gemma4Config, dtype: DType, i: usize, n: usize, bucketed: bool) -> (ops: Vec<
    GemmaOp,
>)
    requires
        c.batch_fits(),
        n <= 128,
    ensures
        ops@ == batch_experts_ops(*c, dtype, i, n, bucketed),
{
    proof {
        lemma_batch_sizes(*c, n as int);
    }
    let nd4: usize = 4 * (n * c.dim);
    let mi: usize = c.moe_intermediate_size;
    let top: usize = c.top_k_experts;
    let mi2: usize = 2 * mi;
    let all: usize = n * top * mi;
    let routing: Routing<Gemma4Buf> = batch_routing_of(bucketed);
    vec![
        Op::Rotate { x: Gemma4Buf::PbMoePre2, out: Gemma4Buf::PbMoePre2Rot, k: c.dim, rows: n },
        Op::ExpertsGateUp {
            experts: Gemma4Wt::Layer(i, LayerPart::GateUpPtrs),
            routing,
            x: Gemma4Buf::PbMoePre2Rot,
            gate: Gemma4Buf::PbMoeGateBatch,
            up: Gemma4Buf::PbMoeUpBatch,
            m: mi2,
            k: c.dim,
            top_k: top,
            rows: n,
        },
        Op::GeluTanh { x: Gemma4Buf::PbMoeGateBatch, out: Gemma4Buf::PbMoeHiddenBatch, n: all },
        Op::Mul {
            a: Gemma4Buf::PbMoeHiddenBatch,
            b: Gemma4Buf::PbMoeUpBatch,
            out: Gemma4Buf::PbMoeHiddenBatch,
        },
        Op::Zero { buf: Gemma4Buf::PbMoeCurMoe, bytes: nd4 },
        Op::ExpertsDown {
            experts: Gemma4Wt::Layer(i, LayerPart::DownPtrs),
            dtype,
            scale: Gemma4Wt::Layer(i, LayerPart::PerExpertScale),
            routing,
            weights: Gemma4Buf::PbMoeTopkWeights,
            x: Gemma4Buf::PbMoeHiddenBatch,
            out: Gemma4Buf::PbMoeCurMoe,
            m: c.dim,
            k: mi,
            top_k: top,
            rows: n,
        },
    ]
}

/// The experts' results and the feed-forward results of a batch, each after its norm,
/// added up.
pub open spec fn batch_join_ops(c: Gemma4Config, i: usize, n: usize) -> Seq<GemmaOp> {
    let dim = c.dim;
    let eps = c.norm_eps;
    seq![
        Op::RmsNormRows {
            x: Gemma4Buf::PbMoeCurMoe,
            w: Gemma4Wt::Layer(i, LayerPart::PostFfnNorm2),
            out: Gemma4Buf::PbMoeCurMoe,
            rows: n,
            n: dim,
            eps,
        },
        Op::Add { a: Gemma4Buf::PbMoeCurMlp, b: Gemma4Buf::PbMoeCurMoe, out: Gemma4Buf::PbMoePre2 },
        Op::RmsNormRows {
            x: Gemma4Buf::PbMoePre2,
            w: Gemma4Wt::Layer(i, LayerPart::PostFfnNorm),
            out: Gemma4Buf::PbMoePre2,
            rows: n,
            n: dim,
            eps,
        },
    ]
}

fn batch_join(c: &Gemma4Config, i: usize, n: usize) -> (ops: Vec<GemmaOp>)
    ensures
        ops@ == batch_join_ops(*c, i, n),
{
    let dim: usize = c.dim;
    let eps: F32 = c.norm_eps;
    vec![
        Op::RmsNormRows {
            x: Gemma4Buf::PbMoeCurMoe,
            w: Gemma4Wt::Layer(i, LayerPart::PostFfnNorm2),
            out: Gemma4Buf::PbMoeCurMoe,
            rows: n,
            n: dim,
            eps,
        },
        Op::Add { a: Gemma4Buf::PbMoeCurMlp, b: Gemma4Buf::PbMoeCurMoe, out: Gemma4Buf::PbMoePre2 },
        Op::RmsNormRows {
            x: Gemma4Buf::PbMoePre2,
            w: Gemma4Wt::Layer(i, LayerPart::PostFfnNorm),
            out: Gemma4Buf::PbMoePre2,
            rows: n,
            n: dim,
            eps,
        },
    ]
}

/// Token `t` of a batch through the experts, on its own.
pub open spec fn row_moe_ops(c: Gemma4Config, m: MoeLayerExtras, i: usize, t: usize) -> Result<
    Seq<GemmaOp>,
    ForwardError,
> {
    let d4 = (4 * c.dim) as usize;
    let at = (t * (4 * c.dim)) as usize;
    let load = seq![
        Op::<Gemma4Buf, Gemma4Wt>::Copy {
            dst: Gemma4Buf::Residual,
            dst_off: 0,
            src: Gemma4Buf::PbAttnOut,
            src_off: at,
            bytes: d4,
        },
        Op::<Gemma4Buf, Gemma4Wt>::Copy {
            dst: Gemma4Buf::FfnOut,
            dst_off: 0,
            src: Gemma4Buf::PbFfnOut,
            src_off: at,
            bytes: d4,
        },
    ];
    let store = seq![
        Op::<Gemma4Buf, Gemma4Wt>::Copy {
            dst: Gemma4Buf::PbMoePre2,
            dst_off: at,
            src: Gemma4Buf::Tmp,
            src_off: 0,
            bytes: d4,
        },
    ];
    chained(chained(Ok(load), moe_ops(c, m, i)), Ok(store))
}

fn row_moe(c: &Gemma4Config, m: &MoeLayerExtras, i: usize, t: usize) -> (r: Result<
    Vec<GemmaOp>,
    ForwardError,
>)
    requires
        c.batch_fits(),
        t < 128,
    ensures
        agrees(r, row_moe_ops(*c, *m, i, t)),
{
    proof {
        lemma_sizes(*c);
        lemma_at_most(t as int, 4 * c.dim);
    }
    let d4: usize = 4 * c.dim;
    let at: usize = t * d4;
    let mut ops: Vec<GemmaOp> = vec![
        Op::Copy {
            dst: Gemma4Buf::Residual,
            dst_off: 0,
            src: Gemma4Buf::PbAttnOut,
            src_off: at,
            bytes: d4,
        },
        Op::Copy {
            dst: Gemma4Buf::FfnOut,
            dst_off: 0,
            src: Gemma4Buf::PbFfnOut,
            src_off: at,
            bytes: d4,
        },
    ];
    match apply_moe_branch(c, m, i) {
        Ok(more) => extend(&mut ops, more),
        Err(e) => return Err(e),
    }
    extend(
        &mut ops,
        vec![
            Op::Copy {
                dst: Gemma4Buf::PbMoePre2,
                dst_off: at,
                src: Gemma4Buf::Tmp,
                src_off: 0,
                bytes: d4,
            },
        ],
    );
    assert(ops@ =~= row_moe_ops(*c, *m, i, t)->Ok_0);
    Ok(ops)
}

/// The first `n` tokens of a batch through the experts, one by one.
pub open spec fn rows_moe_ops(c: Gemma4Config, m: MoeLayerExtras, i: usize, n: nat) -> Result<
    Seq<GemmaOp>,
    ForwardError,
>
    decreases n,
{
    if n == 0 {
        Ok(Seq::empty())
    } else {
        chained(rows_moe_ops(c, m, i, (n - 1) as nat), row_moe_ops(c, m, i, (n - 1) as usize))
    }
}

/// The experts are stored in forms that a batch has kernels for: rotated four-bit
/// gates and four-bit projections down in groups of 128. There is none for
/// eight-bit projections down.
pub open spec fn in_batches(m: MoeLayerExtras) -> bool {
    m.gate_up.dtype == DType::MQ4G256 && m.down.dtype == DType::HFQ4G128
}

fn is_in_batches(m: &MoeLayerExtras) -> (r: bool)
    ensures
        r == in_batches(*m),
{
    m.gate_up.dtype == DType::MQ4G256 && m.down.dtype == DType::HFQ4G128
}

/// The experts beside the feed-forward part of a batch: all tokens at once or, where
/// their weights are in forms without kernels for that, token by token.
pub open spec fn batch_moe_ops(
    c: Gemma4Config,
    m: MoeLayerExtras,
    i: usize,
    n: usize,
    bucketed: bool,
) -> Result<Seq<GemmaOp>, ForwardError> {
    if c.top_k_experts != 8 {
        Err(ForwardError::TopK { top_k: c.top_k_experts })
    } else if in_batches(m) {
        Ok(
            batch_route_ops(c, m, i, n) + bucket_ops(c, n, bucketed) + batch_experts_ops(
                c,
                m.down.dtype,
                i,
                n,
                bucketed,
            ) + batch_join_ops(c, i, n),
        )
    } else {
        rows_moe_ops(c, m, i, n as nat)
    }
}

/// The experts beside the feed-forward part, of a batch whose states are in
/// `PbAttnOut` and whose feed-forward results are in `PbFfnOut`; the sums of both go
/// to `PbMoePre2`.
pub fn apply_moe_branch_batched(
    c: &Gemma4Config,
    m: &MoeLayerExtras,
    i: usize,
    n: usize,
    bucketed: bool,
) -> (r: Result<Vec<GemmaOp>, ForwardError>)
    requires
        c.batch_fits(),
        n <= 128,
    ensures
        agrees(r, batch_moe_ops(*c, *m, i, n, bucketed)),
{
    if c.top_k_experts != 8 {
        return Err(ForwardError::TopK { top_k: c.top_k_experts });
    }
    if is_in_batches(m) {
        let mut ops: Vec<GemmaOp> = batch_route(c, m, i, n);
        extend(&mut ops, bucket(c, n, bucketed));
        extend(&mut ops, batch_experts(c, m.down.dtype, i, n, bucketed));
        extend(&mut ops, batch_join(c, i, n));
        return Ok(ops);
    }
    let mut ops: Vec<GemmaOp> = Vec::new();
    assert(ops@ =~= Seq::<GemmaOp>::empty());
    let mut t: usize = 0;
    while t < n
        invariant
            t <= n <= 128,
            c.batch_fits(),
            c.top_k_experts == 8,
            rows_moe_ops(*c, *m, i, t as nat) == Ok::<Seq<GemmaOp>, ForwardError>(ops@),
        decreases n - t,
    {
        match row_moe(c, m, i, t) {
            Ok(more) => extend(&mut ops, more),
            Err(e) => return Err(e),
        }
        t = t + 1;
    }
    Ok(ops)
}

/// The end of a layer on a batch with experts.
pub open spec fn batch_finish_ops(w: LayerCommon) -> Seq<GemmaOp> {
    seq![
        Op::AddTo { x: Gemma4Buf::PbResidual, y: Gemma4Buf::PbMoePre2 },
        Op::Scale { x: Gemma4Buf::PbResidual, by: w.layer_scalar_host },
    ]
}

fn batch_finish(w: &LayerCommon) -> (ops: Vec<GemmaOp>)
    ensures
        ops@ == batch_finish_ops(*w),
{
    vec![
        Op::AddTo { x: Gemma4Buf::PbResidual, y: Gemma4Buf::PbMoePre2 },
        Op::Scale { x: Gemma4Buf::PbResidual, by: w.layer_scalar_host },
    ]
}

/// The end of a layer on a batch without experts.
pub open spec fn batch_dense_ops(
    c: Gemma4Config,
    w: LayerCommon,
    i: usize,
    n: usize,
) -> Seq<GemmaOp> {
    seq![
        Op::RmsNormRows {
            x: Gemma4Buf::PbFfnOut,
            w: Gemma4Wt::Layer(i, LayerPart::PostFfnNorm),
            out: Gemma4Buf::PbFfnOut,
            rows: n,
            n: c.dim,
            eps: c.norm_eps,
        },
        Op::AddTo { x: Gemma4Buf::PbResidual, y: Gemma4Buf::PbFfnOut },
        Op::Scale { x: Gemma4Buf::PbResidual, by: w.layer_scalar_host },
    ]
}

fn batch_dense(c: &Gemma4Config, w: &LayerCommon, i: usize, n: usize) -> (ops: Vec<GemmaOp>)
    ensures
        ops@ == batch_dense_ops(*c, *w, i, n),
{
    vec![
        Op::RmsNormRows {
            x: Gemma4Buf::PbFfnOut,
            w: Gemma4Wt::Layer(i, LayerPart::PostFfnNorm),
            out: Gemma4Buf::PbFfnOut,
            rows: n,
            n: c.dim,
            eps: c.norm_eps,
        },
        Op::AddTo { x: Gemma4Buf::PbResidual, y: Gemma4Buf::PbFfnOut },
        Op::Scale { x: Gemma4Buf::PbResidual, by: w.layer_scalar_host },
    ]
}

/// The end of a layer on a batch.
pub open spec fn batch_end_ops(
    c: Gemma4Config,
    w: LayerCommon,
    i: usize,
    n: usize,
    flags: Flags,
) -> Result<Seq<GemmaOp>, ForwardError> {
    match w.moe {
        Some(m) if !flags.moe_bypass => chained(
            batch_moe_ops(c, m, i, n, flags.moe_bucketed),
            Ok(batch_finish_ops(w)),
        ),
        _ => Ok(batch_dense_ops(c, w, i, n)),
    }
}

/// What the user asks of the experts.
#[derive(Debug, Clone, Copy)]
pub struct Flags {
    /// Leave the experts out.
    pub moe_bypass: bool,
    /// Sort batches by expert.
    pub moe_bucketed: bool,
}

fn batch_end(c: &Gemma4Config, w: &LayerCommon, i: usize, n: usize, flags: &Flags) -> (r: Result<
    Vec<GemmaOp>,
    ForwardError,
>)
    requires
        c.batch_fits(),
        n <= 128,
    ensures
        agrees(r, batch_end_ops(*c, *w, i, n, *flags)),
{
    match &w.moe {
        Some(m) if !flags.moe_bypass => {
            let mut ops: Vec<GemmaOp> = match apply_moe_branch_batched(
                c,
                m,
                i,
                n,
                flags.moe_bucketed,
            ) {
                Ok(v) => v,
                Err(e) => return Err(e),
            };
            extend(&mut ops, batch_finish(w));
            Ok(ops)
        },
        _ => Ok(batch_dense(c, w, i, n)),
    }
}

/// Rotates the first `n` rows of a batch of full heads.
pub open spec fn rotate_rows_ops(c: Gemma4Config, start: usize, n: nat) -> Seq<GemmaOp>
    decreases n,
{
    if n == 0 {
        Seq::empty()
    } else {
        rotate_rows_ops(c, start, (n - 1) as nat) + rotate_row_ops(c, start, (n - 1) as usize)
    }
}

fn rotate_rows(c: &Gemma4Config, start: usize, n: usize) -> (ops: Vec<GemmaOp>)
    requires
        c.batch_fits(),
        n <= 128,
        start + n <= usize::MAX,
    ensures
        ops@ == rotate_rows_ops(*c, start, n as nat),
{
    let mut ops: Vec<GemmaOp> = Vec::new();
    let mut t: usize = 0;
    while t < n
        invariant
            t <= n <= 128,
            c.batch_fits(),
            start + n <= usize::MAX,
            ops@ == rotate_rows_ops(*c, start, t as nat),
        decreases n - t,
    {
        extend(&mut ops, rotate_row(c, start, t));
        t = t + 1;
    }
    ops
}

/// Attention of layer `i` on a batch.
pub open spec fn batch_attn_ops(
    c: Gemma4Config,
    w: LayerWeights,
    i: usize,
    start: usize,
    n: usize,
    kv: Caches,
) -> Result<Seq<GemmaOp>, ForwardError> {
    let kind = c.layer_types@[i as int];
    let s = count_kind(c.layer_types@, kind, i as nat) as usize;
    match (kind, w) {
        (LayerType::Sliding, LayerWeights::Sliding(l)) => Ok(
            batch_sliding_ops(c, l, i, s, start, n, kv.sliding),
        ),
        (LayerType::Full, LayerWeights::Full(l)) => Ok(
            batch_full_in_ops(c, l, i, n) + rotate_rows_ops(c, start, n as nat)
                + batch_full_cache_ops(c, s, start, n, kv.full),
        ),
        _ => Err(ForwardError::Mismatch { layer: i }),
    }
}

/// Layer `i` on a batch.
pub open spec fn batch_layer_ops(
    c: Gemma4Config,
    w: LayerWeights,
    i: usize,
    start: usize,
    n: usize,
    kv: Caches,
    flags: Flags,
) -> Result<Seq<GemmaOp>, ForwardError> {
    chained(
        chained(
            batch_attn_ops(c, w, i, start, n, kv),
            Ok(batch_rest_ops(c, common_of(w), i, n)),
        ),
        batch_end_ops(c, common_of(w), i, n, flags),
    )
}

fn common(w: &LayerWeights) -> (r: &LayerCommon)
    ensures
        *r == common_of(*w),
{
    match w {
        LayerWeights::Sliding(l) => &l.common,
        LayerWeights::Full(l) => &l.common,
    }
}

fn batch_layer(
    c: &Gemma4Config,
    w: &LayerWeights,
    i: usize,
    s: usize,
    start: usize,
    n: usize,
    kv: &Caches,
    flags: &Flags,
) -> (r: Result<Vec<GemmaOp>, ForwardError>)
    requires
        c.batch_fits(),
        n <= 128,
        start + n <= usize::MAX,
        i < c.layer_types@.len(),
        s == count_kind(c.layer_types@, c.layer_types@[i as int], i as nat),
    ensures
        agrees(r, batch_layer_ops(*c, *w, i, start, n, *kv, *flags)),
{
    let mut ops: Vec<GemmaOp> = match (c.layer_types[i], w) {
        (LayerType::Sliding, LayerWeights::Sliding(l)) => batch_sliding(
            c,
            l,
            i,
            s,
            start,
            n,
            &kv.sliding,
        ),
        (LayerType::Full, LayerWeights::Full(l)) => {
            let mut v: Vec<GemmaOp> = batch_full_in(c, l, i, n);
            extend(&mut v, rotate_rows(c, start, n));
            extend(&mut v, batch_full_cache(c, s, start, n, &kv.full));
            v
        },
        _ => return Err(ForwardError::Mismatch { layer: i }),
    };
    extend(&mut ops, batch_rest(c, common(w), i, n));
    match batch_end(c, common(w), i, n, flags) {
        Ok(more) => extend(&mut ops, more),
        Err(e) => return Err(e),
    }
    Ok(ops)
}

/// The embeddings of the first `n` tokens, scaled, in the rows of `PbResidual`.
pub open spec fn embeds_ops(
    c: Gemma4Config,
    format: EmbeddingFormat,
    tokens: Seq<u32>,
    n: nat,
) -> Seq<GemmaOp>
    decreases n,
{
    if n == 0 {
        Seq::empty()
    } else {
        embeds_ops(c, format, tokens, (n - 1) as nat) + (embed_ops(c, format, tokens[n - 1]) + seq![
            Op::Copy {
                dst: Gemma4Buf::PbResidual,
                dst_off: ((n - 1) * (4 * c.dim)) as usize,
                src: Gemma4Buf::X,
                src_off: 0,
                bytes: (4 * c.dim) as usize,
            },
        ])
    }
}

fn embeds(c: &Gemma4Config, format: EmbeddingFormat, tokens: &[u32]) -> (r: Result<
    Vec<GemmaOp>,
    ForwardError,
>)
    requires
        c.batch_fits(),
        1 <= tokens@.len() <= 128,
    ensures
        agrees(
            r,
            if has_lookup(format) {
                Ok(embeds_ops(*c, format, tokens@, tokens@.len()))
            } else {
                Err(ForwardError::EmbedFormat)
            },
        ),
{
    let n: usize = tokens.len();
    let mut ops: Vec<GemmaOp> = Vec::new();
    let mut t: usize = 0;
    while t < n
        invariant
            t <= n == tokens@.len() <= 128,
            c.batch_fits(),
            t > 0 ==> has_lookup(format),
            ops@ == embeds_ops(*c, format, tokens@, t as nat),
        decreases n - t,
    {
        proof {
            lemma_sizes(*c);
            lemma_at_most(t as int, 4 * c.dim);
        }
        let mut one: Vec<GemmaOp> = match embed(c, format, tokens[t]) {
            Ok(v) => v,
            Err(e) => return Err(e),
        };
        extend(
            &mut one,
            vec![
                Op::Copy {
                    dst: Gemma4Buf::PbResidual,
                    dst_off: t * (4 * c.dim),
                    src: Gemma4Buf::X,
                    src_off: 0,
                    bytes: 4 * c.dim,
                },
            ],
        );
        extend(&mut ops, one);
        assert(ops@ =~= embeds_ops(*c, format, tokens@, (t + 1) as nat));
        t = t + 1;
    }
    Ok(ops)
}

/// The first `m` layers on a batch, or the first error.
pub open spec fn batch_layers_ops(
    c: Gemma4Config,
    layers: Seq<LayerWeights>,
    start: usize,
    n: usize,
    kv: Caches,
    flags: Flags,
    m: nat,
) -> Result<Seq<GemmaOp>, ForwardError>
    decreases m,
{
    if m == 0 {
        Ok(Seq::empty())
    } else {
        chained(
            batch_layers_ops(c, layers, start, n, kv, flags, (m - 1) as nat),
            batch_layer_ops(c, layers[m - 1], (m - 1) as usize, start, n, kv, flags),
        )
    }
}

proof fn lemma_batch_error_stays(
    c: Gemma4Config,
    layers: Seq<LayerWeights>,
    start: usize,
    n: usize,
    kv: Caches,
    flags: Flags,
    m: nat,
    more: nat,
)
    requires
        m <= more,
        batch_layers_ops(c, layers, start, n, kv, flags, m) is Err,
    ensures
        batch_layers_ops(c, layers, start, n, kv, flags, more) == batch_layers_ops(
            c,
            layers,
            start,
            n,
            kv,
            flags,
            m,
        ),
    decreases more,
{
    if m < more {
        lemma_batch_error_stays(c, layers, start, n, kv, flags, m, (more - 1) as nat);
    }
}

/// A batch through the layers, projections and experts for all tokens at once.
pub open spec fn prefill_ops(
    c: Gemma4Config,
    w: Gemma4Weights,
    tokens: Seq<u32>,
    start: usize,
    kv: Caches,
    flags: Flags,
) -> Result<Seq<GemmaOp>, ForwardError> {
    let n = tokens.len() as usize;
    if tokens.len() == 0 {
        Ok(Seq::empty())
    } else if tokens.len() > MAX_PREFILL_BATCH {
        Err(ForwardError::TooLong { n, most: MAX_PREFILL_BATCH })
    } else if !has_lookup(w.embd_format) {
        Err(ForwardError::EmbedFormat)
    } else {
        chained(
            Ok(
                seq![
                    Op::<Gemma4Buf, Gemma4Wt>::SetPositions {
                        buf: Gemma4Buf::PbPositions,
                        start,
                        n,
                    },
                ] + embeds_ops(c, w.embd_format, tokens, tokens.len()),
            ),
            batch_layers_ops(c, w.layers@, start, n, kv, flags, c.layer_types@.len()),
        )
    }
}

/// Every cache that a layer needs has the tables for rotated keys.
pub open spec fn tables_ready(c: Gemma4Config, kv: Caches) -> bool {
    forall|i: int|
        0 <= i < c.layer_types@.len() ==> if #[trigger] c.layer_types@[i] == LayerType::Sliding {
            kv.sliding.has_givens
        } else {
            kv.full.has_givens
        }
}

/// A batch of tokens through the layers: both caches get every token, and no logits
/// are computed.
pub fn forward_prefill_batch(
    c: &Gemma4Config,
    w: &Gemma4Weights,
    tokens: &[u32],
    start: usize,
    kv: &Caches,
    flags: &Flags,
    scratch: &Gemma4Scratch,
) -> (r: Result<Vec<GemmaOp>, ForwardError>)
    requires
        c.batch_fits(),
        scratch.max_prefill_batch == MAX_PREFILL_BATCH,
        start + tokens@.len() <= usize::MAX,
        w.layers@.len() >= c.layer_types@.len(),
        0 < tokens@.len() <= MAX_PREFILL_BATCH ==> tables_ready(*c, *kv),
    ensures
        agrees(r, prefill_ops(*c, *w, tokens@, start, *kv, *flags)),
{
    let n: usize = tokens.len();
    if n == 0 {
        let none: Vec<GemmaOp> = Vec::new();
        assert(none@ =~= Seq::<GemmaOp>::empty());
        return Ok(none);
    }
    if n > scratch.max_prefill_batch {
        return Err(ForwardError::TooLong { n, most: scratch.max_prefill_batch });
    }
    let mut ops: Vec<GemmaOp> = vec![Op::SetPositions { buf: Gemma4Buf::PbPositions, start, n }];
    match embeds(c, w.embd_format, tokens) {
        Ok(more) => extend(&mut ops, more),
        Err(e) => return Err(e),
    }
    let ghost head = ops@;
    assert(head =~= seq![
        Op::<Gemma4Buf, Gemma4Wt>::SetPositions { buf: Gemma4Buf::PbPositions, start, n },
    ] + embeds_ops(*c, w.embd_format, tokens@, tokens@.len()));
    match batch_layers(c, w, start, n, kv, flags) {
        Ok(more) => extend(&mut ops, more),
        Err(e) => return Err(e),
    }
    Ok(ops)
}

fn batch_layers(
    c: &Gemma4Config,
    w: &Gemma4Weights,
    start: usize,
    n: usize,
    kv: &Caches,
    flags: &Flags,
) -> (r: Result<Vec<GemmaOp>, ForwardError>)
    requires
        c.batch_fits(),
        n <= 128,
        start + n <= usize::MAX,
        w.layers@.len() >= c.layer_types@.len(),
    ensures
        agrees(
            r,
            batch_layers_ops(*c, w.layers@, start, n, *kv, *flags, c.layer_types@.len()),
        ),
{
    let mut ops: Vec<GemmaOp> = Vec::new();
    assert(ops@ =~= Seq::<GemmaOp>::empty());
    let mut sliding: usize = 0;
    let mut full: usize = 0;
    let m: usize = c.layer_types.len();
    let mut i: usize = 0;
    while i < m
        invariant
            i <= m == c.layer_types@.len(),
            c.batch_fits(),
            n <= 128,
            start + n <= usize::MAX,
            w.layers@.len() >= m,
            sliding <= i,
            full <= i,
            sliding == count_kind(c.layer_types@, LayerType::Sliding, i as nat),
            full == count_kind(c.layer_types@, LayerType::Full, i as nat),
            batch_layers_ops(*c, w.layers@, start, n, *kv, *flags, i as nat) == Ok::<
                Seq<GemmaOp>,
                ForwardError,
            >(ops@),
        decreases m - i,
    {
        let slides: bool = kind_is(c.layer_types[i], LayerType::Sliding);
        let s: usize = if slides {
            sliding
        } else {
            full
        };
        let ghost upto = batch_layers_ops(
            *c,
            w.layers@,
            start,
            n,
            *kv,
            *flags,
            (i + 1) as nat,
        );
        match batch_layer(c, &w.layers[i], i, s, start, n, kv, flags) {
            Ok(more) => {
                extend(&mut ops, more);
            },
            Err(e) => {
                assert(upto == Err::<Seq<GemmaOp>, ForwardError>(e));
                proof {
                    lemma_batch_error_stays(
                        *c,
                        w.layers@,
                        start,
                        n,
                        *kv,
                        *flags,
                        (i + 1) as nat,
                        m as nat,
                    );
                }
                return Err(e);
            },
        }
        if slides {
            sliding = sliding + 1;
        } else {
            full = full + 1;
        }
        i = i + 1;
    }
    Ok(ops)
}

// The same batch, token by token up to the experts.

/// Token `t` of a batch becomes the current token.
pub open spec fn load_row_ops(c: Gemma4Config, start: usize, t: usize) -> Seq<GemmaOp> {
    let d4 = (4 * c.dim) as usize;
    let at = (t * (4 * c.dim)) as usize;
    seq![
        Op::SetPos { buf: Gemma4Buf::Pos, pos: (start + t) as usize },
        Op::Copy {
            dst: Gemma4Buf::X,
            dst_off: 0,
            src: Gemma4Buf::PbResidual,
            src_off: at,
            bytes: d4,
        },
    ]
}

fn load_row(c: &Gemma4Config, start: usize, t: usize) -> (ops: Vec<GemmaOp>)
    requires
        c.batch_fits(),
        t < 128,
        start + t <= usize::MAX,
    ensures
        ops@ == load_row_ops(*c, start, t),
{
    proof {
        lemma_sizes(*c);
        lemma_at_most(t as int, 4 * c.dim);
    }
    let d4: usize = 4 * c.dim;
    let at: usize = t * (4 * c.dim);
    vec![
        Op::SetPos { buf: Gemma4Buf::Pos, pos: start + t },
        Op::Copy {
            dst: Gemma4Buf::X,
            dst_off: 0,
            src: Gemma4Buf::PbResidual,
            src_off: at,
            bytes: d4,
        },
    ]
}

/// The current token goes back to its place in the batch.
pub open spec fn store_row_ops(c: Gemma4Config, t: usize) -> Seq<GemmaOp> {
    let d4 = (4 * c.dim) as usize;
    let at = (t * (4 * c.dim)) as usize;
    seq![
        Op::Copy {
            dst: Gemma4Buf::PbAttnOut,
            dst_off: at,
            src: Gemma4Buf::Residual,
            src_off: 0,
            bytes: d4,
        },
        Op::Copy {
            dst: Gemma4Buf::PbFfnOut,
            dst_off: at,
            src: Gemma4Buf::FfnOut,
            src_off: 0,
            bytes: d4,
        },
        Op::Copy {
            dst: Gemma4Buf::PbResidual,
            dst_off: at,
            src: Gemma4Buf::Residual,
            src_off: 0,
            bytes: d4,
        },
    ]
}

fn store_row(c: &Gemma4Config, t: usize) -> (ops: Vec<GemmaOp>)
    requires
        c.batch_fits(),
        t < 128,
    ensures
        ops@ == store_row_ops(*c, t),
{
    proof {
        lemma_sizes(*c);
        lemma_at_most(t as int, 4 * c.dim);
    }
    let d4: usize = 4 * c.dim;
    let at: usize = t * (4 * c.dim);
    vec![
        Op::Copy {
            dst: Gemma4Buf::PbAttnOut,
            dst_off: at,
            src: Gemma4Buf::Residual,
            src_off: 0,
            bytes: d4,
        },
        Op::Copy {
            dst: Gemma4Buf::PbFfnOut,
            dst_off: at,
            src: Gemma4Buf::FfnOut,
            src_off: 0,
            bytes: d4,
        },
        Op::Copy {
            dst: Gemma4Buf::PbResidual,
            dst_off: at,
            src: Gemma4Buf::Residual,
            src_off: 0,
            bytes: d4,
        },
    ]
}

/// The end of a layer without experts, on token `t` of a batch.
pub open spec fn dense_row_ops(
    c: Gemma4Config,
    w: LayerCommon,
    i: usize,
    t: usize,
) -> Seq<GemmaOp> {
    let d4 = (4 * c.dim) as usize;
    let at = (t * (4 * c.dim)) as usize;
    seq![
        Op::Copy {
            dst: Gemma4Buf::X,
            dst_off: 0,
            src: Gemma4Buf::PbResidual,
            src_off: at,
            bytes: d4,
        },
        Op::Copy {
            dst: Gemma4Buf::Residual,
            dst_off: 0,
            src: Gemma4Buf::PbResidual,
            src_off: at,
            bytes: d4,
        },
        Op::Copy {
            dst: Gemma4Buf::FfnOut,
            dst_off: 0,
            src: Gemma4Buf::PbFfnOut,
            src_off: at,
            bytes: d4,
        },
        Op::RmsNorm {
            x: Gemma4Buf::FfnOut,
            w: Gemma4Wt::Layer(i, LayerPart::PostFfnNorm),
            out: Gemma4Buf::Tmp,
            eps: c.norm_eps,
        },
        Op::Copy { dst: Gemma4Buf::X, dst_off: 0, src: Gemma4Buf::Residual, src_off: 0, bytes: d4 },
        Op::AddTo { x: Gemma4Buf::X, y: Gemma4Buf::Tmp },
        Op::Scale { x: Gemma4Buf::X, by: w.layer_scalar_host },
        Op::Copy {
            dst: Gemma4Buf::PbResidual,
            dst_off: at,
            src: Gemma4Buf::X,
            src_off: 0,
            bytes: d4,
        },
    ]
}

fn dense_row(c: &Gemma4Config, w: &LayerCommon, i: usize, t: usize) -> (ops: Vec<GemmaOp>)
    requires
        c.batch_fits(),
        t < 128,
    ensures
        ops@ == dense_row_ops(*c, *w, i, t),
{
    proof {
        lemma_sizes(*c);
        lemma_at_most(t as int, 4 * c.dim);
    }
    let d4: usize = 4 * c.dim;
    let at: usize = t * (4 * c.dim);
    vec![
        Op::Copy {
            dst: Gemma4Buf::X,
            dst_off: 0,
            src: Gemma4Buf::PbResidual,
            src_off: at,
            bytes: d4,
        },
        Op::Copy {
            dst: Gemma4Buf::Residual,
            dst_off: 0,
            src: Gemma4Buf::PbResidual,
            src_off: at,
            bytes: d4,
        },
        Op::Copy {
            dst: Gemma4Buf::FfnOut,
            dst_off: 0,
            src: Gemma4Buf::PbFfnOut,
            src_off: at,
            bytes: d4,
        },
        Op::RmsNorm {
            x: Gemma4Buf::FfnOut,
            w: Gemma4Wt::Layer(i, LayerPart::PostFfnNorm),
            out: Gemma4Buf::Tmp,
            eps: c.norm_eps,
        },
        Op::Copy { dst: Gemma4Buf::X, dst_off: 0, src: Gemma4Buf::Residual, src_off: 0, bytes: d4 },
        Op::AddTo { x: Gemma4Buf::X, y: Gemma4Buf::Tmp },
        Op::Scale { x: Gemma4Buf::X, by: w.layer_scalar_host },
        Op::Copy {
            dst: Gemma4Buf::PbResidual,
            dst_off: at,
            src: Gemma4Buf::X,
            src_off: 0,
            bytes: d4,
        },
    ]
}

/// Layer `i` on the first `n` tokens of a batch, up to their feed-forward results.
pub open spec fn stepwise_ops(
    c: Gemma4Config,
    w: LayerWeights,
    i: usize,
    start: usize,
    kv: Caches,
    n: nat,
) -> Result<Seq<GemmaOp>, ForwardError>
    decreases n,
{
    if n == 0 {
        Ok(Seq::empty())
    } else {
        let t = (n - 1) as usize;
        chained(
            stepwise_ops(c, w, i, start, kv, (n - 1) as nat),
            chained(
                chained(
                    Ok(load_row_ops(c, start, t)),
                    layer_ops(c, w, i, (start + t) as usize, kv, true, false),
                ),
                Ok(store_row_ops(c, t)),
            ),
        )
    }
}

/// The end of a layer without experts, on the first `n` tokens of a batch.
pub open spec fn dense_rows_ops(c: Gemma4Config, w: LayerCommon, i: usize, n: nat) -> Seq<GemmaOp>
    decreases n,
{
    if n == 0 {
        Seq::empty()
    } else {
        dense_rows_ops(c, w, i, (n - 1) as nat) + dense_row_ops(c, w, i, (n - 1) as usize)
    }
}

/// Layer `i` on a batch, token by token up to the experts.
pub open spec fn stepwise_layer_ops(
    c: Gemma4Config,
    w: LayerWeights,
    i: usize,
    start: usize,
    n: usize,
    kv: Caches,
    bucketed: bool,
) -> Result<Seq<GemmaOp>, ForwardError> {
    chained(
        stepwise_ops(c, w, i, start, kv, n as nat),
        match common_of(w).moe {
            Some(m) => chained(
                batch_moe_ops(c, m, i, n, bucketed),
                Ok(batch_finish_ops(common_of(w))),
            ),
            None => Ok(dense_rows_ops(c, common_of(w), i, n as nat)),
        },
    )
}

/// The first `m` layers on a batch, token by token up to the experts.
pub open spec fn stepwise_layers_ops(
    c: Gemma4Config,
    layers: Seq<LayerWeights>,
    start: usize,
    n: usize,
    kv: Caches,
    bucketed: bool,
    m: nat,
) -> Result<Seq<GemmaOp>, ForwardError>
    decreases m,
{
    if m == 0 {
        Ok(Seq::empty())
    } else {
        chained(
            stepwise_layers_ops(c, layers, start, n, kv, bucketed, (m - 1) as nat),
            stepwise_layer_ops(c, layers[m - 1], (m - 1) as usize, start, n, kv, bucketed),
        )
    }
}

/// A batch through the layers, token by token up to the experts.
pub open spec fn stepwise_prefill_ops(
    c: Gemma4Config,
    w: Gemma4Weights,
    tokens: Seq<u32>,
    start: usize,
    kv: Caches,
    bucketed: bool,
) -> Result<Seq<GemmaOp>, ForwardError> {
    let n = tokens.len() as usize;
    if tokens.len() == 0 {
        Ok(Seq::empty())
    } else if tokens.len() > MAX_PREFILL_BATCH {
        Err(ForwardError::TooLong { n, most: MAX_PREFILL_BATCH })
    } else if !has_lookup(w.embd_format) {
        Err(ForwardError::EmbedFormat)
    } else {
        chained(
            Ok(embeds_ops(c, w.embd_format, tokens, tokens.len())),
            stepwise_layers_ops(c, w.layers@, start, n, kv, bucketed, c.layer_types@.len()),
        )
    }
}

fn one_step(
    c: &Gemma4Config,
    w: &LayerWeights,
    i: usize,
    s: usize,
    start: usize,
    t: usize,
    kv: &Caches,
) -> (r: Result<Vec<GemmaOp>, ForwardError>)
    requires
        c.batch_fits(),
        t < 128,
        start + t < usize::MAX,
        i < c.layer_types@.len(),
        s == count_kind(c.layer_types@, c.layer_types@[i as int], i as nat),
    ensures
        agrees(
            r,
            chained(
                chained(
                    Ok(load_row_ops(*c, start, t)),
                    layer_ops(*c, *w, i, (start + t) as usize, *kv, true, false),
                ),
                Ok(store_row_ops(*c, t)),
            ),
        ),
{
    let mut ops: Vec<GemmaOp> = load_row(c, start, t);
    match layer(c, w, i, s, start + t, kv, true, false) {
        Ok(more) => extend(&mut ops, more),
        Err(e) => return Err(e),
    }
    extend(&mut ops, store_row(c, t));
    Ok(ops)
}

proof fn lemma_step_error_stays(
    c: Gemma4Config,
    w: LayerWeights,
    i: usize,
    start: usize,
    kv: Caches,
    n: nat,
    more: nat,
)
    requires
        n <= more,
        stepwise_ops(c, w, i, start, kv, n) is Err,
    ensures
        stepwise_ops(c, w, i, start, kv, more) == stepwise_ops(c, w, i, start, kv, n),
    decreases more,
{
    if n < more {
        lemma_step_error_stays(c, w, i, start, kv, n, (more - 1) as nat);
    }
}

fn stepwise(
    c: &Gemma4Config,
    w: &LayerWeights,
    i: usize,
    s: usize,
    start: usize,
    n: usize,
    kv: &Caches,
) -> (r: Result<Vec<GemmaOp>, ForwardError>)
    requires
        c.batch_fits(),
        n <= 128,
        start + n <= usize::MAX,
        i < c.layer_types@.len(),
        s == count_kind(c.layer_types@, c.layer_types@[i as int], i as nat),
    ensures
        agrees(r, stepwise_ops(*c, *w, i, start, *kv, n as nat)),
{
    let mut ops: Vec<GemmaOp> = Vec::new();
    assert(ops@ =~= Seq::<GemmaOp>::empty());
    let mut t: usize = 0;
    while t < n
        invariant
            t <= n <= 128,
            c.batch_fits(),
            start + n <= usize::MAX,
            i < c.layer_types@.len(),
            s == count_kind(c.layer_types@, c.layer_types@[i as int], i as nat),
            stepwise_ops(*c, *w, i, start, *kv, t as nat) == Ok::<Seq<GemmaOp>, ForwardError>(ops@),
        decreases n - t,
    {
        let ghost upto = stepwise_ops(*c, *w, i, start, *kv, (t + 1) as nat);
        match one_step(c, w, i, s, start, t, kv) {
            Ok(more) => extend(&mut ops, more),
            Err(e) => {
                assert(upto == Err::<Seq<GemmaOp>, ForwardError>(e));
                proof {
                    lemma_step_error_stays(*c, *w, i, start, *kv, (t + 1) as nat, n as nat);
                }
                return Err(e);
            },
        }
        t = t + 1;
    }
    Ok(ops)
}

fn dense_rows(c: &Gemma4Config, w: &LayerCommon, i: usize, n: usize) -> (ops: Vec<GemmaOp>)
    requires
        c.batch_fits(),
        n <= 128,
    ensures
        ops@ == dense_rows_ops(*c, *w, i, n as nat),
{
    let mut ops: Vec<GemmaOp> = Vec::new();
    let mut t: usize = 0;
    while t < n
        invariant
            t <= n <= 128,
            c.batch_fits(),
            ops@ == dense_rows_ops(*c, *w, i, t as nat),
        decreases n - t,
    {
        extend(&mut ops, dense_row(c, w, i, t));
        t = t + 1;
    }
    ops
}

fn stepwise_layer(
    c: &Gemma4Config,
    w: &LayerWeights,
    i: usize,
    s: usize,
    start: usize,
    n: usize,
    kv: &Caches,
    bucketed: bool,
) -> (r: Result<Vec<GemmaOp>, ForwardError>)
    requires
        c.batch_fits(),
        n <= 128,
        start + n <= usize::MAX,
        i < c.layer_types@.len(),
        s == count_kind(c.layer_types@, c.layer_types@[i as int], i as nat),
    ensures
        agrees(r, stepwise_layer_ops(*c, *w, i, start, n, *kv, bucketed)),
{
    let mut ops: Vec<GemmaOp> = match stepwise(c, w, i, s, start, n, kv) {
        Ok(v) => v,
        Err(e) => return Err(e),
    };
    match &common(w).moe {
        Some(m) => {
            let mut end: Vec<GemmaOp> = match apply_moe_branch_batched(c, m, i, n, bucketed) {
                Ok(v) => v,
                Err(e) => return Err(e),
            };
            extend(&mut end, batch_finish(common(w)));
            extend(&mut ops, end);
        },
        None => extend(&mut ops, dense_rows(c, common(w), i, n)),
    }
    Ok(ops)
}

proof fn lemma_stepwise_error_stays(
    c: Gemma4Config,
    layers: Seq<LayerWeights>,
    start: usize,
    n: usize,
    kv: Caches,
    bucketed: bool,
    m: nat,
    more: nat,
)
    requires
        m <= more,
        stepwise_layers_ops(c, layers, start, n, kv, bucketed, m) is Err,
    ensures
        stepwise_layers_ops(c, layers, start, n, kv, bucketed, more) == stepwise_layers_ops(
            c,
            layers,
            start,
            n,
            kv,
            bucketed,
            m,
        ),
    decreases more,
{
    if m < more {
        lemma_stepwise_error_stays(c, layers, start, n, kv, bucketed, m, (more - 1) as nat);
    }
}

/// Like [`forward_prefill_batch`], but attention and projections go token by token
/// and only the experts take the whole batch.
pub fn forward_prefill_batch_v1(
    c: &Gemma4Config,
    w: &Gemma4Weights,
    tokens: &[u32],
    start: usize,
    kv: &Caches,
    bucketed: bool,
    scratch: &Gemma4Scratch,
) -> (r: Result<Vec<GemmaOp>, ForwardError>)
    requires
        c.batch_fits(),
        scratch.max_prefill_batch == MAX_PREFILL_BATCH,
        start + tokens@.len() <= usize::MAX,
        w.layers@.len() >= c.layer_types@.len(),
        kv.sliding.wf(),
        kv.full.wf(),
    ensures
        agrees(r, stepwise_prefill_ops(*c, *w, tokens@, start, *kv, bucketed)),
{
    let n: usize = tokens.len();
    if n == 0 {
        let none: Vec<GemmaOp> = Vec::new();
        assert(none@ =~= Seq::<GemmaOp>::empty());
        return Ok(none);
    }
    if n > scratch.max_prefill_batch {
        return Err(ForwardError::TooLong { n, most: scratch.max_prefill_batch });
    }
    let mut ops: Vec<GemmaOp> = match embeds(c, w.embd_format, tokens) {
        Ok(v) => v,
        Err(e) => return Err(e),
    };
    match stepwise_layers(c, w, start, n, kv, bucketed) {
        Ok(more) => extend(&mut ops, more),
        Err(e) => return Err(e),
    }
    Ok(ops)
}

fn stepwise_layers(
    c: &Gemma4Config,
    w: &Gemma4Weights,
    start: usize,
    n: usize,
    kv: &Caches,
    bucketed: bool,
) -> (r: Result<Vec<GemmaOp>, ForwardError>)
    requires
        c.batch_fits(),
        n <= 128,
        start + n <= usize::MAX,
        w.layers@.len() >= c.layer_types@.len(),
    ensures
        agrees(
            r,
            stepwise_layers_ops(*c, w.layers@, start, n, *kv, bucketed, c.layer_types@.len()),
        ),
{
    let mut ops: Vec<GemmaOp> = Vec::new();
    assert(ops@ =~= Seq::<GemmaOp>::empty());
    let mut sliding: usize = 0;
    let mut full: usize = 0;
    let m: usize = c.layer_types.len();
    let mut i: usize = 0;
    while i < m
        invariant
            i <= m == c.layer_types@.len(),
            c.batch_fits(),
            n <= 128,
            start + n <= usize::MAX,
            w.layers@.len() >= m,
            sliding <= i,
            full <= i,
            sliding == count_kind(c.layer_types@, LayerType::Sliding, i as nat),
            full == count_kind(c.layer_types@, LayerType::Full, i as nat),
            stepwise_layers_ops(*c, w.layers@, start, n, *kv, bucketed, i as nat) == Ok::<
                Seq<GemmaOp>,
                ForwardError,
            >(ops@),
        decreases m - i,
    {
        let slides: bool = kind_is(c.layer_types[i], LayerType::Sliding);
        let s: usize = if slides {
            sliding
        } else {
            full
        };
        let ghost upto = stepwise_layers_ops(
            *c,
            w.layers@,
            start,
            n,
            *kv,
            bucketed,
            (i + 1) as nat,
        );
        match stepwise_layer(c, &w.layers[i], i, s, start, n, kv, bucketed) {
            Ok(more) => {
                extend(&mut ops, more);
            },
            Err(e) => {
                assert(upto == Err::<Seq<GemmaOp>, ForwardError>(e));
                proof {
                    lemma_stepwise_error_stays(
                        *c,
                        w.layers@,
                        start,
                        n,
                        *kv,
                        bucketed,
                        (i + 1) as nat,
                        m as nat,
                    );
                }
                return Err(e);
            },
        }
        if slides {
            sliding = sliding + 1;
        } else {
            full = full + 1;
        }
        i = i + 1;
    }
    Ok(ops)
}

// Staying inside the buffers.

/// Bytes of each buffer.
pub open spec fn buf_bytes(c: Gemma4Config, s: Gemma4Scratch) -> spec_fn(Gemma4Buf) -> int {
    |buf: Gemma4Buf| 4 * buf_elems(c, s.kv_seq as int, buf)
}

pub open spec fn sized_as(info: WeightInfo, m: int, k: int) -> bool {
    info.m == m && info.k == k
}

/// Experts of the sizes that the configuration gives.
pub open spec fn moe_shaped(m: MoeLayerExtras, c: Gemma4Config) -> bool {
    &&& sized_as(m.router_proj, c.num_experts as int, c.dim as int)
    &&& sized_as(m.gate_up, 2 * c.moe_intermediate_size, c.dim as int)
    &&& sized_as(m.down, c.dim as int, c.moe_intermediate_size as int)
}

/// A layer of the sizes that the configuration gives for its kind.
pub open spec fn common_shaped(w: LayerCommon, c: Gemma4Config, kind: LayerType) -> bool {
    &&& sized_as(w.q_proj, c.q_dim(kind), c.dim as int)
    &&& sized_as(w.k_proj, c.kv_dim(kind), c.dim as int)
    &&& sized_as(w.o_proj, c.dim as int, c.q_dim(kind))
    &&& sized_as(w.gate_proj, c.hidden_dim as int, c.dim as int)
    &&& sized_as(w.up_proj, c.hidden_dim as int, c.dim as int)
    &&& sized_as(w.down_proj, c.dim as int, c.hidden_dim as int)
    &&& match w.moe {
        Some(m) => moe_shaped(m, c),
        None => true,
    }
}

/// A layer of the sizes that the configuration gives.
pub open spec fn layer_shaped(w: LayerWeights, c: Gemma4Config) -> bool {
    match w {
        LayerWeights::Sliding(l) => common_shaped(l.common, c, LayerType::Sliding) && sized_as(
            l.v_proj,
            c.kv_dim(LayerType::Sliding),
            c.dim as int,
        ),
        LayerWeights::Full(l) => common_shaped(l.common, c, LayerType::Full),
    }
}

/// Weights of the sizes that the configuration gives.
pub open spec fn shaped(w: Gemma4Weights, c: Gemma4Config) -> bool {
    &&& sized_as(w.lm_head, c.vocab_size as int, c.dim as int)
    &&& forall|i: int| 0 <= i < w.layers@.len() ==> layer_shaped(#[trigger] w.layers@[i], c)
}

/// An operation that stays inside the buffers and leaves the logits alone.
#[verifier::opaque]
pub open spec fn sound(op: GemmaOp, c: Gemma4Config, s: Gemma4Scratch) -> bool {
    crate::device::in_bounds(op, buf_bytes(c, s)) && !crate::device::touches(op, Gemma4Buf::Logits)
}

/// Operations that stay inside the buffers and leave the logits alone.
pub open spec fn keeps(ops: Seq<GemmaOp>, c: Gemma4Config, s: Gemma4Scratch) -> bool {
    forall|i: int| 0 <= i < ops.len() ==> sound(#[trigger] ops[i], c, s)
}

proof fn lemma_sound(op: GemmaOp, c: Gemma4Config, s: Gemma4Scratch)
    requires
        crate::device::in_bounds(op, buf_bytes(c, s)),
        !crate::device::touches(op, Gemma4Buf::Logits),
    ensures
        sound(op, c, s),
{
    reveal(sound);
}

proof fn lemma_keeps(ops: Seq<GemmaOp>, c: Gemma4Config, s: Gemma4Scratch)
    ensures
        keeps(ops, c, s) == crate::device::confined(ops, buf_bytes(c, s), Gemma4Buf::Logits),
{
    let size = buf_bytes(c, s);
    if keeps(ops, c, s) {
        assert forall|i: int| 0 <= i < ops.len() implies crate::device::in_bounds(
            #[trigger] ops[i],
            size,
        ) && !crate::device::touches(ops[i], Gemma4Buf::Logits) by {
            assert(sound(ops[i], c, s));
            reveal(sound);
        }
    }
    if crate::device::confined(ops, size, Gemma4Buf::Logits) {
        assert forall|i: int| 0 <= i < ops.len() implies sound(#[trigger] ops[i], c, s) by {
            assert(crate::device::in_bounds(ops[i], size) && !crate::device::touches(
                ops[i],
                Gemma4Buf::Logits,
            ));
            reveal(sound);
        }
    }
}

/// The same of a plan, where there is one.
pub open spec fn plan_keeps(
    plan: Result<Seq<GemmaOp>, ForwardError>,
    c: Gemma4Config,
    s: Gemma4Scratch,
) -> bool {
    plan matches Ok(ops) ==> keeps(ops, c, s)
}

proof fn lemma_chained(
    a: Result<Seq<GemmaOp>, ForwardError>,
    b: Result<Seq<GemmaOp>, ForwardError>,
    c: Gemma4Config,
    s: Gemma4Scratch,
)
    requires
        plan_keeps(a, c, s),
        plan_keeps(b, c, s),
    ensures
        plan_keeps(chained(a, b), c, s),
{
    match (a, b) {
        (Ok(x), Ok(y)) => {
            lemma_concat(x, y, c, s);
        },
        _ => {},
    }
}

proof fn lemma_nothing(c: Gemma4Config, s: Gemma4Scratch)
    ensures
        keeps(Seq::empty(), c, s),
{
}

proof fn lemma_concat(a: Seq<GemmaOp>, b: Seq<GemmaOp>, c: Gemma4Config, s: Gemma4Scratch)
    requires
        keeps(a, c, s),
        keeps(b, c, s),
    ensures
        keeps(a + b, c, s),
{
    assert forall|i: int| 0 <= i < (a + b).len() implies sound(#[trigger] (a + b)[i], c, s) by {
        if i < a.len() {
            assert((a + b)[i] == a[i]);
        } else {
            assert((a + b)[i] == b[i - a.len()]);
        }
    }
}

/// What the rows of a batch take, in the forms in which operations say it.
proof fn lemma_row_sizes(c: Gemma4Config, n: int)
    requires
        c.batch_fits(),
        0 <= n <= 128,
    ensures
        n * c.n_heads * c.sliding_head_dim <= 128 * c.widest_q(),
        n * c.n_heads * c.full_head_dim <= 128 * c.widest_q(),
        n * c.sliding_n_kv_heads * c.sliding_head_dim <= 128 * c.widest_kv(),
        n * c.full_n_kv_heads * c.full_head_dim <= 128 * c.widest_kv(),
        c.q_dim(LayerType::Sliding) * n <= 128 * c.widest_q(),
        c.q_dim(LayerType::Full) * n <= 128 * c.widest_q(),
        c.kv_dim(LayerType::Sliding) * n <= 128 * c.widest_kv(),
        c.kv_dim(LayerType::Full) * n <= 128 * c.widest_kv(),
        n * c.kv_dim(LayerType::Full) <= 128 * c.widest_kv(),
        n * c.kv_dim(LayerType::Sliding) <= 128 * c.widest_kv(),
        c.dim * n <= 128 * c.dim,
        n * c.dim <= 128 * c.dim,
        c.hidden_dim * n <= 128 * c.hidden_dim,
        n * c.hidden_dim <= 128 * c.hidden_dim,
        c.num_experts * n <= 128 * c.ne(),
        n * c.num_experts <= 128 * c.ne(),
{
    lemma_sizes(c);
    assert(c.q_dim(LayerType::Sliding) >= 0 && c.q_dim(LayerType::Full) >= 0);
    assert(c.kv_dim(LayerType::Sliding) >= 0 && c.kv_dim(LayerType::Full) >= 0);
    lemma_product(n, c.n_heads as int, c.sliding_head_dim as int);
    lemma_product(n, c.n_heads as int, c.full_head_dim as int);
    lemma_product(n, c.sliding_n_kv_heads as int, c.sliding_head_dim as int);
    lemma_product(n, c.full_n_kv_heads as int, c.full_head_dim as int);
    lemma_product(n, 1, c.dim as int);
    lemma_product(n, 1, c.hidden_dim as int);
    lemma_product(n, 1, c.num_experts as int);
}

proof fn lemma_one(n: int, x: int)
    requires
        n == 1,
    ensures
        n * x == x,
        x * n == x,
{
    assert(n * x == x && x * n == x) by (nonlinear_arith)
        requires
            n == 1,
    ;
}

/// What eight experts per token take.
proof fn lemma_eight(n: int, top: int, m: int, m2: int)
    requires
        0 <= n <= 128,
        top == 8,
        0 <= m,
        m2 == 2 * m,
    ensures
        n * top == 8 * n,
        n * top * m == 8 * (n * m),
        n * top * m2 == 16 * (n * m),
        0 <= n * m <= 128 * m,
        top * m == 8 * m,
{
    lemma_at_most(n, m);
    assert(n * top == 8 * n) by (nonlinear_arith)
        requires
            top == 8,
    ;
    assert(n * top * m == 8 * (n * m) && top * m == 8 * m) by (nonlinear_arith)
        requires
            top == 8,
    ;
    assert(n * top * m2 == 16 * (n * m)) by (nonlinear_arith)
        requires
            top == 8,
            m2 == 2 * m,
    ;
}

/// The experts' buffers have room for eight experts per token.
pub open spec fn eight_room(c: Gemma4Config) -> bool {
    &&& c.top() * c.mi() == 8 * c.mi()
    &&& 4096 * c.mi() <= usize::MAX
    &&& 512 * c.dim <= usize::MAX
}

proof fn lemma_eight_fit(c: Gemma4Config)
    requires
        c.batch_fits(),
        c.top_k_experts == 8,
    ensures
        eight_room(c),
{
    lemma_sizes(c);
    let m = c.mi();
    lemma_eight(1, c.top(), m, 2 * m);
}

/// What the layers of a kind take of a token.
pub open spec fn token_room(c: Gemma4Config, kind: LayerType) -> bool {
    &&& 0 <= c.q_dim(kind) <= c.widest_q()
    &&& 0 <= c.kv_dim(kind) <= c.widest_kv()
    &&& c.q_dim(kind) == c.n_heads * head_dim(c, kind)
    &&& c.kv_dim(kind) == n_kv_heads(c, kind) * head_dim(c, kind)
    &&& c.n_heads * c.widest_head() == c.widest_q()
    &&& 512 * c.widest_q() <= usize::MAX
    &&& 512 * c.widest_kv() <= usize::MAX
    &&& 512 * c.dim <= usize::MAX
}

pub proof fn lemma_token_sizes(c: Gemma4Config, kind: LayerType)
    requires
        c.batch_fits(),
    ensures
        token_room(c, kind),
{
    lemma_sizes(c);
    assert(c.q_dim(LayerType::Sliding) >= 0 && c.q_dim(LayerType::Full) >= 0);
    assert(c.kv_dim(LayerType::Sliding) >= 0 && c.kv_dim(LayerType::Full) >= 0);
    assert(kind == LayerType::Sliding || kind == LayerType::Full);
}

/// What the layers of a kind take of a batch.
pub open spec fn kind_room(c: Gemma4Config, n: int, kind: LayerType) -> bool {
    &&& c.q_dim(kind) * n <= 128 * c.widest_q()
    &&& c.n_heads * c.widest_head() == c.widest_q()
    &&& c.kv_dim(kind) * n <= 128 * c.widest_kv()
    &&& n * c.kv_dim(kind) <= 128 * c.widest_kv()
    &&& 0 <= n * c.kv_dim(kind)
    &&& 4 * (n * c.kv_dim(kind)) <= usize::MAX
    &&& n * c.n_heads <= usize::MAX
    &&& n * n_kv_heads(c, kind) <= usize::MAX
    &&& n * c.n_heads * head_dim(c, kind) <= 128 * c.widest_q()
    &&& n * n_kv_heads(c, kind) * head_dim(c, kind) <= 128 * c.widest_kv()
    &&& 0 <= n * c.n_heads
    &&& 0 <= n * n_kv_heads(c, kind)
}

pub proof fn lemma_kind_sizes(c: Gemma4Config, n: int, kind: LayerType)
    requires
        c.batch_fits(),
        0 <= n <= 128,
    ensures
        kind_room(c, n, kind),
{
    lemma_row_sizes(c, n);
    lemma_batch_sizes(c, n);
    lemma_sizes(c);
    assert(kind == LayerType::Sliding || kind == LayerType::Full);
}

/// What hidden states and feed-forward results take of a batch.
pub open spec fn state_room(c: Gemma4Config, n: int) -> bool {
    &&& 0 <= n * c.dim <= 128 * c.dim
    &&& c.dim * n == n * c.dim
    &&& 0 <= n * c.hidden_dim <= 128 * c.hidden_dim
    &&& c.hidden_dim * n == n * c.hidden_dim
    &&& 512 * c.dim <= usize::MAX
    &&& 512 * c.hidden_dim <= usize::MAX
}

pub proof fn lemma_state_sizes(c: Gemma4Config, n: int)
    requires
        c.batch_fits(),
        0 <= n <= 128,
    ensures
        state_room(c, n),
{
    lemma_sizes(c);
    lemma_at_most(n, c.dim as int);
    lemma_at_most(n, c.hidden_dim as int);
    assert(c.dim * n == n * c.dim) by (nonlinear_arith);
    assert(c.hidden_dim * n == n * c.hidden_dim) by (nonlinear_arith);
}

proof fn lemma_product(n: int, a: int, b: int)
    requires
        0 <= n <= 128,
        0 <= a,
        0 <= b,
    ensures
        n * a * b == n * (a * b),
        (a * b) * n == n * (a * b),
        0 <= n * (a * b) <= 128 * (a * b),
{
    assert(0 <= a * b) by (nonlinear_arith)
        requires
            0 <= a,
            0 <= b,
    ;
    assert(n * a * b == n * (a * b)) by (nonlinear_arith);
    assert((a * b) * n == n * (a * b)) by (nonlinear_arith);
    lemma_at_most(n, a * b);
}

#[verifier::rlimit(40)]
proof fn lemma_sliding_in_keeps(c: Gemma4Config, s: Gemma4Scratch, w: SlidingLayerWeights, i: usize)
    requires
        token_room(c, LayerType::Sliding),
        layer_shaped(LayerWeights::Sliding(w), c),
    ensures
        keeps(sliding_in_ops(c, w, i), c, s),
{
    let ops = sliding_in_ops(c, w, i);
    assert(sound(ops[0], c, s)) by {
        lemma_sound(ops[0], c, s);
    }
    assert(sound(ops[1], c, s)) by {
        lemma_sound(ops[1], c, s);
    }
    assert(sound(ops[2], c, s)) by {
        lemma_sound(ops[2], c, s);
    }
    assert(sound(ops[3], c, s)) by {
        lemma_sound(ops[3], c, s);
    }
    assert(sound(ops[4], c, s)) by {
        lemma_sound(ops[4], c, s);
    }
    assert(sound(ops[5], c, s)) by {
        lemma_sound(ops[5], c, s);
    }
    assert(sound(ops[6], c, s)) by {
        lemma_sound(ops[6], c, s);
    }
    assert(sound(ops[7], c, s)) by {
        lemma_sound(ops[7], c, s);
    }
    assert(sound(ops[8], c, s)) by {
        lemma_sound(ops[8], c, s);
    }
    assert(sound(ops[9], c, s)) by {
        lemma_sound(ops[9], c, s);
    }
}

#[verifier::rlimit(40)]
proof fn lemma_full_in_keeps(c: Gemma4Config, s: Gemma4Scratch, w: FullLayerWeights, i: usize)
    requires
        token_room(c, LayerType::Full),
        layer_shaped(LayerWeights::Full(w), c),
    ensures
        keeps(full_in_ops(c, w, i), c, s),
{
    let ops = full_in_ops(c, w, i);
    assert(sound(ops[0], c, s)) by {
        lemma_sound(ops[0], c, s);
    }
    assert(sound(ops[1], c, s)) by {
        lemma_sound(ops[1], c, s);
    }
    assert(sound(ops[2], c, s)) by {
        lemma_sound(ops[2], c, s);
    }
    assert(sound(ops[3], c, s)) by {
        lemma_sound(ops[3], c, s);
    }
    assert(sound(ops[4], c, s)) by {
        lemma_sound(ops[4], c, s);
    }
    assert(sound(ops[5], c, s)) by {
        lemma_sound(ops[5], c, s);
    }
    assert(sound(ops[6], c, s)) by {
        lemma_sound(ops[6], c, s);
    }
    assert(sound(ops[7], c, s)) by {
        lemma_sound(ops[7], c, s);
    }
    assert(sound(ops[8], c, s)) by {
        lemma_sound(ops[8], c, s);
    }
    assert(sound(ops[9], c, s)) by {
        lemma_sound(ops[9], c, s);
    }
}

/// The write of a token to both sides of a cache.
pub open spec fn pair_op(
    c: Gemma4Config,
    kind: LayerType,
    form: KvForm,
    layer: usize,
    capacity: usize,
) -> GemmaOp {
    Op::KvStorePair {
        cache: cache_kind(kind),
        form,
        layer,
        k: Gemma4Buf::K,
        v: Gemma4Buf::V,
        heads: n_kv_heads(c, kind),
        dim: head_dim(c, kind),
        capacity,
    }
}

/// The write of a token to one side of a cache.
pub open spec fn side_op(
    c: Gemma4Config,
    kind: LayerType,
    form: KvForm,
    side: KvSide,
    layer: usize,
) -> GemmaOp {
    Op::KvStore {
        cache: cache_kind(kind),
        form,
        side,
        layer,
        src: if side == KvSide::Keys {
            Gemma4Buf::K
        } else {
            Gemma4Buf::V
        },
        heads: n_kv_heads(c, kind),
        dim: head_dim(c, kind),
    }
}

/// The attention of a token.
pub open spec fn token_attend_op(
    c: Gemma4Config,
    kind: LayerType,
    form: KvForm,
    layer: usize,
    pos: usize,
    max_seq: usize,
    window: usize,
    capacity: usize,
) -> GemmaOp {
    Op::Attend {
        cache: cache_kind(kind),
        form,
        layer,
        q: Gemma4Buf::Q,
        out: Gemma4Buf::AttnOut,
        seq_len: (pos + 1) as usize,
        heads: c.n_heads,
        kv_heads: n_kv_heads(c, kind),
        dim: head_dim(c, kind),
        max_seq,
        window,
        capacity,
    }
}

proof fn lemma_pair_sound(
    c: Gemma4Config,
    s: Gemma4Scratch,
    kind: LayerType,
    form: KvForm,
    layer: usize,
    capacity: usize,
)
    requires
        token_room(c, kind),
    ensures
        sound(pair_op(c, kind, form, layer, capacity), c, s),
{
    lemma_sound(pair_op(c, kind, form, layer, capacity), c, s);
}

proof fn lemma_side_sound(
    c: Gemma4Config,
    s: Gemma4Scratch,
    kind: LayerType,
    form: KvForm,
    side: KvSide,
    layer: usize,
)
    requires
        token_room(c, kind),
    ensures
        sound(side_op(c, kind, form, side, layer), c, s),
{
    lemma_sound(side_op(c, kind, form, side, layer), c, s);
}

proof fn lemma_token_attend_sound(
    c: Gemma4Config,
    s: Gemma4Scratch,
    kind: LayerType,
    form: KvForm,
    layer: usize,
    pos: usize,
    max_seq: usize,
    window: usize,
    capacity: usize,
)
    requires
        token_room(c, kind),
    ensures
        sound(token_attend_op(c, kind, form, layer, pos, max_seq, window, capacity), c, s),
{
    lemma_sound(token_attend_op(c, kind, form, layer, pos, max_seq, window, capacity), c, s);
}

/// Both sides at once, then attention.
proof fn lemma_pair_form_keeps(
    c: Gemma4Config,
    s: Gemma4Scratch,
    kind: LayerType,
    form: KvForm,
    layer: usize,
    pos: usize,
    max_seq: usize,
    window: usize,
    capacity: usize,
)
    requires
        token_room(c, kind),
    ensures
        keeps(
            seq![
                pair_op(c, kind, form, layer, capacity),
                token_attend_op(c, kind, form, layer, pos, max_seq, window, capacity),
            ],
            c,
            s,
        ),
{
    lemma_pair_sound(c, s, kind, form, layer, capacity);
    lemma_token_attend_sound(c, s, kind, form, layer, pos, max_seq, window, capacity);
}

/// One side after the other, then attention.
proof fn lemma_sides_form_keeps(
    c: Gemma4Config,
    s: Gemma4Scratch,
    kind: LayerType,
    form: KvForm,
    layer: usize,
    pos: usize,
    max_seq: usize,
    window: usize,
)
    requires
        token_room(c, kind),
    ensures
        keeps(
            seq![
                side_op(c, kind, form, KvSide::Keys, layer),
                side_op(c, kind, form, KvSide::Values, layer),
                token_attend_op(c, kind, form, layer, pos, max_seq, window, 0),
            ],
            c,
            s,
        ),
{
    lemma_side_sound(c, s, kind, form, KvSide::Keys, layer);
    lemma_side_sound(c, s, kind, form, KvSide::Values, layer);
    lemma_token_attend_sound(c, s, kind, form, layer, pos, max_seq, window, 0);
}

proof fn lemma_sliding_cache_keeps(
    c: Gemma4Config,
    s: Gemma4Scratch,
    layer: usize,
    pos: usize,
    kv: KvCache,
)
    requires
        token_room(c, LayerType::Sliding),
    ensures
        plan_keeps(sliding_cache_ops(c, layer, pos, kv), c, s),
{
    let kind = LayerType::Sliding;
    let w = window(c);
    let n = kv.max_seq;
    match kv.form() {
        KvForm::Asym3 => lemma_pair_form_keeps(c, s, kind, KvForm::Asym3, layer, pos, n, w, w),
        KvForm::Asym4 => lemma_pair_form_keeps(c, s, kind, KvForm::Asym4, layer, pos, n, w, 0),
        KvForm::Asym2 => lemma_pair_form_keeps(c, s, kind, KvForm::Asym2, layer, pos, n, w, 0),
        KvForm::Q8 => lemma_sides_form_keeps(c, s, kind, KvForm::Q8, layer, pos, n, w),
        _ => {},
    }
}

proof fn lemma_full_cache_keeps(
    c: Gemma4Config,
    s: Gemma4Scratch,
    layer: usize,
    pos: usize,
    kv: KvCache,
)
    requires
        token_room(c, LayerType::Full),
    ensures
        plan_keeps(full_cache_ops(c, layer, pos, kv), c, s),
{
    let kind = LayerType::Full;
    let n = kv.max_seq;
    match kv.form() {
        KvForm::Asym3 => lemma_pair_form_keeps(c, s, kind, KvForm::Asym3, layer, pos, n, 0, 0),
        KvForm::F32 => lemma_sides_form_keeps(c, s, kind, KvForm::F32, layer, pos, n, 0),
        _ => {},
    }
}

#[verifier::rlimit(40)]
proof fn lemma_after_cache_keeps(
    c: Gemma4Config,
    s: Gemma4Scratch,
    w: LayerCommon,
    i: usize,
    kind: LayerType,
)
    requires
        token_room(c, kind),
        common_shaped(w, c, kind),
    ensures
        keeps(after_cache_ops(c, w, i), c, s),
{
    let ops = after_cache_ops(c, w, i);
    assert(sound(ops[0], c, s)) by {
        lemma_sound(ops[0], c, s);
    }
    assert(sound(ops[1], c, s)) by {
        lemma_sound(ops[1], c, s);
    }
    assert(sound(ops[2], c, s)) by {
        lemma_sound(ops[2], c, s);
    }
    assert(sound(ops[3], c, s)) by {
        lemma_sound(ops[3], c, s);
    }
    assert(sound(ops[4], c, s)) by {
        lemma_sound(ops[4], c, s);
    }
    assert(sound(ops[5], c, s)) by {
        lemma_sound(ops[5], c, s);
    }
    assert(sound(ops[6], c, s)) by {
        lemma_sound(ops[6], c, s);
    }
    assert(sound(ops[7], c, s)) by {
        lemma_sound(ops[7], c, s);
    }
    assert(sound(ops[8], c, s)) by {
        lemma_sound(ops[8], c, s);
    }
    assert(sound(ops[9], c, s)) by {
        lemma_sound(ops[9], c, s);
    }
    assert(sound(ops[10], c, s)) by {
        lemma_sound(ops[10], c, s);
    }
}

#[verifier::rlimit(40)]
proof fn lemma_route_keeps(c: Gemma4Config, s: Gemma4Scratch, m: MoeLayerExtras, i: usize)
    requires
        moe_shaped(m, c),
        c.top_k_experts == 8,
    ensures
        keeps(route_ops(c, m, i), c, s),
{
    lemma_one(1, c.num_experts as int);
    let ops = route_ops(c, m, i);
    assert(sound(ops[0], c, s)) by {
        lemma_sound(ops[0], c, s);
    }
    assert(sound(ops[1], c, s)) by {
        lemma_sound(ops[1], c, s);
    }
    assert(sound(ops[2], c, s)) by {
        lemma_sound(ops[2], c, s);
    }
    assert(sound(ops[3], c, s)) by {
        lemma_sound(ops[3], c, s);
    }
    assert(sound(ops[4], c, s)) by {
        lemma_sound(ops[4], c, s);
    }
    assert(sound(ops[5], c, s)) by {
        lemma_sound(ops[5], c, s);
    }
}

#[verifier::rlimit(40)]
proof fn lemma_experts_keeps(c: Gemma4Config, s: Gemma4Scratch, dtype: DType, i: usize)
    requires
        eight_room(c),
        c.top_k_experts == 8,
    ensures
        keeps(experts_ops(c, dtype, i), c, s),
{
    let mi = c.moe_intermediate_size as int;
    lemma_eight(1, c.top_k_experts as int, mi, 2 * mi);
    lemma_one(1, c.dim as int);
    lemma_one(1, mi);
    let ops = experts_ops(c, dtype, i);
    assert(sound(ops[0], c, s)) by {
        lemma_sound(ops[0], c, s);
    }
    assert(sound(ops[1], c, s)) by {
        lemma_sound(ops[1], c, s);
    }
    assert(sound(ops[2], c, s)) by {
        lemma_sound(ops[2], c, s);
    }
    assert(sound(ops[3], c, s)) by {
        lemma_sound(ops[3], c, s);
    }
    assert(sound(ops[4], c, s)) by {
        lemma_sound(ops[4], c, s);
    }
    assert(sound(ops[5], c, s)) by {
        lemma_sound(ops[5], c, s);
    }
}

#[verifier::rlimit(40)]
proof fn lemma_join_experts_keeps(c: Gemma4Config, s: Gemma4Scratch, i: usize)
    ensures
        keeps(join_experts_ops(c, i), c, s),
{
    let ops = join_experts_ops(c, i);
    assert(sound(ops[0], c, s)) by {
        lemma_sound(ops[0], c, s);
    }
    assert(sound(ops[1], c, s)) by {
        lemma_sound(ops[1], c, s);
    }
    assert(sound(ops[2], c, s)) by {
        lemma_sound(ops[2], c, s);
    }
}

#[verifier::rlimit(40)]
proof fn lemma_finish_keeps(c: Gemma4Config, s: Gemma4Scratch, w: LayerCommon, kind: LayerType)
    requires
        token_room(c, kind),
    ensures
        keeps(finish_ops(c, w), c, s),
{
    let ops = finish_ops(c, w);
    assert(sound(ops[0], c, s)) by {
        lemma_sound(ops[0], c, s);
    }
    assert(sound(ops[1], c, s)) by {
        lemma_sound(ops[1], c, s);
    }
    assert(sound(ops[2], c, s)) by {
        lemma_sound(ops[2], c, s);
    }
}

#[verifier::rlimit(40)]
proof fn lemma_moe_keeps(c: Gemma4Config, s: Gemma4Scratch, m: MoeLayerExtras, i: usize)
    requires
        c.batch_fits(),
        moe_shaped(m, c),
    ensures
        plan_keeps(moe_ops(c, m, i), c, s),
{
    if c.top_k_experts == 8 {
        lemma_route_keeps(c, s, m, i);
        lemma_eight_fit(c);
        lemma_experts_keeps(c, s, m.down.dtype, i);
        lemma_join_experts_keeps(c, s, i);
        let host: Seq<GemmaOp> = seq![
            Op::RouteOnHost {
                experts: Gemma4Wt::Layer(i, LayerPart::GateUpPool),
                indices: Gemma4Buf::MoeTopkIndices,
                weights: Gemma4Buf::MoeTopkWeights,
            },
        ];
        assert(sound(host[0], c, s)) by {
            lemma_sound(host[0], c, s);
        }
        lemma_concat(route_ops(c, m, i), experts_ops(c, m.down.dtype, i), c, s);
        lemma_concat(route_ops(c, m, i), host, c, s);
        lemma_concat(route_ops(c, m, i) + experts_ops(c, m.down.dtype, i), join_experts_ops(c, i), c, s);
        lemma_concat(route_ops(c, m, i) + host, join_experts_ops(c, i), c, s);
    }
}

#[verifier::rlimit(40)]
proof fn lemma_branch_keeps(
    c: Gemma4Config,
    s: Gemma4Scratch,
    w: LayerCommon,
    i: usize,
    kind: LayerType,
    bypass: bool,
)
    requires
        c.batch_fits(),
        common_shaped(w, c, kind),
    ensures
        plan_keeps(branch_ops(c, w, i, bypass), c, s),
{
    let norm: GemmaOp = Op::RmsNorm {
        x: Gemma4Buf::FfnOut,
        w: Gemma4Wt::Layer(i, LayerPart::PostFfnNorm),
        out: Gemma4Buf::Tmp,
        eps: c.norm_eps,
    };
    assert(sound(norm, c, s)) by {
        lemma_sound(norm, c, s);
    }
    match w.moe {
        Some(m) => lemma_moe_keeps(c, s, m, i),
        None => {},
    }
}

proof fn lemma_rest_keeps(
    c: Gemma4Config,
    s: Gemma4Scratch,
    w: LayerCommon,
    i: usize,
    kind: LayerType,
    stop_before_moe: bool,
    bypass: bool,
)
    requires
        c.batch_fits(),
        common_shaped(w, c, kind),
    ensures
        plan_keeps(rest_ops(c, w, i, stop_before_moe, bypass), c, s),
{
    lemma_token_sizes(c, kind);
    lemma_after_cache_keeps(c, s, w, i, kind);
    lemma_branch_keeps(c, s, w, i, kind, bypass);
    lemma_finish_keeps(c, s, w, kind);
    let end = chained(branch_ops(c, w, i, bypass), Ok(finish_ops(c, w)));
    lemma_chained(branch_ops(c, w, i, bypass), Ok(finish_ops(c, w)), c, s);
    lemma_chained(Ok(after_cache_ops(c, w, i)), end, c, s);
}

#[verifier::rlimit(40)]
proof fn lemma_layer_keeps(
    c: Gemma4Config,
    s: Gemma4Scratch,
    w: LayerWeights,
    i: usize,
    pos: usize,
    kv: Caches,
    stop_before_moe: bool,
    bypass: bool,
)
    requires
        c.batch_fits(),
        layer_shaped(w, c),
    ensures
        plan_keeps(layer_ops(c, w, i, pos, kv, stop_before_moe, bypass), c, s),
{
    let n = count_kind(c.layer_types@, c.layer_types@[i as int], i as nat) as usize;
    match w {
        LayerWeights::Sliding(l) => {
            let rest = rest_ops(c, l.common, i, stop_before_moe, bypass);
            let cache = sliding_cache_ops(c, n, pos, kv.sliding);
            lemma_token_sizes(c, LayerType::Sliding);
            lemma_sliding_in_keeps(c, s, l, i);
            lemma_sliding_cache_keeps(c, s, n, pos, kv.sliding);
            lemma_rest_keeps(c, s, l.common, i, LayerType::Sliding, stop_before_moe, bypass);
            lemma_chained(Ok(sliding_in_ops(c, l, i)), cache, c, s);
            lemma_chained(chained(Ok(sliding_in_ops(c, l, i)), cache), rest, c, s);
        },
        LayerWeights::Full(l) => {
            let rest = rest_ops(c, l.common, i, stop_before_moe, bypass);
            let cache = full_cache_ops(c, n, pos, kv.full);
            lemma_token_sizes(c, LayerType::Full);
            lemma_full_in_keeps(c, s, l, i);
            lemma_full_cache_keeps(c, s, n, pos, kv.full);
            lemma_rest_keeps(c, s, l.common, i, LayerType::Full, stop_before_moe, bypass);
            lemma_chained(Ok(full_in_ops(c, l, i)), cache, c, s);
            lemma_chained(chained(Ok(full_in_ops(c, l, i)), cache), rest, c, s);
        },
    }
}

proof fn lemma_layers_keep(
    c: Gemma4Config,
    s: Gemma4Scratch,
    w: Gemma4Weights,
    pos: usize,
    kv: Caches,
    bypass: bool,
    n: nat,
)
    requires
        c.batch_fits(),
        shaped(w, c),
        n <= w.layers@.len(),
    ensures
        plan_keeps(layers_ops(c, w.layers@, pos, kv, bypass, n), c, s),
    decreases n,
{
    lemma_nothing(c, s);
    if n > 0 {
        let m = (n - 1) as nat;
        lemma_layers_keep(c, s, w, pos, kv, bypass, m);
        lemma_layer_keeps(c, s, w.layers@[m as int], m as usize, pos, kv, false, bypass);
        lemma_chained(
            layers_ops(c, w.layers@, pos, kv, bypass, m),
            layer_ops(c, w.layers@[m as int], m as usize, pos, kv, false, bypass),
            c,
            s,
        );
    }
}

/// A token's forward pass reads and writes inside the scratch buffers.
pub proof fn law_forward_stays_in_bounds(
    c: Gemma4Config,
    s: Gemma4Scratch,
    w: Gemma4Weights,
    token: u32,
    pos: usize,
    kv: Caches,
    bypass: bool,
)
    requires
        c.batch_fits(),
        shaped(w, c),
        w.layers@.len() >= c.layer_types@.len(),
    ensures
        crate::device::all_in_bounds(embed_ops(c, w.embd_format, token), buf_bytes(c, s)),
        inner_ops(c, w, pos, kv, bypass) matches Ok(ops) ==> crate::device::all_in_bounds(
            ops,
            buf_bytes(c, s),
        ),
{
    lemma_token_sizes(c, LayerType::Full);
    let n = c.layer_types@.len();
    lemma_layers_keep(c, s, w, pos, kv, bypass, n);
    let size = buf_bytes(c, s);
    let end = output_ops(c, w);
    assert(crate::device::in_bounds(end[0], size));
    assert(crate::device::in_bounds(end[1], size));
    assert(end.len() == 3 ==> crate::device::in_bounds(end[2], size));
    assert(crate::device::all_in_bounds(end, size)) by {
        reveal(crate::device::all_in_bounds);
    }
    let first = embed_ops(c, w.embd_format, token);
    assert(crate::device::in_bounds(first[0], size) && crate::device::in_bounds(first[1], size));
    assert(crate::device::all_in_bounds(first, size)) by {
        reveal(crate::device::all_in_bounds);
    }
    match layers_ops(c, w.layers@, pos, kv, bypass, n) {
        Ok(ops) => {
            lemma_keeps(ops, c, s);
            assert(crate::device::all_in_bounds(ops, size)) by {
                reveal(crate::device::all_in_bounds);
            }
            crate::device::lemma_bounds_concat(ops, end, size);
        },
        Err(e) => {},
    }
}

#[verifier::rlimit(40)]
proof fn lemma_one_expert_keeps(
    c: Gemma4Config,
    s: Gemma4Scratch,
    m: MoeLayerExtras,
    i: usize,
    e: usize,
    weight: F32,
)
    requires
        moe_shaped(m, c),
    ensures
        keeps(one_expert_ops(c, m, i, e, weight), c, s),
{
    let ops = one_expert_ops(c, m, i, e, weight);
    assert(sound(ops[0], c, s)) by {
        lemma_sound(ops[0], c, s);
    }
    assert(sound(ops[1], c, s)) by {
        lemma_sound(ops[1], c, s);
    }
    assert(sound(ops[2], c, s)) by {
        lemma_sound(ops[2], c, s);
    }
    assert(sound(ops[3], c, s)) by {
        lemma_sound(ops[3], c, s);
    }
    assert(sound(ops[4], c, s)) by {
        lemma_sound(ops[4], c, s);
    }
}

proof fn lemma_routed_keeps(
    c: Gemma4Config,
    s: Gemma4Scratch,
    m: MoeLayerExtras,
    i: usize,
    indices: Seq<i32>,
    weights: Seq<F32>,
    scales: Seq<F32>,
    n: nat,
)
    requires
        c.batch_fits(),
        moe_shaped(m, c),
    ensures
        keeps(routed_ops(c, m, i, indices, weights, scales, n), c, s),
    decreases n,
{
    if n > 0 {
        let k = n - 1;
        let weight = crate::float::product(weights[k], scales[indices[k] as int]);
        lemma_routed_keeps(c, s, m, i, indices, weights, scales, k as nat);
        lemma_one_expert_keeps(c, s, m, i, indices[k] as usize, weight);
        lemma_concat(
            routed_ops(c, m, i, indices, weights, scales, k as nat),
            one_expert_ops(c, m, i, indices[k] as usize, weight),
            c,
            s,
        );
    }
}

/// What the host adds for the experts of a token stays inside the scratch buffers.
pub proof fn law_host_routing_stays_in_bounds(
    c: Gemma4Config,
    s: Gemma4Scratch,
    m: MoeLayerExtras,
    i: usize,
    indices: Seq<i32>,
    weights: Seq<F32>,
    scales: Seq<F32>,
)
    requires
        c.batch_fits(),
        moe_shaped(m, c),
    ensures
        crate::device::all_in_bounds(
            seq![
                Op::<Gemma4Buf, Gemma4Wt>::Zero {
                    buf: Gemma4Buf::MoeCurMoe,
                    bytes: (4 * c.dim) as usize,
                },
            ] + routed_ops(c, m, i, indices, weights, scales, c.top_k_experts as nat),
            buf_bytes(c, s),
        ),
{
    lemma_token_sizes(c, LayerType::Full);
    let n = c.top_k_experts as nat;
    let size = buf_bytes(c, s);
    lemma_routed_keeps(c, s, m, i, indices, weights, scales, n);
    let zero = seq![
        Op::<Gemma4Buf, Gemma4Wt>::Zero {
            buf: Gemma4Buf::MoeCurMoe,
            bytes: (4 * c.dim) as usize,
        },
    ];
    let routed = routed_ops(c, m, i, indices, weights, scales, n);
    lemma_keeps(routed, c, s);
    assert(crate::device::in_bounds(zero[0], size));
    assert(crate::device::all_in_bounds(routed, size) && crate::device::all_in_bounds(
        zero,
        size,
    )) by {
        reveal(crate::device::all_in_bounds);
    }
    crate::device::lemma_bounds_concat(zero, routed, size);
}

#[verifier::rlimit(40)]
proof fn lemma_batch_sliding_keeps(
    c: Gemma4Config,
    s: Gemma4Scratch,
    w: SlidingLayerWeights,
    i: usize,
    layer: usize,
    start: usize,
    n: usize,
    kv: KvCache,
)
    requires
        kind_room(c, n as int, LayerType::Sliding),
        state_room(c, n as int),
        layer_shaped(LayerWeights::Sliding(w), c),
        n <= 128,
    ensures
        keeps(batch_sliding_ops(c, w, i, layer, start, n, kv), c, s),
{
    let ops = batch_sliding_ops(c, w, i, layer, start, n, kv);
    assert(sound(ops[0], c, s)) by {
        lemma_sound(ops[0], c, s);
    }
    assert(sound(ops[1], c, s)) by {
        lemma_sound(ops[1], c, s);
    }
    assert(sound(ops[2], c, s)) by {
        lemma_sound(ops[2], c, s);
    }
    assert(sound(ops[3], c, s)) by {
        lemma_sound(ops[3], c, s);
    }
    assert(sound(ops[4], c, s)) by {
        lemma_sound(ops[4], c, s);
    }
    assert(sound(ops[5], c, s)) by {
        lemma_sound(ops[5], c, s);
    }
    assert(sound(ops[6], c, s)) by {
        lemma_sound(ops[6], c, s);
    }
    assert(sound(ops[7], c, s)) by {
        lemma_sound(ops[7], c, s);
    }
    assert(sound(ops[8], c, s)) by {
        lemma_sound(ops[8], c, s);
    }
    assert(sound(ops[9], c, s)) by {
        lemma_sound(ops[9], c, s);
    }
    assert(sound(ops[10], c, s)) by {
        lemma_sound(ops[10], c, s);
    }
}

#[verifier::rlimit(40)]
proof fn lemma_batch_full_in_keeps(
    c: Gemma4Config,
    s: Gemma4Scratch,
    w: FullLayerWeights,
    i: usize,
    n: usize,
)
    requires
        kind_room(c, n as int, LayerType::Full),
        state_room(c, n as int),
        layer_shaped(LayerWeights::Full(w), c),
        n <= 128,
    ensures
        keeps(batch_full_in_ops(c, w, i, n), c, s),
{
    let ops = batch_full_in_ops(c, w, i, n);
    assert(sound(ops[0], c, s)) by {
        lemma_sound(ops[0], c, s);
    }
    assert(sound(ops[1], c, s)) by {
        lemma_sound(ops[1], c, s);
    }
    assert(sound(ops[2], c, s)) by {
        lemma_sound(ops[2], c, s);
    }
    assert(sound(ops[3], c, s)) by {
        lemma_sound(ops[3], c, s);
    }
    assert(sound(ops[4], c, s)) by {
        lemma_sound(ops[4], c, s);
    }
    assert(sound(ops[5], c, s)) by {
        lemma_sound(ops[5], c, s);
    }
    assert(sound(ops[6], c, s)) by {
        lemma_sound(ops[6], c, s);
    }
    assert(sound(ops[7], c, s)) by {
        lemma_sound(ops[7], c, s);
    }
}

#[verifier::rlimit(40)]
proof fn lemma_rotate_row_keeps(c: Gemma4Config, s: Gemma4Scratch, start: usize, t: usize)
    requires
        token_room(c, LayerType::Full),
        t < 128,
    ensures
        keeps(rotate_row_ops(c, start, t), c, s),
{
    let q = 4 * c.q_dim(LayerType::Full);
    let k = 4 * c.kv_dim(LayerType::Full);
    lemma_row_end(t as int, q);
    lemma_row_end(t as int, k);
    let ops = rotate_row_ops(c, start, t);
    assert(sound(ops[0], c, s)) by {
        lemma_sound(ops[0], c, s);
    }
    assert(sound(ops[1], c, s)) by {
        lemma_sound(ops[1], c, s);
    }
    assert(sound(ops[2], c, s)) by {
        lemma_sound(ops[2], c, s);
    }
    assert(sound(ops[3], c, s)) by {
        lemma_sound(ops[3], c, s);
    }
    assert(sound(ops[4], c, s)) by {
        lemma_sound(ops[4], c, s);
    }
    assert(sound(ops[5], c, s)) by {
        lemma_sound(ops[5], c, s);
    }
}

proof fn lemma_row_end(t: int, x: int)
    requires
        0 <= t < 128,
        0 <= x,
    ensures
        0 <= t * x,
        t * x + x <= 128 * x,
{
    assert(0 <= t * x && t * x + x <= 128 * x) by (nonlinear_arith)
        requires
            0 <= t < 128,
            0 <= x,
    ;
}

proof fn lemma_rotate_rows_keep(c: Gemma4Config, s: Gemma4Scratch, start: usize, n: nat)
    requires
        c.batch_fits(),
        n <= 128,
    ensures
        keeps(rotate_rows_ops(c, start, n), c, s),
    decreases n,
{
    lemma_nothing(c, s);
    if n > 0 {
        let t = (n - 1) as usize;
        lemma_rotate_rows_keep(c, s, start, (n - 1) as nat);
        lemma_token_sizes(c, LayerType::Full);
        lemma_rotate_row_keeps(c, s, start, t);
        lemma_concat(rotate_rows_ops(c, start, (n - 1) as nat), rotate_row_ops(c, start, t), c, s);
    }
}

#[verifier::rlimit(40)]
proof fn lemma_batch_full_cache_keeps(
    c: Gemma4Config,
    s: Gemma4Scratch,
    layer: usize,
    start: usize,
    n: usize,
    kv: KvCache,
)
    requires
        kind_room(c, n as int, LayerType::Full),
        n <= 128,
    ensures
        keeps(batch_full_cache_ops(c, layer, start, n, kv), c, s),
{
    let ops = batch_full_cache_ops(c, layer, start, n, kv);
    assert(sound(ops[0], c, s)) by {
        lemma_sound(ops[0], c, s);
    }
    assert(sound(ops[1], c, s)) by {
        lemma_sound(ops[1], c, s);
    }
}

#[verifier::rlimit(40)]
proof fn lemma_batch_rest_keeps(
    c: Gemma4Config,
    s: Gemma4Scratch,
    w: LayerCommon,
    i: usize,
    n: usize,
    kind: LayerType,
)
    requires
        kind_room(c, n as int, kind),
        state_room(c, n as int),
        common_shaped(w, c, kind),
        n <= 128,
    ensures
        keeps(batch_rest_ops(c, w, i, n), c, s),
{
    let ops = batch_rest_ops(c, w, i, n);
    assert(sound(ops[0], c, s)) by {
        lemma_sound(ops[0], c, s);
    }
    assert(sound(ops[1], c, s)) by {
        lemma_sound(ops[1], c, s);
    }
    assert(sound(ops[2], c, s)) by {
        lemma_sound(ops[2], c, s);
    }
    assert(sound(ops[3], c, s)) by {
        lemma_sound(ops[3], c, s);
    }
    assert(sound(ops[4], c, s)) by {
        lemma_sound(ops[4], c, s);
    }
    assert(sound(ops[5], c, s)) by {
        lemma_sound(ops[5], c, s);
    }
    assert(sound(ops[6], c, s)) by {
        lemma_sound(ops[6], c, s);
    }
    assert(sound(ops[7], c, s)) by {
        lemma_sound(ops[7], c, s);
    }
    assert(sound(ops[8], c, s)) by {
        lemma_sound(ops[8], c, s);
    }
    assert(sound(ops[9], c, s)) by {
        lemma_sound(ops[9], c, s);
    }
}

#[verifier::rlimit(40)]
proof fn lemma_batch_route_keeps(
    c: Gemma4Config,
    s: Gemma4Scratch,
    m: MoeLayerExtras,
    i: usize,
    n: usize,
)
    requires
        state_room(c, n as int),
        moe_shaped(m, c),
        c.top_k_experts == 8,
        n <= 128,
    ensures
        keeps(batch_route_ops(c, m, i, n), c, s),
{
    lemma_product(n as int, 1, c.num_experts as int);
    lemma_one(1, c.num_experts as int);
    let ops = batch_route_ops(c, m, i, n);
    assert(sound(ops[0], c, s)) by {
        lemma_sound(ops[0], c, s);
    }
    assert(sound(ops[1], c, s)) by {
        lemma_sound(ops[1], c, s);
    }
    assert(sound(ops[2], c, s)) by {
        lemma_sound(ops[2], c, s);
    }
    assert(sound(ops[3], c, s)) by {
        lemma_sound(ops[3], c, s);
    }
    assert(sound(ops[4], c, s)) by {
        lemma_sound(ops[4], c, s);
    }
    assert(sound(ops[5], c, s)) by {
        lemma_sound(ops[5], c, s);
    }
}

#[verifier::rlimit(40)]
proof fn lemma_bucket_keeps(c: Gemma4Config, s: Gemma4Scratch, n: usize, bucketed: bool)
    requires
        c.top_k_experts == 8,
        n <= 128,
    ensures
        keeps(bucket_ops(c, n, bucketed), c, s),
{
    lemma_eight(n as int, c.top_k_experts as int, 0, 0);
    let ops = bucket_ops(c, n, bucketed);
    if bucketed {
        assert(sound(ops[0], c, s)) by {
            lemma_sound(ops[0], c, s);
        }
    }
}

#[verifier::rlimit(40)]
proof fn lemma_batch_experts_keeps(
    c: Gemma4Config,
    s: Gemma4Scratch,
    dtype: DType,
    i: usize,
    n: usize,
    bucketed: bool,
)
    requires
        eight_room(c),
        state_room(c, n as int),
        c.top_k_experts == 8,
        n <= 128,
    ensures
        keeps(batch_experts_ops(c, dtype, i, n, bucketed), c, s),
{
    let ops = batch_experts_ops(c, dtype, i, n, bucketed);
    let size = buf_bytes(c, s);
    let mi = c.moe_intermediate_size as int;
    let top = c.top_k_experts as int;
    let all = n * top * mi;
    lemma_eight(n as int, top, mi, 2 * mi);
    let room = 512 * (8 * c.mi());
    assert(0 <= 4 * all <= room <= usize::MAX);
    assert(size(Gemma4Buf::PbMoeGateBatch) == room && size(Gemma4Buf::PbMoeUpBatch) == room);
    assert(size(Gemma4Buf::PbMoeHiddenBatch) == room);
    assert(size(Gemma4Buf::PbMoeTopkWeights) == 4096);
    assert(size(Gemma4Buf::PbMoePre2) == 512 * c.dim && size(Gemma4Buf::PbMoePre2Rot) == 512
        * c.dim && size(Gemma4Buf::PbMoeCurMoe) == 512 * c.dim);
    assert(sound(ops[0], c, s)) by {
        lemma_sound(ops[0], c, s);
    }
    assert(sound(ops[1], c, s)) by {
        lemma_sound(ops[1], c, s);
    }
    assert(sound(ops[2], c, s)) by {
        lemma_sound(ops[2], c, s);
    }
    assert(sound(ops[3], c, s)) by {
        lemma_sound(ops[3], c, s);
    }
    assert(sound(ops[4], c, s)) by {
        lemma_sound(ops[4], c, s);
    }
    assert(sound(ops[5], c, s)) by {
        lemma_sound(ops[5], c, s);
    }
}

#[verifier::rlimit(40)]
proof fn lemma_batch_join_keeps(c: Gemma4Config, s: Gemma4Scratch, i: usize, n: usize)
    requires
        n <= 128,
    ensures
        keeps(batch_join_ops(c, i, n), c, s),
{
    lemma_at_most(n as int, c.dim as int);
    let ops = batch_join_ops(c, i, n);
    assert(sound(ops[0], c, s)) by {
        lemma_sound(ops[0], c, s);
    }
    assert(sound(ops[1], c, s)) by {
        lemma_sound(ops[1], c, s);
    }
    assert(sound(ops[2], c, s)) by {
        lemma_sound(ops[2], c, s);
    }
}

#[verifier::rlimit(40)]
proof fn lemma_batch_dense_keeps(
    c: Gemma4Config,
    s: Gemma4Scratch,
    w: LayerCommon,
    i: usize,
    n: usize,
)
    requires
        n <= 128,
    ensures
        keeps(batch_dense_ops(c, w, i, n), c, s),
{
    lemma_at_most(n as int, c.dim as int);
    let ops = batch_dense_ops(c, w, i, n);
    assert(sound(ops[0], c, s)) by {
        lemma_sound(ops[0], c, s);
    }
    assert(sound(ops[1], c, s)) by {
        lemma_sound(ops[1], c, s);
    }
    assert(sound(ops[2], c, s)) by {
        lemma_sound(ops[2], c, s);
    }
}

#[verifier::rlimit(40)]
proof fn lemma_row_moe_keeps(
    c: Gemma4Config,
    s: Gemma4Scratch,
    m: MoeLayerExtras,
    i: usize,
    t: usize,
)
    requires
        c.batch_fits(),
        moe_shaped(m, c),
        t < 128,
    ensures
        plan_keeps(row_moe_ops(c, m, i, t), c, s),
{
    lemma_token_sizes(c, LayerType::Full);
    lemma_row_end(t as int, 4 * c.dim);
    lemma_moe_keeps(c, s, m, i);
    let d4 = (4 * c.dim) as usize;
    let at = (t * (4 * c.dim)) as usize;
    let load = seq![
        Op::<Gemma4Buf, Gemma4Wt>::Copy {
            dst: Gemma4Buf::Residual,
            dst_off: 0,
            src: Gemma4Buf::PbAttnOut,
            src_off: at,
            bytes: d4,
        },
        Op::<Gemma4Buf, Gemma4Wt>::Copy {
            dst: Gemma4Buf::FfnOut,
            dst_off: 0,
            src: Gemma4Buf::PbFfnOut,
            src_off: at,
            bytes: d4,
        },
    ];
    let store = seq![
        Op::<Gemma4Buf, Gemma4Wt>::Copy {
            dst: Gemma4Buf::PbMoePre2,
            dst_off: at,
            src: Gemma4Buf::Tmp,
            src_off: 0,
            bytes: d4,
        },
    ];
    assert(sound(load[0], c, s)) by {
        lemma_sound(load[0], c, s);
    }
    assert(sound(load[1], c, s)) by {
        lemma_sound(load[1], c, s);
    }
    assert(sound(store[0], c, s)) by {
        lemma_sound(store[0], c, s);
    }
    lemma_chained(Ok(load), moe_ops(c, m, i), c, s);
    lemma_chained(chained(Ok(load), moe_ops(c, m, i)), Ok(store), c, s);
}

proof fn lemma_rows_moe_keep(
    c: Gemma4Config,
    s: Gemma4Scratch,
    m: MoeLayerExtras,
    i: usize,
    n: nat,
)
    requires
        c.batch_fits(),
        moe_shaped(m, c),
        n <= 128,
    ensures
        plan_keeps(rows_moe_ops(c, m, i, n), c, s),
    decreases n,
{
    lemma_nothing(c, s);
    if n > 0 {
        let t = (n - 1) as usize;
        lemma_rows_moe_keep(c, s, m, i, (n - 1) as nat);
        lemma_row_moe_keeps(c, s, m, i, t);
        lemma_chained(rows_moe_ops(c, m, i, (n - 1) as nat), row_moe_ops(c, m, i, t), c, s);
    }
}

#[verifier::rlimit(40)]
proof fn lemma_batch_moe_keeps(
    c: Gemma4Config,
    s: Gemma4Scratch,
    m: MoeLayerExtras,
    i: usize,
    n: usize,
    bucketed: bool,
)
    requires
        c.batch_fits(),
        moe_shaped(m, c),
        n <= 128,
    ensures
        plan_keeps(batch_moe_ops(c, m, i, n, bucketed), c, s),
{
    if c.top_k_experts == 8 {
        let a = batch_route_ops(c, m, i, n);
        let b = bucket_ops(c, n, bucketed);
        let d = batch_experts_ops(c, m.down.dtype, i, n, bucketed);
        let e = batch_join_ops(c, i, n);
        lemma_eight_fit(c);
        lemma_state_sizes(c, n as int);
        lemma_batch_route_keeps(c, s, m, i, n);
        lemma_bucket_keeps(c, s, n, bucketed);
        lemma_batch_experts_keeps(c, s, m.down.dtype, i, n, bucketed);
        lemma_batch_join_keeps(c, s, i, n);
        lemma_concat(a, b, c, s);
        lemma_concat(a + b, d, c, s);
        lemma_concat(a + b + d, e, c, s);
        lemma_rows_moe_keep(c, s, m, i, n as nat);
    }
}

#[verifier::rlimit(40)]
proof fn lemma_batch_finish_keeps(c: Gemma4Config, s: Gemma4Scratch, w: LayerCommon)
    ensures
        keeps(batch_finish_ops(w), c, s),
{
    let ops = batch_finish_ops(w);
    assert(sound(ops[0], c, s)) by {
        lemma_sound(ops[0], c, s);
    }
    assert(sound(ops[1], c, s)) by {
        lemma_sound(ops[1], c, s);
    }
}

#[verifier::rlimit(40)]
proof fn lemma_batch_layer_keeps(
    c: Gemma4Config,
    s: Gemma4Scratch,
    w: LayerWeights,
    i: usize,
    start: usize,
    n: usize,
    kv: Caches,
    flags: Flags,
)
    requires
        c.batch_fits(),
        layer_shaped(w, c),
        n <= 128,
    ensures
        plan_keeps(batch_layer_ops(c, w, i, start, n, kv, flags), c, s),
{
    let x = count_kind(c.layer_types@, c.layer_types@[i as int], i as nat) as usize;
    let common = common_of(w);
    let attn = batch_attn_ops(c, w, i, start, n, kv);
    lemma_state_sizes(c, n as int);
    match w {
        LayerWeights::Sliding(l) => {
            lemma_kind_sizes(c, n as int, LayerType::Sliding);
            lemma_batch_sliding_keeps(c, s, l, i, x, start, n, kv.sliding);
            lemma_batch_rest_keeps(c, s, common, i, n, LayerType::Sliding);
        },
        LayerWeights::Full(l) => {
            let a = batch_full_in_ops(c, l, i, n);
            let b = rotate_rows_ops(c, start, n as nat);
            lemma_kind_sizes(c, n as int, LayerType::Full);
            lemma_batch_full_in_keeps(c, s, l, i, n);
            lemma_rotate_rows_keep(c, s, start, n as nat);
            lemma_batch_full_cache_keeps(c, s, x, start, n, kv.full);
            lemma_concat(a, b, c, s);
            lemma_concat(a + b, batch_full_cache_ops(c, x, start, n, kv.full), c, s);
            lemma_batch_rest_keeps(c, s, common, i, n, LayerType::Full);
        },
    }
    let mid = batch_rest_ops(c, common, i, n);
    lemma_chained(attn, Ok(mid), c, s);
    lemma_batch_dense_keeps(c, s, common, i, n);
    match common.moe {
        Some(m) => {
            lemma_batch_moe_keeps(c, s, m, i, n, flags.moe_bucketed);
            lemma_batch_finish_keeps(c, s, common);
            lemma_chained(
                batch_moe_ops(c, m, i, n, flags.moe_bucketed),
                Ok(batch_finish_ops(common)),
                c,
                s,
            );
        },
        None => {},
    }
    lemma_chained(chained(attn, Ok(mid)), batch_end_ops(c, common, i, n, flags), c, s);
}

proof fn lemma_batch_layers_keep(
    c: Gemma4Config,
    s: Gemma4Scratch,
    w: Gemma4Weights,
    start: usize,
    n: usize,
    kv: Caches,
    flags: Flags,
    m: nat,
)
    requires
        c.batch_fits(),
        shaped(w, c),
        n <= 128,
        m <= w.layers@.len(),
    ensures
        plan_keeps(batch_layers_ops(c, w.layers@, start, n, kv, flags, m), c, s),
    decreases m,
{
    lemma_nothing(c, s);
    if m > 0 {
        let i = (m - 1) as nat;
        lemma_batch_layers_keep(c, s, w, start, n, kv, flags, i);
        lemma_batch_layer_keeps(c, s, w.layers@[i as int], i as usize, start, n, kv, flags);
        lemma_chained(
            batch_layers_ops(c, w.layers@, start, n, kv, flags, i),
            batch_layer_ops(c, w.layers@[i as int], i as usize, start, n, kv, flags),
            c,
            s,
        );
    }
}

proof fn lemma_embeds_keep(
    c: Gemma4Config,
    s: Gemma4Scratch,
    format: EmbeddingFormat,
    tokens: Seq<u32>,
    n: nat,
)
    requires
        c.batch_fits(),
        n <= 128,
    ensures
        keeps(embeds_ops(c, format, tokens, n), c, s),
    decreases n,
{
    lemma_nothing(c, s);
    if n > 0 {
        lemma_token_sizes(c, LayerType::Full);
        lemma_embeds_keep(c, s, format, tokens, (n - 1) as nat);
        lemma_row_end(n - 1, 4 * c.dim);
        let a = embed_ops(c, format, tokens[n - 1]);
        let b: Seq<GemmaOp> = seq![
            Op::Copy {
                dst: Gemma4Buf::PbResidual,
                dst_off: ((n - 1) * (4 * c.dim)) as usize,
                src: Gemma4Buf::X,
                src_off: 0,
                bytes: (4 * c.dim) as usize,
            },
        ];
        assert(sound(a[0], c, s)) by {
            lemma_sound(a[0], c, s);
        }
        assert(sound(a[1], c, s)) by {
            lemma_sound(a[1], c, s);
        }
        assert(sound(b[0], c, s)) by {
            lemma_sound(b[0], c, s);
        }
        lemma_concat(a, b, c, s);
        lemma_concat(embeds_ops(c, format, tokens, (n - 1) as nat), a + b, c, s);
    }
}

/// A batch reads and writes inside the scratch buffers and leaves the logits alone.
pub proof fn law_prefill_leaves_logits(
    c: Gemma4Config,
    s: Gemma4Scratch,
    w: Gemma4Weights,
    tokens: Seq<u32>,
    start: usize,
    kv: Caches,
    flags: Flags,
)
    requires
        c.batch_fits(),
        shaped(w, c),
        w.layers@.len() >= c.layer_types@.len(),
    ensures
        prefill_ops(c, w, tokens, start, kv, flags) matches Ok(ops) ==> crate::device::confined(
            ops,
            buf_bytes(c, s),
            Gemma4Buf::Logits,
        ),
{
    lemma_nothing(c, s);
    if 0 < tokens.len() <= MAX_PREFILL_BATCH && has_lookup(w.embd_format) {
        let n = tokens.len() as usize;
        let a: Seq<GemmaOp> = seq![
            Op::<Gemma4Buf, Gemma4Wt>::SetPositions { buf: Gemma4Buf::PbPositions, start, n },
        ];
        let b = embeds_ops(c, w.embd_format, tokens, tokens.len());
        assert(sound(a[0], c, s)) by {
            lemma_sound(a[0], c, s);
        }
        lemma_embeds_keep(c, s, w.embd_format, tokens, tokens.len());
        lemma_concat(a, b, c, s);
        let m = c.layer_types@.len();
        lemma_batch_layers_keep(c, s, w, start, n, kv, flags, m);
        lemma_chained(Ok(a + b), batch_layers_ops(c, w.layers@, start, n, kv, flags, m), c, s);
        assert(plan_keeps(prefill_ops(c, w, tokens, start, kv, flags), c, s));
    }
    match prefill_ops(c, w, tokens, start, kv, flags) {
        Ok(ops) => lemma_keeps(ops, c, s),
        Err(e) => {},
    }
}

proof fn lemma_rows_move(c: Gemma4Config, s: Gemma4Scratch, start: usize, t: usize)
    requires
        token_room(c, LayerType::Full),
        t < 128,
    ensures
        keeps(load_row_ops(c, start, t), c, s),
        keeps(store_row_ops(c, t), c, s),
{
    lemma_row_end(t as int, 4 * c.dim);
    let ops = load_row_ops(c, start, t);
    assert(sound(ops[0], c, s)) by {
        lemma_sound(ops[0], c, s);
    }
    assert(sound(ops[1], c, s)) by {
        lemma_sound(ops[1], c, s);
    }
    let back = store_row_ops(c, t);
    assert(sound(back[0], c, s)) by {
        lemma_sound(back[0], c, s);
    }
    assert(sound(back[1], c, s)) by {
        lemma_sound(back[1], c, s);
    }
    assert(sound(back[2], c, s)) by {
        lemma_sound(back[2], c, s);
    }
}

#[verifier::rlimit(40)]
proof fn lemma_dense_row_keeps(
    c: Gemma4Config,
    s: Gemma4Scratch,
    w: LayerCommon,
    i: usize,
    t: usize,
)
    requires
        token_room(c, LayerType::Full),
        t < 128,
    ensures
        keeps(dense_row_ops(c, w, i, t), c, s),
{
    lemma_row_end(t as int, 4 * c.dim);
    let ops = dense_row_ops(c, w, i, t);
    assert(sound(ops[0], c, s)) by {
        lemma_sound(ops[0], c, s);
    }
    assert(sound(ops[1], c, s)) by {
        lemma_sound(ops[1], c, s);
    }
    assert(sound(ops[2], c, s)) by {
        lemma_sound(ops[2], c, s);
    }
    assert(sound(ops[3], c, s)) by {
        lemma_sound(ops[3], c, s);
    }
    assert(sound(ops[4], c, s)) by {
        lemma_sound(ops[4], c, s);
    }
    assert(sound(ops[5], c, s)) by {
        lemma_sound(ops[5], c, s);
    }
    assert(sound(ops[6], c, s)) by {
        lemma_sound(ops[6], c, s);
    }
    assert(sound(ops[7], c, s)) by {
        lemma_sound(ops[7], c, s);
    }
}

proof fn lemma_dense_rows_keep(
    c: Gemma4Config,
    s: Gemma4Scratch,
    w: LayerCommon,
    i: usize,
    n: nat,
)
    requires
        c.batch_fits(),
        n <= 128,
    ensures
        keeps(dense_rows_ops(c, w, i, n), c, s),
    decreases n,
{
    lemma_nothing(c, s);
    if n > 0 {
        let t = (n - 1) as usize;
        lemma_dense_rows_keep(c, s, w, i, (n - 1) as nat);
        lemma_token_sizes(c, LayerType::Full);
        lemma_dense_row_keeps(c, s, w, i, t);
        lemma_concat(dense_rows_ops(c, w, i, (n - 1) as nat), dense_row_ops(c, w, i, t), c, s);
    }
}

proof fn lemma_stepwise_keeps(
    c: Gemma4Config,
    s: Gemma4Scratch,
    w: LayerWeights,
    i: usize,
    start: usize,
    kv: Caches,
    n: nat,
)
    requires
        c.batch_fits(),
        layer_shaped(w, c),
        n <= 128,
    ensures
        plan_keeps(stepwise_ops(c, w, i, start, kv, n), c, s),
    decreases n,
{
    lemma_nothing(c, s);
    if n > 0 {
        let t = (n - 1) as usize;
        let a = load_row_ops(c, start, t);
        let b = layer_ops(c, w, i, (start + t) as usize, kv, true, false);
        let d = store_row_ops(c, t);
        lemma_stepwise_keeps(c, s, w, i, start, kv, (n - 1) as nat);
        lemma_token_sizes(c, LayerType::Full);
        lemma_rows_move(c, s, start, t);
        lemma_layer_keeps(c, s, w, i, (start + t) as usize, kv, true, false);
        lemma_chained(Ok(a), b, c, s);
        lemma_chained(chained(Ok(a), b), Ok(d), c, s);
        lemma_chained(
            stepwise_ops(c, w, i, start, kv, (n - 1) as nat),
            chained(chained(Ok(a), b), Ok(d)),
            c,
            s,
        );
    }
}

proof fn lemma_stepwise_layer_keeps(
    c: Gemma4Config,
    s: Gemma4Scratch,
    w: LayerWeights,
    i: usize,
    start: usize,
    n: usize,
    kv: Caches,
    bucketed: bool,
)
    requires
        c.batch_fits(),
        layer_shaped(w, c),
        n <= 128,
    ensures
        plan_keeps(stepwise_layer_ops(c, w, i, start, n, kv, bucketed), c, s),
{
    let common = common_of(w);
    let all = stepwise_ops(c, w, i, start, kv, n as nat);
    lemma_stepwise_keeps(c, s, w, i, start, kv, n as nat);
    match common.moe {
        Some(m) => {
            let moe = batch_moe_ops(c, m, i, n, bucketed);
            lemma_batch_moe_keeps(c, s, m, i, n, bucketed);
            lemma_batch_finish_keeps(c, s, common);
            lemma_chained(moe, Ok(batch_finish_ops(common)), c, s);
            lemma_chained(all, chained(moe, Ok(batch_finish_ops(common))), c, s);
        },
        None => {
            lemma_dense_rows_keep(c, s, common, i, n as nat);
            lemma_chained(all, Ok(dense_rows_ops(c, common, i, n as nat)), c, s);
        },
    }
}

proof fn lemma_stepwise_layers_keep(
    c: Gemma4Config,
    s: Gemma4Scratch,
    w: Gemma4Weights,
    start: usize,
    n: usize,
    kv: Caches,
    bucketed: bool,
    m: nat,
)
    requires
        c.batch_fits(),
        shaped(w, c),
        n <= 128,
        m <= w.layers@.len(),
    ensures
        plan_keeps(stepwise_layers_ops(c, w.layers@, start, n, kv, bucketed, m), c, s),
    decreases m,
{
    lemma_nothing(c, s);
    if m > 0 {
        let i = (m - 1) as usize;
        let l = w.layers@[m - 1];
        lemma_stepwise_layers_keep(c, s, w, start, n, kv, bucketed, (m - 1) as nat);
        lemma_stepwise_layer_keeps(c, s, l, i, start, n, kv, bucketed);
        lemma_chained(
            stepwise_layers_ops(c, w.layers@, start, n, kv, bucketed, (m - 1) as nat),
            stepwise_layer_ops(c, l, i, start, n, kv, bucketed),
            c,
            s,
        );
    }
}

/// So does a batch that goes token by token up to the experts.
pub proof fn law_stepwise_prefill_leaves_logits(
    c: Gemma4Config,
    s: Gemma4Scratch,
    w: Gemma4Weights,
    tokens: Seq<u32>,
    start: usize,
    kv: Caches,
    bucketed: bool,
)
    requires
        c.batch_fits(),
        shaped(w, c),
        w.layers@.len() >= c.layer_types@.len(),
    ensures
        stepwise_prefill_ops(c, w, tokens, start, kv, bucketed) matches Ok(ops)
            ==> crate::device::confined(ops, buf_bytes(c, s), Gemma4Buf::Logits),
{
    lemma_nothing(c, s);
    if 0 < tokens.len() <= MAX_PREFILL_BATCH && has_lookup(w.embd_format) {
        let n = tokens.len() as usize;
        let a = embeds_ops(c, w.embd_format, tokens, tokens.len());
        let m = c.layer_types@.len();
        lemma_embeds_keep(c, s, w.embd_format, tokens, tokens.len());
        lemma_stepwise_layers_keep(c, s, w, start, n, kv, bucketed, m);
        lemma_chained(
            Ok(a),
            stepwise_layers_ops(c, w.layers@, start, n, kv, bucketed, m),
            c,
            s,
        );
        assert(plan_keeps(stepwise_prefill_ops(c, w, tokens, start, kv, bucketed), c, s));
    }
    match stepwise_prefill_ops(c, w, tokens, start, kv, bucketed) {
        Ok(ops) => lemma_keeps(ops, c, s),
        Err(e) => {},
    }
}

// Every token reaches its cache.

/// The cache of a kind of layer.
pub open spec fn cache_kind(kind: LayerType) -> CacheKind {
    if kind == LayerType::Sliding {
        CacheKind::Sliding
    } else {
        CacheKind::Full
    }
}

/// The write of a batch to the cache of layer `i`.
pub open spec fn batch_store(c: Gemma4Config, i: int, n: usize) -> GemmaOp {
    let kind = c.layer_types@[i];
    Op::KvStoreRows {
        cache: cache_kind(kind),
        form: KvForm::Asym3,
        layer: count_kind(c.layer_types@, kind, i as nat) as usize,
        k: Gemma4Buf::PbK,
        v: Gemma4Buf::PbV,
        positions: Gemma4Buf::PbPositions,
        heads: n_kv_heads(c, kind),
        dim: head_dim(c, kind),
        rows: n,
        capacity: if kind == LayerType::Sliding {
            window(c)
        } else {
            0
        },
    }
}

proof fn lemma_attn_stores(
    c: Gemma4Config,
    w: LayerWeights,
    i: usize,
    start: usize,
    n: usize,
    kv: Caches,
)
    requires
        batch_attn_ops(c, w, i, start, n, kv) is Ok,
    ensures
        batch_attn_ops(c, w, i, start, n, kv)->Ok_0.contains(batch_store(c, i as int, n)),
{
    let kind = c.layer_types@[i as int];
    let x = count_kind(c.layer_types@, kind, i as nat) as usize;
    let ops = batch_attn_ops(c, w, i, start, n, kv)->Ok_0;
    match w {
        LayerWeights::Sliding(l) => {
            assert(ops[9] == batch_store(c, i as int, n));
        },
        LayerWeights::Full(l) => {
            let a = batch_full_in_ops(c, l, i, n) + rotate_rows_ops(c, start, n as nat);
            let b = batch_full_cache_ops(c, x, start, n, kv.full);
            assert((a + b)[a.len() as int] == b[0]);
            assert(ops[a.len() as int] == batch_store(c, i as int, n));
        },
    }
}

proof fn lemma_layers_store(
    c: Gemma4Config,
    layers: Seq<LayerWeights>,
    start: usize,
    n: usize,
    kv: Caches,
    flags: Flags,
    m: nat,
    i: int,
)
    requires
        m <= usize::MAX,
        batch_layers_ops(c, layers, start, n, kv, flags, m) is Ok,
        0 <= i < m,
    ensures
        batch_layers_ops(c, layers, start, n, kv, flags, m)->Ok_0.contains(batch_store(c, i, n)),
    decreases m,
{
    let all = batch_layers_ops(c, layers, start, n, kv, flags, m)->Ok_0;
    let before = batch_layers_ops(c, layers, start, n, kv, flags, (m - 1) as nat)->Ok_0;
    let last = batch_layer_ops(c, layers[m - 1], (m - 1) as usize, start, n, kv, flags)->Ok_0;
    let op = batch_store(c, i, n);
    if i < m - 1 {
        lemma_layers_store(c, layers, start, n, kv, flags, (m - 1) as nat, i);
        let k = choose|k: int| 0 <= k < before.len() && before[k] == op;
        assert(all[k] == op);
    } else {
        lemma_attn_stores(c, layers[i], i as usize, start, n, kv);
        let attn = batch_attn_ops(c, layers[i], i as usize, start, n, kv)->Ok_0;
        let k = choose|k: int| 0 <= k < attn.len() && attn[k] == op;
        assert(last[k] == op);
        assert(all[before.len() + k] == op);
    }
}

/// A batch writes every token to the cache of every layer, at the positions that it
/// starts by putting down.
pub proof fn law_prefill_fills_caches(
    c: Gemma4Config,
    w: Gemma4Weights,
    tokens: Seq<u32>,
    start: usize,
    kv: Caches,
    flags: Flags,
    i: int,
)
    requires
        0 < tokens.len(),
        c.layer_types@.len() <= usize::MAX,
        prefill_ops(c, w, tokens, start, kv, flags) is Ok,
        0 <= i < c.layer_types@.len(),
    ensures
        ({
            let n = tokens.len() as usize;
            let ops = prefill_ops(c, w, tokens, start, kv, flags)->Ok_0;
            &&& ops[0] == Op::<Gemma4Buf, Gemma4Wt>::SetPositions {
                buf: Gemma4Buf::PbPositions,
                start,
                n,
            }
            &&& ops.contains(batch_store(c, i, n))
        }),
{
    let n = tokens.len() as usize;
    let ops = prefill_ops(c, w, tokens, start, kv, flags)->Ok_0;
    let head = seq![
        Op::<Gemma4Buf, Gemma4Wt>::SetPositions { buf: Gemma4Buf::PbPositions, start, n },
    ] + embeds_ops(c, w.embd_format, tokens, tokens.len());
    let m = c.layer_types@.len();
    let layers = batch_layers_ops(c, w.layers@, start, n, kv, flags, m)->Ok_0;
    lemma_layers_store(c, w.layers@, start, n, kv, flags, m, i);
    let k = choose|k: int| 0 <= k < layers.len() && layers[k] == batch_store(c, i, n);
    assert(ops[head.len() + k] == batch_store(c, i, n));
    assert(ops[0] == head[0]);
}

} // verus!
