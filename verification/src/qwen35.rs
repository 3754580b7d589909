//! A language model that mixes linear attention with full attention.
//!
//! A linear-attention layer keeps a recurrent state and a short convolution
//! window instead of a key/value cache.

use vstd::prelude::*;

pub use crate::device::StateQuant;

use crate::device::{extend, free_list, gemv, CacheKind, KvForm, KvSide, Op};
use crate::float::{f64_to_f32, F32};
use crate::hfq::{
    text_config, value_or, ConfigError, HfqFile, D_1E7, D_1E_6, D_QUARTER,
};
use crate::json::Json;
use crate::loading::Loaded;
use crate::names::{joined, numbered_name, push_tensor, LoadKind, TensorSpec};
use crate::quant::{decode_f16, DType, EmbeddingFormat, TensorError, Upload, WeightInfo};

verus! {

/// The two kinds of layers.
#[derive(Debug, Clone, Copy, PartialEq, Eq, Structural)]
pub enum LayerType {
    /// The gated delta rule.
    LinearAttention,
    /// Attention over a cache, with a gated output.
    FullAttention,
}

/// Shape constants of the model.
#[derive(Debug)]
pub struct Qwen35Config {
    pub dim: usize,
    pub n_layers: usize,
    pub vocab_size: usize,
    pub norm_eps: F32,
    pub eos_token: u32,
    pub n_heads: usize,
    pub n_kv_heads: usize,
    pub head_dim: usize,
    pub rope_theta: F32,
    /// The part of a head that positions rotate.
    pub partial_rotary_factor: F32,
    pub linear_num_key_heads: usize,
    pub linear_num_value_heads: usize,
    pub linear_key_head_dim: usize,
    pub linear_value_head_dim: usize,
    pub conv_kernel_dim: usize,
    /// Width of the feed-forward part.
    pub hidden_dim: usize,
    pub layer_types: Vec<LayerType>,
}

// Configuration.

/// The kind of layer that a list entry names; what is not linear is full.
pub open spec fn layer_kind(v: crate::json::JVal) -> LayerType {
    if v.as_str() == Some("linear_attention"@) {
        LayerType::LinearAttention
    } else {
        LayerType::FullAttention
    }
}

/// The kinds of the layers; all full where there is no list.
pub open spec fn layer_kinds(tc: crate::json::JVal, n_layers: nat) -> Seq<LayerType> {
    match tc.get("layer_types"@) {
        Some(v) => match v.as_array() {
            Some(items) => Seq::new(items.len(), |i: int| layer_kind(items[i])),
            None => Seq::new(n_layers, |i: int| LayerType::FullAttention),
        },
        None => Seq::new(n_layers, |i: int| LayerType::FullAttention),
    }
}

/// A member of the rotary section.
pub open spec fn rope_member(tc: crate::json::JVal, key: Seq<char>) -> Option<crate::json::JVal> {
    match tc.get("rope_parameters"@) {
        Some(r) => r.get(key),
        None => None,
    }
}

/// A number in a member that may be missing.
pub open spec fn number_in(v: Option<crate::json::JVal>) -> Option<u64> {
    match v {
        Some(v) => v.as_f64(),
        None => None,
    }
}

/// What has no default is there.
pub open spec fn complete(tc: crate::json::JVal) -> bool {
    &&& tc.get_u64("hidden_size"@) is Some
    &&& tc.get_u64("num_hidden_layers"@) is Some
    &&& tc.get_u64("num_attention_heads"@) is Some
    &&& tc.get_u64("vocab_size"@) is Some
    &&& tc.get_u64("intermediate_size"@) is Some
}

/// A head size is needed and there are no heads.
pub open spec fn zero_heads(meta: crate::json::JVal) -> bool {
    match crate::hfq::text_section(meta) {
        Some(tc) => {
            &&& tc.get_u64("hidden_size"@) is Some
            &&& tc.get_u64("num_hidden_layers"@) is Some
            &&& tc.get_u64("num_attention_heads"@) is Some
            &&& tc.get_u64("num_attention_heads"@)->0 as usize == 0
        },
        None => false,
    }
}

pub open spec fn zero_heads_in(text: Seq<char>) -> bool {
    crate::json::parsed(text) is Some && zero_heads(crate::json::parsed(text)->0)
}

/// A document with a complete text section.
pub open spec fn readable(meta: crate::json::JVal) -> bool {
    crate::hfq::text_section(meta) is Some && complete(crate::hfq::text_section(meta)->0)
}

/// A text that parses to a document with a complete text section.
pub open spec fn readable_in(text: Seq<char>) -> bool {
    crate::json::parsed(text) is Some && readable(crate::json::parsed(text)->0)
}

/// `c` is what the text section `tc` describes. Missing are taken: as many
/// key/value heads as heads, an even share of the width per head, an epsilon of
/// 1e-6, a RoPE base of ten million, a quarter of each head rotated, sixteen
/// linear heads of 128 of either kind, and a convolution over four tokens.
pub open spec fn describes(tc: crate::json::JVal, c: Qwen35Config) -> bool {
    &&& c.dim == tc.get_u64("hidden_size"@)->0 as usize
    &&& c.n_layers == tc.get_u64("num_hidden_layers"@)->0 as usize
    &&& c.n_heads == tc.get_u64("num_attention_heads"@)->0 as usize
    &&& c.n_kv_heads == crate::hfq::or(tc.get_u64("num_key_value_heads"@), c.n_heads as u64) as usize
    &&& c.head_dim == match tc.get_u64("head_dim"@) {
        Some(d) => d as usize,
        None => (c.dim / c.n_heads) as usize,
    }
    &&& c.vocab_size == tc.get_u64("vocab_size"@)->0 as usize
    &&& c.hidden_dim == tc.get_u64("intermediate_size"@)->0 as usize
    &&& c.norm_eps == crate::float::of_double(crate::hfq::or(tc.get_f64("rms_norm_eps"@), D_1E_6))
    &&& c.rope_theta == crate::float::of_double(
        crate::hfq::or(number_in(rope_member(tc, "rope_theta"@)), D_1E7),
    )
    &&& c.partial_rotary_factor == crate::float::of_double(
        crate::hfq::or(
            number_in(
                crate::hfq::or_else(
                    tc.get("partial_rotary_factor"@),
                    rope_member(tc, "partial_rotary_factor"@),
                ),
            ),
            D_QUARTER,
        ),
    )
    &&& c.eos_token == crate::hfq::or(tc.get_u64("eos_token_id"@), 248044) as u32
    &&& c.linear_num_key_heads == crate::hfq::or(tc.get_u64("linear_num_key_heads"@), 16) as usize
    &&& c.linear_num_value_heads == crate::hfq::or(
        tc.get_u64("linear_num_value_heads"@),
        16,
    ) as usize
    &&& c.linear_key_head_dim == crate::hfq::or(tc.get_u64("linear_key_head_dim"@), 128) as usize
    &&& c.linear_value_head_dim == crate::hfq::or(
        tc.get_u64("linear_value_head_dim"@),
        128,
    ) as usize
    &&& c.conv_kernel_dim == crate::hfq::or(tc.get_u64("linear_conv_kernel_dim"@), 4) as usize
    &&& c.layer_types@ == layer_kinds(tc, c.n_layers as nat)
}

fn kind_of(v: &Json) -> (r: LayerType)
    ensures
        r == layer_kind(v@),
{
    match v.as_str() {
        Some(s) => if *s == "linear_attention".to_owned() {
            LayerType::LinearAttention
        } else {
            LayerType::FullAttention
        },
        None => LayerType::FullAttention,
    }
}

fn all_full(n: usize) -> (r: Vec<LayerType>)
    ensures
        r@ == Seq::new(n as nat, |i: int| LayerType::FullAttention),
{
    let mut r: Vec<LayerType> = Vec::new();
    let mut i: usize = 0;
    while i < n
        invariant
            i <= n,
            r@.len() == i,
            forall|k: int| 0 <= k < i ==> #[trigger] r@[k] == LayerType::FullAttention,
        decreases n - i,
    {
        r.push(LayerType::FullAttention);
        i = i + 1;
    }
    assert(r@ =~= Seq::new(n as nat, |i: int| LayerType::FullAttention));
    r
}

fn kinds_of(tc: &Json, n_layers: usize) -> (r: Vec<LayerType>)
    ensures
        r@ == layer_kinds(tc@, n_layers as nat),
{
    let v: &Json = match tc.get("layer_types") {
        Some(v) => v,
        None => return all_full(n_layers),
    };
    let items: &Vec<Json> = match v.as_array() {
        Some(items) => items,
        None => return all_full(n_layers),
    };
    let ghost all = v@.as_array()->0;
    let mut r: Vec<LayerType> = Vec::new();
    let mut i: usize = 0;
    while i < items.len()
        invariant
            i <= items@.len(),
            r@.len() == i,
            all.len() == items@.len(),
            forall|k: int| 0 <= k < items@.len() ==> (#[trigger] items@[k])@ == all[k],
            forall|k: int| 0 <= k < i ==> #[trigger] r@[k] == layer_kind(all[k]),
        decreases items@.len() - i,
    {
        assert(items@[i as int]@ == all[i as int]);
        r.push(kind_of(&items[i]));
        i = i + 1;
    }
    assert(r@ =~= layer_kinds(tc@, n_layers as nat));
    r
}

fn rope_part<'a>(tc: &'a Json, key: &str) -> (r: Option<&'a Json>)
    ensures
        match r {
            Some(v) => rope_member(tc@, key@) == Some(v@),
            None => rope_member(tc@, key@) is None,
        },
{
    match tc.get("rope_parameters") {
        Some(r) => r.get(key),
        None => None,
    }
}

fn double_in(v: Option<&Json>) -> (r: Option<u64>)
    ensures
        r == number_in(match v {
            Some(v) => Some(v@),
            None => None,
        }),
{
    match v {
        Some(v) => v.as_f64(),
        None => None,
    }
}

/// The configuration in a parsed metadata document.
pub fn config_from_metadata(meta: &Json) -> (r: Option<Qwen35Config>)
    requires
        !zero_heads(meta@),
    ensures
        match r {
            Some(c) => readable(meta@) && describes(crate::hfq::text_section(meta@)->0, c),
            None => !readable(meta@),
        },
{
    let tc: &Json = match text_config(meta) {
        Some(tc) => tc,
        None => return None,
    };
    let dim: usize = match tc.get_u64("hidden_size") {
        Some(v) => v as usize,
        None => return None,
    };
    let n_layers: usize = match tc.get_u64("num_hidden_layers") {
        Some(v) => v as usize,
        None => return None,
    };
    let n_heads: usize = match tc.get_u64("num_attention_heads") {
        Some(v) => v as usize,
        None => return None,
    };
    let n_kv_heads: usize = value_or(tc.get_u64("num_key_value_heads"), n_heads as u64) as usize;
    let head_dim: usize = match tc.get_u64("head_dim") {
        Some(v) => v as usize,
        None => dim / n_heads,
    };
    let vocab_size: usize = match tc.get_u64("vocab_size") {
        Some(v) => v as usize,
        None => return None,
    };
    let hidden_dim: usize = match tc.get_u64("intermediate_size") {
        Some(v) => v as usize,
        None => return None,
    };
    let rotary: Option<&Json> = match tc.get("partial_rotary_factor") {
        Some(v) => Some(v),
        None => rope_part(tc, "partial_rotary_factor"),
    };
    Some(
        Qwen35Config {
            dim,
            n_layers,
            vocab_size,
            norm_eps: f64_to_f32(value_or(tc.get_f64("rms_norm_eps"), D_1E_6)),
            eos_token: value_or(tc.get_u64("eos_token_id"), 248044) as u32,
            n_heads,
            n_kv_heads,
            head_dim,
            rope_theta: f64_to_f32(value_or(double_in(rope_part(tc, "rope_theta")), D_1E7)),
            partial_rotary_factor: f64_to_f32(value_or(double_in(rotary), D_QUARTER)),
            linear_num_key_heads: value_or(tc.get_u64("linear_num_key_heads"), 16) as usize,
            linear_num_value_heads: value_or(tc.get_u64("linear_num_value_heads"), 16) as usize,
            linear_key_head_dim: value_or(tc.get_u64("linear_key_head_dim"), 128) as usize,
            linear_value_head_dim: value_or(tc.get_u64("linear_value_head_dim"), 128) as usize,
            conv_kernel_dim: value_or(tc.get_u64("linear_conv_kernel_dim"), 4) as usize,
            hidden_dim,
            layer_types: kinds_of(tc, n_layers),
        },
    )
}

/// Whether a document has no heads to divide by.
pub fn has_zero_heads(meta: &Json) -> (r: bool)
    ensures
        r == zero_heads(meta@),
{
    match text_config(meta) {
        Some(tc) => match tc.get_u64("num_attention_heads") {
            Some(h) => h as usize == 0 && tc.get_u64("hidden_size").is_some() && tc.get_u64(
                "num_hidden_layers",
            ).is_some(),
            None => false,
        },
        None => false,
    }
}

/// The configuration in a model file.
pub fn config_from_hfq(hfq: &HfqFile) -> (r: Option<Qwen35Config>)
    requires
        !zero_heads_in(hfq.metadata_json@),
    ensures
        match r {
            Some(c) => readable_in(hfq.metadata_json@) && describes(
                crate::hfq::text_section(crate::json::parsed(hfq.metadata_json@)->0)->0,
                c,
            ),
            None => !readable_in(hfq.metadata_json@),
        },
{
    match crate::json::parse(hfq.metadata_json.as_str()) {
        Some(meta) => config_from_metadata(&meta),
        None => None,
    }
}

/// Like [`config_from_hfq`], for any model file: one without heads is reported.
pub fn checked_config_from_hfq(hfq: &HfqFile) -> (r: Result<Option<Qwen35Config>, ConfigError>)
    ensures
        match r {
            Ok(Some(c)) => {
                &&& !zero_heads_in(hfq.metadata_json@)
                &&& readable_in(hfq.metadata_json@)
                &&& describes(
                    crate::hfq::text_section(crate::json::parsed(hfq.metadata_json@)->0)->0,
                    c,
                )
            },
            Ok(None) => !zero_heads_in(hfq.metadata_json@) && !readable_in(hfq.metadata_json@),
            Err(e) => zero_heads_in(hfq.metadata_json@) && e == ConfigError::ZeroHeads,
        },
{
    match crate::json::parse(hfq.metadata_json.as_str()) {
        Some(meta) => {
            if has_zero_heads(&meta) {
                return Err(ConfigError::ZeroHeads);
            }
        },
        None => {},
    }
    Ok(config_from_hfq(hfq))
}

// Widths.

impl Qwen35Config {
    /// Width of the linear keys, and of the linear queries.
    pub open spec fn k_dim(self) -> int {
        self.linear_num_key_heads * self.linear_key_head_dim
    }

    /// Width of the linear values.
    pub open spec fn v_dim(self) -> int {
        self.linear_num_value_heads * self.linear_value_head_dim
    }

    /// Width of what the convolution runs over.
    pub open spec fn qkv_dim(self) -> int {
        self.k_dim() * 2 + self.v_dim()
    }

    pub open spec fn q_dim(self) -> int {
        self.n_heads * self.head_dim
    }

    pub open spec fn kv_dim(self) -> int {
        self.n_kv_heads * self.head_dim
    }

    /// Every buffer and every weight of a layer can be addressed.
    pub open spec fn fits(self) -> bool {
        &&& 4 * self.qkv_dim() <= usize::MAX
        &&& 8 * self.q_dim() <= usize::MAX
        &&& 4 * self.kv_dim() <= usize::MAX
        &&& 4 * (self.linear_num_value_heads * self.linear_key_head_dim) <= usize::MAX
        &&& self.qkv_dim() * self.conv_kernel_dim <= usize::MAX
    }
}

impl Qwen35Config {
    /// Whether every buffer and every weight of a layer can be addressed.
    pub fn is_addressable(&self) -> (r: bool)
        ensures
            r == self.fits(),
    {
        proof {
            lemma_widths(*self);
        }
        let k: usize = self.linear_num_key_heads;
        let kd: usize = self.linear_key_head_dim;
        let v: usize = self.linear_num_value_heads;
        let vd: usize = self.linear_value_head_dim;
        if !crate::device::addresses(k, kd, 8) || !crate::device::addresses(v, vd, 4) {
            return false;
        }
        let qkv: Option<usize> = (k * kd * 2).checked_add(v * vd);
        match qkv {
            Some(n) => crate::device::addresses(n, 1, 4) && crate::device::addresses(
                n,
                self.conv_kernel_dim,
                1,
            ) && crate::device::addresses(self.n_heads, self.head_dim, 8)
                && crate::device::addresses(self.n_kv_heads, self.head_dim, 4)
                && crate::device::addresses(v, kd, 4),
            None => false,
        }
    }
}

proof fn lemma_widths(c: Qwen35Config)
    ensures
        0 <= c.k_dim(),
        0 <= c.v_dim(),
        0 <= c.q_dim(),
        0 <= c.kv_dim(),
        0 <= c.linear_num_value_heads * c.linear_key_head_dim,
{
    assert(0 <= c.linear_num_key_heads * c.linear_key_head_dim) by (nonlinear_arith);
    assert(0 <= c.linear_num_value_heads * c.linear_value_head_dim) by (nonlinear_arith);
    assert(0 <= c.n_heads * c.head_dim) by (nonlinear_arith);
    assert(0 <= c.n_kv_heads * c.head_dim) by (nonlinear_arith);
    assert(0 <= c.linear_num_value_heads * c.linear_key_head_dim) by (nonlinear_arith);
}

// Tensors.

/// The parts of a layer.
#[derive(Debug, Clone, Copy, PartialEq, Eq, Structural)]
pub enum LayerPart {
    AttnNorm,
    Wqkv,
    Wz,
    WAlpha,
    WBeta,
    ALog,
    DtBias,
    ConvWeight,
    NormWeight,
    Wq,
    Wk,
    Wv,
    Wo,
    QNorm,
    KNorm,
    FfnNorm,
    WGate,
    WUp,
    WDown,
}

/// The weights of the model.
#[derive(Debug, Clone, Copy, PartialEq, Eq, Structural)]
pub enum Qwen35Wt {
    TokenEmbd,
    OutputNorm,
    Output,
    Layer(usize, LayerPart),
}

/// The matrices of a linear-attention layer.
#[derive(Debug, Clone, Copy)]
pub struct DeltaNetLayerWeights {
    pub wqkv: WeightInfo,
    pub wz: WeightInfo,
    pub w_alpha: WeightInfo,
    pub w_beta: WeightInfo,
    pub wo: WeightInfo,
    pub w_gate: WeightInfo,
    pub w_up: WeightInfo,
    pub w_down: WeightInfo,
}

/// The matrices of a full-attention layer.
#[derive(Debug, Clone, Copy)]
pub struct FullAttnLayerWeights {
    /// Queries and gates, twice as wide.
    pub wq: WeightInfo,
    pub wk: WeightInfo,
    pub wv: WeightInfo,
    pub wo: WeightInfo,
    pub w_gate: WeightInfo,
    pub w_up: WeightInfo,
    pub w_down: WeightInfo,
}

/// The matrices of a layer.
#[derive(Debug, Clone, Copy)]
pub enum LayerWeights {
    DeltaNet(DeltaNetLayerWeights),
    FullAttn(FullAttnLayerWeights),
}

/// The matrices of the model.
pub struct Qwen35Weights {
    pub embd_format: EmbeddingFormat,
    pub output: WeightInfo,
    pub layers: Vec<LayerWeights>,
}

/// Where a tensor may be found, the likelier name first.
pub fn lookup_names(name: &str) -> (r: Vec<String>)
    ensures
        r@.len() == 2,
        r@[0]@ == "model.language_model."@ + name@,
        r@[1]@ == name@,
{
    let mut r: Vec<String> = Vec::new();
    r.push(joined("model.language_model.", name));
    r.push(name.to_owned());
    r
}

/// The element type of a weight that is uploaded as stored.
pub open spec fn stored_dtype(quant_type: u8) -> Option<DType> {
    if quant_type == 3 || quant_type == 6 || quant_type == 7 || quant_type == 8 {
        crate::quant::raw_dtype(quant_type)
    } else {
        None
    }
}

fn stored_dtype_of(quant_type: u8) -> (r: Option<DType>)
    ensures
        r == stored_dtype(quant_type),
{
    if quant_type == 3 || quant_type == 6 || quant_type == 7 || quant_type == 8 {
        crate::quant::raw_dtype_of(quant_type)
    } else {
        None
    }
}

/// A weight of `m` rows of `k` from its stored bytes: four-, six- and eight-bit
/// ones as stored, half precision as single; nothing else.
pub fn load_weight_tensor_raw(quant_type: u8, data: &[u8], m: usize, k: usize) -> (r: Result<
    (WeightInfo, Upload),
    TensorError,
>)
    ensures
        match r {
            Ok((info, up)) => {
                &&& info.m == m && info.k == k
                &&& match up {
                    Upload::Halves(_) => false,
                    Upload::Raw => stored_dtype(quant_type) == Some(info.dtype),
                    Upload::Singles(v) => {
                        &&& quant_type == 1
                        &&& info.dtype == DType::F32
                        &&& v@ == crate::quant::halves(data@)
                    },
                }
            },
            Err(e) => {
                &&& stored_dtype(quant_type) is None
                &&& quant_type != 1
                &&& e == TensorError::QuantType(quant_type)
            },
        },
{
    match stored_dtype_of(quant_type) {
        Some(dtype) => Ok((WeightInfo { dtype, m, k }, Upload::Raw)),
        None => {
            if quant_type == 1 {
                Ok((WeightInfo { dtype: DType::F32, m, k }, Upload::Singles(decode_f16(data))))
            } else {
                Err(TensorError::QuantType(quant_type))
            }
        },
    }
}

/// The lookup format of a stored embedding table.
pub open spec fn embd_format(quant_type: u8) -> EmbeddingFormat {
    if quant_type == 6 {
        EmbeddingFormat::HFQ4G256
    } else if quant_type == 7 {
        EmbeddingFormat::HFQ4G128
    } else if quant_type == 3 {
        EmbeddingFormat::Q8_0
    } else {
        EmbeddingFormat::F32
    }
}

/// An embedding table: four- and eight-bit ones as stored, anything else as half
/// precision turned into single.
pub fn load_embeddings(quant_type: u8, data: &[u8]) -> (r: (EmbeddingFormat, Upload))
    ensures
        r.0 == embd_format(quant_type),
        match r.1 {
            Upload::Halves(_) => false,
            Upload::Raw => embd_format(quant_type) != EmbeddingFormat::F32,
            Upload::Singles(v) => embd_format(quant_type) == EmbeddingFormat::F32 && v@
                == crate::quant::halves(data@),
        },
{
    if quant_type == 6 {
        (EmbeddingFormat::HFQ4G256, Upload::Raw)
    } else if quant_type == 7 {
        (EmbeddingFormat::HFQ4G128, Upload::Raw)
    } else if quant_type == 3 {
        (EmbeddingFormat::Q8_0, Upload::Raw)
    } else {
        (EmbeddingFormat::F32, Upload::Singles(decode_f16(data)))
    }
}

/// The embedding table as the output matrix.
pub fn tied_output(quant_type: u8, data: &[u8], vocab: usize, dim: usize) -> (r: (
    WeightInfo,
    Upload,
))
    ensures
        r.0.m == vocab,
        r.0.k == dim,
        match r.1 {
            Upload::Halves(_) => false,
            Upload::Raw => stored_dtype(quant_type) == Some(r.0.dtype),
            Upload::Singles(v) => {
                &&& stored_dtype(quant_type) is None
                &&& r.0.dtype == DType::F32
                &&& v@ == crate::quant::halves(data@)
            },
        },
{
    match stored_dtype_of(quant_type) {
        Some(dtype) => (WeightInfo { dtype, m: vocab, k: dim }, Upload::Raw),
        None => (
            WeightInfo { dtype: DType::F32, m: vocab, k: dim },
            Upload::Singles(decode_f16(data)),
        ),
    }
}

/// Where a separate output matrix may be found; without one the embedding table
/// serves.
pub fn output_names() -> (r: Vec<String>)
    ensures
        r@.len() == 2,
        r@[0]@ == "lm_head.weight"@,
        r@[1]@ == "model.language_model.lm_head.weight"@,
{
    let mut r: Vec<String> = Vec::new();
    r.push("lm_head.weight".to_owned());
    r.push("model.language_model.lm_head.weight".to_owned());
    r
}

pub open spec fn tensor(
    place: Qwen35Wt,
    i: nat,
    tail: Seq<char>,
    kind: LoadKind,
    m: nat,
    k: nat,
) -> crate::names::Tensor<Qwen35Wt> {
    crate::names::Tensor { place, name: crate::names::numbered("layers."@, i, tail), kind, m, k }
}

/// The tensors of layer `i`, if it is a linear-attention layer.
pub open spec fn linear_tensors(c: Qwen35Config, i: nat) -> Seq<crate::names::Tensor<Qwen35Wt>> {
    let dim = c.dim as nat;
    let qkv = c.qkv_dim() as nat;
    let inner = c.v_dim() as nat;
    let nv = c.linear_num_value_heads as nat;
    let conv = (c.qkv_dim() * c.conv_kernel_dim) as nat;
    let vd = c.linear_value_head_dim as nat;
    let ffn = c.hidden_dim as nat;
    seq![
        tensor(
            Qwen35Wt::Layer(i as usize, LayerPart::AttnNorm),
            i,
            ".input_layernorm.weight"@,
            LoadKind::ShiftedNorm,
            1,
            dim,
        ),
        tensor(
            Qwen35Wt::Layer(i as usize, LayerPart::Wqkv),
            i,
            ".linear_attn.in_proj_qkv.weight"@,
            LoadKind::Weight,
            qkv,
            dim,
        ),
        tensor(
            Qwen35Wt::Layer(i as usize, LayerPart::Wz),
            i,
            ".linear_attn.in_proj_z.weight"@,
            LoadKind::Weight,
            inner,
            dim,
        ),
        tensor(
            Qwen35Wt::Layer(i as usize, LayerPart::WAlpha),
            i,
            ".linear_attn.in_proj_a.weight"@,
            LoadKind::Weight,
            nv,
            dim,
        ),
        tensor(
            Qwen35Wt::Layer(i as usize, LayerPart::WBeta),
            i,
            ".linear_attn.in_proj_b.weight"@,
            LoadKind::Weight,
            nv,
            dim,
        ),
        tensor(
            Qwen35Wt::Layer(i as usize, LayerPart::ALog),
            i,
            ".linear_attn.A_log"@,
            LoadKind::Numbers,
            1,
            nv,
        ),
        tensor(
            Qwen35Wt::Layer(i as usize, LayerPart::DtBias),
            i,
            ".linear_attn.dt_bias"@,
            LoadKind::Numbers,
            1,
            nv,
        ),
        tensor(
            Qwen35Wt::Layer(i as usize, LayerPart::ConvWeight),
            i,
            ".linear_attn.conv1d.weight"@,
            LoadKind::Numbers,
            1,
            conv,
        ),
        tensor(
            Qwen35Wt::Layer(i as usize, LayerPart::NormWeight),
            i,
            ".linear_attn.norm.weight"@,
            LoadKind::Numbers,
            1,
            vd,
        ),
        tensor(
            Qwen35Wt::Layer(i as usize, LayerPart::Wo),
            i,
            ".linear_attn.out_proj.weight"@,
            LoadKind::Weight,
            dim,
            inner,
        ),
        tensor(
            Qwen35Wt::Layer(i as usize, LayerPart::FfnNorm),
            i,
            ".post_attention_layernorm.weight"@,
            LoadKind::ShiftedNorm,
            1,
            dim,
        ),
        tensor(
            Qwen35Wt::Layer(i as usize, LayerPart::WGate),
            i,
            ".mlp.gate_proj.weight"@,
            LoadKind::Weight,
            ffn,
            dim,
        ),
        tensor(
            Qwen35Wt::Layer(i as usize, LayerPart::WUp),
            i,
            ".mlp.up_proj.weight"@,
            LoadKind::Weight,
            ffn,
            dim,
        ),
        tensor(
            Qwen35Wt::Layer(i as usize, LayerPart::WDown),
            i,
            ".mlp.down_proj.weight"@,
            LoadKind::Weight,
            dim,
            ffn,
        ),
    ]
}

/// The tensors of layer `i`, if it is a full-attention layer.
pub open spec fn full_tensors(c: Qwen35Config, i: nat) -> Seq<crate::names::Tensor<Qwen35Wt>> {
    let dim = c.dim as nat;
    let q = c.q_dim() as nat;
    let q2 = (c.q_dim() * 2) as nat;
    let kv = c.kv_dim() as nat;
    let hd = c.head_dim as nat;
    let ffn = c.hidden_dim as nat;
    seq![
        tensor(
            Qwen35Wt::Layer(i as usize, LayerPart::AttnNorm),
            i,
            ".input_layernorm.weight"@,
            LoadKind::ShiftedNorm,
            1,
            dim,
        ),
        tensor(
            Qwen35Wt::Layer(i as usize, LayerPart::Wq),
            i,
            ".self_attn.q_proj.weight"@,
            LoadKind::Weight,
            q2,
            dim,
        ),
        tensor(
            Qwen35Wt::Layer(i as usize, LayerPart::Wk),
            i,
            ".self_attn.k_proj.weight"@,
            LoadKind::Weight,
            kv,
            dim,
        ),
        tensor(
            Qwen35Wt::Layer(i as usize, LayerPart::Wv),
            i,
            ".self_attn.v_proj.weight"@,
            LoadKind::Weight,
            kv,
            dim,
        ),
        tensor(
            Qwen35Wt::Layer(i as usize, LayerPart::Wo),
            i,
            ".self_attn.o_proj.weight"@,
            LoadKind::Weight,
            dim,
            q,
        ),
        tensor(
            Qwen35Wt::Layer(i as usize, LayerPart::QNorm),
            i,
            ".self_attn.q_norm.weight"@,
            LoadKind::ShiftedNorm,
            1,
            hd,
        ),
        tensor(
            Qwen35Wt::Layer(i as usize, LayerPart::KNorm),
            i,
            ".self_attn.k_norm.weight"@,
            LoadKind::ShiftedNorm,
            1,
            hd,
        ),
        tensor(
            Qwen35Wt::Layer(i as usize, LayerPart::FfnNorm),
            i,
            ".post_attention_layernorm.weight"@,
            LoadKind::ShiftedNorm,
            1,
            dim,
        ),
        tensor(
            Qwen35Wt::Layer(i as usize, LayerPart::WGate),
            i,
            ".mlp.gate_proj.weight"@,
            LoadKind::Weight,
            ffn,
            dim,
        ),
        tensor(
            Qwen35Wt::Layer(i as usize, LayerPart::WUp),
            i,
            ".mlp.up_proj.weight"@,
            LoadKind::Weight,
            ffn,
            dim,
        ),
        tensor(
            Qwen35Wt::Layer(i as usize, LayerPart::WDown),
            i,
            ".mlp.down_proj.weight"@,
            LoadKind::Weight,
            dim,
            ffn,
        ),
    ]
}

/// The tensors of layer `i`.
#[verifier::opaque]
pub open spec fn layer_tensors(c: Qwen35Config, linear: bool, i: nat) -> Seq<
    crate::names::Tensor<Qwen35Wt>,
> {
    if linear {
        linear_tensors(c, i)
    } else {
        full_tensors(c, i)
    }
}

/// Layer `i` is a linear-attention layer.
pub open spec fn is_linear(c: Qwen35Config, i: int) -> bool {
    c.layer_types@[i] == LayerType::LinearAttention
}

/// The tensors of the first `n` layers.
pub open spec fn layers_tensors(c: Qwen35Config, n: nat) -> Seq<crate::names::Tensor<Qwen35Wt>>
    decreases n,
{
    if n == 0 {
        Seq::empty()
    } else {
        layers_tensors(c, (n - 1) as nat) + layer_tensors(
            c,
            is_linear(c, n - 1),
            (n - 1) as nat,
        )
    }
}

fn push_linear(v: &mut Vec<TensorSpec<Qwen35Wt>>, c: &Qwen35Config, i: usize)
    requires
        c.fits(),
    ensures
        crate::names::tensors(final(v)@) == crate::names::tensors(old(v)@) + linear_tensors(
            *c,
            i as nat,
        ),
{
    proof {
        lemma_widths(*c);
    }
    let ghost before = crate::names::tensors(v@);
    let dim: usize = c.dim;
    let nv: usize = c.linear_num_value_heads;
    let vd: usize = c.linear_value_head_dim;
    let inner: usize = nv * vd;
    let qkv: usize = c.linear_num_key_heads * c.linear_key_head_dim * 2 + inner;
    let conv: usize = qkv * c.conv_kernel_dim;
    let ffn: usize = c.hidden_dim;
    push_tensor(
        v,
        Qwen35Wt::Layer(i, LayerPart::AttnNorm),
        numbered_name("layers.", i, ".input_layernorm.weight"),
        LoadKind::ShiftedNorm,
        1,
        dim,
    );
    push_tensor(
        v,
        Qwen35Wt::Layer(i, LayerPart::Wqkv),
        numbered_name("layers.", i, ".linear_attn.in_proj_qkv.weight"),
        LoadKind::Weight,
        qkv,
        dim,
    );
    push_tensor(
        v,
        Qwen35Wt::Layer(i, LayerPart::Wz),
        numbered_name("layers.", i, ".linear_attn.in_proj_z.weight"),
        LoadKind::Weight,
        inner,
        dim,
    );
    push_tensor(
        v,
        Qwen35Wt::Layer(i, LayerPart::WAlpha),
        numbered_name("layers.", i, ".linear_attn.in_proj_a.weight"),
        LoadKind::Weight,
        nv,
        dim,
    );
    push_tensor(
        v,
        Qwen35Wt::Layer(i, LayerPart::WBeta),
        numbered_name("layers.", i, ".linear_attn.in_proj_b.weight"),
        LoadKind::Weight,
        nv,
        dim,
    );
    push_tensor(
        v,
        Qwen35Wt::Layer(i, LayerPart::ALog),
        numbered_name("layers.", i, ".linear_attn.A_log"),
        LoadKind::Numbers,
        1,
        nv,
    );
    push_tensor(
        v,
        Qwen35Wt::Layer(i, LayerPart::DtBias),
        numbered_name("layers.", i, ".linear_attn.dt_bias"),
        LoadKind::Numbers,
        1,
        nv,
    );
    push_tensor(
        v,
        Qwen35Wt::Layer(i, LayerPart::ConvWeight),
        numbered_name("layers.", i, ".linear_attn.conv1d.weight"),
        LoadKind::Numbers,
        1,
        conv,
    );
    push_tensor(
        v,
        Qwen35Wt::Layer(i, LayerPart::NormWeight),
        numbered_name("layers.", i, ".linear_attn.norm.weight"),
        LoadKind::Numbers,
        1,
        vd,
    );
    push_tensor(
        v,
        Qwen35Wt::Layer(i, LayerPart::Wo),
        numbered_name("layers.", i, ".linear_attn.out_proj.weight"),
        LoadKind::Weight,
        dim,
        inner,
    );
    push_tensor(
        v,
        Qwen35Wt::Layer(i, LayerPart::FfnNorm),
        numbered_name("layers.", i, ".post_attention_layernorm.weight"),
        LoadKind::ShiftedNorm,
        1,
        dim,
    );
    push_tensor(
        v,
        Qwen35Wt::Layer(i, LayerPart::WGate),
        numbered_name("layers.", i, ".mlp.gate_proj.weight"),
        LoadKind::Weight,
        ffn,
        dim,
    );
    push_tensor(
        v,
        Qwen35Wt::Layer(i, LayerPart::WUp),
        numbered_name("layers.", i, ".mlp.up_proj.weight"),
        LoadKind::Weight,
        ffn,
        dim,
    );
    push_tensor(
        v,
        Qwen35Wt::Layer(i, LayerPart::WDown),
        numbered_name("layers.", i, ".mlp.down_proj.weight"),
        LoadKind::Weight,
        dim,
        ffn,
    );
    assert(crate::names::tensors(v@) =~= before + linear_tensors(*c, i as nat));
}

fn push_full(v: &mut Vec<TensorSpec<Qwen35Wt>>, c: &Qwen35Config, i: usize)
    requires
        c.fits(),
    ensures
        crate::names::tensors(final(v)@) == crate::names::tensors(old(v)@) + full_tensors(
            *c,
            i as nat,
        ),
{
    proof {
        lemma_widths(*c);
    }
    let ghost before = crate::names::tensors(v@);
    let dim: usize = c.dim;
    let hd: usize = c.head_dim;
    let q: usize = c.n_heads * hd;
    let q2: usize = q * 2;
    let kv: usize = c.n_kv_heads * hd;
    let ffn: usize = c.hidden_dim;
    push_tensor(
        v,
        Qwen35Wt::Layer(i, LayerPart::AttnNorm),
        numbered_name("layers.", i, ".input_layernorm.weight"),
        LoadKind::ShiftedNorm,
        1,
        dim,
    );
    push_tensor(
        v,
        Qwen35Wt::Layer(i, LayerPart::Wq),
        numbered_name("layers.", i, ".self_attn.q_proj.weight"),
        LoadKind::Weight,
        q2,
        dim,
    );
    push_tensor(
        v,
        Qwen35Wt::Layer(i, LayerPart::Wk),
        numbered_name("layers.", i, ".self_attn.k_proj.weight"),
        LoadKind::Weight,
        kv,
        dim,
    );
    push_tensor(
        v,
        Qwen35Wt::Layer(i, LayerPart::Wv),
        numbered_name("layers.", i, ".self_attn.v_proj.weight"),
        LoadKind::Weight,
        kv,
        dim,
    );
    push_tensor(
        v,
        Qwen35Wt::Layer(i, LayerPart::Wo),
        numbered_name("layers.", i, ".self_attn.o_proj.weight"),
        LoadKind::Weight,
        dim,
        q,
    );
    push_tensor(
        v,
        Qwen35Wt::Layer(i, LayerPart::QNorm),
        numbered_name("layers.", i, ".self_attn.q_norm.weight"),
        LoadKind::ShiftedNorm,
        1,
        hd,
    );
    push_tensor(
        v,
        Qwen35Wt::Layer(i, LayerPart::KNorm),
        numbered_name("layers.", i, ".self_attn.k_norm.weight"),
        LoadKind::ShiftedNorm,
        1,
        hd,
    );
    push_tensor(
        v,
        Qwen35Wt::Layer(i, LayerPart::FfnNorm),
        numbered_name("layers.", i, ".post_attention_layernorm.weight"),
        LoadKind::ShiftedNorm,
        1,
        dim,
    );
    push_tensor(
        v,
        Qwen35Wt::Layer(i, LayerPart::WGate),
        numbered_name("layers.", i, ".mlp.gate_proj.weight"),
        LoadKind::Weight,
        ffn,
        dim,
    );
    push_tensor(
        v,
        Qwen35Wt::Layer(i, LayerPart::WUp),
        numbered_name("layers.", i, ".mlp.up_proj.weight"),
        LoadKind::Weight,
        ffn,
        dim,
    );
    push_tensor(
        v,
        Qwen35Wt::Layer(i, LayerPart::WDown),
        numbered_name("layers.", i, ".mlp.down_proj.weight"),
        LoadKind::Weight,
        dim,
        ffn,
    );
    assert(crate::names::tensors(v@) =~= before + full_tensors(*c, i as nat));
}

/// The embedding table, the final norm and the output matrix.
pub open spec fn head_tensors(c: Qwen35Config) -> Seq<crate::names::Tensor<Qwen35Wt>> {
    seq![
        crate::names::Tensor {
            place: Qwen35Wt::TokenEmbd,
            name: "model.language_model.embed_tokens.weight"@,
            kind: LoadKind::AnyEmbedding,
            m: c.vocab_size as nat,
            k: c.dim as nat,
        },
        crate::names::Tensor {
            place: Qwen35Wt::OutputNorm,
            name: "norm.weight"@,
            kind: LoadKind::ShiftedNorm,
            m: 1,
            k: c.dim as nat,
        },
        crate::names::Tensor {
            place: Qwen35Wt::Output,
            name: "lm_head.weight"@,
            kind: LoadKind::Head,
            m: c.vocab_size as nat,
            k: c.dim as nat,
        },
    ]
}

/// All the tensors of the model, in the order in which they are loaded.
pub open spec fn all_tensors(c: Qwen35Config) -> Seq<crate::names::Tensor<Qwen35Wt>> {
    head_tensors(c) + layers_tensors(c, c.n_layers as nat)
}

/// The tensors to load, in order.
pub fn load_weights(c: &Qwen35Config) -> (r: Vec<TensorSpec<Qwen35Wt>>)
    requires
        c.fits(),
        c.layer_types@.len() >= c.n_layers,
    ensures
        crate::names::tensors(r@) == all_tensors(*c),
{
    let mut v: Vec<TensorSpec<Qwen35Wt>> = Vec::new();
    assert(crate::names::tensors(v@) =~= Seq::<crate::names::Tensor<Qwen35Wt>>::empty());
    push_tensor(
        &mut v,
        Qwen35Wt::TokenEmbd,
        "model.language_model.embed_tokens.weight".to_owned(),
        LoadKind::AnyEmbedding,
        c.vocab_size,
        c.dim,
    );
    push_tensor(
        &mut v,
        Qwen35Wt::OutputNorm,
        "norm.weight".to_owned(),
        LoadKind::ShiftedNorm,
        1,
        c.dim,
    );
    push_tensor(
        &mut v,
        Qwen35Wt::Output,
        "lm_head.weight".to_owned(),
        LoadKind::Head,
        c.vocab_size,
        c.dim,
    );
    let ghost head = crate::names::tensors(v@);
    proof {
        assert(head + layers_tensors(*c, 0) =~= head);
    }
    let mut i: usize = 0;
    while i < c.n_layers
        invariant
            i <= c.n_layers <= c.layer_types@.len(),
            c.fits(),
            crate::names::tensors(v@) == head + layers_tensors(*c, i as nat),
        decreases c.n_layers - i,
    {
        if c.layer_types[i] == LayerType::LinearAttention {
            push_linear(&mut v, c, i);
        } else {
            push_full(&mut v, c, i);
        }
        proof {
            reveal(layer_tensors);
            assert(crate::names::tensors(v@) =~= head + layers_tensors(*c, (i + 1) as nat));
        }
        i = i + 1;
    }
    assert(head =~= head_tensors(*c));
    v
}

// Assembly.

/// What a layer keeps of the tensor in a place.
pub open spec fn kept_info(w: LayerWeights, place: Qwen35Wt) -> Option<WeightInfo> {
    match place {
        Qwen35Wt::Layer(_, part) => match w {
            LayerWeights::DeltaNet(l) => match part {
                LayerPart::Wqkv => Some(l.wqkv),
                LayerPart::Wz => Some(l.wz),
                LayerPart::WAlpha => Some(l.w_alpha),
                LayerPart::WBeta => Some(l.w_beta),
                LayerPart::Wo => Some(l.wo),
                LayerPart::WGate => Some(l.w_gate),
                LayerPart::WUp => Some(l.w_up),
                LayerPart::WDown => Some(l.w_down),
                _ => None,
            },
            LayerWeights::FullAttn(l) => match part {
                LayerPart::Wq => Some(l.wq),
                LayerPart::Wk => Some(l.wk),
                LayerPart::Wv => Some(l.wv),
                LayerPart::Wo => Some(l.wo),
                LayerPart::WGate => Some(l.w_gate),
                LayerPart::WUp => Some(l.w_up),
                LayerPart::WDown => Some(l.w_down),
                _ => None,
            },
        },
        _ => None,
    }
}

/// A layer holds the tensor of an entry in the place of that entry.
pub open spec fn holds(
    w: LayerWeights,
    e: crate::names::Tensor<Qwen35Wt>,
    l: crate::loading::Told,
) -> bool {
    e.kind == LoadKind::Weight ==> kept_info(w, e.place) == Some(l.info)
}

/// Place, kind and size of entry `k` of layer `i`.
pub open spec fn slot(c: Qwen35Config, linear: bool, i: nat, k: int) -> (
    Qwen35Wt,
    LoadKind,
    nat,
    nat,
) {
    let x = i as usize;
    let dim = c.dim as nat;
    let qkv = c.qkv_dim() as nat;
    let inner = c.v_dim() as nat;
    let nv = c.linear_num_value_heads as nat;
    let conv = (c.qkv_dim() * c.conv_kernel_dim) as nat;
    let vd = c.linear_value_head_dim as nat;
    let ffn = c.hidden_dim as nat;
    let q = c.q_dim() as nat;
    let q2 = (c.q_dim() * 2) as nat;
    let kv = c.kv_dim() as nat;
    let hd = c.head_dim as nat;
    if linear {
        if k == 0 {
            (Qwen35Wt::Layer(x, LayerPart::AttnNorm), LoadKind::ShiftedNorm, 1, dim)
        } else if k == 1 {
            (Qwen35Wt::Layer(x, LayerPart::Wqkv), LoadKind::Weight, qkv, dim)
        } else if k == 2 {
            (Qwen35Wt::Layer(x, LayerPart::Wz), LoadKind::Weight, inner, dim)
        } else if k == 3 {
            (Qwen35Wt::Layer(x, LayerPart::WAlpha), LoadKind::Weight, nv, dim)
        } else if k == 4 {
            (Qwen35Wt::Layer(x, LayerPart::WBeta), LoadKind::Weight, nv, dim)
        } else if k == 5 {
            (Qwen35Wt::Layer(x, LayerPart::ALog), LoadKind::Numbers, 1, nv)
        } else if k == 6 {
            (Qwen35Wt::Layer(x, LayerPart::DtBias), LoadKind::Numbers, 1, nv)
        } else if k == 7 {
            (Qwen35Wt::Layer(x, LayerPart::ConvWeight), LoadKind::Numbers, 1, conv)
        } else if k == 8 {
            (Qwen35Wt::Layer(x, LayerPart::NormWeight), LoadKind::Numbers, 1, vd)
        } else if k == 9 {
            (Qwen35Wt::Layer(x, LayerPart::Wo), LoadKind::Weight, dim, inner)
        } else if k == 10 {
            (Qwen35Wt::Layer(x, LayerPart::FfnNorm), LoadKind::ShiftedNorm, 1, dim)
        } else if k == 11 {
            (Qwen35Wt::Layer(x, LayerPart::WGate), LoadKind::Weight, ffn, dim)
        } else if k == 12 {
            (Qwen35Wt::Layer(x, LayerPart::WUp), LoadKind::Weight, ffn, dim)
        } else {
            (Qwen35Wt::Layer(x, LayerPart::WDown), LoadKind::Weight, dim, ffn)
        }
    } else {
        if k == 0 {
            (Qwen35Wt::Layer(x, LayerPart::AttnNorm), LoadKind::ShiftedNorm, 1, dim)
        } else if k == 1 {
            (Qwen35Wt::Layer(x, LayerPart::Wq), LoadKind::Weight, q2, dim)
        } else if k == 2 {
            (Qwen35Wt::Layer(x, LayerPart::Wk), LoadKind::Weight, kv, dim)
        } else if k == 3 {
            (Qwen35Wt::Layer(x, LayerPart::Wv), LoadKind::Weight, kv, dim)
        } else if k == 4 {
            (Qwen35Wt::Layer(x, LayerPart::Wo), LoadKind::Weight, dim, q)
        } else if k == 5 {
            (Qwen35Wt::Layer(x, LayerPart::QNorm), LoadKind::ShiftedNorm, 1, hd)
        } else if k == 6 {
            (Qwen35Wt::Layer(x, LayerPart::KNorm), LoadKind::ShiftedNorm, 1, hd)
        } else if k == 7 {
            (Qwen35Wt::Layer(x, LayerPart::FfnNorm), LoadKind::ShiftedNorm, 1, dim)
        } else if k == 8 {
            (Qwen35Wt::Layer(x, LayerPart::WGate), LoadKind::Weight, ffn, dim)
        } else if k == 9 {
            (Qwen35Wt::Layer(x, LayerPart::WUp), LoadKind::Weight, ffn, dim)
        } else {
            (Qwen35Wt::Layer(x, LayerPart::WDown), LoadKind::Weight, dim, ffn)
        }
    }
}

pub open spec fn in_slot(
    e: crate::names::Tensor<Qwen35Wt>,
    s: (Qwen35Wt, LoadKind, nat, nat),
) -> bool {
    e.place == s.0 && e.kind == s.1 && e.m == s.2 && e.k == s.3
}

/// Entry `k` of a layer's tensors.
proof fn lemma_layer_entry(c: Qwen35Config, linear: bool, i: nat, k: int)
    ensures
        layer_tensors(c, linear, i).len() == if linear {
            14int
        } else {
            11int
        },
        0 <= k < layer_tensors(c, linear, i).len() ==> in_slot(
            layer_tensors(c, linear, i)[k],
            slot(c, linear, i, k),
        ),
{
    reveal(layer_tensors);
}

/// Entry `k` of the tensors of layer `i`, among those of `n` layers.
proof fn lemma_layers_entry(c: Qwen35Config, i: int, n: nat, k: int)
    requires
        0 <= i < n,
        0 <= k < layer_tensors(c, is_linear(c, i), i as nat).len(),
    ensures
        layers_tensors(c, i as nat).len() + k < layers_tensors(c, n).len(),
        layers_tensors(c, n)[layers_tensors(c, i as nat).len() + k] == layer_tensors(
            c,
            is_linear(c, i),
            i as nat,
        )[k],
    decreases n,
{
    if i < n - 1 {
        lemma_layers_entry(c, i, (n - 1) as nat, k);
    }
}

/// Every entry belongs to the head or to a layer.
proof fn lemma_entry_layer(c: Qwen35Config, n: nat, j: int) -> (r: (int, int))
    requires
        0 <= j < layers_tensors(c, n).len(),
    ensures
        0 <= r.0 < n,
        0 <= r.1 < layer_tensors(c, is_linear(c, r.0), r.0 as nat).len(),
        j == layers_tensors(c, r.0 as nat).len() + r.1,
    decreases n,
{
    let m = (n - 1) as nat;
    if j < layers_tensors(c, m).len() {
        lemma_entry_layer(c, m, j)
    } else {
        (n - 1, j - layers_tensors(c, m).len())
    }
}

proof fn lemma_pools_back(c: Qwen35Config)
    ensures
        crate::loading::pools_back(all_tensors(c)),
{
    let list = all_tensors(c);
    assert forall|j: int| 0 <= j < list.len() implies ((#[trigger] list[j]).kind matches LoadKind::Pooled {
        back,
    } ==> back <= j) by {
        if j >= 3 {
            let (i, k) = lemma_entry_layer(c, c.n_layers as nat, j - 3);
            lemma_layers_entry(c, i, c.n_layers as nat, k);
            lemma_layer_entry(c, is_linear(c, i), i as nat, k);
        }
    }
}

/// What the entries of layer `i` were read as, from place `at` on.
#[verifier::opaque]
pub open spec fn layer_read(
    c: Qwen35Config,
    linear: bool,
    i: nat,
    ts: Seq<crate::loading::StoredTensor>,
    list: Seq<crate::names::Tensor<Qwen35Wt>>,
    loaded: Seq<Loaded>,
    at: int,
) -> bool {
    let part = layer_tensors(c, linear, i);
    &&& 0 <= at
    &&& at + part.len() <= loaded.len() == list.len()
    &&& crate::loading::agrees(ts, list, loaded)
    &&& forall|k: int| 0 <= k < part.len() ==> list[at + k] == #[trigger] part[k]
}

proof fn lemma_layer_told(
    c: Qwen35Config,
    linear: bool,
    i: nat,
    ts: Seq<crate::loading::StoredTensor>,
    list: Seq<crate::names::Tensor<Qwen35Wt>>,
    loaded: Seq<Loaded>,
    at: int,
    k: int,
)
    requires
        layer_read(c, linear, i, ts, list, loaded, at),
        0 <= k < layer_tensors(c, linear, i).len(),
    ensures
        0 <= at,
        at + layer_tensors(c, linear, i).len() <= loaded.len(),
        ({
            let e = layer_tensors(c, linear, i)[k];
            let l = loaded[at + k]@;
            l.info.m == e.m as usize && l.info.k == e.k as usize
        }),
{
    reveal(layer_read);
    let e = layer_tensors(c, linear, i)[k];
    assert(list[at + k] == e);
    assert(crate::loading::told(ts, list, at + k) == Ok::<
        crate::loading::Told,
        crate::loading::Fault,
    >(loaded[at + k]@));
    crate::loading::lemma_told_size(ts, list, at + k);
}

/// A layer from its tensors, which were read from place `at` on.
pub open spec fn built(linear: bool, loaded: Seq<Loaded>, at: int) -> LayerWeights {
    if linear {
        LayerWeights::DeltaNet(
            DeltaNetLayerWeights {
                wqkv: loaded[at + 1].info,
                wz: loaded[at + 2].info,
                w_alpha: loaded[at + 3].info,
                w_beta: loaded[at + 4].info,
                wo: loaded[at + 9].info,
                w_gate: loaded[at + 11].info,
                w_up: loaded[at + 12].info,
                w_down: loaded[at + 13].info,
            },
        )
    } else {
        LayerWeights::FullAttn(
            FullAttnLayerWeights {
                wq: loaded[at + 1].info,
                wk: loaded[at + 2].info,
                wv: loaded[at + 3].info,
                wo: loaded[at + 4].info,
                w_gate: loaded[at + 8].info,
                w_up: loaded[at + 9].info,
                w_down: loaded[at + 10].info,
            },
        )
    }
}

proof fn lemma_built_holds(
    c: Qwen35Config,
    linear: bool,
    i: nat,
    ts: Seq<crate::loading::StoredTensor>,
    list: Seq<crate::names::Tensor<Qwen35Wt>>,
    loaded: Seq<Loaded>,
    at: int,
    k: int,
)
    requires
        layer_read(c, linear, i, ts, list, loaded, at),
        0 <= k < layer_tensors(c, linear, i).len(),
    ensures
        holds(built(linear, loaded, at), layer_tensors(c, linear, i)[k], loaded[at + k]@),
        loaded[at + k].info.m == slot(c, linear, i, k).2 as usize,
        loaded[at + k].info.k == slot(c, linear, i, k).3 as usize,
{
    lemma_layer_entry(c, linear, i, k);
    lemma_layer_told(c, linear, i, ts, list, loaded, at, k);
}

proof fn lemma_built_shape(
    c: Qwen35Config,
    linear: bool,
    i: nat,
    ts: Seq<crate::loading::StoredTensor>,
    list: Seq<crate::names::Tensor<Qwen35Wt>>,
    loaded: Seq<Loaded>,
    at: int,
)
    requires
        c.fits(),
        layer_read(c, linear, i, ts, list, loaded, at),
    ensures
        layer_shaped(built(linear, loaded, at), c),
{
    lemma_widths(c);
    lemma_layer_entry(c, linear, i, 0);
    if linear {
        lemma_built_holds(c, linear, i, ts, list, loaded, at, 1);
        lemma_built_holds(c, linear, i, ts, list, loaded, at, 2);
        lemma_built_holds(c, linear, i, ts, list, loaded, at, 3);
        lemma_built_holds(c, linear, i, ts, list, loaded, at, 4);
        lemma_built_holds(c, linear, i, ts, list, loaded, at, 9);
        lemma_built_holds(c, linear, i, ts, list, loaded, at, 11);
        lemma_built_holds(c, linear, i, ts, list, loaded, at, 12);
        lemma_built_holds(c, linear, i, ts, list, loaded, at, 13);
    } else {
        lemma_built_holds(c, linear, i, ts, list, loaded, at, 1);
        lemma_built_holds(c, linear, i, ts, list, loaded, at, 2);
        lemma_built_holds(c, linear, i, ts, list, loaded, at, 3);
        lemma_built_holds(c, linear, i, ts, list, loaded, at, 4);
        lemma_built_holds(c, linear, i, ts, list, loaded, at, 8);
        lemma_built_holds(c, linear, i, ts, list, loaded, at, 9);
        lemma_built_holds(c, linear, i, ts, list, loaded, at, 10);
    }
}

/// A layer from its tensors.
fn build_layer(
    c: &Qwen35Config,
    linear: bool,
    i: usize,
    loaded: &Vec<Loaded>,
    at: usize,
    Ghost(ts): Ghost<Seq<crate::loading::StoredTensor>>,
    Ghost(list): Ghost<Seq<crate::names::Tensor<Qwen35Wt>>>,
) -> (r: LayerWeights)
    requires
        c.fits(),
        layer_read(*c, linear, i as nat, ts, list, loaded@, at as int),
    ensures
        r == built(linear, loaded@, at as int),
        layer_shaped(r, *c),
{
    let total: usize = loaded.len();
    proof {
        lemma_layer_entry(*c, linear, i as nat, 0);
        lemma_layer_told(*c, linear, i as nat, ts, list, loaded@, at as int, 0);
        assert(at + layer_tensors(*c, linear, i as nat).len() <= total);
        lemma_built_shape(*c, linear, i as nat, ts, list, loaded@, at as int);
    }
    if linear {
        LayerWeights::DeltaNet(
            DeltaNetLayerWeights {
                wqkv: loaded[at + 1].info,
                wz: loaded[at + 2].info,
                w_alpha: loaded[at + 3].info,
                w_beta: loaded[at + 4].info,
                wo: loaded[at + 9].info,
                w_gate: loaded[at + 11].info,
                w_up: loaded[at + 12].info,
                w_down: loaded[at + 13].info,
            },
        )
    } else {
        LayerWeights::FullAttn(
            FullAttnLayerWeights {
                wq: loaded[at + 1].info,
                wk: loaded[at + 2].info,
                wv: loaded[at + 3].info,
                wo: loaded[at + 4].info,
                w_gate: loaded[at + 8].info,
                w_up: loaded[at + 9].info,
                w_down: loaded[at + 10].info,
            },
        )
    }
}

/// The layer of a place.
pub open spec fn layer_of(place: Qwen35Wt) -> Option<usize> {
    match place {
        Qwen35Wt::Layer(i, _) => Some(i),
        _ => None,
    }
}

/// Weights hold every tensor that was read in its own place: each matrix of a layer,
/// the embedding table and the output matrix.
pub open spec fn assembled(c: Qwen35Config, w: Qwen35Weights, loaded: Seq<Loaded>) -> bool {
    let list = all_tensors(c);
    &&& crate::gemma4::tied_dtype(w.embd_format) == loaded[0].info.dtype
    &&& w.output == loaded[2].info
    &&& w.layers@.len() == c.n_layers
    &&& forall|j: int|
        0 <= j < list.len() ==> (layer_of((#[trigger] list[j]).place) matches Some(i) ==> {
            &&& i < w.layers@.len()
            &&& holds(w.layers@[i as int], list[j], loaded[j]@)
        })
}

/// The model's weights out of a file, each tensor in its place, and what is sent to
/// the device for each entry of [`load_weights`]; or the first tensor that is
/// missing, too short or of another storage type.
pub fn assemble(c: &Qwen35Config, file: &crate::loading::TensorFile) -> (r: Result<
    (Qwen35Weights, Vec<Loaded>),
    crate::loading::LoadError,
>)
    requires
        c.fits(),
        c.layer_types@.len() >= c.n_layers,
    ensures
        match r {
            Ok((w, loaded)) => {
                &&& loaded@.len() == all_tensors(*c).len()
                &&& crate::loading::agrees(file.tensors@, all_tensors(*c), loaded@)
                &&& assembled(*c, w, loaded@)
                &&& shaped(w, *c)
                &&& matches_config(w, *c)
                &&& has_lookup(w.embd_format)
            },
            Err(e) => crate::loading::first_fault(file.tensors@, all_tensors(*c), e),
        },
{
    let specs: Vec<TensorSpec<Qwen35Wt>> = load_weights(c);
    let ghost list = all_tensors(*c);
    let ghost ts = file.tensors@;
    proof {
        lemma_pools_back(*c);
    }
    let loaded: Vec<Loaded> = match crate::loading::read_all(file, &specs) {
        Ok(v) => v,
        Err(e) => return Err(e),
    };
    proof {
        lemma_head(*c, ts, loaded@);
    }
    let total: usize = loaded.len();
    let embd_format: EmbeddingFormat = crate::gemma4::format_of(loaded[0].info.dtype);
    let output: WeightInfo = loaded[2].info;
    let mut layers: Vec<LayerWeights> = Vec::new();
    let mut at: usize = 3;
    let mut i: usize = 0;
    while i < c.n_layers
        invariant
            i <= c.n_layers <= c.layer_types@.len(),
            c.fits(),
            total == loaded@.len(),
            list == all_tensors(*c),
            loaded@.len() == list.len(),
            crate::loading::agrees(ts, list, loaded@),
            at == 3 + layers_tensors(*c, i as nat).len(),
            layers@.len() == i,
            forall|x: int|
                0 <= x < i ==> ((#[trigger] layers@[x]) is DeltaNet <==> is_linear(*c, x)),
            forall|x: int| 0 <= x < i ==> layer_shaped(#[trigger] layers@[x], *c),
            forall|x: int, k: int|
                0 <= x < i && 0 <= k < layer_tensors(*c, is_linear(*c, x), x as nat).len()
                    ==> holds(
                    #[trigger] layers@[x],
                    #[trigger] layer_tensors(*c, is_linear(*c, x), x as nat)[k],
                    loaded@[3 + layers_tensors(*c, x as nat).len() + k]@,
                ),
        decreases c.n_layers - i,
    {
        let linear: bool = c.layer_types[i] == LayerType::LinearAttention;
        proof {
            let part = layer_tensors(*c, linear, i as nat);
            lemma_layer_entry(*c, linear, i as nat, 0);
            lemma_layers_entry(*c, i as int, c.n_layers as nat, part.len() - 1);
            assert forall|k: int| 0 <= k < part.len() implies list[at + k] == #[trigger] part[k] by {
                lemma_layers_entry(*c, i as int, c.n_layers as nat, k);
            }
            assert(layer_read(*c, linear, i as nat, ts, list, loaded@, at as int)) by {
                reveal(layer_read);
            }
            assert forall|k: int| 0 <= k < part.len() implies holds(
                built(linear, loaded@, at as int),
                #[trigger] part[k],
                loaded@[at + k]@,
            ) by {
                lemma_built_holds(*c, linear, i as nat, ts, list, loaded@, at as int, k);
            }
        }
        let layer: LayerWeights = build_layer(c, linear, i, &loaded, at, Ghost(ts), Ghost(list));
        layers.push(layer);
        at = at + (if linear {
            14
        } else {
            11
        });
        i = i + 1;
    }
    let w: Qwen35Weights = Qwen35Weights { embd_format, output, layers };
    proof {
        assert forall|j: int| 0 <= j < list.len() implies (layer_of(
            (#[trigger] list[j]).place,
        ) matches Some(x) ==> x < w.layers@.len() && holds(
            w.layers@[x as int],
            list[j],
            loaded@[j]@,
        )) by {
            if j >= 3 {
                let (x, k) = lemma_entry_layer(*c, c.n_layers as nat, j - 3);
                lemma_layers_entry(*c, x, c.n_layers as nat, k);
                lemma_layer_entry(*c, is_linear(*c, x), x as nat, k);
                assert(holds(
                    w.layers@[x],
                    layer_tensors(*c, is_linear(*c, x), x as nat)[k],
                    loaded@[3 + layers_tensors(*c, x as nat).len() + k]@,
                ));
            }
        }
    }
    Ok((w, loaded))
}

/// What the embedding table and the output matrix are read as.
proof fn lemma_head(c: Qwen35Config, ts: Seq<crate::loading::StoredTensor>, loaded: Seq<Loaded>)
    requires
        loaded.len() == all_tensors(c).len(),
        crate::loading::agrees(ts, all_tensors(c), loaded),
    ensures
        loaded.len() >= 3,
        ({
            let d = loaded[0].info.dtype;
            d == DType::F32 || d == DType::Q8_0 || d == DType::HFQ4G256 || d == DType::HFQ4G128
        }),
        loaded[2].info.m == c.vocab_size,
        loaded[2].info.k == c.dim,
{
    let list = all_tensors(c);
    assert(crate::loading::told(ts, list, 0) == Ok::<
        crate::loading::Told,
        crate::loading::Fault,
    >(loaded[0]@));
    assert(crate::loading::told(ts, list, 2) == Ok::<
        crate::loading::Told,
        crate::loading::Fault,
    >(loaded[2]@));
    crate::loading::lemma_told_size(ts, list, 2);
}

// Recurrent state.

/// The buffers of the linear-attention state, by linear layer.
#[derive(Debug, Clone, Copy, PartialEq, Eq, Structural)]
pub enum StateBuf {
    /// The matrix of the delta rule.
    Matrix(usize),
    /// Its scales.
    Scale(usize),
    /// The convolution window.
    Conv(usize),
}

/// The state of all the linear-attention layers: how it is stored, and how large
/// the buffers of each layer are.
#[derive(Debug, Clone, Copy)]
pub struct DeltaNetState {
    pub quant: StateQuant,
    /// How many linear-attention layers there are.
    pub layers: usize,
    pub matrix_bytes: usize,
    pub scale_elems: usize,
    pub conv_elems: usize,
}

/// How many of the first `n` layers are of a kind.
pub open spec fn count_kind(kinds: Seq<LayerType>, kind: LayerType, n: nat) -> nat
    decreases n,
{
    if n == 0 {
        0
    } else {
        count_kind(kinds, kind, (n - 1) as nat) + if kinds[n - 1] == kind {
            1nat
        } else {
            0nat
        }
    }
}

/// How many layers are of a kind.
pub fn count_layers(kinds: &Vec<LayerType>, kind: LayerType) -> (r: usize)
    ensures
        r == count_kind(kinds@, kind, kinds@.len()),
        r <= kinds@.len(),
{
    let mut i: usize = 0;
    let mut r: usize = 0;
    while i < kinds.len()
        invariant
            r <= i <= kinds@.len(),
            r == count_kind(kinds@, kind, i as nat),
        decreases kinds@.len() - i,
    {
        if kinds[i] == kind {
            r = r + 1;
        }
        i = i + 1;
    }
    r
}

impl Qwen35Config {
    /// Elements of one layer's state matrix.
    pub open spec fn matrix_elems(self) -> int {
        self.linear_num_value_heads * self.linear_key_head_dim * self.linear_key_head_dim
    }

    /// Elements of one layer's convolution window.
    pub open spec fn window_elems(self) -> int {
        self.qkv_dim() * (self.conv_kernel_dim - 1)
    }

    /// The recurrent state can be addressed.
    pub open spec fn state_fits(self) -> bool {
        &&& self.conv_kernel_dim >= 1
        &&& 4 * self.matrix_elems() <= usize::MAX
        &&& 4 * self.qkv_dim() <= usize::MAX
        &&& 4 * self.window_elems() <= usize::MAX
        &&& 4 * (self.linear_num_value_heads * self.linear_key_head_dim) <= usize::MAX
        &&& 4 * self.linear_num_value_heads <= usize::MAX
    }
}

/// The sizes of the state in a storage form: four bytes, one byte or half a byte
/// per element; a scale per head, or per row where elements are quantized.
pub open spec fn state_of(c: Qwen35Config, quant: StateQuant) -> DeltaNetState {
    let nv = c.linear_num_value_heads;
    DeltaNetState {
        quant,
        layers: count_kind(
            c.layer_types@,
            LayerType::LinearAttention,
            c.layer_types@.len(),
        ) as usize,
        matrix_bytes: match quant {
            StateQuant::FP32 => 4 * c.matrix_elems(),
            StateQuant::Q8 => c.matrix_elems(),
            StateQuant::Q4 => c.matrix_elems() / 2,
        } as usize,
        scale_elems: match quant {
            StateQuant::FP32 => nv as int,
            _ => nv * c.linear_key_head_dim,
        } as usize,
        conv_elems: c.window_elems() as usize,
    }
}

impl DeltaNetState {
    /// Allocations of one layer, zeroed.
    pub open spec fn layer_alloc(self, i: usize) -> Seq<Op<StateBuf, ()>> {
        seq![
            Op::AllocBytes { buf: StateBuf::Matrix(i), bytes: self.matrix_bytes },
            Op::Zero { buf: StateBuf::Matrix(i), bytes: self.matrix_bytes },
            Op::Alloc { buf: StateBuf::Scale(i), elems: self.scale_elems },
            Op::Zero { buf: StateBuf::Scale(i), bytes: (4 * self.scale_elems) as usize },
            Op::Alloc { buf: StateBuf::Conv(i), elems: self.conv_elems },
            Op::Zero { buf: StateBuf::Conv(i), bytes: (4 * self.conv_elems) as usize },
        ]
    }

    /// Allocations of the first `n` layers.
    pub open spec fn alloc_ops(self, n: nat) -> Seq<Op<StateBuf, ()>>
        decreases n,
    {
        if n == 0 {
            Seq::empty()
        } else {
            self.alloc_ops((n - 1) as nat) + self.layer_alloc((n - 1) as usize)
        }
    }

    /// The buffers of all layers: the matrices, the scales, the windows.
    pub open spec fn bufs(self) -> Seq<StateBuf> {
        Seq::new(self.layers as nat, |i: int| StateBuf::Matrix(i as usize)) + Seq::new(
            self.layers as nat,
            |i: int| StateBuf::Scale(i as usize),
        ) + Seq::new(self.layers as nat, |i: int| StateBuf::Conv(i as usize))
    }

    /// Releases of all the buffers.
    pub open spec fn free_ops(self) -> Seq<Op<StateBuf, ()>> {
        crate::device::free_all::<StateBuf, ()>(self.bufs())
    }

    /// Bytes of each buffer.
    pub open spec fn bytes(self, buf: StateBuf) -> int {
        match buf {
            StateBuf::Matrix(_) => self.matrix_bytes as int,
            StateBuf::Scale(_) => 4 * self.scale_elems,
            StateBuf::Conv(_) => 4 * self.conv_elems,
        }
    }

    pub open spec fn fits(self) -> bool {
        4 * self.scale_elems <= usize::MAX && 4 * self.conv_elems <= usize::MAX && 3 * self.layers
            <= usize::MAX
    }

    /// The buffers of all layers, in order.
    pub fn buf_list(&self) -> (r: Vec<StateBuf>)
        ensures
            r@ == self.bufs(),
    {
        let mut r: Vec<StateBuf> = Vec::new();
        let n: usize = self.layers;
        let mut i: usize = 0;
        while i < n
            invariant
                i <= n,
                n == self.layers,
                r@ == Seq::new(i as nat, |k: int| StateBuf::Matrix(k as usize)),
            decreases n - i,
        {
            r.push(StateBuf::Matrix(i));
            assert(r@ =~= Seq::new((i + 1) as nat, |k: int| StateBuf::Matrix(k as usize)));
            i = i + 1;
        }
        let ghost one = r@;
        i = 0;
        while i < n
            invariant
                i <= n,
                n == self.layers,
                r@ == one + Seq::new(i as nat, |k: int| StateBuf::Scale(k as usize)),
            decreases n - i,
        {
            r.push(StateBuf::Scale(i));
            assert(r@ =~= one + Seq::new((i + 1) as nat, |k: int| StateBuf::Scale(k as usize)));
            i = i + 1;
        }
        let ghost two = r@;
        i = 0;
        while i < n
            invariant
                i <= n,
                n == self.layers,
                r@ == two + Seq::new(i as nat, |k: int| StateBuf::Conv(k as usize)),
            decreases n - i,
        {
            r.push(StateBuf::Conv(i));
            assert(r@ =~= two + Seq::new((i + 1) as nat, |k: int| StateBuf::Conv(k as usize)));
            i = i + 1;
        }
        r
    }

    /// Bytes of a buffer.
    pub fn buf_bytes(&self, buf: StateBuf) -> (r: usize)
        requires
            self.fits(),
        ensures
            r == self.bytes(buf),
    {
        match buf {
            StateBuf::Matrix(_) => self.matrix_bytes,
            StateBuf::Scale(_) => 4 * self.scale_elems,
            StateBuf::Conv(_) => 4 * self.conv_elems,
        }
    }

    /// An eight-bit state, and the allocations that make it.
    pub fn new(c: &Qwen35Config) -> (r: (Self, Vec<Op<StateBuf, ()>>))
        requires
            c.state_fits(),
        ensures
            r.0 == state_of(*c, StateQuant::Q8),
            r.1@ == r.0.alloc_ops(r.0.layers as nat),
    {
        Self::new_with_quant(c, StateQuant::Q8)
    }

    /// A state in a storage form, and the allocations that make it.
    pub fn new_with_quant(c: &Qwen35Config, quant: StateQuant) -> (r: (
        Self,
        Vec<Op<StateBuf, ()>>,
    ))
        requires
            c.state_fits(),
        ensures
            r.0 == state_of(*c, quant),
            r.1@ == r.0.alloc_ops(r.0.layers as nat),
    {
        proof {
            lemma_widths(*c);
            assert(0 <= c.matrix_elems()) by (nonlinear_arith)
                requires
                    c.matrix_elems() == c.linear_num_value_heads * c.linear_key_head_dim
                        * c.linear_key_head_dim,
            ;
            assert(0 <= c.window_elems()) by (nonlinear_arith)
                requires
                    c.window_elems() == c.qkv_dim() * (c.conv_kernel_dim - 1),
                    c.qkv_dim() >= 0,
                    c.conv_kernel_dim >= 1,
            ;
        }
        let layers: usize = count_layers(&c.layer_types, LayerType::LinearAttention);
        let kd: usize = c.linear_key_head_dim;
        let nv: usize = c.linear_num_value_heads;
        let matrix: usize = nv * kd * kd;
        let channels: usize = c.linear_num_key_heads * kd * 2 + nv * c.linear_value_head_dim;
        let st: DeltaNetState = DeltaNetState {
            quant,
            layers,
            matrix_bytes: match quant {
                StateQuant::FP32 => 4 * matrix,
                StateQuant::Q8 => matrix,
                StateQuant::Q4 => matrix / 2,
            },
            scale_elems: match quant {
                StateQuant::FP32 => nv,
                _ => nv * kd,
            },
            conv_elems: channels * (c.conv_kernel_dim - 1),
        };
        let mut ops: Vec<Op<StateBuf, ()>> = Vec::new();
        let mut i: usize = 0;
        while i < layers
            invariant
                i <= layers,
                st.layers == layers,
                4 * st.scale_elems <= usize::MAX,
                4 * st.conv_elems <= usize::MAX,
                ops@ == st.alloc_ops(i as nat),
            decreases layers - i,
        {
            extend(
                &mut ops,
                vec![
                    Op::AllocBytes { buf: StateBuf::Matrix(i), bytes: st.matrix_bytes },
                    Op::Zero { buf: StateBuf::Matrix(i), bytes: st.matrix_bytes },
                    Op::Alloc { buf: StateBuf::Scale(i), elems: st.scale_elems },
                    Op::Zero { buf: StateBuf::Scale(i), bytes: 4 * st.scale_elems },
                    Op::Alloc { buf: StateBuf::Conv(i), elems: st.conv_elems },
                    Op::Zero { buf: StateBuf::Conv(i), bytes: 4 * st.conv_elems },
                ],
            );
            i = i + 1;
        }
        (st, ops)
    }

    /// Gives all the buffers back.
    pub fn free_gpu(self) -> (ops: Vec<Op<StateBuf, ()>>)
        ensures
            ops@ == self.free_ops(),
    {
        free_list(&self.buf_list())
    }
}

proof fn lemma_run_count(n: nat, f: spec_fn(int) -> StateBuf, at: spec_fn(StateBuf) -> int, buf: StateBuf)
    requires
        forall|i: int| 0 <= i < n ==> at(#[trigger] f(i)) == i,
        0 <= at(buf) < n ==> f(at(buf)) == buf || forall|i: int| 0 <= i < n ==> #[trigger] f(i) != buf,
    ensures
        crate::device::occurrences(Seq::new(n, f), buf) == if 0 <= at(buf) < n && f(at(buf)) == buf {
            1int
        } else {
            0int
        },
    decreases n,
{
    if n > 0 {
        let m = (n - 1) as nat;
        assert(Seq::new(n, f).drop_last() =~= Seq::new(m, f));
        lemma_run_count(m, f, at, buf);
        assert(at(f(m as int)) == m);
    }
}

/// The layer of a state buffer.
pub open spec fn state_layer(buf: StateBuf) -> int {
    match buf {
        StateBuf::Matrix(i) => i as int,
        StateBuf::Scale(i) => i as int,
        StateBuf::Conv(i) => i as int,
    }
}

proof fn lemma_state_allocs(st: DeltaNetState, n: nat, buf: StateBuf)
    requires
        n <= st.layers,
    ensures
        crate::device::balance(st.alloc_ops(n), buf) == if state_layer(buf) < n {
            1int
        } else {
            0int
        },
    decreases n,
{
    if n > 0 {
        lemma_state_allocs(st, (n - 1) as nat, buf);
        let i = (n - 1) as usize;
        reveal_with_fuel(crate::device::tally, 7);
        crate::device::lemma_balance_concat(st.alloc_ops((n - 1) as nat), st.layer_alloc(i), buf);
        assert(crate::device::balance(st.layer_alloc(i), buf) == if state_layer(buf) == i {
            1int
        } else {
            0int
        });
    }
}

/// The recurrent state gives back exactly what it took.
pub proof fn law_state_is_returned(st: DeltaNetState, buf: StateBuf)
    ensures
        crate::device::balance(st.alloc_ops(st.layers as nat) + st.free_ops(), buf) == 0,
{
    let n = st.layers as nat;
    let at = |b: StateBuf| state_layer(b);
    let fm = |i: int| StateBuf::Matrix(i as usize);
    let fs = |i: int| StateBuf::Scale(i as usize);
    let fc = |i: int| StateBuf::Conv(i as usize);
    lemma_run_count(n, fm, at, buf);
    lemma_run_count(n, fs, at, buf);
    lemma_run_count(n, fc, at, buf);
    assert(st.bufs() =~= Seq::new(n, fm) + Seq::new(n, fs) + Seq::new(n, fc));
    crate::device::lemma_occurrences_concat(Seq::new(n, fm), Seq::new(n, fs), buf);
    crate::device::lemma_occurrences_concat(
        Seq::new(n, fm) + Seq::new(n, fs),
        Seq::new(n, fc),
        buf,
    );
    crate::device::lemma_balance_of_frees::<StateBuf, ()>(st.bufs(), buf);
    lemma_state_allocs(st, n, buf);
    crate::device::lemma_balance_concat(st.alloc_ops(n), st.free_ops(), buf);
}

// Scratch buffers.

/// The activation buffers of one forward pass.
#[derive(Debug, Clone, Copy, PartialEq, Eq, Structural)]
pub enum Qwen35Buf {
    /// The hidden state.
    X,
    Tmp,
    /// The position, where kernels read it.
    Pos,
    DnQkv,
    DnZ,
    DnAlpha,
    DnBeta,
    DnConvOut,
    /// Linear queries, a head per value head.
    DnQ,
    DnK,
    DnV,
    /// Linear queries as projected.
    DnQRaw,
    DnKRaw,
    DnAttnOut,
    DnNormed,
    /// Queries and gates, interleaved by head.
    FaQFull,
    FaQ,
    FaGate,
    FaK,
    FaV,
    FaAttnOut,
    O,
    GateFfn,
    Up,
    FfnHidden,
    FfnOut,
    Logits,
    /// A token and the state of the generator.
    SampleBuf,
    /// Recent tokens.
    RepeatBuf,
}

pub type QwenOp = Op<Qwen35Buf, Qwen35Wt>;

/// A set of scratch buffers.
#[derive(Debug, Clone, Copy)]
pub struct Qwen35Scratch {
    pub repeat_window: usize,
}

/// Elements of each buffer.
pub open spec fn buf_elems(c: Qwen35Config, repeat_window: int, buf: Qwen35Buf) -> int {
    match buf {
        Qwen35Buf::X => c.dim as int,
        Qwen35Buf::Tmp => c.dim as int,
        Qwen35Buf::Pos => 1,
        Qwen35Buf::DnQkv => c.qkv_dim(),
        Qwen35Buf::DnZ => c.v_dim(),
        Qwen35Buf::DnAlpha => c.linear_num_value_heads as int,
        Qwen35Buf::DnBeta => c.linear_num_value_heads as int,
        Qwen35Buf::DnConvOut => c.qkv_dim(),
        Qwen35Buf::DnQ => c.v_dim(),
        Qwen35Buf::DnK => c.v_dim(),
        Qwen35Buf::DnV => c.v_dim(),
        Qwen35Buf::DnQRaw => c.k_dim(),
        Qwen35Buf::DnKRaw => c.k_dim(),
        Qwen35Buf::DnAttnOut => c.v_dim(),
        Qwen35Buf::DnNormed => c.v_dim(),
        Qwen35Buf::FaQFull => c.q_dim() * 2,
        Qwen35Buf::FaQ => c.q_dim(),
        Qwen35Buf::FaGate => c.q_dim(),
        Qwen35Buf::FaK => c.kv_dim(),
        Qwen35Buf::FaV => c.kv_dim(),
        Qwen35Buf::FaAttnOut => c.q_dim(),
        Qwen35Buf::O => c.dim as int,
        Qwen35Buf::GateFfn => c.hidden_dim as int,
        Qwen35Buf::Up => c.hidden_dim as int,
        Qwen35Buf::FfnHidden => c.hidden_dim as int,
        Qwen35Buf::FfnOut => c.dim as int,
        Qwen35Buf::Logits => c.vocab_size as int,
        Qwen35Buf::SampleBuf => 2,
        Qwen35Buf::RepeatBuf => repeat_window,
    }
}

/// The buffers of a set, in order.
pub open spec fn scratch_bufs() -> Seq<Qwen35Buf> {
    seq![
        Qwen35Buf::X,
        Qwen35Buf::Tmp,
        Qwen35Buf::Pos,
        Qwen35Buf::DnQkv,
        Qwen35Buf::DnZ,
        Qwen35Buf::DnAlpha,
        Qwen35Buf::DnBeta,
        Qwen35Buf::DnConvOut,
        Qwen35Buf::DnQ,
        Qwen35Buf::DnK,
        Qwen35Buf::DnV,
        Qwen35Buf::DnQRaw,
        Qwen35Buf::DnKRaw,
        Qwen35Buf::DnAttnOut,
        Qwen35Buf::DnNormed,
        Qwen35Buf::FaQFull,
        Qwen35Buf::FaQ,
        Qwen35Buf::FaGate,
        Qwen35Buf::FaK,
        Qwen35Buf::FaV,
        Qwen35Buf::FaAttnOut,
        Qwen35Buf::O,
        Qwen35Buf::GateFfn,
        Qwen35Buf::Up,
        Qwen35Buf::FfnHidden,
        Qwen35Buf::FfnOut,
        Qwen35Buf::Logits,
        Qwen35Buf::SampleBuf,
        Qwen35Buf::RepeatBuf,
    ]
}

fn scratch_buf_list() -> (r: Vec<Qwen35Buf>)
    ensures
        r@ == scratch_bufs(),
{
    vec![
        Qwen35Buf::X,
        Qwen35Buf::Tmp,
        Qwen35Buf::Pos,
        Qwen35Buf::DnQkv,
        Qwen35Buf::DnZ,
        Qwen35Buf::DnAlpha,
        Qwen35Buf::DnBeta,
        Qwen35Buf::DnConvOut,
        Qwen35Buf::DnQ,
        Qwen35Buf::DnK,
        Qwen35Buf::DnV,
        Qwen35Buf::DnQRaw,
        Qwen35Buf::DnKRaw,
        Qwen35Buf::DnAttnOut,
        Qwen35Buf::DnNormed,
        Qwen35Buf::FaQFull,
        Qwen35Buf::FaQ,
        Qwen35Buf::FaGate,
        Qwen35Buf::FaK,
        Qwen35Buf::FaV,
        Qwen35Buf::FaAttnOut,
        Qwen35Buf::O,
        Qwen35Buf::GateFfn,
        Qwen35Buf::Up,
        Qwen35Buf::FfnHidden,
        Qwen35Buf::FfnOut,
        Qwen35Buf::Logits,
        Qwen35Buf::SampleBuf,
        Qwen35Buf::RepeatBuf,
    ]
}

impl Qwen35Scratch {
    /// The allocations of a set.
    pub open spec fn alloc_ops(self, c: Qwen35Config) -> Seq<QwenOp> {
        crate::device::alloc_all(
            scratch_bufs(),
            |buf: Qwen35Buf| buf_elems(c, self.repeat_window as int, buf),
        )
    }

    /// The releases of a set.
    pub open spec fn free_ops(self) -> Seq<QwenOp> {
        crate::device::free_all(scratch_bufs())
    }

    /// A set of buffers, and the allocations that make it.
    pub fn new(c: &Qwen35Config, repeat_window: usize) -> (r: (Self, Vec<QwenOp>))
        requires
            c.fits(),
        ensures
            r.0.repeat_window == repeat_window,
            r.1@ == r.0.alloc_ops(*c),
    {
        proof {
            lemma_widths(*c);
        }
        let k: usize = c.linear_num_key_heads * c.linear_key_head_dim;
        let v: usize = c.linear_num_value_heads * c.linear_value_head_dim;
        let qkv: usize = k * 2 + v;
        let q: usize = c.n_heads * c.head_dim;
        let kv: usize = c.n_kv_heads * c.head_dim;
        let dim: usize = c.dim;
        let nv: usize = c.linear_num_value_heads;
        let ffn: usize = c.hidden_dim;
        let vocab: usize = c.vocab_size;
        let window: usize = repeat_window;
        let s: Qwen35Scratch = Qwen35Scratch { repeat_window };
        let ops: Vec<QwenOp> = vec![
            Op::Alloc { buf: Qwen35Buf::X, elems: dim },
            Op::Alloc { buf: Qwen35Buf::Tmp, elems: dim },
            Op::Alloc { buf: Qwen35Buf::Pos, elems: 1 },
            Op::Alloc { buf: Qwen35Buf::DnQkv, elems: qkv },
            Op::Alloc { buf: Qwen35Buf::DnZ, elems: v },
            Op::Alloc { buf: Qwen35Buf::DnAlpha, elems: nv },
            Op::Alloc { buf: Qwen35Buf::DnBeta, elems: nv },
            Op::Alloc { buf: Qwen35Buf::DnConvOut, elems: qkv },
            Op::Alloc { buf: Qwen35Buf::DnQ, elems: v },
            Op::Alloc { buf: Qwen35Buf::DnK, elems: v },
            Op::Alloc { buf: Qwen35Buf::DnV, elems: v },
            Op::Alloc { buf: Qwen35Buf::DnQRaw, elems: k },
            Op::Alloc { buf: Qwen35Buf::DnKRaw, elems: k },
            Op::Alloc { buf: Qwen35Buf::DnAttnOut, elems: v },
            Op::Alloc { buf: Qwen35Buf::DnNormed, elems: v },
            Op::Alloc { buf: Qwen35Buf::FaQFull, elems: q * 2 },
            Op::Alloc { buf: Qwen35Buf::FaQ, elems: q },
            Op::Alloc { buf: Qwen35Buf::FaGate, elems: q },
            Op::Alloc { buf: Qwen35Buf::FaK, elems: kv },
            Op::Alloc { buf: Qwen35Buf::FaV, elems: kv },
            Op::Alloc { buf: Qwen35Buf::FaAttnOut, elems: q },
            Op::Alloc { buf: Qwen35Buf::O, elems: dim },
            Op::Alloc { buf: Qwen35Buf::GateFfn, elems: ffn },
            Op::Alloc { buf: Qwen35Buf::Up, elems: ffn },
            Op::Alloc { buf: Qwen35Buf::FfnHidden, elems: ffn },
            Op::Alloc { buf: Qwen35Buf::FfnOut, elems: dim },
            Op::Alloc { buf: Qwen35Buf::Logits, elems: vocab },
            Op::Alloc { buf: Qwen35Buf::SampleBuf, elems: 2 },
            Op::Alloc { buf: Qwen35Buf::RepeatBuf, elems: window },
        ];
        assert(ops@ =~= s.alloc_ops(*c));
        (s, ops)
    }

    /// Gives all the buffers back.
    pub fn free_gpu(self) -> (ops: Vec<QwenOp>)
        ensures
            ops@ == self.free_ops(),
    {
        free_list(&scratch_buf_list())
    }
}

/// A set of scratch buffers gives back exactly what it took.
pub proof fn law_scratch_is_returned(c: Qwen35Config, s: Qwen35Scratch, buf: Qwen35Buf)
    ensures
        crate::device::balance(s.alloc_ops(c) + s.free_ops(), buf) == 0,
{
    crate::device::law_allocated_is_returned::<Qwen35Buf, Qwen35Wt>(
        scratch_bufs(),
        |buf: Qwen35Buf| buf_elems(c, s.repeat_window as int, buf),
        buf,
    );
}

// Forward pass.

/// What a key/value cache is like.
#[derive(Debug, Clone, Copy)]
pub struct KvCache {
    /// Eight-bit keys, four-bit turbo values.
    pub quant_asym: bool,
    /// Bits of the turbo form; zero for none.
    pub quant_turbo: u8,
    pub quant_q8: bool,
    pub max_seq: usize,
}

impl KvCache {
    /// How the cache is stored. A turbo form other than two, three or four bits
    /// has no kernels.
    pub open spec fn form(self) -> Option<KvForm> {
        if self.quant_asym {
            Some(KvForm::Q8Turbo4)
        } else if self.quant_turbo == 4 {
            Some(KvForm::Turbo4)
        } else if self.quant_turbo == 3 {
            Some(KvForm::Turbo3)
        } else if self.quant_turbo == 2 {
            Some(KvForm::Turbo2)
        } else if self.quant_turbo > 0 {
            None
        } else if self.quant_q8 {
            Some(KvForm::Q8)
        } else {
            Some(KvForm::F32)
        }
    }

    /// How the cache is stored.
    pub fn kv_form(&self) -> (r: Option<KvForm>)
        ensures
            r == self.form(),
    {
        if self.quant_asym {
            Some(KvForm::Q8Turbo4)
        } else if self.quant_turbo > 0 {
            match self.quant_turbo {
                4 => Some(KvForm::Turbo4),
                3 => Some(KvForm::Turbo3),
                2 => Some(KvForm::Turbo2),
                _ => None,
            }
        } else if self.quant_q8 {
            Some(KvForm::Q8)
        } else {
            Some(KvForm::F32)
        }
    }
}

/// An embedding table that has a lookup kernel here.
pub open spec fn has_lookup(format: EmbeddingFormat) -> bool {
    format != EmbeddingFormat::Q4K
}

/// The weights have the layers that the configuration describes.
pub open spec fn matches_config(w: Qwen35Weights, c: Qwen35Config) -> bool {
    &&& w.layers@.len() >= c.n_layers
    &&& c.layer_types@.len() >= c.n_layers
    &&& forall|i: int|
        0 <= i < c.n_layers ==> ((#[trigger] w.layers@[i]) is DeltaNet <==> c.layer_types@[i]
            == LayerType::LinearAttention)
}

/// Whether the weights have the layers that the configuration describes.
pub fn are_matching(w: &Qwen35Weights, c: &Qwen35Config) -> (r: bool)
    ensures
        r == matches_config(*w, *c),
{
    if w.layers.len() < c.n_layers || c.layer_types.len() < c.n_layers {
        return false;
    }
    let mut i: usize = 0;
    while i < c.n_layers
        invariant
            i <= c.n_layers <= w.layers@.len(),
            c.n_layers <= c.layer_types@.len(),
            forall|k: int|
                0 <= k < i ==> ((#[trigger] w.layers@[k]) is DeltaNet <==> c.layer_types@[k]
                    == LayerType::LinearAttention),
        decreases c.n_layers - i,
    {
        let linear: bool = match &w.layers[i] {
            LayerWeights::DeltaNet(_) => true,
            LayerWeights::FullAttn(_) => false,
        };
        if linear != (c.layer_types[i] == LayerType::LinearAttention) {
            return false;
        }
        i = i + 1;
    }
    true
}

/// The repetition of linear heads has heads to divide by.
pub open spec fn divides(c: Qwen35Config) -> bool {
    c.linear_num_key_heads >= 1 || c.linear_num_value_heads == 0
}

/// `1 / sqrt(n)`.
pub open spec fn inverse_root(n: nat) -> F32 {
    crate::float::quotient(
        F32 { bits: crate::cask::ONE },
        crate::float::square_root(crate::float::of_nat(n)),
    )
}

/// `1 / sqrt(n)`.
pub fn inverse_root_of(n: usize) -> (r: F32)
    ensures
        r == inverse_root(n as nat),
{
    F32 { bits: crate::cask::ONE }.over(F32::from_u64(n as u64).sqrt())
}

/// Dimensions of a head that positions rotate.
pub open spec fn rotated_dims(c: Qwen35Config) -> usize {
    crate::float::trunc_nat(
        crate::float::product(crate::float::of_nat(c.head_dim as nat), c.partial_rotary_factor),
    ) as usize
}

fn rotated_dims_of(c: &Qwen35Config) -> (r: usize)
    ensures
        r == rotated_dims(*c),
{
    F32::from_u64(c.head_dim as u64).times(c.partial_rotary_factor).to_u64() as usize
}

/// A linear layer up to its heads: project, convolve, split, norm and scale. `d`
/// counts the linear layers before it.
pub open spec fn linear_in_ops(
    c: Qwen35Config,
    w: DeltaNetLayerWeights,
    i: usize,
    d: usize,
) -> Seq<QwenOp> {
    let k4 = (4 * c.k_dim()) as usize;
    let k8 = (8 * c.k_dim()) as usize;
    let v4 = (4 * c.v_dim()) as usize;
    let qkv = c.qkv_dim() as usize;
    let by = inverse_root(c.linear_key_head_dim as nat);
    seq![
        Op::RmsNorm {
            x: Qwen35Buf::X,
            w: Qwen35Wt::Layer(i, LayerPart::AttnNorm),
            out: Qwen35Buf::Tmp,
            eps: c.norm_eps,
        },
        crate::device::gemv_op(
            w.wqkv,
            Qwen35Wt::Layer(i, LayerPart::Wqkv),
            Qwen35Buf::Tmp,
            Qwen35Buf::DnQkv,
        ),
        crate::device::gemv_op(
            w.wz,
            Qwen35Wt::Layer(i, LayerPart::Wz),
            Qwen35Buf::Tmp,
            Qwen35Buf::DnZ,
        ),
        crate::device::gemv_op(
            w.w_beta,
            Qwen35Wt::Layer(i, LayerPart::WBeta),
            Qwen35Buf::Tmp,
            Qwen35Buf::DnBeta,
        ),
        Op::Sigmoid { x: Qwen35Buf::DnBeta },
        crate::device::gemv_op(
            w.w_alpha,
            Qwen35Wt::Layer(i, LayerPart::WAlpha),
            Qwen35Buf::Tmp,
            Qwen35Buf::DnAlpha,
        ),
        Op::AlphaGate {
            x: Qwen35Buf::DnAlpha,
            dt_bias: Qwen35Wt::Layer(i, LayerPart::DtBias),
            a_log: Qwen35Wt::Layer(i, LayerPart::ALog),
            n: c.linear_num_value_heads,
        },
        Op::ConvSilu {
            x: Qwen35Buf::DnQkv,
            w: Qwen35Wt::Layer(i, LayerPart::ConvWeight),
            out: Qwen35Buf::DnConvOut,
            state: d,
            channels: qkv,
        },
        Op::Copy {
            dst: Qwen35Buf::DnQRaw,
            dst_off: 0,
            src: Qwen35Buf::DnConvOut,
            src_off: 0,
            bytes: k4,
        },
        Op::Copy {
            dst: Qwen35Buf::DnKRaw,
            dst_off: 0,
            src: Qwen35Buf::DnConvOut,
            src_off: k4,
            bytes: k4,
        },
        Op::Copy {
            dst: Qwen35Buf::DnV,
            dst_off: 0,
            src: Qwen35Buf::DnConvOut,
            src_off: k8,
            bytes: v4,
        },
        Op::L2Norm {
            x: Qwen35Buf::DnQRaw,
            heads: c.linear_num_key_heads,
            dim: c.linear_key_head_dim,
            eps: c.norm_eps,
        },
        Op::L2Norm {
            x: Qwen35Buf::DnKRaw,
            heads: c.linear_num_key_heads,
            dim: c.linear_key_head_dim,
            eps: c.norm_eps,
        },
        Op::Scale { x: Qwen35Buf::DnQRaw, by: by },
    ]
}

fn linear_in(c: &Qwen35Config, w: &DeltaNetLayerWeights, i: usize, d: usize) -> (ops: Vec<QwenOp>)
    requires
        c.fits(),
    ensures
        ops@ == linear_in_ops(*c, *w, i, d),
{
    proof {
        lemma_widths(*c);
    }
    let k4: usize = 4 * (c.linear_num_key_heads * c.linear_key_head_dim);
    let k8: usize = 2 * k4;
    let v4: usize = 4 * (c.linear_num_value_heads * c.linear_value_head_dim);
    let qkv: usize = c.linear_num_key_heads * c.linear_key_head_dim * 2
        + c.linear_num_value_heads * c.linear_value_head_dim;
    let by: F32 = inverse_root_of(c.linear_key_head_dim);
    vec![
        Op::RmsNorm {
            x: Qwen35Buf::X,
            w: Qwen35Wt::Layer(i, LayerPart::AttnNorm),
            out: Qwen35Buf::Tmp,
            eps: c.norm_eps,
        },
        gemv(w.wqkv, Qwen35Wt::Layer(i, LayerPart::Wqkv), Qwen35Buf::Tmp, Qwen35Buf::DnQkv),
        gemv(w.wz, Qwen35Wt::Layer(i, LayerPart::Wz), Qwen35Buf::Tmp, Qwen35Buf::DnZ),
        gemv(w.w_beta, Qwen35Wt::Layer(i, LayerPart::WBeta), Qwen35Buf::Tmp, Qwen35Buf::DnBeta),
        Op::Sigmoid { x: Qwen35Buf::DnBeta },
        gemv(w.w_alpha, Qwen35Wt::Layer(i, LayerPart::WAlpha), Qwen35Buf::Tmp, Qwen35Buf::DnAlpha),
        Op::AlphaGate {
            x: Qwen35Buf::DnAlpha,
            dt_bias: Qwen35Wt::Layer(i, LayerPart::DtBias),
            a_log: Qwen35Wt::Layer(i, LayerPart::ALog),
            n: c.linear_num_value_heads,
        },
        Op::ConvSilu {
            x: Qwen35Buf::DnQkv,
            w: Qwen35Wt::Layer(i, LayerPart::ConvWeight),
            out: Qwen35Buf::DnConvOut,
            state: d,
            channels: qkv,
        },
        Op::Copy {
            dst: Qwen35Buf::DnQRaw,
            dst_off: 0,
            src: Qwen35Buf::DnConvOut,
            src_off: 0,
            bytes: k4,
        },
        Op::Copy {
            dst: Qwen35Buf::DnKRaw,
            dst_off: 0,
            src: Qwen35Buf::DnConvOut,
            src_off: k4,
            bytes: k4,
        },
        Op::Copy {
            dst: Qwen35Buf::DnV,
            dst_off: 0,
            src: Qwen35Buf::DnConvOut,
            src_off: k8,
            bytes: v4,
        },
        Op::L2Norm {
            x: Qwen35Buf::DnQRaw,
            heads: c.linear_num_key_heads,
            dim: c.linear_key_head_dim,
            eps: c.norm_eps,
        },
        Op::L2Norm {
            x: Qwen35Buf::DnKRaw,
            heads: c.linear_num_key_heads,
            dim: c.linear_key_head_dim,
            eps: c.norm_eps,
        },
        Op::Scale { x: Qwen35Buf::DnQRaw, by: by },
    ]
}

/// A linear layer from its heads on: the delta step, the gated norm, the output
/// and the feed-forward part.
pub open spec fn linear_out_ops(
    c: Qwen35Config,
    w: DeltaNetLayerWeights,
    i: usize,
    d: usize,
    quant: StateQuant,
) -> Seq<QwenOp> {
    seq![
        Op::DeltaStep {
            quant,
            q: Qwen35Buf::DnQ,
            k: Qwen35Buf::DnK,
            v: Qwen35Buf::DnV,
            alpha: Qwen35Buf::DnAlpha,
            beta: Qwen35Buf::DnBeta,
            out: Qwen35Buf::DnAttnOut,
            state: d,
            heads: c.linear_num_value_heads,
            dim: c.linear_value_head_dim,
        },
        Op::GatedNorm {
            x: Qwen35Buf::DnAttnOut,
            z: Qwen35Buf::DnZ,
            w: Qwen35Wt::Layer(i, LayerPart::NormWeight),
            out: Qwen35Buf::DnNormed,
            heads: c.linear_num_value_heads,
            dim: c.linear_value_head_dim,
            eps: c.norm_eps,
        },
        crate::device::gemv_op(
            w.wo,
            Qwen35Wt::Layer(i, LayerPart::Wo),
            Qwen35Buf::DnNormed,
            Qwen35Buf::O,
        ),
        Op::AddTo { x: Qwen35Buf::X, y: Qwen35Buf::O },
        Op::RmsNorm {
            x: Qwen35Buf::X,
            w: Qwen35Wt::Layer(i, LayerPart::FfnNorm),
            out: Qwen35Buf::Tmp,
            eps: c.norm_eps,
        },
        crate::device::gemv_op(
            w.w_gate,
            Qwen35Wt::Layer(i, LayerPart::WGate),
            Qwen35Buf::Tmp,
            Qwen35Buf::GateFfn,
        ),
        crate::device::gemv_op(
            w.w_up,
            Qwen35Wt::Layer(i, LayerPart::WUp),
            Qwen35Buf::Tmp,
            Qwen35Buf::Up,
        ),
        Op::SiluMul { a: Qwen35Buf::GateFfn, b: Qwen35Buf::Up, out: Qwen35Buf::FfnHidden },
        crate::device::gemv_op(
            w.w_down,
            Qwen35Wt::Layer(i, LayerPart::WDown),
            Qwen35Buf::FfnHidden,
            Qwen35Buf::FfnOut,
        ),
        Op::AddTo { x: Qwen35Buf::X, y: Qwen35Buf::FfnOut },
    ]
}

fn linear_out(
    c: &Qwen35Config,
    w: &DeltaNetLayerWeights,
    i: usize,
    d: usize,
    quant: StateQuant,
) -> (ops: Vec<QwenOp>)
    ensures
        ops@ == linear_out_ops(*c, *w, i, d, quant),
{
    vec![
        Op::DeltaStep {
            quant,
            q: Qwen35Buf::DnQ,
            k: Qwen35Buf::DnK,
            v: Qwen35Buf::DnV,
            alpha: Qwen35Buf::DnAlpha,
            beta: Qwen35Buf::DnBeta,
            out: Qwen35Buf::DnAttnOut,
            state: d,
            heads: c.linear_num_value_heads,
            dim: c.linear_value_head_dim,
        },
        Op::GatedNorm {
            x: Qwen35Buf::DnAttnOut,
            z: Qwen35Buf::DnZ,
            w: Qwen35Wt::Layer(i, LayerPart::NormWeight),
            out: Qwen35Buf::DnNormed,
            heads: c.linear_num_value_heads,
            dim: c.linear_value_head_dim,
            eps: c.norm_eps,
        },
        gemv(w.wo, Qwen35Wt::Layer(i, LayerPart::Wo), Qwen35Buf::DnNormed, Qwen35Buf::O),
        Op::AddTo { x: Qwen35Buf::X, y: Qwen35Buf::O },
        Op::RmsNorm {
            x: Qwen35Buf::X,
            w: Qwen35Wt::Layer(i, LayerPart::FfnNorm),
            out: Qwen35Buf::Tmp,
            eps: c.norm_eps,
        },
        gemv(w.w_gate, Qwen35Wt::Layer(i, LayerPart::WGate), Qwen35Buf::Tmp, Qwen35Buf::GateFfn),
        gemv(w.w_up, Qwen35Wt::Layer(i, LayerPart::WUp), Qwen35Buf::Tmp, Qwen35Buf::Up),
        Op::SiluMul { a: Qwen35Buf::GateFfn, b: Qwen35Buf::Up, out: Qwen35Buf::FfnHidden },
        gemv(
            w.w_down,
            Qwen35Wt::Layer(i, LayerPart::WDown),
            Qwen35Buf::FfnHidden,
            Qwen35Buf::FfnOut,
        ),
        Op::AddTo { x: Qwen35Buf::X, y: Qwen35Buf::FfnOut },
    ]
}

/// Linear queries and keys for the first `n` value heads: head `j` is a copy of key
/// head `j / ratio`.
pub open spec fn repeat_ops(c: Qwen35Config, ratio: int, n: nat) -> Seq<QwenOp>
    decreases n,
{
    if n == 0 {
        Seq::empty()
    } else {
        let j = n - 1;
        let bytes = 4 * c.linear_key_head_dim;
        repeat_ops(c, ratio, j as nat) + seq![
            Op::Copy {
                dst: Qwen35Buf::DnQ,
                dst_off: (j * bytes) as usize,
                src: Qwen35Buf::DnQRaw,
                src_off: ((j / ratio) * bytes) as usize,
                bytes: bytes as usize,
            },
            Op::Copy {
                dst: Qwen35Buf::DnK,
                dst_off: (j * bytes) as usize,
                src: Qwen35Buf::DnKRaw,
                src_off: ((j / ratio) * bytes) as usize,
                bytes: bytes as usize,
            },
        ]
    }
}

/// Linear queries and keys, a head for each value head.
pub open spec fn heads_ops(c: Qwen35Config) -> Seq<QwenOp> {
    if c.linear_num_key_heads < c.linear_num_value_heads {
        let ratio = c.linear_num_value_heads as int / c.linear_num_key_heads as int;
        repeat_ops(c, ratio, (c.linear_num_key_heads * ratio) as nat)
    } else {
        let k4 = (4 * c.k_dim()) as usize;
        seq![
            Op::Copy { dst: Qwen35Buf::DnQ, dst_off: 0, src: Qwen35Buf::DnQRaw, src_off: 0, bytes: k4 },
            Op::Copy { dst: Qwen35Buf::DnK, dst_off: 0, src: Qwen35Buf::DnKRaw, src_off: 0, bytes: k4 },
        ]
    }
}

proof fn lemma_repeat_offset(c: Qwen35Config, ratio: int, j: int)
    requires
        c.fits(),
        1 <= c.linear_num_key_heads < c.linear_num_value_heads,
        ratio == c.linear_num_value_heads as int / c.linear_num_key_heads as int,
        0 <= j < c.linear_num_key_heads * ratio,
    ensures
        1 <= ratio,
        c.linear_num_key_heads * ratio <= c.linear_num_value_heads,
        0 <= j / ratio <= j,
        j / ratio < c.linear_num_key_heads,
        0 <= (j / ratio) * (4 * c.linear_key_head_dim) <= j * (4 * c.linear_key_head_dim),
        j * (4 * c.linear_key_head_dim) + 4 * c.linear_key_head_dim <= 4 * (
        c.linear_num_value_heads * c.linear_key_head_dim) <= usize::MAX,
        (j / ratio) * (4 * c.linear_key_head_dim) + 4 * c.linear_key_head_dim <= 4 * c.k_dim(),
{
    let nk = c.linear_num_key_heads as int;
    let nv = c.linear_num_value_heads as int;
    let kd = c.linear_key_head_dim as int;
    assert(1 <= ratio && nk * ratio <= nv) by (nonlinear_arith)
        requires
            1 <= nk < nv,
            ratio == nv / nk,
    ;
    assert(0 <= j / ratio <= j && j / ratio < nk) by (nonlinear_arith)
        requires
            0 <= j < nk * ratio,
            1 <= ratio,
    ;
    let g = j / ratio;
    assert(0 <= g * (4 * kd) <= j * (4 * kd)) by (nonlinear_arith)
        requires
            0 <= g <= j,
            kd >= 0,
    ;
    assert(j * (4 * kd) + 4 * kd <= 4 * (nv * kd)) by (nonlinear_arith)
        requires
            0 <= j < nv,
            kd >= 0,
    ;
    assert(g * (4 * kd) + 4 * kd <= 4 * (nk * kd)) by (nonlinear_arith)
        requires
            0 <= g < nk,
            kd >= 0,
    ;
}

fn heads(c: &Qwen35Config) -> (ops: Vec<QwenOp>)
    requires
        c.fits(),
        divides(*c),
    ensures
        ops@ == heads_ops(*c),
{
    proof {
        lemma_widths(*c);
    }
    let nk: usize = c.linear_num_key_heads;
    let nv: usize = c.linear_num_value_heads;
    if nk < nv {
        let ratio: usize = nv / nk;
        assert(nk * ratio <= nv) by (nonlinear_arith)
            requires
                nk >= 1,
                ratio == nv as int / nk as int,
        ;
        let total: usize = nk * ratio;
        let mut ops: Vec<QwenOp> = Vec::new();
        let mut j: usize = 0;
        while j < total
            invariant
                j <= total == nk * ratio,
                nk == c.linear_num_key_heads,
                nv == c.linear_num_value_heads,
                1 <= nk < nv,
                ratio == nv as int / nk as int,
                c.fits(),
                ops@ == repeat_ops(*c, ratio as int, j as nat),
            decreases total - j,
        {
            proof {
                lemma_repeat_offset(*c, ratio as int, j as int);
            }
            let bytes: usize = 4 * c.linear_key_head_dim;
            let dst_off: usize = j * bytes;
            let src_off: usize = (j / ratio) * bytes;
            extend(
                &mut ops,
                vec![
                    Op::Copy { dst: Qwen35Buf::DnQ, dst_off, src: Qwen35Buf::DnQRaw, src_off, bytes },
                    Op::Copy { dst: Qwen35Buf::DnK, dst_off, src: Qwen35Buf::DnKRaw, src_off, bytes },
                ],
            );
            j = j + 1;
        }
        ops
    } else {
        let k4: usize = 4 * (nk * c.linear_key_head_dim);
        vec![
            Op::Copy { dst: Qwen35Buf::DnQ, dst_off: 0, src: Qwen35Buf::DnQRaw, src_off: 0, bytes: k4 },
            Op::Copy { dst: Qwen35Buf::DnK, dst_off: 0, src: Qwen35Buf::DnKRaw, src_off: 0, bytes: k4 },
        ]
    }
}

/// The first `n` heads of the full queries taken apart: a query, then its gate.
pub open spec fn split_ops(c: Qwen35Config, n: nat) -> Seq<QwenOp>
    decreases n,
{
    if n == 0 {
        Seq::empty()
    } else {
        let h = n - 1;
        let bytes = 4 * c.head_dim;
        split_ops(c, h as nat) + seq![
            Op::Copy {
                dst: Qwen35Buf::FaQ,
                dst_off: (h * bytes) as usize,
                src: Qwen35Buf::FaQFull,
                src_off: ((2 * h) * bytes) as usize,
                bytes: bytes as usize,
            },
            Op::Copy {
                dst: Qwen35Buf::FaGate,
                dst_off: (h * bytes) as usize,
                src: Qwen35Buf::FaQFull,
                src_off: ((2 * h + 1) * bytes) as usize,
                bytes: bytes as usize,
            },
        ]
    }
}

proof fn lemma_split_offset(c: Qwen35Config, h: int)
    requires
        c.fits(),
        0 <= h < c.n_heads,
    ensures
        0 <= h * (4 * c.head_dim),
        h * (4 * c.head_dim) + 4 * c.head_dim <= 4 * c.q_dim(),
        0 <= (2 * h) * (4 * c.head_dim) <= (2 * h + 1) * (4 * c.head_dim),
        (2 * h + 1) * (4 * c.head_dim) + 4 * c.head_dim <= 8 * c.q_dim() <= usize::MAX,
        (2 * h) * (4 * c.head_dim) + 4 * c.head_dim <= 8 * c.q_dim(),
{
    let hd = c.head_dim as int;
    let n = c.n_heads as int;
    assert(0 <= h * (4 * hd) && h * (4 * hd) + 4 * hd <= 4 * (n * hd)) by (nonlinear_arith)
        requires
            0 <= h < n,
            hd >= 0,
    ;
    assert(0 <= (2 * h) * (4 * hd) <= (2 * h + 1) * (4 * hd)) by (nonlinear_arith)
        requires
            0 <= h,
            hd >= 0,
    ;
    assert((2 * h + 1) * (4 * hd) + 4 * hd <= 8 * (n * hd)) by (nonlinear_arith)
        requires
            0 <= h < n,
            hd >= 0,
    ;
    assert((2 * h) * (4 * hd) + 4 * hd <= 8 * (n * hd)) by (nonlinear_arith)
        requires
            0 <= h < n,
            hd >= 0,
    ;
}

fn split(c: &Qwen35Config) -> (ops: Vec<QwenOp>)
    requires
        c.fits(),
    ensures
        ops@ == split_ops(*c, c.n_heads as nat),
{
    let mut ops: Vec<QwenOp> = Vec::new();
    let mut h: usize = 0;
    while h < c.n_heads
        invariant
            h <= c.n_heads,
            c.fits(),
            ops@ == split_ops(*c, h as nat),
        decreases c.n_heads - h,
    {
        proof {
            lemma_split_offset(*c, h as int);
            let hd = c.head_dim as int;
            if hd >= 1 {
                assert(2 * h <= (2 * h) * (4 * hd)) by (nonlinear_arith)
                    requires
                        h >= 0,
                        hd >= 1,
                ;
            }
        }
        let bytes: usize = 4 * c.head_dim;
        let at: usize = h * bytes;
        let from: usize = at + at;
        proof {
            let b = bytes as int;
            assert(at + at == (2 * h) * b && at + at + b == (2 * h + 1) * b) by (nonlinear_arith)
                requires
                    at == h * b,
            ;
        }
        extend(
            &mut ops,
            vec![
                Op::Copy {
                    dst: Qwen35Buf::FaQ,
                    dst_off: at,
                    src: Qwen35Buf::FaQFull,
                    src_off: from,
                    bytes,
                },
                Op::Copy {
                    dst: Qwen35Buf::FaGate,
                    dst_off: at,
                    src: Qwen35Buf::FaQFull,
                    src_off: from + bytes,
                    bytes,
                },
            ],
        );
        h = h + 1;
    }
    ops
}

/// A full layer up to its heads: queries and gates.
pub open spec fn full_in_ops(c: Qwen35Config, w: FullAttnLayerWeights, i: usize) -> Seq<QwenOp> {
    seq![
        Op::RmsNorm {
            x: Qwen35Buf::X,
            w: Qwen35Wt::Layer(i, LayerPart::AttnNorm),
            out: Qwen35Buf::Tmp,
            eps: c.norm_eps,
        },
        crate::device::gemv_op(
            w.wq,
            Qwen35Wt::Layer(i, LayerPart::Wq),
            Qwen35Buf::Tmp,
            Qwen35Buf::FaQFull,
        ),
    ]
}

fn full_in(c: &Qwen35Config, w: &FullAttnLayerWeights, i: usize) -> (ops: Vec<QwenOp>)
    ensures
        ops@ == full_in_ops(*c, *w, i),
{
    vec![
        Op::RmsNorm {
            x: Qwen35Buf::X,
            w: Qwen35Wt::Layer(i, LayerPart::AttnNorm),
            out: Qwen35Buf::Tmp,
            eps: c.norm_eps,
        },
        gemv(w.wq, Qwen35Wt::Layer(i, LayerPart::Wq), Qwen35Buf::Tmp, Qwen35Buf::FaQFull),
    ]
}

/// Norms, keys, values and positions.
pub open spec fn full_mid_ops(
    c: Qwen35Config,
    w: FullAttnLayerWeights,
    i: usize,
    pos: usize,
) -> Seq<QwenOp> {
    let n_rot = rotated_dims(c);
    seq![
        Op::RmsNormRows {
            x: Qwen35Buf::FaQ,
            w: Qwen35Wt::Layer(i, LayerPart::QNorm),
            out: Qwen35Buf::FaQ,
            rows: c.n_heads,
            n: c.head_dim,
            eps: c.norm_eps,
        },
        crate::device::gemv_op(
            w.wk,
            Qwen35Wt::Layer(i, LayerPart::Wk),
            Qwen35Buf::Tmp,
            Qwen35Buf::FaK,
        ),
        crate::device::gemv_op(
            w.wv,
            Qwen35Wt::Layer(i, LayerPart::Wv),
            Qwen35Buf::Tmp,
            Qwen35Buf::FaV,
        ),
        Op::RmsNormRows {
            x: Qwen35Buf::FaK,
            w: Qwen35Wt::Layer(i, LayerPart::KNorm),
            out: Qwen35Buf::FaK,
            rows: c.n_kv_heads,
            n: c.head_dim,
            eps: c.norm_eps,
        },
        Op::RopeInterleaved {
            q: Qwen35Buf::FaQ,
            k: Qwen35Buf::FaK,
            pos,
            q_heads: c.n_heads,
            k_heads: c.n_kv_heads,
            dim: c.head_dim,
            n_rot: n_rot,
            theta: c.rope_theta,
        },
    ]
}

fn full_mid(c: &Qwen35Config, w: &FullAttnLayerWeights, i: usize, pos: usize) -> (ops: Vec<QwenOp>)
    ensures
        ops@ == full_mid_ops(*c, *w, i, pos),
{
    let n_rot: usize = rotated_dims_of(c);
    vec![
        Op::RmsNormRows {
            x: Qwen35Buf::FaQ,
            w: Qwen35Wt::Layer(i, LayerPart::QNorm),
            out: Qwen35Buf::FaQ,
            rows: c.n_heads,
            n: c.head_dim,
            eps: c.norm_eps,
        },
        gemv(w.wk, Qwen35Wt::Layer(i, LayerPart::Wk), Qwen35Buf::Tmp, Qwen35Buf::FaK),
        gemv(w.wv, Qwen35Wt::Layer(i, LayerPart::Wv), Qwen35Buf::Tmp, Qwen35Buf::FaV),
        Op::RmsNormRows {
            x: Qwen35Buf::FaK,
            w: Qwen35Wt::Layer(i, LayerPart::KNorm),
            out: Qwen35Buf::FaK,
            rows: c.n_kv_heads,
            n: c.head_dim,
            eps: c.norm_eps,
        },
        Op::RopeInterleaved {
            q: Qwen35Buf::FaQ,
            k: Qwen35Buf::FaK,
            pos,
            q_heads: c.n_heads,
            k_heads: c.n_kv_heads,
            dim: c.head_dim,
            n_rot: n_rot,
            theta: c.rope_theta,
        },
    ]
}

/// A full layer from attention on: gating, output and feed-forward part.
pub open spec fn full_out_ops(c: Qwen35Config, w: FullAttnLayerWeights, i: usize) -> Seq<QwenOp> {
    seq![
        Op::Sigmoid { x: Qwen35Buf::FaGate },
        Op::Mul { a: Qwen35Buf::FaAttnOut, b: Qwen35Buf::FaGate, out: Qwen35Buf::FaAttnOut },
        crate::device::gemv_op(
            w.wo,
            Qwen35Wt::Layer(i, LayerPart::Wo),
            Qwen35Buf::FaAttnOut,
            Qwen35Buf::O,
        ),
        Op::AddTo { x: Qwen35Buf::X, y: Qwen35Buf::O },
        Op::RmsNorm {
            x: Qwen35Buf::X,
            w: Qwen35Wt::Layer(i, LayerPart::FfnNorm),
            out: Qwen35Buf::Tmp,
            eps: c.norm_eps,
        },
        crate::device::gemv_op(
            w.w_gate,
            Qwen35Wt::Layer(i, LayerPart::WGate),
            Qwen35Buf::Tmp,
            Qwen35Buf::GateFfn,
        ),
        crate::device::gemv_op(
            w.w_up,
            Qwen35Wt::Layer(i, LayerPart::WUp),
            Qwen35Buf::Tmp,
            Qwen35Buf::Up,
        ),
        Op::SiluMul { a: Qwen35Buf::GateFfn, b: Qwen35Buf::Up, out: Qwen35Buf::FfnHidden },
        crate::device::gemv_op(
            w.w_down,
            Qwen35Wt::Layer(i, LayerPart::WDown),
            Qwen35Buf::FfnHidden,
            Qwen35Buf::FfnOut,
        ),
        Op::AddTo { x: Qwen35Buf::X, y: Qwen35Buf::FfnOut },
    ]
}

fn full_out(c: &Qwen35Config, w: &FullAttnLayerWeights, i: usize) -> (ops: Vec<QwenOp>)
    ensures
        ops@ == full_out_ops(*c, *w, i),
{
    vec![
        Op::Sigmoid { x: Qwen35Buf::FaGate },
        Op::Mul { a: Qwen35Buf::FaAttnOut, b: Qwen35Buf::FaGate, out: Qwen35Buf::FaAttnOut },
        gemv(w.wo, Qwen35Wt::Layer(i, LayerPart::Wo), Qwen35Buf::FaAttnOut, Qwen35Buf::O),
        Op::AddTo { x: Qwen35Buf::X, y: Qwen35Buf::O },
        Op::RmsNorm {
            x: Qwen35Buf::X,
            w: Qwen35Wt::Layer(i, LayerPart::FfnNorm),
            out: Qwen35Buf::Tmp,
            eps: c.norm_eps,
        },
        gemv(w.w_gate, Qwen35Wt::Layer(i, LayerPart::WGate), Qwen35Buf::Tmp, Qwen35Buf::GateFfn),
        gemv(w.w_up, Qwen35Wt::Layer(i, LayerPart::WUp), Qwen35Buf::Tmp, Qwen35Buf::Up),
        Op::SiluMul { a: Qwen35Buf::GateFfn, b: Qwen35Buf::Up, out: Qwen35Buf::FfnHidden },
        gemv(
            w.w_down,
            Qwen35Wt::Layer(i, LayerPart::WDown),
            Qwen35Buf::FfnHidden,
            Qwen35Buf::FfnOut,
        ),
        Op::AddTo { x: Qwen35Buf::X, y: Qwen35Buf::FfnOut },
    ]
}

/// Attention over a cache in a form, at position `pos`: the new keys and values
/// are written, then all up to them are attended to.
pub open spec fn attend_op(c: Qwen35Config, form: KvForm, i: usize, pos: usize, max_seq: usize) -> QwenOp {
    Op::Attend {
        cache: CacheKind::Only,
        form,
        layer: i,
        q: Qwen35Buf::FaQ,
        out: Qwen35Buf::FaAttnOut,
        seq_len: (pos + 1) as usize,
        heads: c.n_heads,
        kv_heads: c.n_kv_heads,
        dim: c.head_dim,
        max_seq,
        window: 0,
        capacity: 0,
    }
}

pub open spec fn store_op(c: Qwen35Config, form: KvForm, side: KvSide, i: usize) -> QwenOp {
    Op::KvStore {
        cache: CacheKind::Only,
        form,
        side,
        layer: i,
        src: match side {
            KvSide::Keys => Qwen35Buf::FaK,
            KvSide::Values => Qwen35Buf::FaV,
        },
        heads: c.n_kv_heads,
        dim: c.head_dim,
    }
}

/// Write keys and values and attend, as the form of the cache asks.
pub open spec fn kv_ops(c: Qwen35Config, form: Option<KvForm>, i: usize, pos: usize, max_seq: usize) -> Seq<
    QwenOp,
> {
    match form {
        None => Seq::empty(),
        Some(KvForm::Q8Turbo4) => seq![
            store_op(c, KvForm::Q8, KvSide::Keys, i),
            store_op(c, KvForm::Turbo4, KvSide::Values, i),
            attend_op(c, KvForm::Q8Turbo4, i, pos, max_seq),
        ],
        Some(form) => if form == KvForm::Q8 || form == KvForm::F32 {
            seq![
                store_op(c, form, KvSide::Keys, i),
                store_op(c, form, KvSide::Values, i),
                attend_op(c, form, i, pos, max_seq),
            ]
        } else {
            seq![
                Op::KvStorePair {
                    cache: CacheKind::Only,
                    form,
                    layer: i,
                    k: Qwen35Buf::FaK,
                    v: Qwen35Buf::FaV,
                    heads: c.n_kv_heads,
                    dim: c.head_dim,
                    capacity: 0,
                },
                attend_op(c, form, i, pos, max_seq),
            ]
        },
    }
}

fn attend(c: &Qwen35Config, form: KvForm, i: usize, pos: usize, max_seq: usize) -> (op: QwenOp)
    requires
        pos < usize::MAX,
    ensures
        op == attend_op(*c, form, i, pos, max_seq),
{
    Op::Attend {
        cache: CacheKind::Only,
        form,
        layer: i,
        q: Qwen35Buf::FaQ,
        out: Qwen35Buf::FaAttnOut,
        seq_len: pos + 1,
        heads: c.n_heads,
        kv_heads: c.n_kv_heads,
        dim: c.head_dim,
        max_seq,
        window: 0,
        capacity: 0,
    }
}

fn store(c: &Qwen35Config, form: KvForm, side: KvSide, i: usize) -> (op: QwenOp)
    ensures
        op == store_op(*c, form, side, i),
{
    let src: Qwen35Buf = match side {
        KvSide::Keys => Qwen35Buf::FaK,
        KvSide::Values => Qwen35Buf::FaV,
    };
    Op::KvStore { cache: CacheKind::Only, form, side, layer: i, src, heads: c.n_kv_heads, dim: c.head_dim }
}

fn kv(c: &Qwen35Config, form: Option<KvForm>, i: usize, pos: usize, max_seq: usize) -> (ops: Vec<
    QwenOp,
>)
    requires
        pos < usize::MAX,
    ensures
        ops@ == kv_ops(*c, form, i, pos, max_seq),
{
    match form {
        None => Vec::new(),
        Some(KvForm::Q8Turbo4) => vec![
            store(c, KvForm::Q8, KvSide::Keys, i),
            store(c, KvForm::Turbo4, KvSide::Values, i),
            attend(c, KvForm::Q8Turbo4, i, pos, max_seq),
        ],
        Some(form) => if form == KvForm::Q8 || form == KvForm::F32 {
            vec![
                store(c, form, KvSide::Keys, i),
                store(c, form, KvSide::Values, i),
                attend(c, form, i, pos, max_seq),
            ]
        } else {
            vec![
                Op::KvStorePair {
                    cache: CacheKind::Only,
                    form,
                    layer: i,
                    k: Qwen35Buf::FaK,
                    v: Qwen35Buf::FaV,
                    heads: c.n_kv_heads,
                    dim: c.head_dim,
                    capacity: 0,
                },
                attend(c, form, i, pos, max_seq),
            ]
        },
    }
}

/// Layer `i` in scratch buffers.
pub open spec fn layer_ops(
    c: Qwen35Config,
    w: LayerWeights,
    i: usize,
    pos: usize,
    cache: KvCache,
    quant: StateQuant,
) -> Seq<QwenOp> {
    let d = count_kind(c.layer_types@, LayerType::LinearAttention, i as nat) as usize;
    match w {
        LayerWeights::DeltaNet(w) => linear_in_ops(c, w, i, d) + heads_ops(c) + linear_out_ops(
            c,
            w,
            i,
            d,
            quant,
        ),
        LayerWeights::FullAttn(w) => full_in_ops(c, w, i) + split_ops(c, c.n_heads as nat)
            + full_mid_ops(c, w, i, pos) + kv_ops(c, cache.form(), i, pos, cache.max_seq)
            + full_out_ops(c, w, i),
    }
}

/// The first `n` layers in scratch buffers.
pub open spec fn layers_ops(
    c: Qwen35Config,
    layers: Seq<LayerWeights>,
    n: nat,
    pos: usize,
    cache: KvCache,
    quant: StateQuant,
) -> Seq<QwenOp>
    decreases n,
{
    if n == 0 {
        Seq::empty()
    } else {
        layers_ops(c, layers, (n - 1) as nat, pos, cache, quant) + layer_ops(
            c,
            layers[n - 1],
            (n - 1) as usize,
            pos,
            cache,
            quant,
        )
    }
}

/// The final norm and the logits.
pub open spec fn output_ops(c: Qwen35Config, w: Qwen35Weights) -> Seq<QwenOp> {
    seq![
        Op::RmsNorm {
            x: Qwen35Buf::X,
            w: Qwen35Wt::OutputNorm,
            out: Qwen35Buf::Tmp,
            eps: c.norm_eps,
        },
        crate::device::gemv_op(w.output, Qwen35Wt::Output, Qwen35Buf::Tmp, Qwen35Buf::Logits),
    ]
}

fn output(c: &Qwen35Config, w: &Qwen35Weights) -> (ops: Vec<QwenOp>)
    ensures
        ops@ == output_ops(*c, *w),
{
    vec![
        Op::RmsNorm {
            x: Qwen35Buf::X,
            w: Qwen35Wt::OutputNorm,
            out: Qwen35Buf::Tmp,
            eps: c.norm_eps,
        },
        gemv(w.output, Qwen35Wt::Output, Qwen35Buf::Tmp, Qwen35Buf::Logits),
    ]
}

/// All the layers and the logits, in scratch buffers.
pub open spec fn scratch_layers_ops(
    c: Qwen35Config,
    w: Qwen35Weights,
    pos: usize,
    cache: KvCache,
    quant: StateQuant,
) -> Seq<QwenOp> {
    layers_ops(c, w.layers@, c.n_layers as nat, pos, cache, quant) + output_ops(c, w)
}

fn layer(
    c: &Qwen35Config,
    w: &LayerWeights,
    i: usize,
    d: usize,
    pos: usize,
    cache: &KvCache,
    quant: StateQuant,
) -> (ops: Vec<QwenOp>)
    requires
        c.fits(),
        divides(*c),
        pos < usize::MAX,
        d == count_kind(c.layer_types@, LayerType::LinearAttention, i as nat),
    ensures
        ops@ == layer_ops(*c, *w, i, pos, *cache, quant),
{
    match w {
        LayerWeights::DeltaNet(w) => {
            let mut ops: Vec<QwenOp> = linear_in(c, w, i, d);
            extend(&mut ops, heads(c));
            extend(&mut ops, linear_out(c, w, i, d, quant));
            ops
        },
        LayerWeights::FullAttn(w) => {
            let mut ops: Vec<QwenOp> = full_in(c, w, i);
            extend(&mut ops, split(c));
            extend(&mut ops, full_mid(c, w, i, pos));
            extend(&mut ops, kv(c, cache.kv_form(), i, pos, cache.max_seq));
            extend(&mut ops, full_out(c, w, i));
            ops
        },
    }
}

/// All the layers and the logits, in scratch buffers. The hidden state is in `X`
/// and the position where kernels read it.
pub fn forward_scratch_layers(
    c: &Qwen35Config,
    w: &Qwen35Weights,
    pos: usize,
    cache: &KvCache,
    quant: StateQuant,
) -> (ops: Vec<QwenOp>)
    requires
        c.fits(),
        divides(*c),
        matches_config(*w, *c),
        pos < usize::MAX,
    ensures
        ops@ == scratch_layers_ops(*c, *w, pos, *cache, quant),
{
    let mut ops: Vec<QwenOp> = Vec::new();
    let mut d: usize = 0;
    let mut i: usize = 0;
    while i < c.n_layers
        invariant
            d <= i <= c.n_layers,
            c.fits(),
            divides(*c),
            matches_config(*w, *c),
            pos < usize::MAX,
            d == count_kind(c.layer_types@, LayerType::LinearAttention, i as nat),
            ops@ == layers_ops(*c, w.layers@, i as nat, pos, *cache, quant),
        decreases c.n_layers - i,
    {
        extend(&mut ops, layer(c, &w.layers[i], i, d, pos, cache, quant));
        if c.layer_types[i] == LayerType::LinearAttention {
            d = d + 1;
        }
        i = i + 1;
    }
    extend(&mut ops, output(c, w));
    ops
}

/// One token through the model in scratch buffers.
pub open spec fn scratch_pass_ops(
    c: Qwen35Config,
    w: Qwen35Weights,
    token: u32,
    pos: usize,
    cache: KvCache,
    quant: StateQuant,
) -> Seq<QwenOp> {
    seq![
        Op::SetPos { buf: Qwen35Buf::Pos, pos },
        Op::Embed { format: w.embd_format, token, out: Qwen35Buf::X, dim: c.dim },
    ] + scratch_layers_ops(c, w, pos, cache, quant)
}

/// One token through the model, in scratch buffers; the logits stay in `Logits`.
pub fn forward_scratch(
    c: &Qwen35Config,
    w: &Qwen35Weights,
    token: u32,
    pos: usize,
    cache: &KvCache,
    quant: StateQuant,
) -> (ops: Vec<QwenOp>)
    requires
        c.fits(),
        divides(*c),
        matches_config(*w, *c),
        has_lookup(w.embd_format),
        pos < usize::MAX,
    ensures
        ops@ == scratch_pass_ops(*c, *w, token, pos, *cache, quant),
{
    let mut ops: Vec<QwenOp> = vec![
        Op::SetPos { buf: Qwen35Buf::Pos, pos },
        Op::Embed { format: w.embd_format, token, out: Qwen35Buf::X, dim: c.dim },
    ];
    extend(&mut ops, forward_scratch_layers(c, w, pos, cache, quant));
    ops
}

/// One step from an embedding of `len` numbers that the host hands over, in
/// scratch buffers.
pub fn forward_scratch_embed(
    c: &Qwen35Config,
    w: &Qwen35Weights,
    len: usize,
    pos: usize,
    cache: &KvCache,
    quant: StateQuant,
) -> (ops: Vec<QwenOp>)
    requires
        c.fits(),
        divides(*c),
        matches_config(*w, *c),
        pos < usize::MAX,
    ensures
        ops@ == seq![Op::SetPos { buf: Qwen35Buf::Pos, pos }, Op::Upload { buf: Qwen35Buf::X, elems: len }]
            + scratch_layers_ops(*c, *w, pos, *cache, quant),
{
    let mut ops: Vec<QwenOp> = vec![
        Op::SetPos { buf: Qwen35Buf::Pos, pos },
        Op::Upload { buf: Qwen35Buf::X, elems: len },
    ];
    extend(&mut ops, forward_scratch_layers(c, w, pos, cache, quant));
    ops
}

// Forward pass with buffers of its own.

/// Width of the linear queries when each value head has one.
pub open spec fn heads_width(c: Qwen35Config) -> usize {
    if c.linear_num_key_heads < c.linear_num_value_heads {
        (c.linear_num_value_heads * c.linear_key_head_dim) as usize
    } else {
        c.k_dim() as usize
    }
}

fn heads_width_of(c: &Qwen35Config) -> (r: usize)
    requires
        c.fits(),
    ensures
        r == heads_width(*c),
{
    proof {
        lemma_widths(*c);
    }
    if c.linear_num_key_heads < c.linear_num_value_heads {
        c.linear_num_value_heads * c.linear_key_head_dim
    } else {
        c.linear_num_key_heads * c.linear_key_head_dim
    }
}

/// Like [`linear_in_ops`], with the buffers allocated on the way.
pub open spec fn own_linear_in_ops(
    c: Qwen35Config,
    w: DeltaNetLayerWeights,
    i: usize,
    d: usize,
) -> Seq<QwenOp> {
    let k = c.k_dim() as usize;
    let v = c.v_dim() as usize;
    let k4 = (4 * c.k_dim()) as usize;
    let k8 = (8 * c.k_dim()) as usize;
    let v4 = (4 * c.v_dim()) as usize;
    let qkv = c.qkv_dim() as usize;
    let wide = heads_width(c);
    let by = inverse_root(c.linear_key_head_dim as nat);
    seq![
        Op::RmsNorm {
            x: Qwen35Buf::X,
            w: Qwen35Wt::Layer(i, LayerPart::AttnNorm),
            out: Qwen35Buf::Tmp,
            eps: c.norm_eps,
        },
        Op::Alloc { buf: Qwen35Buf::DnQkv, elems: qkv },
        crate::device::gemv_op(
            w.wqkv,
            Qwen35Wt::Layer(i, LayerPart::Wqkv),
            Qwen35Buf::Tmp,
            Qwen35Buf::DnQkv,
        ),
        Op::Alloc { buf: Qwen35Buf::DnZ, elems: v },
        crate::device::gemv_op(
            w.wz,
            Qwen35Wt::Layer(i, LayerPart::Wz),
            Qwen35Buf::Tmp,
            Qwen35Buf::DnZ,
        ),
        Op::Alloc { buf: Qwen35Buf::DnBeta, elems: c.linear_num_value_heads },
        crate::device::gemv_op(
            w.w_beta,
            Qwen35Wt::Layer(i, LayerPart::WBeta),
            Qwen35Buf::Tmp,
            Qwen35Buf::DnBeta,
        ),
        Op::Sigmoid { x: Qwen35Buf::DnBeta },
        Op::Alloc { buf: Qwen35Buf::DnAlpha, elems: c.linear_num_value_heads },
        crate::device::gemv_op(
            w.w_alpha,
            Qwen35Wt::Layer(i, LayerPart::WAlpha),
            Qwen35Buf::Tmp,
            Qwen35Buf::DnAlpha,
        ),
        Op::AlphaGate {
            x: Qwen35Buf::DnAlpha,
            dt_bias: Qwen35Wt::Layer(i, LayerPart::DtBias),
            a_log: Qwen35Wt::Layer(i, LayerPart::ALog),
            n: c.linear_num_value_heads,
        },
        Op::Alloc { buf: Qwen35Buf::DnConvOut, elems: qkv },
        Op::ConvSilu {
            x: Qwen35Buf::DnQkv,
            w: Qwen35Wt::Layer(i, LayerPart::ConvWeight),
            out: Qwen35Buf::DnConvOut,
            state: d,
            channels: qkv,
        },
        Op::Alloc { buf: Qwen35Buf::DnQRaw, elems: k },
        Op::Alloc { buf: Qwen35Buf::DnKRaw, elems: k },
        Op::Alloc { buf: Qwen35Buf::DnV, elems: v },
        Op::Copy {
            dst: Qwen35Buf::DnQRaw,
            dst_off: 0,
            src: Qwen35Buf::DnConvOut,
            src_off: 0,
            bytes: k4,
        },
        Op::Copy {
            dst: Qwen35Buf::DnKRaw,
            dst_off: 0,
            src: Qwen35Buf::DnConvOut,
            src_off: k4,
            bytes: k4,
        },
        Op::Copy {
            dst: Qwen35Buf::DnV,
            dst_off: 0,
            src: Qwen35Buf::DnConvOut,
            src_off: k8,
            bytes: v4,
        },
        Op::L2Norm {
            x: Qwen35Buf::DnQRaw,
            heads: c.linear_num_key_heads,
            dim: c.linear_key_head_dim,
            eps: c.norm_eps,
        },
        Op::L2Norm {
            x: Qwen35Buf::DnKRaw,
            heads: c.linear_num_key_heads,
            dim: c.linear_key_head_dim,
            eps: c.norm_eps,
        },
        Op::Scale { x: Qwen35Buf::DnQRaw, by: by },
        Op::Alloc { buf: Qwen35Buf::DnQ, elems: wide },
        Op::Alloc { buf: Qwen35Buf::DnK, elems: wide },
    ]
}

fn own_linear_in(
    c: &Qwen35Config,
    w: &DeltaNetLayerWeights,
    i: usize,
    d: usize,
) -> (ops: Vec<QwenOp>)
    requires
        c.fits(),
    ensures
        ops@ == own_linear_in_ops(*c, *w, i, d),
{
    proof {
        lemma_widths(*c);
    }
    let k: usize = c.linear_num_key_heads * c.linear_key_head_dim;
    let v: usize = c.linear_num_value_heads * c.linear_value_head_dim;
    let k4: usize = 4 * k;
    let k8: usize = 2 * k4;
    let v4: usize = 4 * v;
    let qkv: usize = k * 2 + v;
    let wide: usize = heads_width_of(c);
    let by: F32 = inverse_root_of(c.linear_key_head_dim);
    vec![
        Op::RmsNorm {
            x: Qwen35Buf::X,
            w: Qwen35Wt::Layer(i, LayerPart::AttnNorm),
            out: Qwen35Buf::Tmp,
            eps: c.norm_eps,
        },
        Op::Alloc { buf: Qwen35Buf::DnQkv, elems: qkv },
        gemv(w.wqkv, Qwen35Wt::Layer(i, LayerPart::Wqkv), Qwen35Buf::Tmp, Qwen35Buf::DnQkv),
        Op::Alloc { buf: Qwen35Buf::DnZ, elems: v },
        gemv(w.wz, Qwen35Wt::Layer(i, LayerPart::Wz), Qwen35Buf::Tmp, Qwen35Buf::DnZ),
        Op::Alloc { buf: Qwen35Buf::DnBeta, elems: c.linear_num_value_heads },
        gemv(w.w_beta, Qwen35Wt::Layer(i, LayerPart::WBeta), Qwen35Buf::Tmp, Qwen35Buf::DnBeta),
        Op::Sigmoid { x: Qwen35Buf::DnBeta },
        Op::Alloc { buf: Qwen35Buf::DnAlpha, elems: c.linear_num_value_heads },
        gemv(w.w_alpha, Qwen35Wt::Layer(i, LayerPart::WAlpha), Qwen35Buf::Tmp, Qwen35Buf::DnAlpha),
        Op::AlphaGate {
            x: Qwen35Buf::DnAlpha,
            dt_bias: Qwen35Wt::Layer(i, LayerPart::DtBias),
            a_log: Qwen35Wt::Layer(i, LayerPart::ALog),
            n: c.linear_num_value_heads,
        },
        Op::Alloc { buf: Qwen35Buf::DnConvOut, elems: qkv },
        Op::ConvSilu {
            x: Qwen35Buf::DnQkv,
            w: Qwen35Wt::Layer(i, LayerPart::ConvWeight),
            out: Qwen35Buf::DnConvOut,
            state: d,
            channels: qkv,
        },
        Op::Alloc { buf: Qwen35Buf::DnQRaw, elems: k },
        Op::Alloc { buf: Qwen35Buf::DnKRaw, elems: k },
        Op::Alloc { buf: Qwen35Buf::DnV, elems: v },
        Op::Copy {
            dst: Qwen35Buf::DnQRaw,
            dst_off: 0,
            src: Qwen35Buf::DnConvOut,
            src_off: 0,
            bytes: k4,
        },
        Op::Copy {
            dst: Qwen35Buf::DnKRaw,
            dst_off: 0,
            src: Qwen35Buf::DnConvOut,
            src_off: k4,
            bytes: k4,
        },
        Op::Copy {
            dst: Qwen35Buf::DnV,
            dst_off: 0,
            src: Qwen35Buf::DnConvOut,
            src_off: k8,
            bytes: v4,
        },
        Op::L2Norm {
            x: Qwen35Buf::DnQRaw,
            heads: c.linear_num_key_heads,
            dim: c.linear_key_head_dim,
            eps: c.norm_eps,
        },
        Op::L2Norm {
            x: Qwen35Buf::DnKRaw,
            heads: c.linear_num_key_heads,
            dim: c.linear_key_head_dim,
            eps: c.norm_eps,
        },
        Op::Scale { x: Qwen35Buf::DnQRaw, by: by },
        Op::Alloc { buf: Qwen35Buf::DnQ, elems: wide },
        Op::Alloc { buf: Qwen35Buf::DnK, elems: wide },
    ]
}

/// Like [`linear_out_ops`], with the buffers allocated on the way and all of the
/// layer's given back.
pub open spec fn own_linear_out_ops(
    c: Qwen35Config,
    w: DeltaNetLayerWeights,
    i: usize,
    d: usize,
    quant: StateQuant,
) -> Seq<QwenOp> {
    let v = c.v_dim() as usize;
    seq![
        Op::Alloc { buf: Qwen35Buf::DnAttnOut, elems: v },
        Op::DeltaStep {
            quant,
            q: Qwen35Buf::DnQ,
            k: Qwen35Buf::DnK,
            v: Qwen35Buf::DnV,
            alpha: Qwen35Buf::DnAlpha,
            beta: Qwen35Buf::DnBeta,
            out: Qwen35Buf::DnAttnOut,
            state: d,
            heads: c.linear_num_value_heads,
            dim: c.linear_value_head_dim,
        },
        Op::Alloc { buf: Qwen35Buf::DnNormed, elems: v },
        Op::GatedNorm {
            x: Qwen35Buf::DnAttnOut,
            z: Qwen35Buf::DnZ,
            w: Qwen35Wt::Layer(i, LayerPart::NormWeight),
            out: Qwen35Buf::DnNormed,
            heads: c.linear_num_value_heads,
            dim: c.linear_value_head_dim,
            eps: c.norm_eps,
        },
        Op::Alloc { buf: Qwen35Buf::O, elems: c.dim },
        crate::device::gemv_op(
            w.wo,
            Qwen35Wt::Layer(i, LayerPart::Wo),
            Qwen35Buf::DnNormed,
            Qwen35Buf::O,
        ),
        Op::AddTo { x: Qwen35Buf::X, y: Qwen35Buf::O },
        Op::RmsNorm {
            x: Qwen35Buf::X,
            w: Qwen35Wt::Layer(i, LayerPart::FfnNorm),
            out: Qwen35Buf::Tmp,
            eps: c.norm_eps,
        },
        Op::Alloc { buf: Qwen35Buf::GateFfn, elems: c.hidden_dim },
        Op::Alloc { buf: Qwen35Buf::Up, elems: c.hidden_dim },
        crate::device::gemv_op(
            w.w_gate,
            Qwen35Wt::Layer(i, LayerPart::WGate),
            Qwen35Buf::Tmp,
            Qwen35Buf::GateFfn,
        ),
        crate::device::gemv_op(
            w.w_up,
            Qwen35Wt::Layer(i, LayerPart::WUp),
            Qwen35Buf::Tmp,
            Qwen35Buf::Up,
        ),
        Op::Alloc { buf: Qwen35Buf::FfnHidden, elems: c.hidden_dim },
        Op::SiluMul { a: Qwen35Buf::GateFfn, b: Qwen35Buf::Up, out: Qwen35Buf::FfnHidden },
        Op::Alloc { buf: Qwen35Buf::FfnOut, elems: c.dim },
        crate::device::gemv_op(
            w.w_down,
            Qwen35Wt::Layer(i, LayerPart::WDown),
            Qwen35Buf::FfnHidden,
            Qwen35Buf::FfnOut,
        ),
        Op::AddTo { x: Qwen35Buf::X, y: Qwen35Buf::FfnOut },
        Op::Free { buf: Qwen35Buf::DnQkv },
        Op::Free { buf: Qwen35Buf::DnZ },
        Op::Free { buf: Qwen35Buf::DnBeta },
        Op::Free { buf: Qwen35Buf::DnAlpha },
        Op::Free { buf: Qwen35Buf::DnConvOut },
        Op::Free { buf: Qwen35Buf::DnQRaw },
        Op::Free { buf: Qwen35Buf::DnKRaw },
        Op::Free { buf: Qwen35Buf::DnV },
        Op::Free { buf: Qwen35Buf::DnQ },
        Op::Free { buf: Qwen35Buf::DnK },
        Op::Free { buf: Qwen35Buf::DnAttnOut },
        Op::Free { buf: Qwen35Buf::DnNormed },
        Op::Free { buf: Qwen35Buf::O },
        Op::Free { buf: Qwen35Buf::GateFfn },
        Op::Free { buf: Qwen35Buf::Up },
        Op::Free { buf: Qwen35Buf::FfnHidden },
        Op::Free { buf: Qwen35Buf::FfnOut },
    ]
}

fn own_linear_out(
    c: &Qwen35Config,
    w: &DeltaNetLayerWeights,
    i: usize,
    d: usize,
    quant: StateQuant,
) -> (ops: Vec<QwenOp>)
    requires
        c.fits(),
    ensures
        ops@ == own_linear_out_ops(*c, *w, i, d, quant),
{
    proof {
        lemma_widths(*c);
    }
    let v: usize = c.linear_num_value_heads * c.linear_value_head_dim;
    vec![
        Op::Alloc { buf: Qwen35Buf::DnAttnOut, elems: v },
        Op::DeltaStep {
            quant,
            q: Qwen35Buf::DnQ,
            k: Qwen35Buf::DnK,
            v: Qwen35Buf::DnV,
            alpha: Qwen35Buf::DnAlpha,
            beta: Qwen35Buf::DnBeta,
            out: Qwen35Buf::DnAttnOut,
            state: d,
            heads: c.linear_num_value_heads,
            dim: c.linear_value_head_dim,
        },
        Op::Alloc { buf: Qwen35Buf::DnNormed, elems: v },
        Op::GatedNorm {
            x: Qwen35Buf::DnAttnOut,
            z: Qwen35Buf::DnZ,
            w: Qwen35Wt::Layer(i, LayerPart::NormWeight),
            out: Qwen35Buf::DnNormed,
            heads: c.linear_num_value_heads,
            dim: c.linear_value_head_dim,
            eps: c.norm_eps,
        },
        Op::Alloc { buf: Qwen35Buf::O, elems: c.dim },
        gemv(w.wo, Qwen35Wt::Layer(i, LayerPart::Wo), Qwen35Buf::DnNormed, Qwen35Buf::O),
        Op::AddTo { x: Qwen35Buf::X, y: Qwen35Buf::O },
        Op::RmsNorm {
            x: Qwen35Buf::X,
            w: Qwen35Wt::Layer(i, LayerPart::FfnNorm),
            out: Qwen35Buf::Tmp,
            eps: c.norm_eps,
        },
        Op::Alloc { buf: Qwen35Buf::GateFfn, elems: c.hidden_dim },
        Op::Alloc { buf: Qwen35Buf::Up, elems: c.hidden_dim },
        gemv(w.w_gate, Qwen35Wt::Layer(i, LayerPart::WGate), Qwen35Buf::Tmp, Qwen35Buf::GateFfn),
        gemv(w.w_up, Qwen35Wt::Layer(i, LayerPart::WUp), Qwen35Buf::Tmp, Qwen35Buf::Up),
        Op::Alloc { buf: Qwen35Buf::FfnHidden, elems: c.hidden_dim },
        Op::SiluMul { a: Qwen35Buf::GateFfn, b: Qwen35Buf::Up, out: Qwen35Buf::FfnHidden },
        Op::Alloc { buf: Qwen35Buf::FfnOut, elems: c.dim },
        gemv(
            w.w_down,
            Qwen35Wt::Layer(i, LayerPart::WDown),
            Qwen35Buf::FfnHidden,
            Qwen35Buf::FfnOut,
        ),
        Op::AddTo { x: Qwen35Buf::X, y: Qwen35Buf::FfnOut },
        Op::Free { buf: Qwen35Buf::DnQkv },
        Op::Free { buf: Qwen35Buf::DnZ },
        Op::Free { buf: Qwen35Buf::DnBeta },
        Op::Free { buf: Qwen35Buf::DnAlpha },
        Op::Free { buf: Qwen35Buf::DnConvOut },
        Op::Free { buf: Qwen35Buf::DnQRaw },
        Op::Free { buf: Qwen35Buf::DnKRaw },
        Op::Free { buf: Qwen35Buf::DnV },
        Op::Free { buf: Qwen35Buf::DnQ },
        Op::Free { buf: Qwen35Buf::DnK },
        Op::Free { buf: Qwen35Buf::DnAttnOut },
        Op::Free { buf: Qwen35Buf::DnNormed },
        Op::Free { buf: Qwen35Buf::O },
        Op::Free { buf: Qwen35Buf::GateFfn },
        Op::Free { buf: Qwen35Buf::Up },
        Op::Free { buf: Qwen35Buf::FfnHidden },
        Op::Free { buf: Qwen35Buf::FfnOut },
    ]
}

/// Like [`full_in_ops`], with the buffers allocated on the way.
pub open spec fn own_full_in_ops(
    c: Qwen35Config,
    w: FullAttnLayerWeights,
    i: usize,
) -> Seq<QwenOp> {
    let q = c.q_dim() as usize;
    let q2 = (c.q_dim() * 2) as usize;
    seq![
        Op::RmsNorm {
            x: Qwen35Buf::X,
            w: Qwen35Wt::Layer(i, LayerPart::AttnNorm),
            out: Qwen35Buf::Tmp,
            eps: c.norm_eps,
        },
        Op::Alloc { buf: Qwen35Buf::FaQFull, elems: q2 },
        crate::device::gemv_op(
            w.wq,
            Qwen35Wt::Layer(i, LayerPart::Wq),
            Qwen35Buf::Tmp,
            Qwen35Buf::FaQFull,
        ),
        Op::Alloc { buf: Qwen35Buf::FaQ, elems: q },
        Op::Alloc { buf: Qwen35Buf::FaGate, elems: q },
    ]
}

fn own_full_in(c: &Qwen35Config, w: &FullAttnLayerWeights, i: usize) -> (ops: Vec<QwenOp>)
    requires
        c.fits(),
    ensures
        ops@ == own_full_in_ops(*c, *w, i),
{
    proof {
        lemma_widths(*c);
    }
    let q: usize = c.n_heads * c.head_dim;
    let q2: usize = q * 2;
    vec![
        Op::RmsNorm {
            x: Qwen35Buf::X,
            w: Qwen35Wt::Layer(i, LayerPart::AttnNorm),
            out: Qwen35Buf::Tmp,
            eps: c.norm_eps,
        },
        Op::Alloc { buf: Qwen35Buf::FaQFull, elems: q2 },
        gemv(w.wq, Qwen35Wt::Layer(i, LayerPart::Wq), Qwen35Buf::Tmp, Qwen35Buf::FaQFull),
        Op::Alloc { buf: Qwen35Buf::FaQ, elems: q },
        Op::Alloc { buf: Qwen35Buf::FaGate, elems: q },
    ]
}

/// Like [`full_mid_ops`], with the buffers allocated on the way.
pub open spec fn own_full_mid_ops(
    c: Qwen35Config,
    w: FullAttnLayerWeights,
    i: usize,
    pos: usize,
) -> Seq<QwenOp> {
    let q = c.q_dim() as usize;
    let kv = c.kv_dim() as usize;
    let n_rot = rotated_dims(c);
    seq![
        Op::RmsNormRows {
            x: Qwen35Buf::FaQ,
            w: Qwen35Wt::Layer(i, LayerPart::QNorm),
            out: Qwen35Buf::FaQ,
            rows: c.n_heads,
            n: c.head_dim,
            eps: c.norm_eps,
        },
        Op::Alloc { buf: Qwen35Buf::FaK, elems: kv },
        Op::Alloc { buf: Qwen35Buf::FaV, elems: kv },
        crate::device::gemv_op(
            w.wk,
            Qwen35Wt::Layer(i, LayerPart::Wk),
            Qwen35Buf::Tmp,
            Qwen35Buf::FaK,
        ),
        crate::device::gemv_op(
            w.wv,
            Qwen35Wt::Layer(i, LayerPart::Wv),
            Qwen35Buf::Tmp,
            Qwen35Buf::FaV,
        ),
        Op::RmsNormRows {
            x: Qwen35Buf::FaK,
            w: Qwen35Wt::Layer(i, LayerPart::KNorm),
            out: Qwen35Buf::FaK,
            rows: c.n_kv_heads,
            n: c.head_dim,
            eps: c.norm_eps,
        },
        Op::RopeInterleaved {
            q: Qwen35Buf::FaQ,
            k: Qwen35Buf::FaK,
            pos,
            q_heads: c.n_heads,
            k_heads: c.n_kv_heads,
            dim: c.head_dim,
            n_rot: n_rot,
            theta: c.rope_theta,
        },
        Op::Alloc { buf: Qwen35Buf::FaAttnOut, elems: q },
    ]
}

fn own_full_mid(
    c: &Qwen35Config,
    w: &FullAttnLayerWeights,
    i: usize,
    pos: usize,
) -> (ops: Vec<QwenOp>)
    requires
        c.fits(),
    ensures
        ops@ == own_full_mid_ops(*c, *w, i, pos),
{
    proof {
        lemma_widths(*c);
    }
    let q: usize = c.n_heads * c.head_dim;
    let kv: usize = c.n_kv_heads * c.head_dim;
    let n_rot: usize = rotated_dims_of(c);
    vec![
        Op::RmsNormRows {
            x: Qwen35Buf::FaQ,
            w: Qwen35Wt::Layer(i, LayerPart::QNorm),
            out: Qwen35Buf::FaQ,
            rows: c.n_heads,
            n: c.head_dim,
            eps: c.norm_eps,
        },
        Op::Alloc { buf: Qwen35Buf::FaK, elems: kv },
        Op::Alloc { buf: Qwen35Buf::FaV, elems: kv },
        gemv(w.wk, Qwen35Wt::Layer(i, LayerPart::Wk), Qwen35Buf::Tmp, Qwen35Buf::FaK),
        gemv(w.wv, Qwen35Wt::Layer(i, LayerPart::Wv), Qwen35Buf::Tmp, Qwen35Buf::FaV),
        Op::RmsNormRows {
            x: Qwen35Buf::FaK,
            w: Qwen35Wt::Layer(i, LayerPart::KNorm),
            out: Qwen35Buf::FaK,
            rows: c.n_kv_heads,
            n: c.head_dim,
            eps: c.norm_eps,
        },
        Op::RopeInterleaved {
            q: Qwen35Buf::FaQ,
            k: Qwen35Buf::FaK,
            pos,
            q_heads: c.n_heads,
            k_heads: c.n_kv_heads,
            dim: c.head_dim,
            n_rot: n_rot,
            theta: c.rope_theta,
        },
        Op::Alloc { buf: Qwen35Buf::FaAttnOut, elems: q },
    ]
}

/// Like [`full_out_ops`], with the buffers allocated on the way and all of the
/// layer's given back.
pub open spec fn own_full_out_ops(
    c: Qwen35Config,
    w: FullAttnLayerWeights,
    i: usize,
) -> Seq<QwenOp> {
    seq![
        Op::Sigmoid { x: Qwen35Buf::FaGate },
        Op::Mul { a: Qwen35Buf::FaAttnOut, b: Qwen35Buf::FaGate, out: Qwen35Buf::FaAttnOut },
        Op::Alloc { buf: Qwen35Buf::O, elems: c.dim },
        crate::device::gemv_op(
            w.wo,
            Qwen35Wt::Layer(i, LayerPart::Wo),
            Qwen35Buf::FaAttnOut,
            Qwen35Buf::O,
        ),
        Op::AddTo { x: Qwen35Buf::X, y: Qwen35Buf::O },
        Op::RmsNorm {
            x: Qwen35Buf::X,
            w: Qwen35Wt::Layer(i, LayerPart::FfnNorm),
            out: Qwen35Buf::Tmp,
            eps: c.norm_eps,
        },
        Op::Alloc { buf: Qwen35Buf::GateFfn, elems: c.hidden_dim },
        Op::Alloc { buf: Qwen35Buf::Up, elems: c.hidden_dim },
        crate::device::gemv_op(
            w.w_gate,
            Qwen35Wt::Layer(i, LayerPart::WGate),
            Qwen35Buf::Tmp,
            Qwen35Buf::GateFfn,
        ),
        crate::device::gemv_op(
            w.w_up,
            Qwen35Wt::Layer(i, LayerPart::WUp),
            Qwen35Buf::Tmp,
            Qwen35Buf::Up,
        ),
        Op::Alloc { buf: Qwen35Buf::FfnHidden, elems: c.hidden_dim },
        Op::SiluMul { a: Qwen35Buf::GateFfn, b: Qwen35Buf::Up, out: Qwen35Buf::FfnHidden },
        Op::Alloc { buf: Qwen35Buf::FfnOut, elems: c.dim },
        crate::device::gemv_op(
            w.w_down,
            Qwen35Wt::Layer(i, LayerPart::WDown),
            Qwen35Buf::FfnHidden,
            Qwen35Buf::FfnOut,
        ),
        Op::AddTo { x: Qwen35Buf::X, y: Qwen35Buf::FfnOut },
        Op::Free { buf: Qwen35Buf::FaQFull },
        Op::Free { buf: Qwen35Buf::FaQ },
        Op::Free { buf: Qwen35Buf::FaGate },
        Op::Free { buf: Qwen35Buf::FaK },
        Op::Free { buf: Qwen35Buf::FaV },
        Op::Free { buf: Qwen35Buf::FaAttnOut },
        Op::Free { buf: Qwen35Buf::O },
        Op::Free { buf: Qwen35Buf::GateFfn },
        Op::Free { buf: Qwen35Buf::Up },
        Op::Free { buf: Qwen35Buf::FfnHidden },
        Op::Free { buf: Qwen35Buf::FfnOut },
    ]
}

fn own_full_out(c: &Qwen35Config, w: &FullAttnLayerWeights, i: usize) -> (ops: Vec<QwenOp>)
    ensures
        ops@ == own_full_out_ops(*c, *w, i),
{
    vec![
        Op::Sigmoid { x: Qwen35Buf::FaGate },
        Op::Mul { a: Qwen35Buf::FaAttnOut, b: Qwen35Buf::FaGate, out: Qwen35Buf::FaAttnOut },
        Op::Alloc { buf: Qwen35Buf::O, elems: c.dim },
        gemv(w.wo, Qwen35Wt::Layer(i, LayerPart::Wo), Qwen35Buf::FaAttnOut, Qwen35Buf::O),
        Op::AddTo { x: Qwen35Buf::X, y: Qwen35Buf::O },
        Op::RmsNorm {
            x: Qwen35Buf::X,
            w: Qwen35Wt::Layer(i, LayerPart::FfnNorm),
            out: Qwen35Buf::Tmp,
            eps: c.norm_eps,
        },
        Op::Alloc { buf: Qwen35Buf::GateFfn, elems: c.hidden_dim },
        Op::Alloc { buf: Qwen35Buf::Up, elems: c.hidden_dim },
        gemv(w.w_gate, Qwen35Wt::Layer(i, LayerPart::WGate), Qwen35Buf::Tmp, Qwen35Buf::GateFfn),
        gemv(w.w_up, Qwen35Wt::Layer(i, LayerPart::WUp), Qwen35Buf::Tmp, Qwen35Buf::Up),
        Op::Alloc { buf: Qwen35Buf::FfnHidden, elems: c.hidden_dim },
        Op::SiluMul { a: Qwen35Buf::GateFfn, b: Qwen35Buf::Up, out: Qwen35Buf::FfnHidden },
        Op::Alloc { buf: Qwen35Buf::FfnOut, elems: c.dim },
        gemv(
            w.w_down,
            Qwen35Wt::Layer(i, LayerPart::WDown),
            Qwen35Buf::FfnHidden,
            Qwen35Buf::FfnOut,
        ),
        Op::AddTo { x: Qwen35Buf::X, y: Qwen35Buf::FfnOut },
        Op::Free { buf: Qwen35Buf::FaQFull },
        Op::Free { buf: Qwen35Buf::FaQ },
        Op::Free { buf: Qwen35Buf::FaGate },
        Op::Free { buf: Qwen35Buf::FaK },
        Op::Free { buf: Qwen35Buf::FaV },
        Op::Free { buf: Qwen35Buf::FaAttnOut },
        Op::Free { buf: Qwen35Buf::O },
        Op::Free { buf: Qwen35Buf::GateFfn },
        Op::Free { buf: Qwen35Buf::Up },
        Op::Free { buf: Qwen35Buf::FfnHidden },
        Op::Free { buf: Qwen35Buf::FfnOut },
    ]
}

/// The cache form of this path: eight bits or none.
pub open spec fn simple_form(cache: KvCache) -> KvForm {
    if cache.quant_q8 {
        KvForm::Q8
    } else {
        KvForm::F32
    }
}

/// Layer `i` with buffers of its own.
pub open spec fn own_layer_ops(
    c: Qwen35Config,
    w: LayerWeights,
    i: usize,
    pos: usize,
    cache: KvCache,
    quant: StateQuant,
) -> Seq<QwenOp> {
    let d = count_kind(c.layer_types@, LayerType::LinearAttention, i as nat) as usize;
    match w {
        LayerWeights::DeltaNet(w) => own_linear_in_ops(c, w, i, d) + heads_ops(c)
            + own_linear_out_ops(c, w, i, d, quant),
        LayerWeights::FullAttn(w) => own_full_in_ops(c, w, i) + split_ops(c, c.n_heads as nat)
            + own_full_mid_ops(c, w, i, pos) + kv_ops(
            c,
            Some(simple_form(cache)),
            i,
            pos,
            cache.max_seq,
        ) + own_full_out_ops(c, w, i),
    }
}

/// The first `n` layers with buffers of their own.
pub open spec fn own_layers_ops(
    c: Qwen35Config,
    layers: Seq<LayerWeights>,
    n: nat,
    pos: usize,
    cache: KvCache,
    quant: StateQuant,
) -> Seq<QwenOp>
    decreases n,
{
    if n == 0 {
        Seq::empty()
    } else {
        own_layers_ops(c, layers, (n - 1) as nat, pos, cache, quant) + own_layer_ops(
            c,
            layers[n - 1],
            (n - 1) as usize,
            pos,
            cache,
            quant,
        )
    }
}

/// The buffers that all layers share.
pub open spec fn own_start_ops(c: Qwen35Config, pos: usize) -> Seq<QwenOp> {
    seq![
        Op::Alloc { buf: Qwen35Buf::Tmp, elems: c.dim },
        Op::AllocBytes { buf: Qwen35Buf::Pos, bytes: 4 },
        Op::SetPos { buf: Qwen35Buf::Pos, pos },
    ]
}

fn own_start(c: &Qwen35Config, pos: usize) -> (ops: Vec<QwenOp>)
    ensures
        ops@ == own_start_ops(*c, pos),
{
    vec![
        Op::Alloc { buf: Qwen35Buf::Tmp, elems: c.dim },
        Op::AllocBytes { buf: Qwen35Buf::Pos, bytes: 4 },
        Op::SetPos { buf: Qwen35Buf::Pos, pos },
    ]
}

/// The final norm and the logits; everything but the logits is given back.
pub open spec fn own_end_ops(c: Qwen35Config, w: Qwen35Weights) -> Seq<QwenOp> {
    seq![
        Op::RmsNorm {
            x: Qwen35Buf::X,
            w: Qwen35Wt::OutputNorm,
            out: Qwen35Buf::Tmp,
            eps: c.norm_eps,
        },
        Op::Alloc { buf: Qwen35Buf::Logits, elems: c.vocab_size },
        crate::device::gemv_op(w.output, Qwen35Wt::Output, Qwen35Buf::Tmp, Qwen35Buf::Logits),
        Op::Free { buf: Qwen35Buf::X },
        Op::Free { buf: Qwen35Buf::Tmp },
        Op::Free { buf: Qwen35Buf::Pos },
    ]
}

fn own_end(c: &Qwen35Config, w: &Qwen35Weights) -> (ops: Vec<QwenOp>)
    ensures
        ops@ == own_end_ops(*c, *w),
{
    vec![
        Op::RmsNorm {
            x: Qwen35Buf::X,
            w: Qwen35Wt::OutputNorm,
            out: Qwen35Buf::Tmp,
            eps: c.norm_eps,
        },
        Op::Alloc { buf: Qwen35Buf::Logits, elems: c.vocab_size },
        gemv(w.output, Qwen35Wt::Output, Qwen35Buf::Tmp, Qwen35Buf::Logits),
        Op::Free { buf: Qwen35Buf::X },
        Op::Free { buf: Qwen35Buf::Tmp },
        Op::Free { buf: Qwen35Buf::Pos },
    ]
}

/// From a hidden state in `X` to logits on the device.
pub open spec fn from_x_ops(
    c: Qwen35Config,
    w: Qwen35Weights,
    pos: usize,
    cache: KvCache,
    quant: StateQuant,
) -> Seq<QwenOp> {
    own_start_ops(c, pos) + own_layers_ops(c, w.layers@, c.n_layers as nat, pos, cache, quant)
        + own_end_ops(c, w)
}

fn own_layer(
    c: &Qwen35Config,
    w: &LayerWeights,
    i: usize,
    d: usize,
    pos: usize,
    cache: &KvCache,
    quant: StateQuant,
) -> (ops: Vec<QwenOp>)
    requires
        c.fits(),
        divides(*c),
        pos < usize::MAX,
        d == count_kind(c.layer_types@, LayerType::LinearAttention, i as nat),
    ensures
        ops@ == own_layer_ops(*c, *w, i, pos, *cache, quant),
{
    match w {
        LayerWeights::DeltaNet(w) => {
            let mut ops: Vec<QwenOp> = own_linear_in(c, w, i, d);
            extend(&mut ops, heads(c));
            extend(&mut ops, own_linear_out(c, w, i, d, quant));
            ops
        },
        LayerWeights::FullAttn(w) => {
            let form: KvForm = if cache.quant_q8 {
                KvForm::Q8
            } else {
                KvForm::F32
            };
            let mut ops: Vec<QwenOp> = own_full_in(c, w, i);
            extend(&mut ops, split(c));
            extend(&mut ops, own_full_mid(c, w, i, pos));
            extend(&mut ops, kv(c, Some(form), i, pos, cache.max_seq));
            extend(&mut ops, own_full_out(c, w, i));
            ops
        },
    }
}

/// From a hidden state in `X` to logits on the device. `X` is given back; the
/// logits are the caller's to give back.
pub fn forward_from_x_gpu(
    c: &Qwen35Config,
    w: &Qwen35Weights,
    pos: usize,
    cache: &KvCache,
    quant: StateQuant,
) -> (ops: Vec<QwenOp>)
    requires
        c.fits(),
        divides(*c),
        matches_config(*w, *c),
        pos < usize::MAX,
    ensures
        ops@ == from_x_ops(*c, *w, pos, *cache, quant),
{
    let mut ops: Vec<QwenOp> = own_start(c, pos);
    let ghost head = ops@;
    let mut d: usize = 0;
    let mut i: usize = 0;
    assert(head + own_layers_ops(*c, w.layers@, 0, pos, *cache, quant) =~= head);
    while i < c.n_layers
        invariant
            d <= i <= c.n_layers,
            c.fits(),
            divides(*c),
            matches_config(*w, *c),
            pos < usize::MAX,
            d == count_kind(c.layer_types@, LayerType::LinearAttention, i as nat),
            ops@ == head + own_layers_ops(*c, w.layers@, i as nat, pos, *cache, quant),
        decreases c.n_layers - i,
    {
        extend(&mut ops, own_layer(c, &w.layers[i], i, d, pos, cache, quant));
        assert(ops@ =~= head + own_layers_ops(
            *c,
            w.layers@,
            (i + 1) as nat,
            pos,
            *cache,
            quant,
        ));
        if c.layer_types[i] == LayerType::LinearAttention {
            d = d + 1;
        }
        i = i + 1;
    }
    extend(&mut ops, own_end(c, w));
    ops
}

/// From a hidden state in `X` to logits on the host.
pub open spec fn to_host_ops(
    c: Qwen35Config,
    w: Qwen35Weights,
    pos: usize,
    cache: KvCache,
    quant: StateQuant,
) -> Seq<QwenOp> {
    from_x_ops(c, w, pos, cache, quant) + seq![
        Op::Download { buf: Qwen35Buf::Logits },
        Op::Free { buf: Qwen35Buf::Logits },
    ]
}

/// From a hidden state in `X` to logits on the host.
pub fn forward_from_x(
    c: &Qwen35Config,
    w: &Qwen35Weights,
    pos: usize,
    cache: &KvCache,
    quant: StateQuant,
) -> (ops: Vec<QwenOp>)
    requires
        c.fits(),
        divides(*c),
        matches_config(*w, *c),
        pos < usize::MAX,
    ensures
        ops@ == to_host_ops(*c, *w, pos, *cache, quant),
{
    let mut ops: Vec<QwenOp> = forward_from_x_gpu(c, w, pos, cache, quant);
    extend(
        &mut ops,
        vec![Op::Download { buf: Qwen35Buf::Logits }, Op::Free { buf: Qwen35Buf::Logits }],
    );
    ops
}

/// A token's embedding in a buffer of its own.
pub open spec fn embed_ops(c: Qwen35Config, w: Qwen35Weights, token: u32) -> Seq<QwenOp> {
    seq![
        Op::Alloc { buf: Qwen35Buf::X, elems: c.dim },
        Op::Embed { format: w.embd_format, token, out: Qwen35Buf::X, dim: c.dim },
    ]
}

fn embed(c: &Qwen35Config, w: &Qwen35Weights, token: u32) -> (ops: Vec<QwenOp>)
    requires
        has_lookup(w.embd_format),
    ensures
        ops@ == embed_ops(*c, *w, token),
{
    vec![
        Op::Alloc { buf: Qwen35Buf::X, elems: c.dim },
        Op::Embed { format: w.embd_format, token, out: Qwen35Buf::X, dim: c.dim },
    ]
}

/// One token through the model, to logits on the host.
pub fn forward(
    c: &Qwen35Config,
    w: &Qwen35Weights,
    token: u32,
    pos: usize,
    cache: &KvCache,
    quant: StateQuant,
) -> (ops: Vec<QwenOp>)
    requires
        c.fits(),
        divides(*c),
        matches_config(*w, *c),
        has_lookup(w.embd_format),
        pos < usize::MAX,
    ensures
        ops@ == embed_ops(*c, *w, token) + to_host_ops(*c, *w, pos, *cache, quant),
{
    let mut ops: Vec<QwenOp> = embed(c, w, token);
    extend(&mut ops, forward_from_x(c, w, pos, cache, quant));
    ops
}

/// One token through the model, to logits on the device.
pub fn forward_gpu(
    c: &Qwen35Config,
    w: &Qwen35Weights,
    token: u32,
    pos: usize,
    cache: &KvCache,
    quant: StateQuant,
) -> (ops: Vec<QwenOp>)
    requires
        c.fits(),
        divides(*c),
        matches_config(*w, *c),
        has_lookup(w.embd_format),
        pos < usize::MAX,
    ensures
        ops@ == embed_ops(*c, *w, token) + from_x_ops(*c, *w, pos, *cache, quant),
{
    let mut ops: Vec<QwenOp> = embed(c, w, token);
    extend(&mut ops, forward_from_x_gpu(c, w, pos, cache, quant));
    ops
}

/// A hidden state that the host hands over, in a buffer of its own.
pub open spec fn given_ops(c: Qwen35Config) -> Seq<QwenOp> {
    seq![
        Op::Alloc { buf: Qwen35Buf::X, elems: c.dim },
        Op::Upload { buf: Qwen35Buf::X, elems: c.dim },
    ]
}

/// One step from an embedding that the host hands over, to logits on the host.
pub fn forward_with_embedding(
    c: &Qwen35Config,
    w: &Qwen35Weights,
    pos: usize,
    cache: &KvCache,
    quant: StateQuant,
) -> (ops: Vec<QwenOp>)
    requires
        c.fits(),
        divides(*c),
        matches_config(*w, *c),
        pos < usize::MAX,
    ensures
        ops@ == given_ops(*c) + to_host_ops(*c, *w, pos, *cache, quant),
{
    let mut ops: Vec<QwenOp> = vec![
        Op::Alloc { buf: Qwen35Buf::X, elems: c.dim },
        Op::Upload { buf: Qwen35Buf::X, elems: c.dim },
    ];
    extend(&mut ops, forward_from_x(c, w, pos, cache, quant));
    ops
}

// What a forward pass leaves behind.

#[verifier::rlimit(40)]
proof fn lemma_repeat_balance(c: Qwen35Config, ratio: int, n: nat, buf: Qwen35Buf)
    ensures
        crate::device::balance(repeat_ops(c, ratio, n), buf) == 0,
    decreases n,
{
    reveal_with_fuel(crate::device::tally, 3);
    if n > 0 {
        let before = repeat_ops(c, ratio, (n - 1) as nat);
        lemma_repeat_balance(c, ratio, (n - 1) as nat, buf);
        let part = repeat_ops(c, ratio, n).subrange(before.len() as int, before.len() as int + 2);
        assert(repeat_ops(c, ratio, n) =~= before + part);
        crate::device::lemma_balance_concat(before, part, buf);
    }
}

#[verifier::rlimit(40)]
proof fn lemma_split_balance(c: Qwen35Config, n: nat, buf: Qwen35Buf)
    ensures
        crate::device::balance(split_ops(c, n), buf) == 0,
    decreases n,
{
    reveal_with_fuel(crate::device::tally, 3);
    if n > 0 {
        let before = split_ops(c, (n - 1) as nat);
        lemma_split_balance(c, (n - 1) as nat, buf);
        let part = split_ops(c, n).subrange(before.len() as int, before.len() as int + 2);
        assert(split_ops(c, n) =~= before + part);
        crate::device::lemma_balance_concat(before, part, buf);
    }
}

#[verifier::rlimit(40)]
proof fn lemma_linear_balance(
    c: Qwen35Config,
    w: DeltaNetLayerWeights,
    i: usize,
    d: usize,
    quant: StateQuant,
    buf: Qwen35Buf,
)
    ensures
        crate::device::balance(own_linear_in_ops(c, w, i, d), buf) + crate::device::balance(
            own_linear_out_ops(c, w, i, d, quant),
            buf,
        ) == 0,
{
    reveal_with_fuel(crate::device::tally, 50);
}

#[verifier::rlimit(40)]
proof fn lemma_full_balance(
    c: Qwen35Config,
    w: FullAttnLayerWeights,
    i: usize,
    pos: usize,
    buf: Qwen35Buf,
)
    ensures
        crate::device::balance(own_full_in_ops(c, w, i), buf) + crate::device::balance(
            own_full_mid_ops(c, w, i, pos),
            buf,
        ) + crate::device::balance(own_full_out_ops(c, w, i), buf) == 0,
{
    reveal_with_fuel(crate::device::tally, 40);
}

#[verifier::rlimit(40)]
proof fn lemma_layer_balance(
    c: Qwen35Config,
    w: LayerWeights,
    i: usize,
    pos: usize,
    cache: KvCache,
    quant: StateQuant,
    buf: Qwen35Buf,
)
    ensures
        crate::device::balance(own_layer_ops(c, w, i, pos, cache, quant), buf) == 0,
{
    let d = count_kind(c.layer_types@, LayerType::LinearAttention, i as nat) as usize;
    match w {
        LayerWeights::DeltaNet(w) => {
            lemma_linear_balance(c, w, i, d, quant, buf);
            let ratio = c.linear_num_value_heads as int / c.linear_num_key_heads as int;
            lemma_repeat_balance(c, ratio, (c.linear_num_key_heads * ratio) as nat, buf);
            assert(crate::device::balance(heads_ops(c), buf) == 0) by {
                reveal_with_fuel(crate::device::tally, 3);
            }
            let a = own_linear_in_ops(c, w, i, d);
            crate::device::lemma_balance_concat(a, heads_ops(c), buf);
            crate::device::lemma_balance_concat(
                a + heads_ops(c),
                own_linear_out_ops(c, w, i, d, quant),
                buf,
            );
        },
        LayerWeights::FullAttn(w) => {
            lemma_full_balance(c, w, i, pos, buf);
            lemma_split_balance(c, c.n_heads as nat, buf);
            let a = own_full_in_ops(c, w, i);
            let b = split_ops(c, c.n_heads as nat);
            let m = own_full_mid_ops(c, w, i, pos);
            let k = kv_ops(c, Some(simple_form(cache)), i, pos, cache.max_seq);
            assert(crate::device::balance(k, buf) == 0) by {
                reveal_with_fuel(crate::device::tally, 4);
            }
            crate::device::lemma_balance_concat(a, b, buf);
            crate::device::lemma_balance_concat(a + b, m, buf);
            crate::device::lemma_balance_concat(a + b + m, k, buf);
            crate::device::lemma_balance_concat(a + b + m + k, own_full_out_ops(c, w, i), buf);
        },
    }
}

#[verifier::rlimit(40)]
proof fn lemma_layers_balance(
    c: Qwen35Config,
    layers: Seq<LayerWeights>,
    n: nat,
    pos: usize,
    cache: KvCache,
    quant: StateQuant,
    buf: Qwen35Buf,
)
    ensures
        crate::device::balance(own_layers_ops(c, layers, n, pos, cache, quant), buf) == 0,
    decreases n,
{
    if n > 0 {
        let m = (n - 1) as nat;
        lemma_layers_balance(c, layers, m, pos, cache, quant, buf);
        lemma_layer_balance(c, layers[m as int], m as usize, pos, cache, quant, buf);
        crate::device::lemma_balance_concat(
            own_layers_ops(c, layers, m, pos, cache, quant),
            own_layer_ops(c, layers[m as int], m as usize, pos, cache, quant),
            buf,
        );
    }
}

#[verifier::rlimit(40)]
proof fn lemma_from_x_balance(
    c: Qwen35Config,
    w: Qwen35Weights,
    pos: usize,
    cache: KvCache,
    quant: StateQuant,
    buf: Qwen35Buf,
)
    ensures
        crate::device::balance(from_x_ops(c, w, pos, cache, quant), buf) == if buf
            == Qwen35Buf::Logits {
            1int
        } else if buf == Qwen35Buf::X {
            -1int
        } else {
            0int
        },
{
    let a = own_start_ops(c, pos);
    let b = own_layers_ops(c, w.layers@, c.n_layers as nat, pos, cache, quant);
    let e = own_end_ops(c, w);
    lemma_layers_balance(c, w.layers@, c.n_layers as nat, pos, cache, quant, buf);
    crate::device::lemma_balance_concat(a, b, buf);
    crate::device::lemma_balance_concat(a + b, e, buf);
    reveal_with_fuel(crate::device::tally, 8);
}

/// A forward pass to the device leaves the logits behind and nothing else; one to
/// the host leaves nothing.
pub proof fn law_forward_leaves_only_logits(
    c: Qwen35Config,
    w: Qwen35Weights,
    token: u32,
    pos: usize,
    cache: KvCache,
    quant: StateQuant,
    buf: Qwen35Buf,
)
    ensures
        crate::device::balance(
            embed_ops(c, w, token) + from_x_ops(c, w, pos, cache, quant),
            buf,
        ) == if buf == Qwen35Buf::Logits {
            1int
        } else {
            0int
        },
        crate::device::balance(
            embed_ops(c, w, token) + to_host_ops(c, w, pos, cache, quant),
            buf,
        ) == 0,
        crate::device::balance(given_ops(c) + to_host_ops(c, w, pos, cache, quant), buf) == 0,
{
    lemma_from_x_balance(c, w, pos, cache, quant, buf);
    let last: Seq<QwenOp> = seq![
        Op::Download { buf: Qwen35Buf::Logits },
        Op::Free { buf: Qwen35Buf::Logits },
    ];
    let x = from_x_ops(c, w, pos, cache, quant);
    crate::device::lemma_balance_concat(x, last, buf);
    crate::device::lemma_balance_concat(embed_ops(c, w, token), x, buf);
    crate::device::lemma_balance_concat(embed_ops(c, w, token), x + last, buf);
    crate::device::lemma_balance_concat(given_ops(c), x + last, buf);
    reveal_with_fuel(crate::device::tally, 3);
}

// Where a forward pass reads and writes.

/// The matrices have the sizes that they are loaded with.
pub open spec fn shaped(w: Qwen35Weights, c: Qwen35Config) -> bool {
    &&& w.output.m == c.vocab_size && w.output.k == c.dim
    &&& forall|i: int| 0 <= i < w.layers@.len() ==> layer_shaped(#[trigger] w.layers@[i], c)
}

pub open spec fn layer_shaped(w: LayerWeights, c: Qwen35Config) -> bool {
    match w {
        LayerWeights::DeltaNet(w) => {
            &&& w.wqkv.m == c.qkv_dim() && w.wqkv.k == c.dim
            &&& w.wz.m == c.v_dim() && w.wz.k == c.dim
            &&& w.w_alpha.m == c.linear_num_value_heads && w.w_alpha.k == c.dim
            &&& w.w_beta.m == c.linear_num_value_heads && w.w_beta.k == c.dim
            &&& w.wo.m == c.dim && w.wo.k == c.v_dim()
            &&& w.w_gate.m == c.hidden_dim && w.w_gate.k == c.dim
            &&& w.w_up.m == c.hidden_dim && w.w_up.k == c.dim
            &&& w.w_down.m == c.dim && w.w_down.k == c.hidden_dim
        },
        LayerWeights::FullAttn(w) => {
            &&& w.wq.m == c.q_dim() * 2 && w.wq.k == c.dim
            &&& w.wk.m == c.kv_dim() && w.wk.k == c.dim
            &&& w.wv.m == c.kv_dim() && w.wv.k == c.dim
            &&& w.wo.m == c.dim && w.wo.k == c.q_dim()
            &&& w.w_gate.m == c.hidden_dim && w.w_gate.k == c.dim
            &&& w.w_up.m == c.hidden_dim && w.w_up.k == c.dim
            &&& w.w_down.m == c.dim && w.w_down.k == c.hidden_dim
        },
    }
}

/// There are no more key heads than value heads, and no wider ones: the linear
/// queries fit where they are spread out.
pub open spec fn heads_fit(c: Qwen35Config) -> bool {
    c.linear_num_key_heads <= c.linear_num_value_heads && c.linear_key_head_dim
        <= c.linear_value_head_dim
}

/// Bytes of each scratch buffer.
pub open spec fn buf_bytes(c: Qwen35Config, s: Qwen35Scratch) -> spec_fn(Qwen35Buf) -> int {
    |buf: Qwen35Buf| 4 * buf_elems(c, s.repeat_window as int, buf)
}

#[verifier::rlimit(40)]
proof fn lemma_repeat_bounds(c: Qwen35Config, s: Qwen35Scratch, ratio: int, n: nat)
    requires
        c.fits(),
        heads_fit(c),
        1 <= c.linear_num_key_heads < c.linear_num_value_heads,
        ratio == c.linear_num_value_heads as int / c.linear_num_key_heads as int,
        n <= c.linear_num_key_heads * ratio,
    ensures
        crate::device::all_in_bounds(repeat_ops(c, ratio, n), buf_bytes(c, s)),
    decreases n,
{
    crate::device::lemma_bounds_empty::<Qwen35Buf, Qwen35Wt>(buf_bytes(c, s));
    if n > 0 {
        let before = repeat_ops(c, ratio, (n - 1) as nat);
        lemma_repeat_bounds(c, s, ratio, (n - 1) as nat);
        lemma_repeat_offset(c, ratio, n - 1);
        let nv = c.linear_num_value_heads as int;
        let kd = c.linear_key_head_dim as int;
        let vd = c.linear_value_head_dim as int;
        assert(nv * kd <= nv * vd) by (nonlinear_arith)
            requires
                0 <= nv,
                kd <= vd,
        ;
        let part = repeat_ops(c, ratio, n).subrange(before.len() as int, before.len() as int + 2);
        assert(repeat_ops(c, ratio, n) =~= before + part);
        assert(crate::device::all_in_bounds(part, buf_bytes(c, s))) by {
            reveal(crate::device::all_in_bounds);
        }
        crate::device::lemma_bounds_concat(before, part, buf_bytes(c, s));
    }
}

#[verifier::rlimit(40)]
proof fn lemma_split_bounds(c: Qwen35Config, s: Qwen35Scratch, n: nat)
    requires
        c.fits(),
        n <= c.n_heads,
    ensures
        crate::device::all_in_bounds(split_ops(c, n), buf_bytes(c, s)),
    decreases n,
{
    crate::device::lemma_bounds_empty::<Qwen35Buf, Qwen35Wt>(buf_bytes(c, s));
    if n > 0 {
        let before = split_ops(c, (n - 1) as nat);
        lemma_split_bounds(c, s, (n - 1) as nat);
        lemma_split_offset(c, n - 1);
        let part = split_ops(c, n).subrange(before.len() as int, before.len() as int + 2);
        assert(split_ops(c, n) =~= before + part);
        assert(crate::device::all_in_bounds(part, buf_bytes(c, s))) by {
            reveal(crate::device::all_in_bounds);
        }
        crate::device::lemma_bounds_concat(before, part, buf_bytes(c, s));
    }
}

#[verifier::rlimit(40)]
proof fn lemma_heads_bounds(c: Qwen35Config, s: Qwen35Scratch)
    requires
        c.fits(),
        divides(c),
        heads_fit(c),
    ensures
        crate::device::all_in_bounds(heads_ops(c), buf_bytes(c, s)),
{
    reveal(crate::device::all_in_bounds);
    lemma_widths(c);
    let nk = c.linear_num_key_heads as int;
    let nv = c.linear_num_value_heads as int;
    let kd = c.linear_key_head_dim as int;
    let vd = c.linear_value_head_dim as int;
    if nk < nv {
        let ratio = nv / nk;
        assert(0 <= nk * ratio) by (nonlinear_arith)
            requires
                1 <= nk < nv,
                ratio == nv / nk,
        ;
        lemma_repeat_bounds(c, s, ratio, (nk * ratio) as nat);
    } else {
        assert(nk * kd <= nv * vd) by (nonlinear_arith)
            requires
                nk == nv,
                0 <= nv,
                kd <= vd,
        ;
    }
}

#[verifier::rlimit(40)]
proof fn lemma_linear_in_bounds(
    c: Qwen35Config,
    s: Qwen35Scratch,
    w: DeltaNetLayerWeights,
    i: usize,
    d: usize,
)
    requires
        c.fits(),
        layer_shaped(LayerWeights::DeltaNet(w), c),
    ensures
        crate::device::all_in_bounds(linear_in_ops(c, w, i, d), buf_bytes(c, s)),
{
    reveal(crate::device::all_in_bounds);
    lemma_widths(c);
}

#[verifier::rlimit(40)]
proof fn lemma_linear_out_bounds(
    c: Qwen35Config,
    s: Qwen35Scratch,
    w: DeltaNetLayerWeights,
    i: usize,
    d: usize,
    quant: StateQuant,
)
    requires
        c.fits(),
        layer_shaped(LayerWeights::DeltaNet(w), c),
    ensures
        crate::device::all_in_bounds(linear_out_ops(c, w, i, d, quant), buf_bytes(c, s)),
{
    reveal(crate::device::all_in_bounds);
    lemma_widths(c);
}

#[verifier::rlimit(40)]
proof fn lemma_full_in_bounds(
    c: Qwen35Config,
    s: Qwen35Scratch,
    w: FullAttnLayerWeights,
    i: usize,
)
    requires
        c.fits(),
        layer_shaped(LayerWeights::FullAttn(w), c),
    ensures
        crate::device::all_in_bounds(full_in_ops(c, w, i), buf_bytes(c, s)),
{
    reveal(crate::device::all_in_bounds);
    lemma_widths(c);
}

#[verifier::rlimit(40)]
proof fn lemma_full_mid_bounds(
    c: Qwen35Config,
    s: Qwen35Scratch,
    w: FullAttnLayerWeights,
    i: usize,
    pos: usize,
)
    requires
        c.fits(),
        layer_shaped(LayerWeights::FullAttn(w), c),
    ensures
        crate::device::all_in_bounds(full_mid_ops(c, w, i, pos), buf_bytes(c, s)),
{
    reveal(crate::device::all_in_bounds);
    lemma_widths(c);
}

#[verifier::rlimit(40)]
proof fn lemma_full_out_bounds(
    c: Qwen35Config,
    s: Qwen35Scratch,
    w: FullAttnLayerWeights,
    i: usize,
)
    requires
        c.fits(),
        layer_shaped(LayerWeights::FullAttn(w), c),
    ensures
        crate::device::all_in_bounds(full_out_ops(c, w, i), buf_bytes(c, s)),
{
    reveal(crate::device::all_in_bounds);
    lemma_widths(c);
}

#[verifier::rlimit(40)]
proof fn lemma_kv_bounds(
    c: Qwen35Config,
    s: Qwen35Scratch,
    form: Option<KvForm>,
    i: usize,
    pos: usize,
    max_seq: usize,
)
    ensures
        crate::device::all_in_bounds(kv_ops(c, form, i, pos, max_seq), buf_bytes(c, s)),
{
    reveal(crate::device::all_in_bounds);
}

#[verifier::rlimit(40)]
proof fn lemma_layer_bounds(
    c: Qwen35Config,
    s: Qwen35Scratch,
    w: LayerWeights,
    i: usize,
    pos: usize,
    cache: KvCache,
    quant: StateQuant,
)
    requires
        c.fits(),
        divides(c),
        heads_fit(c) || w is FullAttn,
        layer_shaped(w, c),
    ensures
        crate::device::all_in_bounds(
            layer_ops(c, w, i, pos, cache, quant),
            buf_bytes(c, s),
        ),
{
    let size = buf_bytes(c, s);
    let d = count_kind(c.layer_types@, LayerType::LinearAttention, i as nat) as usize;
    lemma_widths(c);
    match w {
        LayerWeights::DeltaNet(w) => {
            lemma_heads_bounds(c, s);
            let a = linear_in_ops(c, w, i, d);
            let b = heads_ops(c);
            let e = linear_out_ops(c, w, i, d, quant);
            lemma_linear_in_bounds(c, s, w, i, d);
            lemma_linear_out_bounds(c, s, w, i, d, quant);
            crate::device::lemma_bounds_concat(a, b, size);
            crate::device::lemma_bounds_concat(a + b, e, size);
        },
        LayerWeights::FullAttn(w) => {
            lemma_split_bounds(c, s, c.n_heads as nat);
            let a = full_in_ops(c, w, i);
            let b = split_ops(c, c.n_heads as nat);
            let m = full_mid_ops(c, w, i, pos);
            let k = kv_ops(c, cache.form(), i, pos, cache.max_seq);
            let e = full_out_ops(c, w, i);
            lemma_full_in_bounds(c, s, w, i);
            lemma_full_mid_bounds(c, s, w, i, pos);
            lemma_kv_bounds(c, s, cache.form(), i, pos, cache.max_seq);
            lemma_full_out_bounds(c, s, w, i);
            crate::device::lemma_bounds_concat(a, b, size);
            crate::device::lemma_bounds_concat(a + b, m, size);
            crate::device::lemma_bounds_concat(a + b + m, k, size);
            crate::device::lemma_bounds_concat(a + b + m + k, e, size);
        },
    }
}

#[verifier::rlimit(40)]
proof fn lemma_layers_bounds(
    c: Qwen35Config,
    s: Qwen35Scratch,
    w: Qwen35Weights,
    n: nat,
    pos: usize,
    cache: KvCache,
    quant: StateQuant,
)
    requires
        c.fits(),
        divides(c),
        heads_fit(c),
        matches_config(w, c),
        shaped(w, c),
        n <= c.n_layers,
    ensures
        crate::device::all_in_bounds(
            layers_ops(c, w.layers@, n, pos, cache, quant),
            buf_bytes(c, s),
        ),
    decreases n,
{
    crate::device::lemma_bounds_empty::<Qwen35Buf, Qwen35Wt>(buf_bytes(c, s));
    if n > 0 {
        let m = (n - 1) as nat;
        lemma_layers_bounds(c, s, w, m, pos, cache, quant);
        assert(layer_shaped(w.layers@[m as int], c));
        lemma_layer_bounds(c, s, w.layers@[m as int], m as usize, pos, cache, quant);
        crate::device::lemma_bounds_concat(
            layers_ops(c, w.layers@, m, pos, cache, quant),
            layer_ops(c, w.layers@[m as int], m as usize, pos, cache, quant),
            buf_bytes(c, s),
        );
    }
}

/// A forward pass in scratch buffers reads and writes inside them.
pub proof fn law_scratch_forward_stays_in_bounds(
    c: Qwen35Config,
    s: Qwen35Scratch,
    w: Qwen35Weights,
    token: u32,
    pos: usize,
    cache: KvCache,
    quant: StateQuant,
)
    requires
        c.fits(),
        divides(c),
        heads_fit(c),
        matches_config(w, c),
        shaped(w, c),
    ensures
        crate::device::all_in_bounds(
            seq![
                Op::SetPos { buf: Qwen35Buf::Pos, pos },
                Op::Embed { format: w.embd_format, token, out: Qwen35Buf::X, dim: c.dim },
            ] + scratch_layers_ops(c, w, pos, cache, quant),
            buf_bytes(c, s),
        ),
{
    let size = buf_bytes(c, s);
    let a: Seq<QwenOp> = seq![
        Op::SetPos { buf: Qwen35Buf::Pos, pos },
        Op::Embed { format: w.embd_format, token, out: Qwen35Buf::X, dim: c.dim },
    ];
    let b = layers_ops(c, w.layers@, c.n_layers as nat, pos, cache, quant);
    let e = output_ops(c, w);
    lemma_layers_bounds(c, s, w, c.n_layers as nat, pos, cache, quant);
    assert(crate::device::all_in_bounds(e, size)) by {
        reveal(crate::device::all_in_bounds);
    }
    assert(crate::device::all_in_bounds(a, size)) by {
        reveal(crate::device::all_in_bounds);
    }
    crate::device::lemma_bounds_concat(b, e, size);
    crate::device::lemma_bounds_concat(a, b + e, size);
}

// The two forward passes.

#[verifier::rlimit(40)]
proof fn lemma_linear_in_work(c: Qwen35Config, w: DeltaNetLayerWeights, i: usize, d: usize)
    ensures
        crate::device::work(own_linear_in_ops(c, w, i, d)) == linear_in_ops(c, w, i, d),
{
    reveal_with_fuel(crate::device::work_in, 30);
    assert(crate::device::work(own_linear_in_ops(c, w, i, d)) =~= linear_in_ops(c, w, i, d));
}

#[verifier::rlimit(40)]
proof fn lemma_linear_out_work(
    c: Qwen35Config,
    w: DeltaNetLayerWeights,
    i: usize,
    d: usize,
    quant: StateQuant,
)
    ensures
        crate::device::work(own_linear_out_ops(c, w, i, d, quant)) == linear_out_ops(
            c,
            w,
            i,
            d,
            quant,
        ),
{
    reveal_with_fuel(crate::device::work_in, 40);
    assert(crate::device::work(own_linear_out_ops(c, w, i, d, quant)) =~= linear_out_ops(
        c,
        w,
        i,
        d,
        quant,
    ));
}

#[verifier::rlimit(40)]
proof fn lemma_full_in_work(c: Qwen35Config, w: FullAttnLayerWeights, i: usize)
    ensures
        crate::device::work(own_full_in_ops(c, w, i)) == full_in_ops(c, w, i),
{
    reveal_with_fuel(crate::device::work_in, 10);
    assert(crate::device::work(own_full_in_ops(c, w, i)) =~= full_in_ops(c, w, i));
}

#[verifier::rlimit(40)]
proof fn lemma_full_mid_work(c: Qwen35Config, w: FullAttnLayerWeights, i: usize, pos: usize)
    ensures
        crate::device::work(own_full_mid_ops(c, w, i, pos)) == full_mid_ops(c, w, i, pos),
{
    reveal_with_fuel(crate::device::work_in, 12);
    assert(crate::device::work(own_full_mid_ops(c, w, i, pos)) =~= full_mid_ops(c, w, i, pos));
}

#[verifier::rlimit(40)]
proof fn lemma_full_out_work(c: Qwen35Config, w: FullAttnLayerWeights, i: usize)
    ensures
        crate::device::work(own_full_out_ops(c, w, i)) == full_out_ops(c, w, i),
{
    reveal_with_fuel(crate::device::work_in, 40);
    assert(crate::device::work(own_full_out_ops(c, w, i)) =~= full_out_ops(c, w, i));
}

#[verifier::rlimit(40)]
proof fn lemma_kv_work(c: Qwen35Config, form: KvForm, i: usize, pos: usize, max_seq: usize)
    ensures
        crate::device::work(kv_ops(c, Some(form), i, pos, max_seq)) == kv_ops(
            c,
            Some(form),
            i,
            pos,
            max_seq,
        ),
{
    let k = kv_ops(c, Some(form), i, pos, max_seq);
    reveal_with_fuel(crate::device::work_in, 4);
    assert(crate::device::work(k) =~= k);
}

#[verifier::rlimit(40)]
proof fn lemma_own_layer_agrees(
    c: Qwen35Config,
    w: LayerWeights,
    i: usize,
    pos: usize,
    cache: KvCache,
    quant: StateQuant,
)
    requires
        cache.form() == Some(simple_form(cache)),
    ensures
        crate::device::work(own_layer_ops(c, w, i, pos, cache, quant)) == layer_ops(
            c,
            w,
            i,
            pos,
            cache,
            quant,
        ),
{
    let d = count_kind(c.layer_types@, LayerType::LinearAttention, i as nat) as usize;
    match w {
        LayerWeights::DeltaNet(w) => {
            let a = own_linear_in_ops(c, w, i, d);
            let b = heads_ops(c);
            let e = own_linear_out_ops(c, w, i, d, quant);
            lemma_linear_in_work(c, w, i, d);
            lemma_linear_out_work(c, w, i, d, quant);
            lemma_heads_work(c);
            crate::device::lemma_work_concat(a, b);
            crate::device::lemma_work_concat(a + b, e);
        },
        LayerWeights::FullAttn(w) => {
            let a = own_full_in_ops(c, w, i);
            let b = split_ops(c, c.n_heads as nat);
            let m = own_full_mid_ops(c, w, i, pos);
            let k = kv_ops(c, Some(simple_form(cache)), i, pos, cache.max_seq);
            let e = own_full_out_ops(c, w, i);
            lemma_full_in_work(c, w, i);
            lemma_full_mid_work(c, w, i, pos);
            lemma_kv_work(c, simple_form(cache), i, pos, cache.max_seq);
            lemma_full_out_work(c, w, i);
            lemma_split_work(c, c.n_heads as nat);
            crate::device::lemma_work_concat(a, b);
            crate::device::lemma_work_concat(a + b, m);
            crate::device::lemma_work_concat(a + b + m, k);
            crate::device::lemma_work_concat(a + b + m + k, e);
        },
    }
}

#[verifier::rlimit(40)]
proof fn lemma_repeat_work(c: Qwen35Config, ratio: int, n: nat)
    ensures
        crate::device::work(repeat_ops(c, ratio, n)) == repeat_ops(c, ratio, n),
    decreases n,
{
    if n > 0 {
        let before = repeat_ops(c, ratio, (n - 1) as nat);
        lemma_repeat_work(c, ratio, (n - 1) as nat);
        let part = repeat_ops(c, ratio, n).subrange(before.len() as int, before.len() as int + 2);
        assert(repeat_ops(c, ratio, n) =~= before + part);
        reveal_with_fuel(crate::device::work_in, 3);
        assert(crate::device::work(part) =~= part);
        crate::device::lemma_work_concat(before, part);
    }
}

#[verifier::rlimit(40)]
proof fn lemma_split_work(c: Qwen35Config, n: nat)
    ensures
        crate::device::work(split_ops(c, n)) == split_ops(c, n),
    decreases n,
{
    if n > 0 {
        let before = split_ops(c, (n - 1) as nat);
        lemma_split_work(c, (n - 1) as nat);
        let part = split_ops(c, n).subrange(before.len() as int, before.len() as int + 2);
        assert(split_ops(c, n) =~= before + part);
        reveal_with_fuel(crate::device::work_in, 3);
        assert(crate::device::work(part) =~= part);
        crate::device::lemma_work_concat(before, part);
    }
}

#[verifier::rlimit(40)]
proof fn lemma_heads_work(c: Qwen35Config)
    ensures
        crate::device::work(heads_ops(c)) == heads_ops(c),
{
    if c.linear_num_key_heads < c.linear_num_value_heads {
        let ratio = c.linear_num_value_heads as int / c.linear_num_key_heads as int;
        lemma_repeat_work(c, ratio, (c.linear_num_key_heads * ratio) as nat);
    } else {
        reveal_with_fuel(crate::device::work_in, 3);
        assert(crate::device::work(heads_ops(c)) =~= heads_ops(c));
    }
}

proof fn lemma_own_layers_agree(
    c: Qwen35Config,
    layers: Seq<LayerWeights>,
    n: nat,
    pos: usize,
    cache: KvCache,
    quant: StateQuant,
)
    requires
        cache.form() == Some(simple_form(cache)),
    ensures
        crate::device::work(own_layers_ops(c, layers, n, pos, cache, quant)) == layers_ops(
            c,
            layers,
            n,
            pos,
            cache,
            quant,
        ),
    decreases n,
{
    if n > 0 {
        let m = (n - 1) as nat;
        lemma_own_layers_agree(c, layers, m, pos, cache, quant);
        lemma_own_layer_agrees(c, layers[m as int], m as usize, pos, cache, quant);
        crate::device::lemma_work_concat(
            own_layers_ops(c, layers, m, pos, cache, quant),
            own_layer_ops(c, layers[m as int], m as usize, pos, cache, quant),
        );
    } else {
        assert(crate::device::work(own_layers_ops(c, layers, n, pos, cache, quant)) =~= Seq::<
            QwenOp,
        >::empty());
    }
}

#[verifier::rlimit(40)]
proof fn lemma_ends_work(c: Qwen35Config, w: Qwen35Weights, pos: usize)
    ensures
        crate::device::work(own_start_ops(c, pos)) == seq![
            Op::<Qwen35Buf, Qwen35Wt>::SetPos { buf: Qwen35Buf::Pos, pos },
        ],
        crate::device::work(own_end_ops(c, w)) == output_ops(c, w),
{
    reveal_with_fuel(crate::device::work_in, 7);
    assert(crate::device::work(own_start_ops(c, pos)) =~= seq![
        Op::<Qwen35Buf, Qwen35Wt>::SetPos { buf: Qwen35Buf::Pos, pos },
    ]);
    assert(crate::device::work(own_end_ops(c, w)) =~= output_ops(c, w));
}

/// With buffers of its own or in scratch buffers, a forward pass does the same
/// work on a cache that both can use: one without turbo forms.
pub proof fn law_forward_passes_agree(
    c: Qwen35Config,
    w: Qwen35Weights,
    pos: usize,
    cache: KvCache,
    quant: StateQuant,
)
    requires
        !cache.quant_asym,
        cache.quant_turbo == 0,
    ensures
        crate::device::work(from_x_ops(c, w, pos, cache, quant)) == seq![
            Op::<Qwen35Buf, Qwen35Wt>::SetPos { buf: Qwen35Buf::Pos, pos },
        ] + scratch_layers_ops(c, w, pos, cache, quant),
{
    let a = own_start_ops(c, pos);
    let b = own_layers_ops(c, w.layers@, c.n_layers as nat, pos, cache, quant);
    let e = own_end_ops(c, w);
    let set: Seq<QwenOp> = seq![Op::<Qwen35Buf, Qwen35Wt>::SetPos { buf: Qwen35Buf::Pos, pos }];
    lemma_own_layers_agree(c, w.layers@, c.n_layers as nat, pos, cache, quant);
    crate::device::lemma_work_concat(a, b);
    crate::device::lemma_work_concat(a + b, e);
    lemma_ends_work(c, w, pos);
    assert(crate::device::work(a) + crate::device::work(b) + crate::device::work(e) =~= set + (
    crate::device::work(b) + crate::device::work(e)));
}

/// A token's forward pass with buffers of its own does the work of the pass in
/// scratch buffers and hands the logits over: the same operations in the same
/// order, but that the embedding is looked up before the position is set and not
/// after.
pub proof fn law_forward_agrees_with_scratch(
    c: Qwen35Config,
    w: Qwen35Weights,
    token: u32,
    pos: usize,
    cache: KvCache,
    quant: StateQuant,
)
    requires
        !cache.quant_asym,
        cache.quant_turbo == 0,
    ensures
        ({
            let set = Op::<Qwen35Buf, Qwen35Wt>::SetPos { buf: Qwen35Buf::Pos, pos };
            let look = Op::<Qwen35Buf, Qwen35Wt>::Embed {
                format: w.embd_format,
                token,
                out: Qwen35Buf::X,
                dim: c.dim,
            };
            let rest = scratch_layers_ops(c, w, pos, cache, quant);
            &&& crate::device::work(embed_ops(c, w, token) + to_host_ops(c, w, pos, cache, quant))
                == seq![look, set] + rest + seq![Op::Download { buf: Qwen35Buf::Logits }]
            &&& crate::device::work(embed_ops(c, w, token) + from_x_ops(c, w, pos, cache, quant))
                == seq![look, set] + rest
            &&& scratch_pass_ops(c, w, token, pos, cache, quant) == seq![set, look] + rest
        }),
{
    let e = embed_ops(c, w, token);
    let f = from_x_ops(c, w, pos, cache, quant);
    let host: Seq<QwenOp> = seq![
        Op::Download { buf: Qwen35Buf::Logits },
        Op::Free { buf: Qwen35Buf::Logits },
    ];
    let look: QwenOp = Op::Embed { format: w.embd_format, token, out: Qwen35Buf::X, dim: c.dim };
    let set: QwenOp = Op::SetPos { buf: Qwen35Buf::Pos, pos };
    let rest = scratch_layers_ops(c, w, pos, cache, quant);
    law_forward_passes_agree(c, w, pos, cache, quant);
    crate::device::lemma_work_concat(e, f + host);
    crate::device::lemma_work_concat(f, host);
    crate::device::lemma_work_concat(e, f);
    reveal_with_fuel(crate::device::work_in, 3);
    assert(crate::device::work(e) =~= seq![look]);
    assert(crate::device::work(host) =~= seq![
        Op::<Qwen35Buf, Qwen35Wt>::Download { buf: Qwen35Buf::Logits },
    ]);
    assert(seq![look] + (seq![set] + rest) =~= seq![look, set] + rest);
    assert(seq![look] + (seq![set] + rest + crate::device::work(host)) =~= seq![look, set] + rest
        + crate::device::work(host));
}

} // verus!
