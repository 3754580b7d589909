//! The draft model: a small decoder that proposes a block of tokens at once,
//! attending over hidden states of the target model.

use vstd::prelude::*;

use crate::device::{extend, Op};
use crate::float::{f64_to_f32, F32};
use crate::hfq::{value_or, ConfigError, HfqFile, D_1E7, D_1E_6};
use crate::json::Json;
use crate::loading::Loaded;
use crate::names::{numbered_name, push_tensor, LoadKind, TensorSpec};
use crate::quant::{DType, TensorError, Upload, WeightInfo};

verus! {

/// Shape constants of the draft model.
#[derive(Debug, Clone)]
pub struct DflashConfig {
    pub n_layers: usize,
    pub hidden: usize,
    pub intermediate: usize,
    pub n_heads: usize,
    pub n_kv_heads: usize,
    pub head_dim: usize,
    pub vocab_size: usize,
    pub norm_eps: F32,
    pub rope_theta: F32,
    pub block_size: usize,
    pub mask_token_id: u32,
    /// The target layers whose hidden states the draft reads.
    pub target_layer_ids: Vec<usize>,
    pub num_target_layers: usize,
}

/// The integers among the first `n` of some values.
pub open spec fn integers(items: Seq<crate::json::JVal>, n: nat) -> Seq<usize>
    decreases n,
{
    if n == 0 {
        Seq::empty()
    } else {
        let before = integers(items, (n - 1) as nat);
        match items[n - 1].as_u64() {
            Some(x) => before.push(x as usize),
            None => before,
        }
    }
}

/// What has no default is there.
pub open spec fn complete(df: crate::json::JVal) -> bool {
    &&& reaches_heads(df)
    &&& df.get_u64("vocab_size"@) is Some
    &&& df.get_u64("block_size"@) is Some
    &&& df.get_u64("mask_token_id"@) is Some
    &&& df.get("target_layer_ids"@) is Some
    &&& df.get("target_layer_ids"@)->0.as_array() is Some
    &&& df.get_u64("num_target_layers"@) is Some
}

/// What is read before the size of a head is there.
pub open spec fn reaches_heads(df: crate::json::JVal) -> bool {
    &&& df.get_u64("num_hidden_layers"@) is Some
    &&& df.get_u64("hidden_size"@) is Some
    &&& df.get_u64("intermediate_size"@) is Some
    &&& df.get_u64("num_attention_heads"@) is Some
    &&& df.get_u64("num_key_value_heads"@) is Some
}

/// Reading gets as far as the size of a head, and there are no heads.
pub open spec fn zero_heads(meta: crate::json::JVal) -> bool {
    match meta.get("dflash"@) {
        Some(df) => reaches_heads(df) && df.get_u64("num_attention_heads"@)->0 as usize == 0,
        None => false,
    }
}

pub open spec fn zero_heads_in(text: Seq<char>) -> bool {
    crate::json::parsed(text) is Some && zero_heads(crate::json::parsed(text)->0)
}

/// A text that parses to a document with a complete draft section.
pub open spec fn readable(text: Seq<char>) -> bool {
    match crate::json::parsed(text) {
        Some(meta) => meta.get("dflash"@) is Some && complete(meta.get("dflash"@)->0),
        None => false,
    }
}

/// `c` is what the draft section `df` describes.
pub open spec fn describes(df: crate::json::JVal, c: DflashConfig) -> bool {
    let items = df.get("target_layer_ids"@)->0.as_array()->0;
    &&& c.n_layers == df.get_u64("num_hidden_layers"@)->0 as usize
    &&& c.hidden == df.get_u64("hidden_size"@)->0 as usize
    &&& c.intermediate == df.get_u64("intermediate_size"@)->0 as usize
    &&& c.n_heads == df.get_u64("num_attention_heads"@)->0 as usize
    &&& c.n_kv_heads == df.get_u64("num_key_value_heads"@)->0 as usize
    &&& c.head_dim == crate::hfq::or(
        df.get_u64("head_dim"@),
        (c.hidden / c.n_heads) as u64,
    ) as usize
    &&& c.vocab_size == df.get_u64("vocab_size"@)->0 as usize
    &&& c.norm_eps == crate::float::of_double(crate::hfq::or(df.get_f64("rms_norm_eps"@), D_1E_6))
    &&& c.rope_theta == crate::float::of_double(crate::hfq::or(df.get_f64("rope_theta"@), D_1E7))
    &&& c.block_size == df.get_u64("block_size"@)->0 as usize
    &&& c.mask_token_id == df.get_u64("mask_token_id"@)->0 as u32
    &&& c.target_layer_ids@ == integers(items, items.len())
    &&& c.num_target_layers == df.get_u64("num_target_layers"@)->0 as usize
}

fn collect_integers(v: &Json) -> (r: Option<Vec<usize>>)
    ensures
        match r {
            Some(ids) => v@.as_array() is Some && ids@ == integers(
                v@.as_array()->0,
                v@.as_array()->0.len(),
            ),
            None => v@.as_array() is None,
        },
{
    let items: &Vec<Json> = match v.as_array() {
        Some(items) => items,
        None => return None,
    };
    let ghost all = v@.as_array()->0;
    let mut ids: Vec<usize> = Vec::new();
    let mut i: usize = 0;
    while i < items.len()
        invariant
            i <= items@.len(),
            all.len() == items@.len(),
            forall|k: int| 0 <= k < items@.len() ==> (#[trigger] items@[k])@ == all[k],
            ids@ == integers(all, i as nat),
        decreases items@.len() - i,
    {
        assert(items@[i as int]@ == all[i as int]);
        match items[i].as_u64() {
            Some(x) => ids.push(x as usize),
            None => {},
        }
        i = i + 1;
    }
    Some(ids)
}

impl DflashConfig {
    /// How many target layers are read.
    pub fn num_extract(&self) -> (r: usize)
        ensures
            r == self.target_layer_ids@.len(),
    {
        self.target_layer_ids.len()
    }

    /// Width of the keys, and of the values.
    pub fn kv_dim(&self) -> (r: usize)
        requires
            self.n_kv_heads * self.head_dim <= usize::MAX,
        ensures
            r == self.n_kv_heads * self.head_dim,
    {
        self.n_kv_heads * self.head_dim
    }

    /// Width of the queries.
    pub fn q_dim(&self) -> (r: usize)
        requires
            self.n_heads * self.head_dim <= usize::MAX,
        ensures
            r == self.n_heads * self.head_dim,
    {
        self.n_heads * self.head_dim
    }

    /// The configuration in a parsed metadata document.
    pub fn from_metadata(meta: &Json) -> (r: Option<Self>)
        requires
            !zero_heads(meta@),
        ensures
            match r {
                Some(c) => {
                    &&& meta@.get("dflash"@) is Some
                    &&& complete(meta@.get("dflash"@)->0)
                    &&& describes(meta@.get("dflash"@)->0, c)
                },
                None => meta@.get("dflash"@) is None || !complete(meta@.get("dflash"@)->0),
            },
    {
        let df: &Json = match meta.get("dflash") {
            Some(df) => df,
            None => return None,
        };
        let n_layers: usize = match df.get_u64("num_hidden_layers") {
            Some(v) => v as usize,
            None => return None,
        };
        let hidden: usize = match df.get_u64("hidden_size") {
            Some(v) => v as usize,
            None => return None,
        };
        let intermediate: usize = match df.get_u64("intermediate_size") {
            Some(v) => v as usize,
            None => return None,
        };
        let n_heads: usize = match df.get_u64("num_attention_heads") {
            Some(v) => v as usize,
            None => return None,
        };
        let n_kv_heads: usize = match df.get_u64("num_key_value_heads") {
            Some(v) => v as usize,
            None => return None,
        };
        let head_dim: usize = value_or(
            df.get_u64("head_dim"),
            (hidden / n_heads) as u64,
        ) as usize;
        let vocab_size: usize = match df.get_u64("vocab_size") {
            Some(v) => v as usize,
            None => return None,
        };
        let norm_eps: F32 = f64_to_f32(value_or(df.get_f64("rms_norm_eps"), D_1E_6));
        let rope_theta: F32 = f64_to_f32(value_or(df.get_f64("rope_theta"), D_1E7));
        let block_size: usize = match df.get_u64("block_size") {
            Some(v) => v as usize,
            None => return None,
        };
        let mask_token_id: u32 = match df.get_u64("mask_token_id") {
            Some(v) => v as u32,
            None => return None,
        };
        let target_layer_ids: Vec<usize> = match df.get("target_layer_ids") {
            Some(v) => match collect_integers(v) {
                Some(ids) => ids,
                None => return None,
            },
            None => return None,
        };
        let num_target_layers: usize = match df.get_u64("num_target_layers") {
            Some(v) => v as usize,
            None => return None,
        };
        Some(
            DflashConfig {
                n_layers,
                hidden,
                intermediate,
                n_heads,
                n_kv_heads,
                head_dim,
                vocab_size,
                norm_eps,
                rope_theta,
                block_size,
                mask_token_id,
                target_layer_ids,
                num_target_layers,
            },
        )
    }

    /// The configuration in a model file, where it has a complete draft section.
    pub fn from_hfq(hfq: &HfqFile) -> (r: Option<Self>)
        requires
            !zero_heads_in(hfq.metadata_json@),
        ensures
            match r {
                Some(c) => readable(hfq.metadata_json@) && describes(
                    crate::json::parsed(hfq.metadata_json@)->0.get("dflash"@)->0,
                    c,
                ),
                None => !readable(hfq.metadata_json@),
            },
    {
        match crate::json::parse(hfq.metadata_json.as_str()) {
            Some(meta) => Self::from_metadata(&meta),
            None => None,
        }
    }

    /// Like [`DflashConfig::from_hfq`], for any model file: one without heads is
    /// reported.
    pub fn checked_from_hfq(hfq: &HfqFile) -> (r: Result<Option<Self>, ConfigError>)
        ensures
            match r {
                Ok(Some(c)) => {
                    &&& !zero_heads_in(hfq.metadata_json@)
                    &&& readable(hfq.metadata_json@)
                    &&& describes(
                        crate::json::parsed(hfq.metadata_json@)->0.get("dflash"@)->0,
                        c,
                    )
                },
                Ok(None) => !zero_heads_in(hfq.metadata_json@) && !readable(hfq.metadata_json@),
                Err(e) => zero_heads_in(hfq.metadata_json@) && e == ConfigError::ZeroHeads,
            },
    {
        match crate::json::parse(hfq.metadata_json.as_str()) {
            Some(meta) => {
                if has_zero_heads(&meta) {
                    return Err(ConfigError::ZeroHeads);
                }
            },
            None => {},
        }
        Ok(Self::from_hfq(hfq))
    }
}

/// Whether a document has no heads to divide by.
pub fn has_zero_heads(meta: &Json) -> (r: bool)
    ensures
        r == zero_heads(meta@),
{
    match meta.get("dflash") {
        Some(df) => match df.get_u64("num_attention_heads") {
            Some(h) => h as usize == 0 && df.get_u64("num_hidden_layers").is_some() && df.get_u64(
                "hidden_size",
            ).is_some() && df.get_u64("intermediate_size").is_some() && df.get_u64(
                "num_key_value_heads",
            ).is_some(),
            None => false,
        },
        None => false,
    }
}

// Weights.

/// The parts of one layer.
#[derive(Debug, Clone, Copy, PartialEq, Eq, Structural)]
pub enum LayerPart {
    AttnNorm,
    Wq,
    Wk,
    Wv,
    Wo,
    QNorm,
    KNorm,
    FfnNorm,
    WGate,
    WUp,
    WDown,
}

/// The weights of the draft model.
#[derive(Debug, Clone, Copy, PartialEq, Eq, Structural)]
pub enum DflashWt {
    /// Projects the concatenated target states.
    Fc,
    HiddenNorm,
    Norm,
    Layer(usize, LayerPart),
}

/// The matrices of one layer.
#[derive(Debug, Clone, Copy)]
pub struct DflashLayerWeights {
    pub wq: WeightInfo,
    pub wk: WeightInfo,
    pub wv: WeightInfo,
    pub wo: WeightInfo,
    pub w_gate: WeightInfo,
    pub w_up: WeightInfo,
    pub w_down: WeightInfo,
}

/// The matrices of the draft model.
pub struct DflashWeights {
    pub fc: WeightInfo,
    pub layers: Vec<DflashLayerWeights>,
    /// Some matrix is stored in the rotated four-bit form.
    pub has_mq: bool,
}

impl DflashLayerWeights {
    pub open spec fn has_mq(self) -> bool {
        ||| self.wq.dtype == DType::MQ4G256
        ||| self.wk.dtype == DType::MQ4G256
        ||| self.wv.dtype == DType::MQ4G256
        ||| self.wo.dtype == DType::MQ4G256
        ||| self.w_gate.dtype == DType::MQ4G256
        ||| self.w_up.dtype == DType::MQ4G256
        ||| self.w_down.dtype == DType::MQ4G256
    }

    fn any_mq(&self) -> (r: bool)
        ensures
            r == self.has_mq(),
    {
        self.wq.dtype == DType::MQ4G256 || self.wk.dtype == DType::MQ4G256 || self.wv.dtype
            == DType::MQ4G256 || self.wo.dtype == DType::MQ4G256 || self.w_gate.dtype
            == DType::MQ4G256 || self.w_up.dtype == DType::MQ4G256 || self.w_down.dtype
            == DType::MQ4G256
    }
}

/// The releases of a layer's weights.
pub open spec fn layer_frees(i: usize) -> Seq<Op<DflashBuf, DflashWt>> {
    seq![
        Op::FreeWeight { w: DflashWt::Layer(i, LayerPart::AttnNorm) },
        Op::FreeWeight { w: DflashWt::Layer(i, LayerPart::Wq) },
        Op::FreeWeight { w: DflashWt::Layer(i, LayerPart::Wk) },
        Op::FreeWeight { w: DflashWt::Layer(i, LayerPart::Wv) },
        Op::FreeWeight { w: DflashWt::Layer(i, LayerPart::Wo) },
        Op::FreeWeight { w: DflashWt::Layer(i, LayerPart::QNorm) },
        Op::FreeWeight { w: DflashWt::Layer(i, LayerPart::KNorm) },
        Op::FreeWeight { w: DflashWt::Layer(i, LayerPart::FfnNorm) },
        Op::FreeWeight { w: DflashWt::Layer(i, LayerPart::WGate) },
        Op::FreeWeight { w: DflashWt::Layer(i, LayerPart::WUp) },
        Op::FreeWeight { w: DflashWt::Layer(i, LayerPart::WDown) },
    ]
}

/// The releases of the first `n` layers' weights.
pub open spec fn layers_frees(n: nat) -> Seq<Op<DflashBuf, DflashWt>>
    decreases n,
{
    if n == 0 {
        Seq::empty()
    } else {
        layers_frees((n - 1) as nat) + layer_frees((n - 1) as usize)
    }
}

impl DflashWeights {
    /// Gives all the weights back.
    pub fn free_gpu(self) -> (ops: Vec<Op<DflashBuf, DflashWt>>)
        ensures
            ops@ == seq![
                Op::<DflashBuf, DflashWt>::FreeWeight { w: DflashWt::Fc },
                Op::<DflashBuf, DflashWt>::FreeWeight { w: DflashWt::HiddenNorm },
                Op::<DflashBuf, DflashWt>::FreeWeight { w: DflashWt::Norm },
            ] + layers_frees(self.layers@.len()),
    {
        let mut ops: Vec<Op<DflashBuf, DflashWt>> = vec![
            Op::FreeWeight { w: DflashWt::Fc },
            Op::FreeWeight { w: DflashWt::HiddenNorm },
            Op::FreeWeight { w: DflashWt::Norm },
        ];
        let ghost head = ops@;
        assert(head + layers_frees(0) =~= head);
        let n: usize = self.layers.len();
        let mut i: usize = 0;
        while i < n
            invariant
                i <= n,
                ops@ == head + layers_frees(i as nat),
            decreases n - i,
        {
            extend(
                &mut ops,
                vec![
                    Op::FreeWeight { w: DflashWt::Layer(i, LayerPart::AttnNorm) },
                    Op::FreeWeight { w: DflashWt::Layer(i, LayerPart::Wq) },
                    Op::FreeWeight { w: DflashWt::Layer(i, LayerPart::Wk) },
                    Op::FreeWeight { w: DflashWt::Layer(i, LayerPart::Wv) },
                    Op::FreeWeight { w: DflashWt::Layer(i, LayerPart::Wo) },
                    Op::FreeWeight { w: DflashWt::Layer(i, LayerPart::QNorm) },
                    Op::FreeWeight { w: DflashWt::Layer(i, LayerPart::KNorm) },
                    Op::FreeWeight { w: DflashWt::Layer(i, LayerPart::FfnNorm) },
                    Op::FreeWeight { w: DflashWt::Layer(i, LayerPart::WGate) },
                    Op::FreeWeight { w: DflashWt::Layer(i, LayerPart::WUp) },
                    Op::FreeWeight { w: DflashWt::Layer(i, LayerPart::WDown) },
                ],
            );
            assert(ops@ =~= head + layers_frees((i + 1) as nat));
            i = i + 1;
        }
        ops
    }
}

impl DflashWeights {
    pub open spec fn uses_mq(fc: WeightInfo, layers: Seq<DflashLayerWeights>) -> bool {
        fc.dtype == DType::MQ4G256 || exists|i: int|
            0 <= i < layers.len() && (#[trigger] layers[i]).has_mq()
    }

    /// The loaded matrices, and whether any of them needs rotated inputs.
    pub fn new(fc: WeightInfo, layers: Vec<DflashLayerWeights>) -> (r: Self)
        ensures
            r.fc == fc,
            r.layers@ == layers@,
            r.has_mq == Self::uses_mq(fc, layers@),
    {
        let mut has_mq: bool = fc.dtype == DType::MQ4G256;
        let mut i: usize = 0;
        while i < layers.len()
            invariant
                i <= layers@.len(),
                has_mq == (fc.dtype == DType::MQ4G256 || exists|k: int|
                    0 <= k < i && (#[trigger] layers@[k]).has_mq()),
            decreases layers@.len() - i,
        {
            if layers[i].any_mq() {
                assert(layers@[i as int].has_mq());
                has_mq = true;
            }
            i = i + 1;
        }
        DflashWeights { fc, layers, has_mq }
    }
}

/// How a stored matrix of `m` rows of `k` goes to the device: unquantized ones as
/// single precision, rotated four-bit ones as stored, others not at all.
pub fn hfq_weight(quant_type: u8, data: &[u8], m: usize, k: usize) -> (r: Result<
    (WeightInfo, Upload),
    TensorError,
>)
    requires
        m * k <= usize::MAX,
    ensures
        match r {
            Ok((info, up)) => {
                &&& info.m == m && info.k == k
                &&& match up {
                    Upload::Halves(_) => false,
                    Upload::Raw => quant_type == 13 && info.dtype == DType::MQ4G256,
                    Upload::Singles(v) => {
                        &&& quant_type == 1 || quant_type == 2
                        &&& info.dtype == DType::F32
                        &&& crate::quant::plain(quant_type, data@) == Some(v@)
                        &&& v@.len() == m * k
                    },
                }
            },
            Err(TensorError::Shape { expected, got }) => {
                &&& quant_type == 1 || quant_type == 2
                &&& expected == m * k
                &&& got == crate::quant::plain(quant_type, data@)->0.len()
                &&& got != expected
            },
            Err(TensorError::QuantType(q)) => q == quant_type && quant_type != 1 && quant_type != 2
                && quant_type != 13,
        },
{
    if quant_type == 13 {
        return Ok((WeightInfo { dtype: DType::MQ4G256, m, k }, Upload::Raw));
    }
    match crate::quant::decode_exact(quant_type, data, m * k) {
        Ok(v) => Ok((WeightInfo { dtype: DType::F32, m, k }, Upload::Singles(v))),
        Err(e) => Err(e),
    }
}

/// The tensors of layer `i`.
#[verifier::opaque]
pub open spec fn layer_tensors(cfg: DflashConfig, i: nat) -> Seq<crate::names::Tensor<DflashWt>> {
    let h = cfg.hidden as nat;
    let qd = (cfg.n_heads * cfg.head_dim) as nat;
    let kvd = (cfg.n_kv_heads * cfg.head_dim) as nat;
    let inter = cfg.intermediate as nat;
    let hd = cfg.head_dim as nat;
    seq![
        tensor(
            DflashWt::Layer(i as usize, LayerPart::AttnNorm),
            i,
            ".input_layernorm.weight"@,
            LoadKind::Exact,
            1,
            h,
        ),
        tensor(
            DflashWt::Layer(i as usize, LayerPart::Wq),
            i,
            ".self_attn.q_proj.weight"@,
            LoadKind::DraftWeight,
            qd,
            h,
        ),
        tensor(
            DflashWt::Layer(i as usize, LayerPart::Wk),
            i,
            ".self_attn.k_proj.weight"@,
            LoadKind::DraftWeight,
            kvd,
            h,
        ),
        tensor(
            DflashWt::Layer(i as usize, LayerPart::Wv),
            i,
            ".self_attn.v_proj.weight"@,
            LoadKind::DraftWeight,
            kvd,
            h,
        ),
        tensor(
            DflashWt::Layer(i as usize, LayerPart::Wo),
            i,
            ".self_attn.o_proj.weight"@,
            LoadKind::DraftWeight,
            h,
            qd,
        ),
        tensor(
            DflashWt::Layer(i as usize, LayerPart::QNorm),
            i,
            ".self_attn.q_norm.weight"@,
            LoadKind::Exact,
            1,
            hd,
        ),
        tensor(
            DflashWt::Layer(i as usize, LayerPart::KNorm),
            i,
            ".self_attn.k_norm.weight"@,
            LoadKind::Exact,
            1,
            hd,
        ),
        tensor(
            DflashWt::Layer(i as usize, LayerPart::FfnNorm),
            i,
            ".post_attention_layernorm.weight"@,
            LoadKind::Exact,
            1,
            h,
        ),
        tensor(
            DflashWt::Layer(i as usize, LayerPart::WGate),
            i,
            ".mlp.gate_proj.weight"@,
            LoadKind::DraftWeight,
            inter,
            h,
        ),
        tensor(
            DflashWt::Layer(i as usize, LayerPart::WUp),
            i,
            ".mlp.up_proj.weight"@,
            LoadKind::DraftWeight,
            inter,
            h,
        ),
        tensor(
            DflashWt::Layer(i as usize, LayerPart::WDown),
            i,
            ".mlp.down_proj.weight"@,
            LoadKind::DraftWeight,
            h,
            inter,
        ),
    ]
}

pub open spec fn tensor(
    place: DflashWt,
    i: nat,
    tail: Seq<char>,
    kind: LoadKind,
    m: nat,
    k: nat,
) -> crate::names::Tensor<DflashWt> {
    crate::names::Tensor { place, name: crate::names::numbered("layers."@, i, tail), kind, m, k }
}

/// The tensors of the first `n` layers.
pub open spec fn layers_tensors(cfg: DflashConfig, n: nat) -> Seq<crate::names::Tensor<DflashWt>>
    decreases n,
{
    if n == 0 {
        Seq::empty()
    } else {
        layers_tensors(cfg, (n - 1) as nat) + layer_tensors(cfg, (n - 1) as nat)
    }
}

/// All the tensors of the draft model, in the order in which they are loaded.
pub open spec fn all_tensors(cfg: DflashConfig) -> Seq<crate::names::Tensor<DflashWt>> {
    let h = cfg.hidden as nat;
    seq![
        crate::names::Tensor {
            place: DflashWt::Fc,
            name: "fc.weight"@,
            kind: LoadKind::DraftWeight,
            m: h,
            k: (cfg.target_layer_ids@.len() * h) as nat,
        },
        crate::names::Tensor {
            place: DflashWt::HiddenNorm,
            name: "hidden_norm.weight"@,
            kind: LoadKind::Exact,
            m: 1,
            k: h,
        },
        crate::names::Tensor {
            place: DflashWt::Norm,
            name: "norm.weight"@,
            kind: LoadKind::Exact,
            m: 1,
            k: h,
        },
    ] + layers_tensors(cfg, cfg.n_layers as nat)
}

impl DflashWeights {
    /// The tensors to load, in order.
    pub fn load(cfg: &DflashConfig) -> (r: Vec<TensorSpec<DflashWt>>)
        requires
            cfg.n_heads * cfg.head_dim <= usize::MAX,
            cfg.n_kv_heads * cfg.head_dim <= usize::MAX,
            cfg.target_layer_ids@.len() * cfg.hidden <= usize::MAX,
        ensures
            crate::names::tensors(r@) == all_tensors(*cfg),
    {
        let h: usize = cfg.hidden;
        let qd: usize = cfg.q_dim();
        let kvd: usize = cfg.kv_dim();
        let inter: usize = cfg.intermediate;
        let hd: usize = cfg.head_dim;
        let mut v: Vec<TensorSpec<DflashWt>> = Vec::new();
        assert(crate::names::tensors(v@) =~= Seq::<crate::names::Tensor<DflashWt>>::empty());
        push_tensor(
        &mut v,
        DflashWt::Fc,
        "fc.weight".to_owned(),
            LoadKind::DraftWeight,
            h,
            cfg.num_extract() * cfg.hidden,
        );
        push_tensor(
        &mut v,
        DflashWt::HiddenNorm,
        "hidden_norm.weight".to_owned(),
        LoadKind::Exact,
        1,
        h,
    );
        push_tensor(
        &mut v,
        DflashWt::Norm,
        "norm.weight".to_owned(),
        LoadKind::Exact,
        1,
        h,
    );
        let ghost head = crate::names::tensors(v@);
        proof {
            assert(head + layers_tensors(*cfg, 0) =~= head);
        }
        let mut i: usize = 0;
        while i < cfg.n_layers
            invariant
                i <= cfg.n_layers,
                h == cfg.hidden,
                qd == cfg.n_heads * cfg.head_dim,
                kvd == cfg.n_kv_heads * cfg.head_dim,
                inter == cfg.intermediate,
                hd == cfg.head_dim,
                crate::names::tensors(v@) == head + layers_tensors(*cfg, i as nat),
            decreases cfg.n_layers - i,
        {
            let ghost before = crate::names::tensors(v@);
            push_tensor(
        &mut v,
        DflashWt::Layer(i, LayerPart::AttnNorm),
        numbered_name("layers.", i, ".input_layernorm.weight"),
                LoadKind::Exact,
                1,
                h,
            );
            push_tensor(
        &mut v,
        DflashWt::Layer(i, LayerPart::Wq),
        numbered_name("layers.", i, ".self_attn.q_proj.weight"),
                LoadKind::DraftWeight,
                qd,
                h,
            );
            push_tensor(
        &mut v,
        DflashWt::Layer(i, LayerPart::Wk),
        numbered_name("layers.", i, ".self_attn.k_proj.weight"),
                LoadKind::DraftWeight,
                kvd,
                h,
            );
            push_tensor(
        &mut v,
        DflashWt::Layer(i, LayerPart::Wv),
        numbered_name("layers.", i, ".self_attn.v_proj.weight"),
                LoadKind::DraftWeight,
                kvd,
                h,
            );
            push_tensor(
        &mut v,
        DflashWt::Layer(i, LayerPart::Wo),
        numbered_name("layers.", i, ".self_attn.o_proj.weight"),
                LoadKind::DraftWeight,
                h,
                qd,
            );
            push_tensor(
        &mut v,
        DflashWt::Layer(i, LayerPart::QNorm),
        numbered_name("layers.", i, ".self_attn.q_norm.weight"),
                LoadKind::Exact,
                1,
                hd,
            );
            push_tensor(
        &mut v,
        DflashWt::Layer(i, LayerPart::KNorm),
        numbered_name("layers.", i, ".self_attn.k_norm.weight"),
                LoadKind::Exact,
                1,
                hd,
            );
            push_tensor(
        &mut v,
        DflashWt::Layer(i, LayerPart::FfnNorm),
        numbered_name("layers.", i, ".post_attention_layernorm.weight"),
                LoadKind::Exact,
                1,
                h,
            );
            push_tensor(
        &mut v,
        DflashWt::Layer(i, LayerPart::WGate),
        numbered_name("layers.", i, ".mlp.gate_proj.weight"),
                LoadKind::DraftWeight,
                inter,
                h,
            );
            push_tensor(
        &mut v,
        DflashWt::Layer(i, LayerPart::WUp),
        numbered_name("layers.", i, ".mlp.up_proj.weight"),
                LoadKind::DraftWeight,
                inter,
                h,
            );
            push_tensor(
        &mut v,
        DflashWt::Layer(i, LayerPart::WDown),
        numbered_name("layers.", i, ".mlp.down_proj.weight"),
                LoadKind::DraftWeight,
                h,
                inter,
            );
            proof {
                reveal(layer_tensors);
                let part = layer_tensors(*cfg, i as nat);
                assert(crate::names::tensors(v@) =~= before + part);
                assert(before + part =~= head + layers_tensors(*cfg, (i + 1) as nat));
            }
            i = i + 1;
        }
        assert(crate::names::tensors(v@) =~= all_tensors(*cfg));
        v
    }
}

// Assembly.

/// What a layer keeps of the tensor in a place.
pub open spec fn kept_info(w: DflashLayerWeights, place: DflashWt) -> Option<WeightInfo> {
    match place {
        DflashWt::Layer(_, part) => match part {
            LayerPart::Wq => Some(w.wq),
            LayerPart::Wk => Some(w.wk),
            LayerPart::Wv => Some(w.wv),
            LayerPart::Wo => Some(w.wo),
            LayerPart::WGate => Some(w.w_gate),
            LayerPart::WUp => Some(w.w_up),
            LayerPart::WDown => Some(w.w_down),
            _ => None,
        },
        _ => None,
    }
}

/// A layer holds the tensor of an entry in the place of that entry.
pub open spec fn holds(
    w: DflashLayerWeights,
    e: crate::names::Tensor<DflashWt>,
    l: crate::loading::Told,
) -> bool {
    e.kind == LoadKind::DraftWeight ==> kept_info(w, e.place) == Some(l.info)
}

/// Place, kind and size of entry `k` of layer `i`.
pub open spec fn slot(c: DflashConfig, i: nat, k: int) -> (DflashWt, LoadKind, nat, nat) {
    let x = i as usize;
    let h = c.hidden as nat;
    let qd = (c.n_heads * c.head_dim) as nat;
    let kvd = (c.n_kv_heads * c.head_dim) as nat;
    let inter = c.intermediate as nat;
    let hd = c.head_dim as nat;
    if k == 0 {
        (DflashWt::Layer(x, LayerPart::AttnNorm), LoadKind::Exact, 1, h)
    } else if k == 1 {
        (DflashWt::Layer(x, LayerPart::Wq), LoadKind::DraftWeight, qd, h)
    } else if k == 2 {
        (DflashWt::Layer(x, LayerPart::Wk), LoadKind::DraftWeight, kvd, h)
    } else if k == 3 {
        (DflashWt::Layer(x, LayerPart::Wv), LoadKind::DraftWeight, kvd, h)
    } else if k == 4 {
        (DflashWt::Layer(x, LayerPart::Wo), LoadKind::DraftWeight, h, qd)
    } else if k == 5 {
        (DflashWt::Layer(x, LayerPart::QNorm), LoadKind::Exact, 1, hd)
    } else if k == 6 {
        (DflashWt::Layer(x, LayerPart::KNorm), LoadKind::Exact, 1, hd)
    } else if k == 7 {
        (DflashWt::Layer(x, LayerPart::FfnNorm), LoadKind::Exact, 1, h)
    } else if k == 8 {
        (DflashWt::Layer(x, LayerPart::WGate), LoadKind::DraftWeight, inter, h)
    } else if k == 9 {
        (DflashWt::Layer(x, LayerPart::WUp), LoadKind::DraftWeight, inter, h)
    } else {
        (DflashWt::Layer(x, LayerPart::WDown), LoadKind::DraftWeight, h, inter)
    }
}

pub open spec fn in_slot(
    e: crate::names::Tensor<DflashWt>,
    s: (DflashWt, LoadKind, nat, nat),
) -> bool {
    e.place == s.0 && e.kind == s.1 && e.m == s.2 && e.k == s.3
}

/// Entry `k` of a layer's tensors.
proof fn lemma_layer_entry(c: DflashConfig, i: nat, k: int)
    ensures
        layer_tensors(c, i).len() == 11,
        0 <= k < layer_tensors(c, i).len() ==> in_slot(
            layer_tensors(c, i)[k],
            slot(c, i, k),
        ),
{
    reveal(layer_tensors);
}

/// Entry `k` of the tensors of layer `i`, among those of `n` layers.
proof fn lemma_layers_entry(c: DflashConfig, i: int, n: nat, k: int)
    requires
        0 <= i < n,
        0 <= k < layer_tensors(c, i as nat).len(),
    ensures
        layers_tensors(c, i as nat).len() + k < layers_tensors(c, n).len(),
        layers_tensors(c, n)[layers_tensors(c, i as nat).len() + k] == layer_tensors(
            c,
            i as nat,
        )[k],
    decreases n,
{
    if i < n - 1 {
        lemma_layers_entry(c, i, (n - 1) as nat, k);
    }
}

/// Every entry belongs to the head or to a layer.
proof fn lemma_entry_layer(c: DflashConfig, n: nat, j: int) -> (r: (int, int))
    requires
        0 <= j < layers_tensors(c, n).len(),
    ensures
        0 <= r.0 < n,
        0 <= r.1 < layer_tensors(c, r.0 as nat).len(),
        j == layers_tensors(c, r.0 as nat).len() + r.1,
    decreases n,
{
    let m = (n - 1) as nat;
    if j < layers_tensors(c, m).len() {
        lemma_entry_layer(c, m, j)
    } else {
        (n - 1, j - layers_tensors(c, m).len())
    }
}

proof fn lemma_pools_back(c: DflashConfig)
    ensures
        crate::loading::pools_back(all_tensors(c)),
{
    let list = all_tensors(c);
    assert forall|j: int| 0 <= j < list.len() implies ((#[trigger] list[j]).kind matches LoadKind::Pooled {
        back,
    } ==> back <= j) by {
        if j >= 3 {
            let (i, k) = lemma_entry_layer(c, c.n_layers as nat, j - 3);
            lemma_layers_entry(c, i, c.n_layers as nat, k);
            lemma_layer_entry(c, i as nat, k);
        }
    }
}

/// What the entries of layer `i` were read as, from place `at` on.
#[verifier::opaque]
pub open spec fn layer_read(
    c: DflashConfig,
    i: nat,
    ts: Seq<crate::loading::StoredTensor>,
    list: Seq<crate::names::Tensor<DflashWt>>,
    loaded: Seq<Loaded>,
    at: int,
) -> bool {
    let part = layer_tensors(c, i);
    &&& 0 <= at
    &&& at + part.len() <= loaded.len() == list.len()
    &&& crate::loading::agrees(ts, list, loaded)
    &&& forall|k: int| 0 <= k < part.len() ==> list[at + k] == #[trigger] part[k]
}

proof fn lemma_layer_told(
    c: DflashConfig,
    i: nat,
    ts: Seq<crate::loading::StoredTensor>,
    list: Seq<crate::names::Tensor<DflashWt>>,
    loaded: Seq<Loaded>,
    at: int,
    k: int,
)
    requires
        layer_read(c, i, ts, list, loaded, at),
        0 <= k < layer_tensors(c, i).len(),
    ensures
        0 <= at,
        at + layer_tensors(c, i).len() <= loaded.len(),
        ({
            let e = layer_tensors(c, i)[k];
            let l = loaded[at + k]@;
            l.info.m == e.m as usize && l.info.k == e.k as usize
        }),
{
    reveal(layer_read);
    let e = layer_tensors(c, i)[k];
    assert(list[at + k] == e);
    assert(crate::loading::told(ts, list, at + k) == Ok::<
        crate::loading::Told,
        crate::loading::Fault,
    >(loaded[at + k]@));
    crate::loading::lemma_told_size(ts, list, at + k);
}

/// A layer from its tensors, which were read from place `at` on.
pub open spec fn built(loaded: Seq<Loaded>, at: int) -> DflashLayerWeights {
    DflashLayerWeights {
        wq: loaded[at + 1].info,
        wk: loaded[at + 2].info,
        wv: loaded[at + 3].info,
        wo: loaded[at + 4].info,
        w_gate: loaded[at + 8].info,
        w_up: loaded[at + 9].info,
        w_down: loaded[at + 10].info,
    }
}

proof fn lemma_built_holds(
    c: DflashConfig,
    i: nat,
    ts: Seq<crate::loading::StoredTensor>,
    list: Seq<crate::names::Tensor<DflashWt>>,
    loaded: Seq<Loaded>,
    at: int,
    k: int,
)
    requires
        layer_read(c, i, ts, list, loaded, at),
        0 <= k < layer_tensors(c, i).len(),
    ensures
        holds(built(loaded, at), layer_tensors(c, i)[k], loaded[at + k]@),
        loaded[at + k].info.m == slot(c, i, k).2 as usize,
        loaded[at + k].info.k == slot(c, i, k).3 as usize,
{
    lemma_layer_entry(c, i, k);
    lemma_layer_told(c, i, ts, list, loaded, at, k);
}

proof fn lemma_built_shape(
    c: DflashConfig,
    i: nat,
    ts: Seq<crate::loading::StoredTensor>,
    list: Seq<crate::names::Tensor<DflashWt>>,
    loaded: Seq<Loaded>,
    at: int,
)
    requires
        c.n_heads * c.head_dim <= usize::MAX,
        c.n_kv_heads * c.head_dim <= usize::MAX,
        layer_read(c, i, ts, list, loaded, at),
    ensures
        layer_shaped(built(loaded, at), c),
{
    lemma_layer_entry(c, i, 0);
    assert(c.n_heads * c.head_dim >= 0 && c.n_kv_heads * c.head_dim >= 0) by (nonlinear_arith);
    lemma_built_holds(c, i, ts, list, loaded, at, 1);
    lemma_built_holds(c, i, ts, list, loaded, at, 2);
    lemma_built_holds(c, i, ts, list, loaded, at, 3);
    lemma_built_holds(c, i, ts, list, loaded, at, 4);
    lemma_built_holds(c, i, ts, list, loaded, at, 8);
    lemma_built_holds(c, i, ts, list, loaded, at, 9);
    lemma_built_holds(c, i, ts, list, loaded, at, 10);
}

/// A layer from its tensors.
fn build_layer(
    c: &DflashConfig,
    i: usize,
    loaded: &Vec<Loaded>,
    at: usize,
    Ghost(ts): Ghost<Seq<crate::loading::StoredTensor>>,
    Ghost(list): Ghost<Seq<crate::names::Tensor<DflashWt>>>,
) -> (r: DflashLayerWeights)
    requires
        c.n_heads * c.head_dim <= usize::MAX,
        c.n_kv_heads * c.head_dim <= usize::MAX,
        layer_read(*c, i as nat, ts, list, loaded@, at as int),
    ensures
        r == built(loaded@, at as int),
        layer_shaped(r, *c),
{
    let total: usize = loaded.len();
    proof {
        lemma_layer_entry(*c, i as nat, 0);
        lemma_layer_told(*c, i as nat, ts, list, loaded@, at as int, 0);
        assert(at + layer_tensors(*c, i as nat).len() <= total);
        lemma_built_shape(*c, i as nat, ts, list, loaded@, at as int);
    }
    DflashLayerWeights {
        wq: loaded[at + 1].info,
        wk: loaded[at + 2].info,
        wv: loaded[at + 3].info,
        wo: loaded[at + 4].info,
        w_gate: loaded[at + 8].info,
        w_up: loaded[at + 9].info,
        w_down: loaded[at + 10].info,
    }
}

/// The layer of a place.
pub open spec fn layer_of(place: DflashWt) -> Option<usize> {
    match place {
        DflashWt::Layer(i, _) => Some(i),
        _ => None,
    }
}

/// Weights hold every tensor that was read in its own place: the projection of the
/// target's states and each matrix of a layer.
pub open spec fn assembled(c: DflashConfig, w: DflashWeights, loaded: Seq<Loaded>) -> bool {
    let list = all_tensors(c);
    &&& w.fc == loaded[0].info
    &&& w.layers@.len() == c.n_layers
    &&& w.has_mq == DflashWeights::uses_mq(w.fc, w.layers@)
    &&& forall|j: int|
        0 <= j < list.len() ==> (layer_of((#[trigger] list[j]).place) matches Some(i) ==> {
            &&& i < w.layers@.len()
            &&& holds(w.layers@[i as int], list[j], loaded[j]@)
        })
}

/// The model's weights out of a file, each tensor in its place, and what is sent to
/// the device for each entry of [`DflashWeights::load`]; or the first tensor that is
/// missing, of another size or of another storage type.
pub fn assemble(c: &DflashConfig, file: &crate::loading::TensorFile) -> (r: Result<
    (DflashWeights, Vec<Loaded>),
    crate::loading::LoadError,
>)
    requires
        c.n_heads * c.head_dim <= usize::MAX,
        c.n_kv_heads * c.head_dim <= usize::MAX,
        c.target_layer_ids@.len() * c.hidden <= usize::MAX,
    ensures
        match r {
            Ok((w, loaded)) => {
                &&& loaded@.len() == all_tensors(*c).len()
                &&& crate::loading::agrees(file.tensors@, all_tensors(*c), loaded@)
                &&& assembled(*c, w, loaded@)
                &&& w.shaped(*c)
            },
            Err(e) => crate::loading::first_fault(file.tensors@, all_tensors(*c), e),
        },
{
    let specs: Vec<TensorSpec<DflashWt>> = DflashWeights::load(c);
    let ghost list = all_tensors(*c);
    let ghost ts = file.tensors@;
    proof {
        lemma_pools_back(*c);
    }
    let loaded: Vec<Loaded> = match crate::loading::read_all(file, &specs) {
        Ok(v) => v,
        Err(e) => return Err(e),
    };
    proof {
        assert(list.len() >= 3);
        assert(crate::loading::told(ts, list, 0) == Ok::<
            crate::loading::Told,
            crate::loading::Fault,
        >(loaded@[0]@));
        crate::loading::lemma_told_size(ts, list, 0);
        assert(0 <= c.target_layer_ids@.len() * c.hidden) by (nonlinear_arith);
    }
    let total: usize = loaded.len();
    let fc: WeightInfo = loaded[0].info;
    let mut layers: Vec<DflashLayerWeights> = Vec::new();
    let mut at: usize = 3;
    let mut i: usize = 0;
    while i < c.n_layers
        invariant
            i <= c.n_layers,
            total == loaded@.len(),
            c.n_heads * c.head_dim <= usize::MAX,
            c.n_kv_heads * c.head_dim <= usize::MAX,
            list == all_tensors(*c),
            loaded@.len() == list.len(),
            crate::loading::agrees(ts, list, loaded@),
            at == 3 + layers_tensors(*c, i as nat).len(),
            layers@.len() == i,
            forall|x: int| 0 <= x < i ==> layer_shaped(#[trigger] layers@[x], *c),
            forall|x: int, k: int|
                0 <= x < i && 0 <= k < layer_tensors(*c, x as nat).len() ==> holds(
                    #[trigger] layers@[x],
                    #[trigger] layer_tensors(*c, x as nat)[k],
                    loaded@[3 + layers_tensors(*c, x as nat).len() + k]@,
                ),
        decreases c.n_layers - i,
    {
        proof {
            let part = layer_tensors(*c, i as nat);
            lemma_layer_entry(*c, i as nat, 0);
            lemma_layers_entry(*c, i as int, c.n_layers as nat, part.len() - 1);
            assert forall|k: int| 0 <= k < part.len() implies list[at + k] == #[trigger] part[k] by {
                lemma_layers_entry(*c, i as int, c.n_layers as nat, k);
            }
            assert(layer_read(*c, i as nat, ts, list, loaded@, at as int)) by {
                reveal(layer_read);
            }
            assert forall|k: int| 0 <= k < part.len() implies holds(
                built(loaded@, at as int),
                #[trigger] part[k],
                loaded@[at + k]@,
            ) by {
                lemma_built_holds(*c, i as nat, ts, list, loaded@, at as int, k);
            }
        }
        let layer: DflashLayerWeights = build_layer(c, i, &loaded, at, Ghost(ts), Ghost(list));
        layers.push(layer);
        at = at + 11;
        i = i + 1;
    }
    let w: DflashWeights = DflashWeights::new(fc, layers);
    proof {
        assert forall|j: int| 0 <= j < list.len() implies (layer_of(
            (#[trigger] list[j]).place,
        ) matches Some(x) ==> x < w.layers@.len() && holds(
            w.layers@[x as int],
            list[j],
            loaded@[j]@,
        )) by {
            if j >= 3 {
                let (x, k) = lemma_entry_layer(*c, c.n_layers as nat, j - 3);
                lemma_layers_entry(*c, x, c.n_layers as nat, k);
                lemma_layer_entry(*c, x as nat, k);
                assert(holds(
                    w.layers@[x],
                    layer_tensors(*c, x as nat)[k],
                    loaded@[3 + layers_tensors(*c, x as nat).len() + k]@,
                ));
            }
        }
    }
    Ok((w, loaded))
}

// Scratch buffers.

/// The activation buffers of one forward pass.
#[derive(Debug, Clone, Copy, PartialEq, Eq, Structural)]
pub enum DflashBuf {
    X,
    XNorm,
    Q,
    KNoise,
    VNoise,
    Gate,
    Up,
    GateUp,
    AttnOut,
    AttnProj,
    ResidualAttn,
    ResidualFfn,
    TargetHidden,
    TargetHiddenProj,
    KCtx,
    VCtx,
    KCat,
    VCat,
    PositionsQ,
    PositionsK,
    /// Inputs in the rotated basis.
    MqXRot,
}

/// The limits that a set of scratch buffers is made for.
#[derive(Debug, Clone, Copy)]
pub struct DflashScratch {
    pub max_block_size: usize,
    pub max_ctx_len: usize,
    /// There is a buffer for rotated inputs.
    pub with_mq: bool,
}

pub open spec fn max2(a: int, b: int) -> int {
    if a < b {
        b
    } else {
        a
    }
}

impl DflashConfig {
    pub open spec fn ne(self) -> int {
        self.target_layer_ids@.len() as int
    }

    pub open spec fn qd(self) -> int {
        self.n_heads * self.head_dim
    }

    pub open spec fn kvd(self) -> int {
        self.n_kv_heads * self.head_dim
    }

    /// The widest input that is ever rotated, in elements.
    pub open spec fn widest(self, b: int, l: int) -> int {
        max2(l * self.ne() * self.hidden, b * max2(self.intermediate as int, self.qd()))
    }

    /// Elements of each buffer, for a block of `b` and a context of `l`.
    pub open spec fn elems(self, b: int, l: int, buf: DflashBuf) -> int {
        let h = self.hidden as int;
        let inter = self.intermediate as int;
        match buf {
            DflashBuf::X => b * h,
            DflashBuf::XNorm => b * h,
            DflashBuf::Q => b * self.qd(),
            DflashBuf::KNoise => b * self.kvd(),
            DflashBuf::VNoise => b * self.kvd(),
            DflashBuf::Gate => b * inter,
            DflashBuf::Up => b * inter,
            DflashBuf::GateUp => b * inter,
            DflashBuf::AttnOut => b * self.qd(),
            DflashBuf::AttnProj => b * h,
            DflashBuf::ResidualAttn => b * h,
            DflashBuf::ResidualFfn => b * h,
            DflashBuf::TargetHidden => l * self.ne() * h,
            DflashBuf::TargetHiddenProj => l * h,
            DflashBuf::KCtx => l * self.kvd(),
            DflashBuf::VCtx => l * self.kvd(),
            DflashBuf::KCat => (l + b) * self.kvd(),
            DflashBuf::VCat => (l + b) * self.kvd(),
            DflashBuf::PositionsQ => b,
            DflashBuf::PositionsK => l + b,
            DflashBuf::MqXRot => self.widest(b, l),
        }
    }

    /// Every buffer's size in bytes can be addressed.
    pub open spec fn fits(self, b: int, l: int) -> bool {
        &&& 0 <= self.qd() <= usize::MAX && 0 <= self.kvd() <= usize::MAX
        &&& l + b <= usize::MAX
        &&& l * self.ne() <= usize::MAX
        &&& forall|buf: DflashBuf| 0 <= 4 * #[trigger] self.elems(b, l, buf) <= usize::MAX
    }
}

/// The buffers that every set has, in order.
pub open spec fn basic_bufs() -> Seq<DflashBuf> {
    seq![
        DflashBuf::X,
        DflashBuf::XNorm,
        DflashBuf::Q,
        DflashBuf::KNoise,
        DflashBuf::VNoise,
        DflashBuf::Gate,
        DflashBuf::Up,
        DflashBuf::GateUp,
        DflashBuf::AttnOut,
        DflashBuf::AttnProj,
        DflashBuf::ResidualAttn,
        DflashBuf::ResidualFfn,
        DflashBuf::TargetHidden,
        DflashBuf::TargetHiddenProj,
        DflashBuf::KCtx,
        DflashBuf::VCtx,
        DflashBuf::KCat,
        DflashBuf::VCat,
        DflashBuf::PositionsQ,
        DflashBuf::PositionsK,
    ]
}

fn basic_buf_list() -> (r: Vec<DflashBuf>)
    ensures
        r@ == basic_bufs(),
{
    vec![
        DflashBuf::X,
        DflashBuf::XNorm,
        DflashBuf::Q,
        DflashBuf::KNoise,
        DflashBuf::VNoise,
        DflashBuf::Gate,
        DflashBuf::Up,
        DflashBuf::GateUp,
        DflashBuf::AttnOut,
        DflashBuf::AttnProj,
        DflashBuf::ResidualAttn,
        DflashBuf::ResidualFfn,
        DflashBuf::TargetHidden,
        DflashBuf::TargetHiddenProj,
        DflashBuf::KCtx,
        DflashBuf::VCtx,
        DflashBuf::KCat,
        DflashBuf::VCat,
        DflashBuf::PositionsQ,
        DflashBuf::PositionsK,
    ]
}

/// The allocations of a set: the rotation buffer first, where there is one.
pub open spec fn alloc_ops(cfg: DflashConfig, s: DflashScratch) -> Seq<Op<DflashBuf, DflashWt>> {
    let b = s.max_block_size as int;
    let l = s.max_ctx_len as int;
    (if s.with_mq {
        seq![
            Op::Alloc {
                buf: DflashBuf::MqXRot,
                elems: cfg.elems(b, l, DflashBuf::MqXRot) as usize,
            },
        ]
    } else {
        Seq::empty()
    }) + Seq::new(
        basic_bufs().len(),
        |i: int|
            Op::Alloc {
                buf: basic_bufs()[i],
                elems: cfg.elems(b, l, basic_bufs()[i]) as usize,
            },
    )
}

/// The releases of a set: the rotation buffer last, where there is one.
pub open spec fn free_ops(s: DflashScratch) -> Seq<Op<DflashBuf, DflashWt>> {
    Seq::new(basic_bufs().len(), |i: int| Op::Free { buf: basic_bufs()[i] }) + (if s.with_mq {
        seq![Op::Free { buf: DflashBuf::MqXRot }]
    } else {
        Seq::empty()
    })
}

/// A set of buffers gives back exactly what it took.
pub proof fn law_scratch_is_returned(cfg: DflashConfig, s: DflashScratch, buf: DflashBuf)
    ensures
        (exists|i: int|
            #![trigger alloc_ops(cfg, s)[i]]
            0 <= i < alloc_ops(cfg, s).len() && (alloc_ops(cfg, s)[i] matches Op::Alloc {
                buf: b,
                ..
            } && b == buf)) <==> (exists|i: int|
            #![trigger free_ops(s)[i]]
            0 <= i < free_ops(s).len() && (free_ops(s)[i] matches Op::Free { buf: b } && b == buf)),
        alloc_ops(cfg, s).len() == free_ops(s).len(),
{
    let a = alloc_ops(cfg, s);
    let f = free_ops(s);
    let n = basic_bufs().len() as int;
    let d: int = if s.with_mq {
        1
    } else {
        0
    };
    if exists|i: int|
        #![trigger a[i]]
        0 <= i < a.len() && (a[i] matches Op::Alloc { buf: b, .. } && b == buf) {
        let i = choose|i: int|
            #![trigger a[i]]
            0 <= i < a.len() && (a[i] matches Op::Alloc { buf: b, .. } && b == buf);
        if i < d {
            assert(f[n] == Op::<DflashBuf, DflashWt>::Free { buf: DflashBuf::MqXRot });
        } else {
            assert(f[i - d] == Op::<DflashBuf, DflashWt>::Free { buf: basic_bufs()[i - d] });
        }
    }
    if exists|i: int|
        #![trigger f[i]]
        0 <= i < f.len() && (f[i] matches Op::Free { buf: b } && b == buf) {
        let i = choose|i: int|
            #![trigger f[i]]
            0 <= i < f.len() && (f[i] matches Op::Free { buf: b } && b == buf);
        if i < n {
            assert(a[i + d] == Op::<DflashBuf, DflashWt>::Alloc {
                buf: basic_bufs()[i],
                elems: cfg.elems(
                    s.max_block_size as int,
                    s.max_ctx_len as int,
                    basic_bufs()[i],
                ) as usize,
            });
        } else {
            assert(a[0] == Op::<DflashBuf, DflashWt>::Alloc {
                buf: DflashBuf::MqXRot,
                elems: cfg.elems(
                    s.max_block_size as int,
                    s.max_ctx_len as int,
                    DflashBuf::MqXRot,
                ) as usize,
            });
        }
    }
}

fn larger_of(a: usize, b: usize) -> (r: usize)
    ensures
        r == max2(a as int, b as int),
{
    if a < b {
        b
    } else {
        a
    }
}

impl DflashConfig {
    /// Elements of a buffer, for a block of `b` and a context of `l`.
    pub fn buf_elems(&self, b: usize, l: usize, buf: DflashBuf) -> (r: usize)
        requires
            self.fits(b as int, l as int),
        ensures
            r == self.elems(b as int, l as int, buf),
    {
        let h: usize = self.hidden;
        let inter: usize = self.intermediate;
        let ne: usize = self.num_extract();
        let qd: usize = self.q_dim();
        let kvd: usize = self.kv_dim();
        proof {
            assert(0 <= 4 * self.elems(b as int, l as int, buf) <= usize::MAX);
            assert(0 <= 4 * self.elems(b as int, l as int, DflashBuf::TargetHidden)
                <= usize::MAX);
            assert(0 <= 4 * self.elems(b as int, l as int, DflashBuf::MqXRot) <= usize::MAX);
        }
        match buf {
            DflashBuf::X => b * h,
            DflashBuf::XNorm => b * h,
            DflashBuf::Q => b * qd,
            DflashBuf::KNoise => b * kvd,
            DflashBuf::VNoise => b * kvd,
            DflashBuf::Gate => b * inter,
            DflashBuf::Up => b * inter,
            DflashBuf::GateUp => b * inter,
            DflashBuf::AttnOut => b * qd,
            DflashBuf::AttnProj => b * h,
            DflashBuf::ResidualAttn => b * h,
            DflashBuf::ResidualFfn => b * h,
            DflashBuf::TargetHidden => l * ne * h,
            DflashBuf::TargetHiddenProj => l * h,
            DflashBuf::KCtx => l * kvd,
            DflashBuf::VCtx => l * kvd,
            DflashBuf::KCat => (l + b) * kvd,
            DflashBuf::VCat => (l + b) * kvd,
            DflashBuf::PositionsQ => b,
            DflashBuf::PositionsK => l + b,
            DflashBuf::MqXRot => larger_of(l * ne * h, b * larger_of(inter, qd)),
        }
    }
}

impl DflashScratch {
    /// A set without a rotation buffer.
    pub fn new(cfg: &DflashConfig, max_block_size: usize, max_ctx_len: usize) -> (r: (
        Self,
        Vec<Op<DflashBuf, DflashWt>>,
    ))
        requires
            cfg.fits(max_block_size as int, max_ctx_len as int),
        ensures
            r.0 == (DflashScratch { max_block_size, max_ctx_len, with_mq: false }),
            r.1@ == alloc_ops(*cfg, r.0),
    {
        Self::new_with_mq(cfg, max_block_size, max_ctx_len, false)
    }

    /// The limits of a set of buffers, and the allocations that make it.
    pub fn new_with_mq(
        cfg: &DflashConfig,
        max_block_size: usize,
        max_ctx_len: usize,
        with_mq: bool,
    ) -> (r: (Self, Vec<Op<DflashBuf, DflashWt>>))
        requires
            cfg.fits(max_block_size as int, max_ctx_len as int),
        ensures
            r.0 == (DflashScratch { max_block_size, max_ctx_len, with_mq }),
            r.1@ == alloc_ops(*cfg, r.0),
    {
        let s: DflashScratch = DflashScratch { max_block_size, max_ctx_len, with_mq };
        let mut ops: Vec<Op<DflashBuf, DflashWt>> = Vec::new();
        if with_mq {
            ops.push(
                Op::Alloc {
                    buf: DflashBuf::MqXRot,
                    elems: cfg.buf_elems(max_block_size, max_ctx_len, DflashBuf::MqXRot),
                },
            );
        }
        let ghost head = ops@;
        let bufs: Vec<DflashBuf> = basic_buf_list();
        let ghost goal = alloc_ops(*cfg, s);
        let mut i: usize = 0;
        while i < bufs.len()
            invariant
                i <= bufs@.len(),
                bufs@ == basic_bufs(),
                cfg.fits(max_block_size as int, max_ctx_len as int),
                ops@ == head + Seq::new(
                    i as nat,
                    |k: int|
                        Op::Alloc {
                            buf: basic_bufs()[k],
                            elems: cfg.elems(
                                max_block_size as int,
                                max_ctx_len as int,
                                basic_bufs()[k],
                            ) as usize,
                        },
                ),
            decreases bufs@.len() - i,
        {
            let elems: usize = cfg.buf_elems(max_block_size, max_ctx_len, bufs[i]);
            ops.push(Op::Alloc { buf: bufs[i], elems });
            assert(ops@ =~= head + Seq::new(
                (i + 1) as nat,
                |k: int|
                    Op::Alloc {
                        buf: basic_bufs()[k],
                        elems: cfg.elems(
                            max_block_size as int,
                            max_ctx_len as int,
                            basic_bufs()[k],
                        ) as usize,
                    },
            ));
            i = i + 1;
        }
        assert(ops@ =~= goal);
        (s, ops)
    }

    /// The releases of a set.
    pub fn free_gpu(self) -> (ops: Vec<Op<DflashBuf, DflashWt>>)
        ensures
            ops@ == free_ops(self),
    {
        let bufs: Vec<DflashBuf> = basic_buf_list();
        let mut ops: Vec<Op<DflashBuf, DflashWt>> = Vec::new();
        let mut i: usize = 0;
        while i < bufs.len()
            invariant
                i <= bufs@.len(),
                bufs@ == basic_bufs(),
                ops@.len() == i,
                forall|k: int|
                    0 <= k < i ==> #[trigger] ops@[k] == (Op::<DflashBuf, DflashWt>::Free {
                        buf: basic_bufs()[k],
                    }),
            decreases bufs@.len() - i,
        {
            ops.push(Op::Free { buf: bufs[i] });
            i = i + 1;
        }
        if self.with_mq {
            ops.push(Op::Free { buf: DflashBuf::MqXRot });
        }
        assert(ops@ =~= free_ops(self));
        ops
    }
}

// Forward pass.

/// A matrix type that the draft model can multiply by.
pub open spec fn multipliable(dtype: DType) -> bool {
    dtype == DType::F32 || dtype == DType::HFQ4G256 || dtype == DType::MQ4G256
}

/// Some rows times a matrix; a rotated matrix takes rotated rows.
pub open spec fn gemm_ops(
    info: WeightInfo,
    x: DflashBuf,
    w: DflashWt,
    y: DflashBuf,
    rows: usize,
) -> Seq<Op<DflashBuf, DflashWt>> {
    if info.dtype == DType::F32 {
        seq![Op::GemmF32 { w, x, y, m: info.m, k: info.k, rows }]
    } else if info.dtype == DType::HFQ4G256 {
        seq![Op::GemmHfq4 { w, x, y, m: info.m, k: info.k, rows }]
    } else {
        seq![
            Op::Rotate { x, out: DflashBuf::MqXRot, k: info.k, rows },
            Op::GemmHfq4 { w, x: DflashBuf::MqXRot, y, m: info.m, k: info.k, rows },
        ]
    }
}

/// Some rows times a matrix, by the type of the matrix.
pub fn gemm_dispatch(
    info: WeightInfo,
    x: DflashBuf,
    w: DflashWt,
    y: DflashBuf,
    rows: usize,
) -> (ops: Vec<Op<DflashBuf, DflashWt>>)
    requires
        multipliable(info.dtype),
    ensures
        ops@ == gemm_ops(info, x, w, y, rows),
{
    if info.dtype == DType::F32 {
        vec![Op::GemmF32 { w, x, y, m: info.m, k: info.k, rows }]
    } else if info.dtype == DType::HFQ4G256 {
        vec![Op::GemmHfq4 { w, x, y, m: info.m, k: info.k, rows }]
    } else {
        vec![
            Op::Rotate { x, out: DflashBuf::MqXRot, k: info.k, rows },
            Op::GemmHfq4 { w, x: DflashBuf::MqXRot, y, m: info.m, k: info.k, rows },
        ]
    }
}

/// What the host hands over: the noise embedding and the target states, unless
/// they are on the device already, and the positions.
pub open spec fn upload_ops(
    cfg: DflashConfig,
    noise: bool,
    hidden: bool,
    b: int,
    l: int,
) -> Seq<Op<DflashBuf, DflashWt>> {
    (if noise {
        seq![Op::Upload { buf: DflashBuf::X, elems: cfg.elems(b, l, DflashBuf::X) as usize }]
    } else {
        Seq::empty()
    }) + (if hidden {
        seq![
            Op::Upload {
                buf: DflashBuf::TargetHidden,
                elems: cfg.elems(b, l, DflashBuf::TargetHidden) as usize,
            },
        ]
    } else {
        Seq::empty()
    }) + seq![
        Op::Upload { buf: DflashBuf::PositionsQ, elems: b as usize },
        Op::Upload { buf: DflashBuf::PositionsK, elems: (l + b) as usize },
    ]
}

/// Before the projections of layer `i`.
pub open spec fn attn_in_ops(cfg: DflashConfig, i: usize, b: int) -> Seq<Op<DflashBuf, DflashWt>> {
    seq![
        Op::Copy {
            dst: DflashBuf::ResidualAttn,
            dst_off: 0,
            src: DflashBuf::X,
            src_off: 0,
            bytes: (b * cfg.hidden * 4) as usize,
        },
        Op::RmsNormRows {
            x: DflashBuf::X,
            w: DflashWt::Layer(i, LayerPart::AttnNorm),
            out: DflashBuf::XNorm,
            rows: b as usize,
            n: cfg.hidden,
            eps: cfg.norm_eps,
        },
    ]
}

/// From projected queries, keys and values to attention: context and block side
/// by side, normed, rotated, attended.
pub open spec fn attn_core_ops(cfg: DflashConfig, i: usize, b: int, l: int) -> Seq<
    Op<DflashBuf, DflashWt>,
> {
    let ctx_bytes = (l * cfg.kvd() * 4) as usize;
    let noise_bytes = (b * cfg.kvd() * 4) as usize;
    seq![
        Op::Copy {
            dst: DflashBuf::KCat,
            dst_off: 0,
            src: DflashBuf::KCtx,
            src_off: 0,
            bytes: ctx_bytes,
        },
        Op::Copy {
            dst: DflashBuf::KCat,
            dst_off: ctx_bytes,
            src: DflashBuf::KNoise,
            src_off: 0,
            bytes: noise_bytes,
        },
        Op::Copy {
            dst: DflashBuf::VCat,
            dst_off: 0,
            src: DflashBuf::VCtx,
            src_off: 0,
            bytes: ctx_bytes,
        },
        Op::Copy {
            dst: DflashBuf::VCat,
            dst_off: ctx_bytes,
            src: DflashBuf::VNoise,
            src_off: 0,
            bytes: noise_bytes,
        },
        Op::RmsNormRows {
            x: DflashBuf::Q,
            w: DflashWt::Layer(i, LayerPart::QNorm),
            out: DflashBuf::Q,
            rows: (b * cfg.n_heads) as usize,
            n: cfg.head_dim,
            eps: cfg.norm_eps,
        },
        Op::RmsNormRows {
            x: DflashBuf::KCat,
            w: DflashWt::Layer(i, LayerPart::KNorm),
            out: DflashBuf::KCat,
            rows: ((l + b) * cfg.n_kv_heads) as usize,
            n: cfg.head_dim,
            eps: cfg.norm_eps,
        },
        Op::RopeRows {
            q: DflashBuf::Q,
            k: DflashBuf::KNoise,
            positions: DflashBuf::PositionsQ,
            q_heads: cfg.n_heads,
            k_heads: 0,
            dim: cfg.head_dim,
            theta: cfg.rope_theta,
            rows: b as usize,
        },
        Op::RopeRows {
            q: DflashBuf::Q,
            k: DflashBuf::KCat,
            positions: DflashBuf::PositionsK,
            q_heads: 0,
            k_heads: cfg.n_kv_heads,
            dim: cfg.head_dim,
            theta: cfg.rope_theta,
            rows: (l + b) as usize,
        },
        Op::CrossAttend {
            q: DflashBuf::Q,
            k: DflashBuf::KCat,
            v: DflashBuf::VCat,
            out: DflashBuf::AttnOut,
            rows: b as usize,
            keys: (l + b) as usize,
            heads: cfg.n_heads,
            kv_heads: cfg.n_kv_heads,
            dim: cfg.head_dim,
        },
    ]
}

/// From attention to the feed-forward part.
pub open spec fn ffn_in_ops(cfg: DflashConfig, i: usize, b: int) -> Seq<Op<DflashBuf, DflashWt>> {
    seq![
        Op::Add { a: DflashBuf::ResidualAttn, b: DflashBuf::AttnProj, out: DflashBuf::X },
        Op::Copy {
            dst: DflashBuf::ResidualFfn,
            dst_off: 0,
            src: DflashBuf::X,
            src_off: 0,
            bytes: (b * cfg.hidden * 4) as usize,
        },
        Op::RmsNormRows {
            x: DflashBuf::X,
            w: DflashWt::Layer(i, LayerPart::FfnNorm),
            out: DflashBuf::XNorm,
            rows: b as usize,
            n: cfg.hidden,
            eps: cfg.norm_eps,
        },
    ]
}

/// One layer.
pub open spec fn layer_ops(cfg: DflashConfig, w: DflashLayerWeights, i: usize, b: usize, l: usize) -> Seq<
    Op<DflashBuf, DflashWt>,
> {
    attn_in_ops(cfg, i, b as int) + gemm_ops(
        w.wq,
        DflashBuf::XNorm,
        DflashWt::Layer(i, LayerPart::Wq),
        DflashBuf::Q,
        b,
    ) + gemm_ops(
        w.wk,
        DflashBuf::XNorm,
        DflashWt::Layer(i, LayerPart::Wk),
        DflashBuf::KNoise,
        b,
    ) + gemm_ops(
        w.wv,
        DflashBuf::XNorm,
        DflashWt::Layer(i, LayerPart::Wv),
        DflashBuf::VNoise,
        b,
    ) + gemm_ops(
        w.wk,
        DflashBuf::TargetHiddenProj,
        DflashWt::Layer(i, LayerPart::Wk),
        DflashBuf::KCtx,
        l,
    ) + gemm_ops(
        w.wv,
        DflashBuf::TargetHiddenProj,
        DflashWt::Layer(i, LayerPart::Wv),
        DflashBuf::VCtx,
        l,
    ) + attn_core_ops(cfg, i, b as int, l as int) + gemm_ops(
        w.wo,
        DflashBuf::AttnOut,
        DflashWt::Layer(i, LayerPart::Wo),
        DflashBuf::AttnProj,
        b,
    ) + ffn_in_ops(cfg, i, b as int) + gemm_ops(
        w.w_gate,
        DflashBuf::XNorm,
        DflashWt::Layer(i, LayerPart::WGate),
        DflashBuf::Gate,
        b,
    ) + gemm_ops(
        w.w_up,
        DflashBuf::XNorm,
        DflashWt::Layer(i, LayerPart::WUp),
        DflashBuf::Up,
        b,
    ) + seq![Op::SiluMul { a: DflashBuf::Gate, b: DflashBuf::Up, out: DflashBuf::GateUp }]
        + gemm_ops(
        w.w_down,
        DflashBuf::GateUp,
        DflashWt::Layer(i, LayerPart::WDown),
        DflashBuf::X,
        b,
    ) + seq![Op::Add { a: DflashBuf::ResidualFfn, b: DflashBuf::X, out: DflashBuf::X }]
}

/// The first `n` layers.
pub open spec fn layers_ops(
    cfg: DflashConfig,
    layers: Seq<DflashLayerWeights>,
    n: nat,
    b: usize,
    l: usize,
) -> Seq<Op<DflashBuf, DflashWt>>
    decreases n,
{
    if n == 0 {
        Seq::empty()
    } else {
        layers_ops(cfg, layers, (n - 1) as nat, b, l) + layer_ops(
            cfg,
            layers[n - 1],
            (n - 1) as usize,
            b,
            l,
        )
    }
}

/// A whole forward pass over a block of `b` with a context of `l`.
pub open spec fn forward_ops(
    cfg: DflashConfig,
    weights: DflashWeights,
    noise: bool,
    hidden: bool,
    b: usize,
    l: usize,
) -> Seq<Op<DflashBuf, DflashWt>> {
    upload_ops(cfg, noise, hidden, b as int, l as int) + gemm_ops(
        weights.fc,
        DflashBuf::TargetHidden,
        DflashWt::Fc,
        DflashBuf::TargetHiddenProj,
        l,
    ) + seq![
        Op::RmsNormRows {
            x: DflashBuf::TargetHiddenProj,
            w: DflashWt::HiddenNorm,
            out: DflashBuf::TargetHiddenProj,
            rows: l,
            n: cfg.hidden,
            eps: cfg.norm_eps,
        },
    ] + layers_ops(cfg, weights.layers@, cfg.n_layers as nat, b, l) + seq![
        Op::RmsNormRows {
            x: DflashBuf::X,
            w: DflashWt::Norm,
            out: DflashBuf::X,
            rows: b,
            n: cfg.hidden,
            eps: cfg.norm_eps,
        },
    ]
}

/// Every matrix of a layer can be multiplied by.
pub open spec fn layer_multipliable(w: DflashLayerWeights) -> bool {
    &&& multipliable(w.wq.dtype)
    &&& multipliable(w.wk.dtype)
    &&& multipliable(w.wv.dtype)
    &&& multipliable(w.wo.dtype)
    &&& multipliable(w.w_gate.dtype)
    &&& multipliable(w.w_up.dtype)
    &&& multipliable(w.w_down.dtype)
}

impl DflashWeights {
    pub open spec fn usable(self, cfg: DflashConfig) -> bool {
        &&& multipliable(self.fc.dtype)
        &&& self.layers@.len() >= cfg.n_layers
        &&& forall|i: int|
            0 <= i < cfg.n_layers ==> layer_multipliable(#[trigger] self.layers@[i])
        &&& self.has_mq == Self::uses_mq(self.fc, self.layers@)
    }
}

fn attn_in(cfg: &DflashConfig, i: usize, b: usize) -> (ops: Vec<Op<DflashBuf, DflashWt>>)
    requires
        b * cfg.hidden * 4 <= usize::MAX,
    ensures
        ops@ == attn_in_ops(*cfg, i, b as int),
{
    vec![
        Op::Copy {
            dst: DflashBuf::ResidualAttn,
            dst_off: 0,
            src: DflashBuf::X,
            src_off: 0,
            bytes: b * cfg.hidden * 4,
        },
        Op::RmsNormRows {
            x: DflashBuf::X,
            w: DflashWt::Layer(i, LayerPart::AttnNorm),
            out: DflashBuf::XNorm,
            rows: b,
            n: cfg.hidden,
            eps: cfg.norm_eps,
        },
    ]
}

fn attn_core(cfg: &DflashConfig, i: usize, b: usize, l: usize) -> (ops: Vec<
    Op<DflashBuf, DflashWt>,
>)
    requires
        cfg.kvd() <= usize::MAX,
        l + b <= usize::MAX,
        l * cfg.kvd() * 4 <= usize::MAX,
        b * cfg.kvd() * 4 <= usize::MAX,
        b * cfg.n_heads <= usize::MAX,
        (l + b) * cfg.n_kv_heads <= usize::MAX,
    ensures
        ops@ == attn_core_ops(*cfg, i, b as int, l as int),
{
    let kvd: usize = cfg.kv_dim();
    let tot: usize = l + b;
    proof {
        let k = kvd as int;
        assert(0 <= l * k && 0 <= b * k) by (nonlinear_arith)
            requires
                l >= 0,
                b >= 0,
                k >= 0,
        ;
    }
    let ctx_bytes: usize = l * kvd * 4;
    let noise_bytes: usize = b * kvd * 4;
    vec![
        Op::Copy {
            dst: DflashBuf::KCat,
            dst_off: 0,
            src: DflashBuf::KCtx,
            src_off: 0,
            bytes: ctx_bytes,
        },
        Op::Copy {
            dst: DflashBuf::KCat,
            dst_off: ctx_bytes,
            src: DflashBuf::KNoise,
            src_off: 0,
            bytes: noise_bytes,
        },
        Op::Copy {
            dst: DflashBuf::VCat,
            dst_off: 0,
            src: DflashBuf::VCtx,
            src_off: 0,
            bytes: ctx_bytes,
        },
        Op::Copy {
            dst: DflashBuf::VCat,
            dst_off: ctx_bytes,
            src: DflashBuf::VNoise,
            src_off: 0,
            bytes: noise_bytes,
        },
        Op::RmsNormRows {
            x: DflashBuf::Q,
            w: DflashWt::Layer(i, LayerPart::QNorm),
            out: DflashBuf::Q,
            rows: b * cfg.n_heads,
            n: cfg.head_dim,
            eps: cfg.norm_eps,
        },
        Op::RmsNormRows {
            x: DflashBuf::KCat,
            w: DflashWt::Layer(i, LayerPart::KNorm),
            out: DflashBuf::KCat,
            rows: tot * cfg.n_kv_heads,
            n: cfg.head_dim,
            eps: cfg.norm_eps,
        },
        Op::RopeRows {
            q: DflashBuf::Q,
            k: DflashBuf::KNoise,
            positions: DflashBuf::PositionsQ,
            q_heads: cfg.n_heads,
            k_heads: 0,
            dim: cfg.head_dim,
            theta: cfg.rope_theta,
            rows: b,
        },
        Op::RopeRows {
            q: DflashBuf::Q,
            k: DflashBuf::KCat,
            positions: DflashBuf::PositionsK,
            q_heads: 0,
            k_heads: cfg.n_kv_heads,
            dim: cfg.head_dim,
            theta: cfg.rope_theta,
            rows: tot,
        },
        Op::CrossAttend {
            q: DflashBuf::Q,
            k: DflashBuf::KCat,
            v: DflashBuf::VCat,
            out: DflashBuf::AttnOut,
            rows: b,
            keys: tot,
            heads: cfg.n_heads,
            kv_heads: cfg.n_kv_heads,
            dim: cfg.head_dim,
        },
    ]
}

fn ffn_in(cfg: &DflashConfig, i: usize, b: usize) -> (ops: Vec<Op<DflashBuf, DflashWt>>)
    requires
        b * cfg.hidden * 4 <= usize::MAX,
    ensures
        ops@ == ffn_in_ops(*cfg, i, b as int),
{
    vec![
        Op::Add { a: DflashBuf::ResidualAttn, b: DflashBuf::AttnProj, out: DflashBuf::X },
        Op::Copy {
            dst: DflashBuf::ResidualFfn,
            dst_off: 0,
            src: DflashBuf::X,
            src_off: 0,
            bytes: b * cfg.hidden * 4,
        },
        Op::RmsNormRows {
            x: DflashBuf::X,
            w: DflashWt::Layer(i, LayerPart::FfnNorm),
            out: DflashBuf::XNorm,
            rows: b,
            n: cfg.hidden,
            eps: cfg.norm_eps,
        },
    ]
}

fn layer(cfg: &DflashConfig, w: &DflashLayerWeights, i: usize, b: usize, l: usize) -> (ops: Vec<
    Op<DflashBuf, DflashWt>,
>)
    requires
        layer_multipliable(*w),
        b * cfg.hidden * 4 <= usize::MAX,
        cfg.kvd() <= usize::MAX,
        l + b <= usize::MAX,
        l * cfg.kvd() * 4 <= usize::MAX,
        b * cfg.kvd() * 4 <= usize::MAX,
        b * cfg.n_heads <= usize::MAX,
        (l + b) * cfg.n_kv_heads <= usize::MAX,
    ensures
        ops@ == layer_ops(*cfg, *w, i, b, l),
{
    let mut ops: Vec<Op<DflashBuf, DflashWt>> = attn_in(cfg, i, b);
    let x: DflashBuf = DflashBuf::XNorm;
    let t: DflashBuf = DflashBuf::TargetHiddenProj;
    let wk: DflashWt = DflashWt::Layer(i, LayerPart::Wk);
    let wv: DflashWt = DflashWt::Layer(i, LayerPart::Wv);
    extend(
        &mut ops,
        gemm_dispatch(w.wq, x, DflashWt::Layer(i, LayerPart::Wq), DflashBuf::Q, b),
    );
    extend(&mut ops, gemm_dispatch(w.wk, x, wk, DflashBuf::KNoise, b));
    extend(&mut ops, gemm_dispatch(w.wv, x, wv, DflashBuf::VNoise, b));
    extend(&mut ops, gemm_dispatch(w.wk, t, wk, DflashBuf::KCtx, l));
    extend(&mut ops, gemm_dispatch(w.wv, t, wv, DflashBuf::VCtx, l));
    extend(&mut ops, attn_core(cfg, i, b, l));
    extend(
        &mut ops,
        gemm_dispatch(
            w.wo,
            DflashBuf::AttnOut,
            DflashWt::Layer(i, LayerPart::Wo),
            DflashBuf::AttnProj,
            b,
        ),
    );
    extend(&mut ops, ffn_in(cfg, i, b));
    extend(
        &mut ops,
        gemm_dispatch(w.w_gate, x, DflashWt::Layer(i, LayerPart::WGate), DflashBuf::Gate, b),
    );
    extend(
        &mut ops,
        gemm_dispatch(w.w_up, x, DflashWt::Layer(i, LayerPart::WUp), DflashBuf::Up, b),
    );
    extend(
        &mut ops,
        vec![Op::SiluMul { a: DflashBuf::Gate, b: DflashBuf::Up, out: DflashBuf::GateUp }],
    );
    extend(
        &mut ops,
        gemm_dispatch(
            w.w_down,
            DflashBuf::GateUp,
            DflashWt::Layer(i, LayerPart::WDown),
            DflashBuf::X,
            b,
        ),
    );
    extend(
        &mut ops,
        vec![Op::Add { a: DflashBuf::ResidualFfn, b: DflashBuf::X, out: DflashBuf::X }],
    );
    ops
}

/// One forward pass of the draft over `block_size` positions with `ctx_len`
/// context rows. `noise` and `hidden` tell whether the host hands over the block
/// embeddings and the target states. The result is left in the buffer `X`.
pub fn draft_forward(
    cfg: &DflashConfig,
    weights: &DflashWeights,
    noise: bool,
    hidden: bool,
    block_size: usize,
    ctx_len: usize,
    scratch: &DflashScratch,
) -> (ops: Vec<Op<DflashBuf, DflashWt>>)
    requires
        weights.usable(*cfg),
        weights.has_mq ==> scratch.with_mq,
        block_size <= scratch.max_block_size,
        ctx_len <= scratch.max_ctx_len,
        cfg.fits(block_size as int, ctx_len as int),
        block_size * cfg.n_heads <= usize::MAX,
        (ctx_len + block_size) * cfg.n_kv_heads <= usize::MAX,
    ensures
        ops@ == forward_ops(*cfg, *weights, noise, hidden, block_size, ctx_len),
{
    let b: usize = block_size;
    let l: usize = ctx_len;
    proof {
        assert(4 * cfg.elems(b as int, l as int, DflashBuf::X) <= usize::MAX);
        assert(4 * cfg.elems(b as int, l as int, DflashBuf::KNoise) <= usize::MAX);
        assert(4 * cfg.elems(b as int, l as int, DflashBuf::KCtx) <= usize::MAX);
    }
    let mut ops: Vec<Op<DflashBuf, DflashWt>> = Vec::new();
    if noise {
        ops.push(Op::Upload { buf: DflashBuf::X, elems: cfg.buf_elems(b, l, DflashBuf::X) });
    }
    if hidden {
        ops.push(
            Op::Upload {
                buf: DflashBuf::TargetHidden,
                elems: cfg.buf_elems(b, l, DflashBuf::TargetHidden),
            },
        );
    }
    ops.push(Op::Upload { buf: DflashBuf::PositionsQ, elems: b });
    ops.push(Op::Upload { buf: DflashBuf::PositionsK, elems: l + b });
    assert(ops@ =~= upload_ops(*cfg, noise, hidden, b as int, l as int));
    extend(
        &mut ops,
        gemm_dispatch(
            weights.fc,
            DflashBuf::TargetHidden,
            DflashWt::Fc,
            DflashBuf::TargetHiddenProj,
            l,
        ),
    );
    extend(
        &mut ops,
        vec![
            Op::RmsNormRows {
                x: DflashBuf::TargetHiddenProj,
                w: DflashWt::HiddenNorm,
                out: DflashBuf::TargetHiddenProj,
                rows: l,
                n: cfg.hidden,
                eps: cfg.norm_eps,
            },
        ],
    );
    let ghost head = ops@;
    assert(head + layers_ops(*cfg, weights.layers@, 0, b, l) =~= head);
    let mut i: usize = 0;
    while i < cfg.n_layers
        invariant
            i <= cfg.n_layers,
            weights.usable(*cfg),
            b * cfg.hidden * 4 <= usize::MAX,
            cfg.kvd() <= usize::MAX,
            l + b <= usize::MAX,
            l * cfg.kvd() * 4 <= usize::MAX,
            b * cfg.kvd() * 4 <= usize::MAX,
            b * cfg.n_heads <= usize::MAX,
            (l + b) * cfg.n_kv_heads <= usize::MAX,
            ops@ == head + layers_ops(*cfg, weights.layers@, i as nat, b, l),
        decreases cfg.n_layers - i,
    {
        let ghost before = ops@;
        extend(&mut ops, layer(cfg, &weights.layers[i], i, b, l));
        assert(ops@ =~= head + layers_ops(*cfg, weights.layers@, (i + 1) as nat, b, l));
        i = i + 1;
    }
    extend(
        &mut ops,
        vec![
            Op::RmsNormRows {
                x: DflashBuf::X,
                w: DflashWt::Norm,
                out: DflashBuf::X,
                rows: b,
                n: cfg.hidden,
                eps: cfg.norm_eps,
            },
        ],
    );
    ops
}

// Where a forward pass reads and writes.

impl DflashWeights {
    /// The matrices have the sizes that they are loaded with.
    pub open spec fn shaped(self, cfg: DflashConfig) -> bool {
        &&& self.fc.m == cfg.hidden && self.fc.k == cfg.ne() * cfg.hidden
        &&& self.layers@.len() >= cfg.n_layers
        &&& forall|i: int|
            0 <= i < self.layers@.len() ==> layer_shaped(#[trigger] self.layers@[i], cfg)
    }
}

pub open spec fn layer_shaped(w: DflashLayerWeights, cfg: DflashConfig) -> bool {
    &&& w.wq.m == cfg.qd() && w.wq.k == cfg.hidden
    &&& w.wk.m == cfg.kvd() && w.wk.k == cfg.hidden
    &&& w.wv.m == cfg.kvd() && w.wv.k == cfg.hidden
    &&& w.wo.m == cfg.hidden && w.wo.k == cfg.qd()
    &&& w.w_gate.m == cfg.intermediate && w.w_gate.k == cfg.hidden
    &&& w.w_up.m == cfg.intermediate && w.w_up.k == cfg.hidden
    &&& w.w_down.m == cfg.hidden && w.w_down.k == cfg.intermediate
}

/// Bytes of each buffer of a set.
pub open spec fn buf_bytes(cfg: DflashConfig, s: DflashScratch) -> spec_fn(DflashBuf) -> int {
    |buf: DflashBuf| 4 * cfg.elems(s.max_block_size as int, s.max_ctx_len as int, buf)
}

proof fn lemma_scaled(a: int, b: int, c: int)
    requires
        0 <= a <= b,
        0 <= c,
    ensures
        0 <= a * c <= b * c,
{
    assert(0 <= a * c <= b * c) by (nonlinear_arith)
        requires
            0 <= a <= b,
            0 <= c,
    ;
}

/// A larger set has no smaller buffer.
proof fn lemma_elems_monotone(cfg: DflashConfig, b: int, l: int, b2: int, l2: int, buf: DflashBuf)
    requires
        0 <= b <= b2,
        0 <= l <= l2,
    ensures
        0 <= cfg.elems(b, l, buf) <= cfg.elems(b2, l2, buf),
{
    let inter = cfg.intermediate as int;
    lemma_scaled(0, cfg.n_heads as int, cfg.head_dim as int);
    lemma_scaled(0, cfg.n_kv_heads as int, cfg.head_dim as int);
    lemma_scaled(b, b2, cfg.hidden as int);
    lemma_scaled(l, l2, cfg.hidden as int);
    lemma_scaled(b, b2, inter);
    lemma_scaled(b, b2, cfg.qd());
    lemma_scaled(b, b2, cfg.kvd());
    lemma_scaled(l, l2, cfg.kvd());
    lemma_scaled(l + b, l2 + b2, cfg.kvd());
    lemma_scaled(l, l2, cfg.ne());
    lemma_scaled(l * cfg.ne(), l2 * cfg.ne(), cfg.hidden as int);
    lemma_scaled(b, b2, max2(inter, cfg.qd()));
}

#[verifier::rlimit(40)]
proof fn lemma_gemm_bounds(
    info: WeightInfo,
    x: DflashBuf,
    w: DflashWt,
    y: DflashBuf,
    rows: usize,
    size: spec_fn(DflashBuf) -> int,
)
    requires
        4 * (info.k * rows) <= size(x),
        4 * (info.m * rows) <= size(y),
        info.dtype == DType::MQ4G256 ==> 4 * (info.k * rows) <= size(DflashBuf::MqXRot),
        multipliable(info.dtype),
    ensures
        crate::device::all_in_bounds(gemm_ops(info, x, w, y, rows), size),
{
    reveal(crate::device::all_in_bounds);
}

/// What the widths of the draft model say about the rotation buffer: it holds
/// whatever is rotated.
pub open spec fn rotation_fits(cfg: DflashConfig) -> bool {
    cfg.ne() >= 1 && cfg.hidden <= max2(cfg.intermediate as int, cfg.qd())
}

#[verifier::rlimit(40)]
proof fn lemma_layer_bounds(
    cfg: DflashConfig,
    w: DflashLayerWeights,
    i: usize,
    s: DflashScratch,
    b: usize,
    l: usize,
)
    requires
        cfg.fits(s.max_block_size as int, s.max_ctx_len as int),
        layer_multipliable(w),
        layer_shaped(w, cfg),
        rotation_fits(cfg) || !w.has_mq(),
        b <= s.max_block_size,
        l <= s.max_ctx_len,
        b * cfg.n_heads <= usize::MAX,
        (l + b) * cfg.n_kv_heads <= usize::MAX,
    ensures
        crate::device::all_in_bounds(layer_ops(cfg, w, i, b, l), buf_bytes(cfg, s)),
{
    let size = buf_bytes(cfg, s);
    let bm = s.max_block_size as int;
    let lm = s.max_ctx_len as int;
    assert forall|buf: DflashBuf|
        0 <= 4 * #[trigger] cfg.elems(b as int, l as int, buf) <= size(buf) && size(buf)
            <= usize::MAX by {
        lemma_elems_monotone(cfg, b as int, l as int, bm, lm, buf);
        assert(4 * cfg.elems(bm, lm, buf) <= usize::MAX);
    }
    let h = cfg.hidden as int;
    let inter = cfg.intermediate as int;
    let qd = cfg.qd();
    let kvd = cfg.kvd();
    let bi = b as int;
    let li = l as int;
    lemma_scaled(0, cfg.n_heads as int, cfg.head_dim as int);
    lemma_scaled(0, cfg.n_kv_heads as int, cfg.head_dim as int);
    assert(h * bi == bi * h && qd * bi == bi * qd && kvd * bi == bi * kvd && inter * bi == bi
        * inter && h * li == li * h && kvd * li == li * kvd) by (nonlinear_arith);
    assert(cfg.elems(bi, li, DflashBuf::X) == bi * h);
    assert(cfg.elems(bi, li, DflashBuf::XNorm) == bi * h);
    assert(cfg.elems(bi, li, DflashBuf::Q) == bi * qd);
    assert(cfg.elems(bi, li, DflashBuf::AttnOut) == bi * qd);
    assert(cfg.elems(bi, li, DflashBuf::AttnProj) == bi * h);
    assert(cfg.elems(bi, li, DflashBuf::ResidualAttn) == bi * h);
    assert(cfg.elems(bi, li, DflashBuf::ResidualFfn) == bi * h);
    assert(cfg.elems(bi, li, DflashBuf::KNoise) == bi * kvd);
    assert(cfg.elems(bi, li, DflashBuf::VNoise) == bi * kvd);
    assert(cfg.elems(bi, li, DflashBuf::KCtx) == li * kvd);
    assert(cfg.elems(bi, li, DflashBuf::VCtx) == li * kvd);
    assert(cfg.elems(bi, li, DflashBuf::KCat) == (li + bi) * kvd);
    assert(cfg.elems(bi, li, DflashBuf::VCat) == (li + bi) * kvd);
    assert(cfg.elems(bi, li, DflashBuf::Gate) == bi * inter);
    assert(cfg.elems(bi, li, DflashBuf::Up) == bi * inter);
    assert(cfg.elems(bi, li, DflashBuf::GateUp) == bi * inter);
    assert(cfg.elems(bi, li, DflashBuf::TargetHiddenProj) == li * h);
    assert(cfg.elems(bi, li, DflashBuf::MqXRot) == cfg.widest(bi, li));
    assert(cfg.elems(bi, li, DflashBuf::PositionsQ) == bi);
    assert(cfg.elems(bi, li, DflashBuf::PositionsK) == li + bi);
    lemma_scaled(inter, max2(inter, qd), bi);
    lemma_scaled(qd, max2(inter, qd), bi);
    assert(max2(inter, qd) * bi == bi * max2(inter, qd)) by (nonlinear_arith);
    if rotation_fits(cfg) {
        lemma_scaled(h, max2(inter, qd), bi);
        assert(li * h <= li * cfg.ne() * h) by (nonlinear_arith)
            requires
                li >= 0,
                h >= 0,
                cfg.ne() >= 1,
        ;
    }
    assert((li + bi) * kvd == li * kvd + bi * kvd) by (nonlinear_arith);
    assert(bi * cfg.n_heads * cfg.head_dim == bi * qd) by (nonlinear_arith)
        requires
            qd == cfg.n_heads * cfg.head_dim,
    ;
    assert((li + bi) * cfg.n_kv_heads * cfg.head_dim == (li + bi) * kvd) by (nonlinear_arith)
        requires
            kvd == cfg.n_kv_heads * cfg.head_dim,
    ;
    assert(bi * 0 * cfg.head_dim == 0 && (li + bi) * 0 * cfg.head_dim == 0) by (nonlinear_arith);
    let attn = DflashBuf::XNorm;
    let ctx = DflashBuf::TargetHiddenProj;
    let wk = DflashWt::Layer(i, LayerPart::Wk);
    let wv = DflashWt::Layer(i, LayerPart::Wv);
    let a0 = attn_in_ops(cfg, i, bi);
    assert(crate::device::all_in_bounds(a0, size)) by {
        reveal(crate::device::all_in_bounds);
    }
    let a1 = gemm_ops(w.wq, attn, DflashWt::Layer(i, LayerPart::Wq), DflashBuf::Q, b);
    lemma_gemm_bounds(w.wq, attn, DflashWt::Layer(i, LayerPart::Wq), DflashBuf::Q, b, size);
    let a2 = gemm_ops(w.wk, attn, wk, DflashBuf::KNoise, b);
    lemma_gemm_bounds(w.wk, attn, wk, DflashBuf::KNoise, b, size);
    let a3 = gemm_ops(w.wv, attn, wv, DflashBuf::VNoise, b);
    lemma_gemm_bounds(w.wv, attn, wv, DflashBuf::VNoise, b, size);
    let a4 = gemm_ops(w.wk, ctx, wk, DflashBuf::KCtx, l);
    lemma_gemm_bounds(w.wk, ctx, wk, DflashBuf::KCtx, l, size);
    let a5 = gemm_ops(w.wv, ctx, wv, DflashBuf::VCtx, l);
    lemma_gemm_bounds(w.wv, ctx, wv, DflashBuf::VCtx, l, size);
    let a6 = attn_core_ops(cfg, i, bi, li);
    lemma_scaled(0, bi, cfg.n_heads as int);
    lemma_scaled(0, li + bi, cfg.n_kv_heads as int);
    assert(crate::device::all_in_bounds(a6, size)) by {
        reveal(crate::device::all_in_bounds);
    }
    let wo = DflashWt::Layer(i, LayerPart::Wo);
    let a7 = gemm_ops(w.wo, DflashBuf::AttnOut, wo, DflashBuf::AttnProj, b);
    lemma_gemm_bounds(w.wo, DflashBuf::AttnOut, wo, DflashBuf::AttnProj, b, size);
    let a8 = ffn_in_ops(cfg, i, bi);
    assert(crate::device::all_in_bounds(a8, size)) by {
        reveal(crate::device::all_in_bounds);
    }
    let wg = DflashWt::Layer(i, LayerPart::WGate);
    let a9 = gemm_ops(w.w_gate, attn, wg, DflashBuf::Gate, b);
    lemma_gemm_bounds(w.w_gate, attn, wg, DflashBuf::Gate, b, size);
    let wu = DflashWt::Layer(i, LayerPart::WUp);
    let a10 = gemm_ops(w.w_up, attn, wu, DflashBuf::Up, b);
    lemma_gemm_bounds(w.w_up, attn, wu, DflashBuf::Up, b, size);
    let a11: Seq<Op<DflashBuf, DflashWt>> = seq![
        Op::SiluMul { a: DflashBuf::Gate, b: DflashBuf::Up, out: DflashBuf::GateUp },
    ];
    let wd = DflashWt::Layer(i, LayerPart::WDown);
    let a12 = gemm_ops(w.w_down, DflashBuf::GateUp, wd, DflashBuf::X, b);
    lemma_gemm_bounds(w.w_down, DflashBuf::GateUp, wd, DflashBuf::X, b, size);
    let a13: Seq<Op<DflashBuf, DflashWt>> = seq![
        Op::Add { a: DflashBuf::ResidualFfn, b: DflashBuf::X, out: DflashBuf::X },
    ];
    assert(crate::device::all_in_bounds(a11, size) && crate::device::all_in_bounds(a13, size)) by {
        reveal(crate::device::all_in_bounds);
    }
    crate::device::lemma_bounds_concat(a0, a1, size);
    crate::device::lemma_bounds_concat(a0 + a1, a2, size);
    crate::device::lemma_bounds_concat(a0 + a1 + a2, a3, size);
    let p3 = a0 + a1 + a2 + a3;
    crate::device::lemma_bounds_concat(p3, a4, size);
    crate::device::lemma_bounds_concat(p3 + a4, a5, size);
    crate::device::lemma_bounds_concat(p3 + a4 + a5, a6, size);
    let p6 = p3 + a4 + a5 + a6;
    crate::device::lemma_bounds_concat(p6, a7, size);
    crate::device::lemma_bounds_concat(p6 + a7, a8, size);
    crate::device::lemma_bounds_concat(p6 + a7 + a8, a9, size);
    let p9 = p6 + a7 + a8 + a9;
    crate::device::lemma_bounds_concat(p9, a10, size);
    crate::device::lemma_bounds_concat(p9 + a10, a11, size);
    crate::device::lemma_bounds_concat(p9 + a10 + a11, a12, size);
    crate::device::lemma_bounds_concat(p9 + a10 + a11 + a12, a13, size);
}

#[verifier::rlimit(40)]
proof fn lemma_layers_bounds(
    cfg: DflashConfig,
    weights: DflashWeights,
    n: nat,
    s: DflashScratch,
    b: usize,
    l: usize,
)
    requires
        n <= cfg.n_layers,
        cfg.fits(s.max_block_size as int, s.max_ctx_len as int),
        weights.usable(cfg),
        weights.shaped(cfg),
        rotation_fits(cfg) || !weights.has_mq,
        b <= s.max_block_size,
        l <= s.max_ctx_len,
        b * cfg.n_heads <= usize::MAX,
        (l + b) * cfg.n_kv_heads <= usize::MAX,
    ensures
        crate::device::all_in_bounds(
            layers_ops(cfg, weights.layers@, n, b, l),
            buf_bytes(cfg, s),
        ),
    decreases n,
{
    crate::device::lemma_bounds_empty::<DflashBuf, DflashWt>(buf_bytes(cfg, s));
    if n > 0 {
        let i = n - 1;
        lemma_layers_bounds(cfg, weights, i as nat, s, b, l);
        let w = weights.layers@[i];
        assert(layer_shaped(w, cfg) && layer_multipliable(w));
        assert(w.has_mq() ==> weights.has_mq);
        lemma_layer_bounds(cfg, w, i as usize, s, b, l);
        crate::device::lemma_bounds_concat(
            layers_ops(cfg, weights.layers@, i as nat, b, l),
            layer_ops(cfg, w, i as usize, b, l),
            buf_bytes(cfg, s),
        );
    }
}

/// A forward pass within the limits of its scratch buffers reads and writes
/// inside them.
pub proof fn law_forward_stays_in_bounds(
    cfg: DflashConfig,
    weights: DflashWeights,
    s: DflashScratch,
    noise: bool,
    hidden: bool,
    b: usize,
    l: usize,
)
    requires
        cfg.fits(s.max_block_size as int, s.max_ctx_len as int),
        weights.usable(cfg),
        weights.shaped(cfg),
        rotation_fits(cfg) || !weights.has_mq,
        b <= s.max_block_size,
        l <= s.max_ctx_len,
        b * cfg.n_heads <= usize::MAX,
        (l + b) * cfg.n_kv_heads <= usize::MAX,
    ensures
        crate::device::all_in_bounds(
            forward_ops(cfg, weights, noise, hidden, b, l),
            buf_bytes(cfg, s),
        ),
{
    let size = buf_bytes(cfg, s);
    let bm = s.max_block_size as int;
    let lm = s.max_ctx_len as int;
    let bi = b as int;
    let li = l as int;
    assert forall|buf: DflashBuf|
        0 <= 4 * #[trigger] cfg.elems(bi, li, buf) <= size(buf) && size(buf) <= usize::MAX by {
        lemma_elems_monotone(cfg, bi, li, bm, lm, buf);
        assert(4 * cfg.elems(bm, lm, buf) <= usize::MAX);
    }
    let h = cfg.hidden as int;
    assert(cfg.elems(bi, li, DflashBuf::X) == bi * h);
    assert(cfg.elems(bi, li, DflashBuf::TargetHidden) == li * cfg.ne() * h);
    assert(cfg.elems(bi, li, DflashBuf::TargetHiddenProj) == li * h);
    assert(cfg.elems(bi, li, DflashBuf::PositionsQ) == bi);
    assert(cfg.elems(bi, li, DflashBuf::PositionsK) == li + bi);
    assert(cfg.elems(bi, li, DflashBuf::MqXRot) == cfg.widest(bi, li));
    assert((cfg.ne() * h) * li == li * cfg.ne() * h && h * li == li * h) by (nonlinear_arith);
    let up = upload_ops(cfg, noise, hidden, bi, li);
    assert(crate::device::all_in_bounds(up, size)) by {
        reveal(crate::device::all_in_bounds);
    }
    let fc = gemm_ops(
        weights.fc,
        DflashBuf::TargetHidden,
        DflashWt::Fc,
        DflashBuf::TargetHiddenProj,
        l,
    );
    lemma_gemm_bounds(
        weights.fc,
        DflashBuf::TargetHidden,
        DflashWt::Fc,
        DflashBuf::TargetHiddenProj,
        l,
        size,
    );
    let norm: Seq<Op<DflashBuf, DflashWt>> = seq![
        Op::RmsNormRows {
            x: DflashBuf::TargetHiddenProj,
            w: DflashWt::HiddenNorm,
            out: DflashBuf::TargetHiddenProj,
            rows: l,
            n: cfg.hidden,
            eps: cfg.norm_eps,
        },
    ];
    let layers = layers_ops(cfg, weights.layers@, cfg.n_layers as nat, b, l);
    lemma_layers_bounds(cfg, weights, cfg.n_layers as nat, s, b, l);
    let last: Seq<Op<DflashBuf, DflashWt>> = seq![
        Op::RmsNormRows {
            x: DflashBuf::X,
            w: DflashWt::Norm,
            out: DflashBuf::X,
            rows: b,
            n: cfg.hidden,
            eps: cfg.norm_eps,
        },
    ];
    assert(crate::device::all_in_bounds(norm, size) && crate::device::all_in_bounds(
        last,
        size,
    )) by {
        reveal(crate::device::all_in_bounds);
    }
    crate::device::lemma_bounds_concat(up, fc, size);
    crate::device::lemma_bounds_concat(up + fc, norm, size);
    crate::device::lemma_bounds_concat(up + fc + norm, layers, size);
    crate::device::lemma_bounds_concat(up + fc + norm + layers, last, size);
}

} // verus!
