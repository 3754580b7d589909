//! The dots.ocr model: a Qwen2 text decoder and a vision tower.

use vstd::prelude::*;

use crate::float::{f64_to_f32, F32};
use crate::hfq::{first_of, value_or, ConfigError, HfqFile};
use crate::json::Json;
use crate::qwen2::{Qwen2Config, Qwen2Weights};
use crate::device::Op;
use crate::names::{numbered_name, push_tensor, LoadKind, TensorSpec};

verus! {

/// The slot of one visual token in a prompt.
pub const IMGPAD_ID: u32 = 151665;

/// Opens an image in a prompt.
pub const IMG_START_ID: u32 = 151666;

/// Closes an image in a prompt.
pub const IMG_END_ID: u32 = 151667;

/// 1e-5 as a single.
pub const F_1E_5: u32 = 0x3727_C5AC;

/// Shape constants of the vision tower.
#[derive(Debug, Clone, Copy)]
pub struct DotsVisionConfig {
    pub embed_dim: usize,
    pub num_hidden_layers: usize,
    pub num_attention_heads: usize,
    pub head_dim: usize,
    pub intermediate_size: usize,
    pub patch_size: usize,
    pub spatial_merge_size: usize,
    pub temporal_patch_size: usize,
    pub num_channels: usize,
    pub use_bias: bool,
    pub post_norm: bool,
    pub rms_norm_eps: F32,
    /// Size of a merged visual token: the text model's hidden size.
    pub out_hidden_size: usize,
}

/// The shape of the published checkpoint.
pub open spec fn defaults() -> DotsVisionConfig {
    DotsVisionConfig {
        embed_dim: 1536,
        num_hidden_layers: 42,
        num_attention_heads: 12,
        head_dim: 128,
        intermediate_size: 4224,
        patch_size: 14,
        spatial_merge_size: 2,
        temporal_patch_size: 1,
        num_channels: 3,
        use_bias: false,
        post_norm: true,
        rms_norm_eps: F32 { bits: F_1E_5 },
        out_hidden_size: 1536,
    }
}

impl DotsVisionConfig {
    /// The shape of the published checkpoint.
    pub fn dots_ocr_defaults() -> (r: Self)
        ensures
            r == defaults(),
    {
        DotsVisionConfig {
            embed_dim: 1536,
            num_hidden_layers: 42,
            num_attention_heads: 12,
            head_dim: 128,
            intermediate_size: 4224,
            patch_size: 14,
            spatial_merge_size: 2,
            temporal_patch_size: 1,
            num_channels: 3,
            use_bias: false,
            post_norm: true,
            rms_norm_eps: F32 { bits: F_1E_5 },
            out_hidden_size: 1536,
        }
    }
}

/// A size, or the default where it is missing.
pub open spec fn size_or(o: Option<u64>, default: usize) -> usize {
    match o {
        Some(v) => v as usize,
        None => default,
    }
}

fn usize_or(o: Option<u64>, default: usize) -> (r: usize)
    ensures
        r == size_or(o, default),
{
    match o {
        Some(v) => v as usize,
        None => default,
    }
}

/// The vision section of a document.
pub open spec fn vision_section(meta: crate::json::JVal) -> Option<crate::json::JVal> {
    match meta.get("config"@) {
        Some(config) => config.get("vision_config"@),
        None => None,
    }
}

/// The hidden size of the text section, where the configuration has one.
pub open spec fn text_hidden(meta: crate::json::JVal) -> Option<u64> {
    match meta.get("config"@) {
        Some(config) => match config.get("text_config"@) {
            Some(tc) => tc.get_u64("hidden_size"@),
            None => None,
        },
        None => None,
    }
}

pub open spec fn vision_width(vc: crate::json::JVal) -> usize {
    size_or(
        crate::hfq::or_else(vc.get_u64("embed_dim"@), vc.get_u64("hidden_size"@)),
        defaults().embed_dim,
    )
}

pub open spec fn vision_heads(vc: crate::json::JVal) -> usize {
    size_or(vc.get_u64("num_attention_heads"@), defaults().num_attention_heads)
}

/// The shape that a vision section describes; what it leaves out is as in the
/// published checkpoint.
pub open spec fn vision_shape(meta: crate::json::JVal, vc: crate::json::JVal) -> DotsVisionConfig {
    DotsVisionConfig {
        embed_dim: vision_width(vc),
        num_hidden_layers: size_or(
            crate::hfq::or_else(vc.get_u64("num_hidden_layers"@), vc.get_u64("depth"@)),
            defaults().num_hidden_layers,
        ),
        num_attention_heads: vision_heads(vc),
        head_dim: size_or(
            vc.get_u64("head_dim"@),
            (vision_width(vc) / vision_heads(vc)) as usize,
        ),
        intermediate_size: size_or(
            vc.get_u64("intermediate_size"@),
            defaults().intermediate_size,
        ),
        patch_size: size_or(vc.get_u64("patch_size"@), defaults().patch_size),
        spatial_merge_size: size_or(
            vc.get_u64("spatial_merge_size"@),
            defaults().spatial_merge_size,
        ),
        temporal_patch_size: size_or(
            vc.get_u64("temporal_patch_size"@),
            defaults().temporal_patch_size,
        ),
        num_channels: size_or(vc.get_u64("num_channels"@), defaults().num_channels),
        use_bias: crate::hfq::or(vc.get_bool("use_bias"@), defaults().use_bias),
        post_norm: crate::hfq::or(vc.get_bool("post_norm"@), defaults().post_norm),
        rms_norm_eps: match vc.get_f64("rms_norm_eps"@) {
            Some(d) => crate::float::of_double(d),
            None => defaults().rms_norm_eps,
        },
        out_hidden_size: size_or(
            crate::hfq::or_else(vc.get_u64("out_hidden_size"@), text_hidden(meta)),
            defaults().out_hidden_size,
        ),
    }
}

/// The vision configuration in a document, where it has a vision section.
pub open spec fn vision_in(meta: crate::json::JVal) -> Option<DotsVisionConfig> {
    match vision_section(meta) {
        Some(vc) => Some(vision_shape(meta, vc)),
        None => None,
    }
}

/// There is a vision section, and it has no heads.
pub open spec fn zero_heads(meta: crate::json::JVal) -> bool {
    vision_section(meta) is Some && vision_heads(vision_section(meta)->0) == 0
}

pub open spec fn zero_heads_in(text: Seq<char>) -> bool {
    crate::json::parsed(text) is Some && zero_heads(crate::json::parsed(text)->0)
}

/// The vision configuration in a text, where it is a document with a vision
/// section.
pub open spec fn vision_of(text: Seq<char>) -> Option<DotsVisionConfig> {
    match crate::json::parsed(text) {
        Some(meta) => vision_in(meta),
        None => None,
    }
}

fn vision_part(meta: &Json) -> (r: Option<&Json>)
    ensures
        match r {
            Some(vc) => vision_section(meta@) == Some(vc@),
            None => vision_section(meta@) is None,
        },
{
    match meta.get("config") {
        Some(config) => config.get("vision_config"),
        None => None,
    }
}

fn text_width(meta: &Json) -> (r: Option<u64>)
    ensures
        r == text_hidden(meta@),
{
    match meta.get("config") {
        Some(config) => match config.get("text_config") {
            Some(tc) => tc.get_u64("hidden_size"),
            None => None,
        },
        None => None,
    }
}

/// The vision configuration in a parsed document.
pub fn vision_config_from_metadata(meta: &Json) -> (r: Option<DotsVisionConfig>)
    requires
        !zero_heads(meta@),
    ensures
        r == vision_in(meta@),
{
    let vc: &Json = match vision_part(meta) {
        Some(vc) => vc,
        None => return None,
    };
    let d: DotsVisionConfig = DotsVisionConfig::dots_ocr_defaults();
    let embed_dim: usize = usize_or(
        first_of(vc.get_u64("embed_dim"), vc.get_u64("hidden_size")),
        d.embed_dim,
    );
    let num_attention_heads: usize = usize_or(
        vc.get_u64("num_attention_heads"),
        d.num_attention_heads,
    );
    Some(
        DotsVisionConfig {
            embed_dim,
            num_hidden_layers: usize_or(
                first_of(vc.get_u64("num_hidden_layers"), vc.get_u64("depth")),
                d.num_hidden_layers,
            ),
            num_attention_heads,
            head_dim: usize_or(vc.get_u64("head_dim"), embed_dim / num_attention_heads),
            intermediate_size: usize_or(vc.get_u64("intermediate_size"), d.intermediate_size),
            patch_size: usize_or(vc.get_u64("patch_size"), d.patch_size),
            spatial_merge_size: usize_or(vc.get_u64("spatial_merge_size"), d.spatial_merge_size),
            temporal_patch_size: usize_or(
                vc.get_u64("temporal_patch_size"),
                d.temporal_patch_size,
            ),
            num_channels: usize_or(vc.get_u64("num_channels"), d.num_channels),
            use_bias: value_or(vc.get_bool("use_bias"), d.use_bias),
            post_norm: value_or(vc.get_bool("post_norm"), d.post_norm),
            rms_norm_eps: match vc.get_f64("rms_norm_eps") {
                Some(x) => f64_to_f32(x),
                None => d.rms_norm_eps,
            },
            out_hidden_size: usize_or(
                first_of(vc.get_u64("out_hidden_size"), text_width(meta)),
                d.out_hidden_size,
            ),
        },
    )
}

/// Whether a document's vision section has no heads.
pub fn has_zero_heads(meta: &Json) -> (r: bool)
    ensures
        r == zero_heads(meta@),
{
    match vision_part(meta) {
        Some(vc) => usize_or(vc.get_u64("num_attention_heads"), 12) == 0,
        None => false,
    }
}

/// The vision configuration in the text of a metadata document.
pub fn parse_vision_config(metadata_json: &str) -> (r: Option<DotsVisionConfig>)
    requires
        !zero_heads_in(metadata_json@),
    ensures
        r == vision_of(metadata_json@),
{
    match crate::json::parse(metadata_json) {
        Some(meta) => vision_config_from_metadata(&meta),
        None => None,
    }
}

/// Both halves of the model.
#[derive(Debug, Clone, Copy)]
pub struct DotsOcrConfig {
    pub text: Qwen2Config,
    pub vision: DotsVisionConfig,
}

impl DotsOcrConfig {
    /// The configuration in a model file: the text half is needed, the vision half
    /// is as published where the file has none.
    pub fn from_hfq(hfq: &HfqFile) -> (r: Result<Self, String>)
        requires
            crate::qwen2::config_of(hfq.metadata_json@) is Some ==> !zero_heads_in(
                hfq.metadata_json@,
            ),
        ensures
            match r {
                Ok(c) => {
                    &&& crate::qwen2::config_of(hfq.metadata_json@) == Some(c.text)
                    &&& c.vision == crate::hfq::or(vision_of(hfq.metadata_json@), defaults())
                },
                Err(e) => crate::qwen2::config_of(hfq.metadata_json@) is None && e@
                    == "qwen2: failed to parse config from HFQ metadata"@,
            },
    {
        let text: Qwen2Config = match Qwen2Config::from_hfq(hfq) {
            Ok(t) => t,
            Err(e) => return Err(e),
        };
        let vision: DotsVisionConfig = match parse_vision_config(hfq.metadata_json.as_str()) {
            Some(v) => v,
            None => DotsVisionConfig::dots_ocr_defaults(),
        };
        Ok(DotsOcrConfig { text, vision })
    }

    /// Like [`DotsOcrConfig::from_hfq`], for any model file: a vision half without
    /// heads is reported.
    pub fn checked_from_hfq(hfq: &HfqFile) -> (r: Result<Result<Self, String>, ConfigError>)
        ensures
            ({
                let text = hfq.metadata_json@;
                match r {
                    Ok(Ok(c)) => {
                        &&& !zero_heads_in(text)
                        &&& crate::qwen2::config_of(text) == Some(c.text)
                        &&& c.vision == crate::hfq::or(vision_of(text), defaults())
                    },
                    Ok(Err(e)) => {
                        &&& crate::qwen2::config_of(text) is None
                        &&& e@ == "qwen2: failed to parse config from HFQ metadata"@
                    },
                    Err(e) => {
                        &&& crate::qwen2::config_of(text) is Some && zero_heads_in(text)
                        &&& e == ConfigError::ZeroHeads
                    },
                }
            }),
    {
        match Qwen2Config::from_hfq(hfq) {
            Ok(_) => {},
            Err(e) => return Ok(Err(e)),
        }
        match crate::json::parse(hfq.metadata_json.as_str()) {
            Some(meta) => {
                if has_zero_heads(&meta) {
                    return Err(ConfigError::ZeroHeads);
                }
            },
            None => {},
        }
        Ok(Self::from_hfq(hfq))
    }
}

// Vision weights.

impl DotsVisionConfig {
    /// Numbers in a patch.
    pub open spec fn patch_dim(self) -> int {
        self.num_channels * self.temporal_patch_size * self.patch_size * self.patch_size
    }

    /// Width of the patches that are merged into one token.
    pub open spec fn merge_dim(self) -> int {
        self.embed_dim * self.spatial_merge_size * self.spatial_merge_size
    }

    /// The sizes of all weights can be told.
    pub open spec fn fits(self) -> bool {
        &&& 3 * self.embed_dim <= usize::MAX
        &&& self.num_channels * self.temporal_patch_size <= usize::MAX
        &&& self.num_channels * self.temporal_patch_size * self.patch_size <= usize::MAX
        &&& self.patch_dim() <= usize::MAX
        &&& self.embed_dim * self.spatial_merge_size <= usize::MAX
        &&& self.merge_dim() <= usize::MAX
    }
}

/// The parts of one block.
#[derive(Debug, Clone, Copy, PartialEq, Eq, Structural)]
pub enum DotsVisionPart {
    Norm1,
    Qkv,
    Proj,
    Norm2,
    /// The two gate projections, one under the other.
    Fc13,
    Fc2,
}

/// The weights of the vision tower.
#[derive(Debug, Clone, Copy, PartialEq, Eq, Structural)]
pub enum DotsVisionWt {
    PatchEmbedW,
    PatchEmbedB,
    PatchEmbedNorm,
    Block(usize, DotsVisionPart),
    PostTrunkNorm,
    MergerLnW,
    MergerLnB,
    MergerFc1W,
    MergerFc1B,
    MergerFc2W,
    MergerFc2B,
}

pub open spec fn plain_tensor(
    place: DotsVisionWt,
    name: Seq<char>,
    kind: LoadKind,
    m: nat,
    k: nat,
) -> crate::names::Tensor<DotsVisionWt> {
    crate::names::Tensor { place, name, kind, m, k }
}

pub open spec fn tensor(
    place: DotsVisionWt,
    i: nat,
    tail: Seq<char>,
    kind: LoadKind,
    m: nat,
    k: nat,
) -> crate::names::Tensor<DotsVisionWt> {
    crate::names::Tensor {
        place,
        name: crate::names::numbered("vision_tower.blocks."@, i, tail),
        kind,
        m,
        k,
    }
}

/// The tensors of block `i`.
pub open spec fn block_tensors(c: DotsVisionConfig, i: nat) -> Seq<crate::names::Tensor<DotsVisionWt>> {
    let h = c.embed_dim as nat;
    let h3 = (3 * c.embed_dim) as nat;
    let inter = c.intermediate_size as nat;
    seq![
        tensor(
            DotsVisionWt::Block(i as usize, DotsVisionPart::Norm1),
            i,
            ".norm1.weight"@,
            LoadKind::Exact,
            1,
            h,
        ),
        tensor(
            DotsVisionWt::Block(i as usize, DotsVisionPart::Qkv),
            i,
            ".attn.qkv.weight"@,
            LoadKind::AsHalf,
            h3,
            h,
        ),
        tensor(
            DotsVisionWt::Block(i as usize, DotsVisionPart::Proj),
            i,
            ".attn.proj.weight"@,
            LoadKind::AsHalf,
            h,
            h,
        ),
        tensor(
            DotsVisionWt::Block(i as usize, DotsVisionPart::Norm2),
            i,
            ".norm2.weight"@,
            LoadKind::Exact,
            1,
            h,
        ),
        tensor(
            DotsVisionWt::Block(i as usize, DotsVisionPart::Fc13),
            i,
            ".mlp.fc1.weight"@,
            LoadKind::AsHalfWithNext,
            inter,
            h,
        ),
        tensor(
            DotsVisionWt::Block(i as usize, DotsVisionPart::Fc13),
            i,
            ".mlp.fc3.weight"@,
            LoadKind::AsHalf,
            inter,
            h,
        ),
        tensor(
            DotsVisionWt::Block(i as usize, DotsVisionPart::Fc2),
            i,
            ".mlp.fc2.weight"@,
            LoadKind::AsHalf,
            h,
            inter,
        ),
    ]
}

/// The tensors of the first `n` blocks.
pub open spec fn blocks_tensors(c: DotsVisionConfig, n: nat) -> Seq<crate::names::Tensor<DotsVisionWt>>
    decreases n,
{
    if n == 0 {
        Seq::empty()
    } else {
        blocks_tensors(c, (n - 1) as nat) + block_tensors(c, (n - 1) as nat)
    }
}

/// All the tensors of the vision tower.
pub open spec fn all_tensors(c: DotsVisionConfig) -> Seq<crate::names::Tensor<DotsVisionWt>> {
    let h = c.embed_dim as nat;
    let patch = c.patch_dim() as nat;
    let merge = c.merge_dim() as nat;
    let out = c.out_hidden_size as nat;
    seq![
        plain_tensor(
            DotsVisionWt::PatchEmbedW,
            "vision_tower.patch_embed.patchifier.proj.weight"@,
            LoadKind::AsHalf,
            h,
            patch,
        ),
        plain_tensor(
            DotsVisionWt::PatchEmbedB,
            "vision_tower.patch_embed.patchifier.proj.bias"@,
            LoadKind::Exact,
            1,
            h,
        ),
        plain_tensor(
            DotsVisionWt::PatchEmbedNorm,
            "vision_tower.patch_embed.patchifier.norm.weight"@,
            LoadKind::Exact,
            1,
            h,
        ),
    ] + blocks_tensors(c, c.num_hidden_layers as nat) + seq![
        plain_tensor(
            DotsVisionWt::PostTrunkNorm,
            "vision_tower.post_trunk_norm.weight"@,
            LoadKind::Exact,
            1,
            h,
        ),
        plain_tensor(
            DotsVisionWt::MergerLnW,
            "vision_tower.merger.ln_q.weight"@,
            LoadKind::Exact,
            1,
            h,
        ),
        plain_tensor(
            DotsVisionWt::MergerLnB,
            "vision_tower.merger.ln_q.bias"@,
            LoadKind::Exact,
            1,
            h,
        ),
        plain_tensor(
            DotsVisionWt::MergerFc1W,
            "vision_tower.merger.mlp.0.weight"@,
            LoadKind::AsHalf,
            merge,
            merge,
        ),
        plain_tensor(
            DotsVisionWt::MergerFc1B,
            "vision_tower.merger.mlp.0.bias"@,
            LoadKind::Exact,
            1,
            merge,
        ),
        plain_tensor(
            DotsVisionWt::MergerFc2W,
            "vision_tower.merger.mlp.2.weight"@,
            LoadKind::AsHalf,
            out,
            merge,
        ),
        plain_tensor(
            DotsVisionWt::MergerFc2B,
            "vision_tower.merger.mlp.2.bias"@,
            LoadKind::Exact,
            1,
            out,
        ),
    ]
}

fn push_block(v: &mut Vec<TensorSpec<DotsVisionWt>>, c: &DotsVisionConfig, i: usize)
    requires
        c.fits(),
    ensures
        crate::names::tensors(final(v)@) == crate::names::tensors(old(v)@) + block_tensors(
            *c,
            i as nat,
        ),
{
    let ghost before = crate::names::tensors(v@);
    let h: usize = c.embed_dim;
    let h3: usize = 3 * c.embed_dim;
    let inter: usize = c.intermediate_size;
    push_tensor(
        v,
        DotsVisionWt::Block(i, DotsVisionPart::Norm1),
        numbered_name("vision_tower.blocks.", i, ".norm1.weight"),
        LoadKind::Exact,
        1,
        h,
    );
    push_tensor(
        v,
        DotsVisionWt::Block(i, DotsVisionPart::Qkv),
        numbered_name("vision_tower.blocks.", i, ".attn.qkv.weight"),
        LoadKind::AsHalf,
        h3,
        h,
    );
    push_tensor(
        v,
        DotsVisionWt::Block(i, DotsVisionPart::Proj),
        numbered_name("vision_tower.blocks.", i, ".attn.proj.weight"),
        LoadKind::AsHalf,
        h,
        h,
    );
    push_tensor(
        v,
        DotsVisionWt::Block(i, DotsVisionPart::Norm2),
        numbered_name("vision_tower.blocks.", i, ".norm2.weight"),
        LoadKind::Exact,
        1,
        h,
    );
    push_tensor(
        v,
        DotsVisionWt::Block(i, DotsVisionPart::Fc13),
        numbered_name("vision_tower.blocks.", i, ".mlp.fc1.weight"),
        LoadKind::AsHalfWithNext,
        inter,
        h,
    );
    push_tensor(
        v,
        DotsVisionWt::Block(i, DotsVisionPart::Fc13),
        numbered_name("vision_tower.blocks.", i, ".mlp.fc3.weight"),
        LoadKind::AsHalf,
        inter,
        h,
    );
    push_tensor(
        v,
        DotsVisionWt::Block(i, DotsVisionPart::Fc2),
        numbered_name("vision_tower.blocks.", i, ".mlp.fc2.weight"),
        LoadKind::AsHalf,
        h,
        inter,
    );
    assert(crate::names::tensors(v@) =~= before + block_tensors(*c, i as nat));
}

/// The tensors to load, in order. The weights become half precision
/// ([`crate::quant::dequant_to_f16_bytes`]); the two gate projections are joined.
pub fn load_vision_weights(c: &DotsVisionConfig) -> (v: Vec<TensorSpec<DotsVisionWt>>)
    requires
        c.fits(),
    ensures
        crate::names::tensors(v@) == all_tensors(*c),
{
    proof {
        assert(0 <= c.num_channels * c.temporal_patch_size) by (nonlinear_arith);
        let t = c.num_channels * c.temporal_patch_size;
        assert(0 <= t * c.patch_size) by (nonlinear_arith)
            requires
                t >= 0,
        ;
        assert(0 <= c.embed_dim * c.spatial_merge_size) by (nonlinear_arith);
    }
    let h: usize = c.embed_dim;
    let patch: usize = c.num_channels * c.temporal_patch_size * c.patch_size * c.patch_size;
    let merge: usize = h * c.spatial_merge_size * c.spatial_merge_size;
    let out: usize = c.out_hidden_size;
    let mut v: Vec<TensorSpec<DotsVisionWt>> = Vec::new();
    assert(crate::names::tensors(v@) =~= Seq::<crate::names::Tensor<DotsVisionWt>>::empty());
    push_tensor(
        &mut v,
        DotsVisionWt::PatchEmbedW,
        "vision_tower.patch_embed.patchifier.proj.weight".to_owned(),
        LoadKind::AsHalf,
        h,
        patch,
    );
    push_tensor(
        &mut v,
        DotsVisionWt::PatchEmbedB,
        "vision_tower.patch_embed.patchifier.proj.bias".to_owned(),
        LoadKind::Exact,
        1,
        h,
    );
    push_tensor(
        &mut v,
        DotsVisionWt::PatchEmbedNorm,
        "vision_tower.patch_embed.patchifier.norm.weight".to_owned(),
        LoadKind::Exact,
        1,
        h,
    );
    let ghost head = crate::names::tensors(v@);
    assert(head + blocks_tensors(*c, 0) =~= head);
    let mut i: usize = 0;
    while i < c.num_hidden_layers
        invariant
            i <= c.num_hidden_layers,
            c.fits(),
            crate::names::tensors(v@) == head + blocks_tensors(*c, i as nat),
        decreases c.num_hidden_layers - i,
    {
        push_block(&mut v, c, i);
        assert(crate::names::tensors(v@) =~= head + blocks_tensors(*c, (i + 1) as nat));
        i = i + 1;
    }
    push_tensor(
        &mut v,
        DotsVisionWt::PostTrunkNorm,
        "vision_tower.post_trunk_norm.weight".to_owned(),
        LoadKind::Exact,
        1,
        h,
    );
    push_tensor(
        &mut v,
        DotsVisionWt::MergerLnW,
        "vision_tower.merger.ln_q.weight".to_owned(),
        LoadKind::Exact,
        1,
        h,
    );
    push_tensor(
        &mut v,
        DotsVisionWt::MergerLnB,
        "vision_tower.merger.ln_q.bias".to_owned(),
        LoadKind::Exact,
        1,
        h,
    );
    push_tensor(
        &mut v,
        DotsVisionWt::MergerFc1W,
        "vision_tower.merger.mlp.0.weight".to_owned(),
        LoadKind::AsHalf,
        merge,
        merge,
    );
    push_tensor(
        &mut v,
        DotsVisionWt::MergerFc1B,
        "vision_tower.merger.mlp.0.bias".to_owned(),
        LoadKind::Exact,
        1,
        merge,
    );
    push_tensor(
        &mut v,
        DotsVisionWt::MergerFc2W,
        "vision_tower.merger.mlp.2.weight".to_owned(),
        LoadKind::AsHalf,
        out,
        merge,
    );
    push_tensor(
        &mut v,
        DotsVisionWt::MergerFc2B,
        "vision_tower.merger.mlp.2.bias".to_owned(),
        LoadKind::Exact,
        1,
        out,
    );
    assert(crate::names::tensors(v@) =~= all_tensors(*c));
    v
}

// Assembly.

/// Entry `k` of block `i` among the tensors of `n` blocks.
proof fn lemma_block_entry(c: DotsVisionConfig, i: nat, n: nat, k: int)
    requires
        i < n,
        0 <= k < 7,
    ensures
        blocks_tensors(c, n).len() == 7 * n,
        blocks_tensors(c, n)[7 * i + k] == block_tensors(c, i)[k],
    decreases n,
{
    let m = (n - 1) as nat;
    lemma_blocks_len(c, m);
    if i < m {
        lemma_block_entry(c, i, m, k);
    }
}

proof fn lemma_blocks_len(c: DotsVisionConfig, n: nat)
    ensures
        blocks_tensors(c, n).len() == 7 * n,
    decreases n,
{
    if n > 0 {
        lemma_blocks_len(c, (n - 1) as nat);
    }
}

/// Where the entries of a block stand in the whole list.
proof fn lemma_entry(c: DotsVisionConfig, i: nat, k: int)
    requires
        i < c.num_hidden_layers,
        0 <= k < 7,
    ensures
        3 + 7 * i + k < all_tensors(c).len(),
        all_tensors(c)[3 + 7 * i + k] == block_tensors(c, i)[k],
{
    lemma_block_entry(c, i, c.num_hidden_layers as nat, k);
}

proof fn lemma_kind(c: DotsVisionConfig, j: int)
    requires
        0 <= j < all_tensors(c).len(),
    ensures
        !(all_tensors(c)[j].kind is Pooled),
        all_tensors(c)[j].kind == LoadKind::AsHalfWithNext ==> {
            &&& j + 1 < all_tensors(c).len()
            &&& all_tensors(c)[j].m == c.intermediate_size
            &&& all_tensors(c)[j + 1].kind == LoadKind::AsHalf
            &&& all_tensors(c)[j + 1].m == c.intermediate_size
        },
{
    let n = c.num_hidden_layers as nat;
    lemma_blocks_len(c, n);
    if 3 <= j < 3 + 7 * n {
        let i = ((j - 3) / 7) as nat;
        let k = (j - 3) % 7;
        lemma_entry(c, i, k);
        assert(all_tensors(c)[j] == block_tensors(c, i)[k]);
        if k < 6 {
            lemma_entry(c, i, k + 1);
        }
    }
}

/// The tower's weights out of a file, each in its place, with the two gate
/// projections of a block in one; or the first tensor that is missing, of another
/// size or of another storage type.
pub fn assemble(c: &DotsVisionConfig, file: &crate::loading::TensorFile) -> (r: Result<
    Vec<crate::loading::Placed<DotsVisionWt>>,
    crate::loading::LoadError,
>)
    requires
        c.fits(),
        2 * c.intermediate_size <= usize::MAX,
    ensures
        ({
            let ts = file.tensors@;
            let all = all_tensors(*c);
            match r {
                Ok(v) => {
                    &&& forall|j: int|
                        0 <= j < all.len() ==> (#[trigger] crate::loading::told(ts, all, j)) is Ok
                    &&& crate::loading::placed(v@) == crate::loading::packed(ts, all, all.len())
                },
                Err(e) => crate::loading::first_fault(ts, all, e),
            }
        }),
{
    let specs: Vec<TensorSpec<DotsVisionWt>> = load_vision_weights(c);
    proof {
        let all = all_tensors(*c);
        assert forall|j: int| 0 <= j < all.len() implies {
            &&& !((#[trigger] all[j]).kind is Pooled)
            &&& all[j].kind == LoadKind::AsHalfWithNext ==> {
                &&& j + 1 < all.len()
                &&& all[j + 1].kind == LoadKind::AsHalf
                &&& all[j].m + all[j + 1].m <= usize::MAX
            }
        } by {
            lemma_kind(*c, j);
        }
    }
    crate::loading::place_all(file, &specs)
}

proof fn lemma_packed_blocks(c: DotsVisionConfig, ts: Seq<crate::loading::StoredTensor>, i: nat)
    requires
        i <= c.num_hidden_layers,
    ensures
        crate::loading::packed(ts, all_tensors(c), 3 + 7 * i).len() == 3 + 6 * i,
    decreases i,
{
    if i == 0 {
        reveal_with_fuel(crate::loading::packed, 4);
    } else {
        lemma_packed_blocks(c, ts, (i - 1) as nat);
        lemma_packed_block(c, ts, (i - 1) as nat);
    }
}

/// The weights of block `i`, one after the other.
pub open spec fn block_read(
    c: DotsVisionConfig,
    ts: Seq<crate::loading::StoredTensor>,
    i: nat,
) -> Seq<(DotsVisionWt, crate::loading::Told)> {
    let all = all_tensors(c);
    let at = 3 + 7 * (i as int);
    let x = i as usize;
    seq![
        (DotsVisionWt::Block(x, DotsVisionPart::Norm1), crate::loading::read(ts, all, at)),
        (DotsVisionWt::Block(x, DotsVisionPart::Qkv), crate::loading::read(ts, all, at + 1)),
        (DotsVisionWt::Block(x, DotsVisionPart::Proj), crate::loading::read(ts, all, at + 2)),
        (DotsVisionWt::Block(x, DotsVisionPart::Norm2), crate::loading::read(ts, all, at + 3)),
        (
            DotsVisionWt::Block(x, DotsVisionPart::Fc13),
            crate::loading::stacked(
                crate::loading::read(ts, all, at + 4),
                crate::loading::read(ts, all, at + 5),
            ),
        ),
        (DotsVisionWt::Block(x, DotsVisionPart::Fc2), crate::loading::read(ts, all, at + 6)),
    ]
}

/// Entry `n` is packed as it is.
proof fn lemma_packed_next(c: DotsVisionConfig, ts: Seq<crate::loading::StoredTensor>, n: nat)
    requires
        n > 0,
        all_tensors(c)[n - 1].kind != LoadKind::AsHalfWithNext,
    ensures
        crate::loading::packed(ts, all_tensors(c), n + 1) == crate::loading::packed(
            ts,
            all_tensors(c),
            n,
        ).push((all_tensors(c)[n as int].place, crate::loading::read(ts, all_tensors(c), n as int))),
{
}

/// Entries `n` and the next are packed together.
proof fn lemma_packed_pair(c: DotsVisionConfig, ts: Seq<crate::loading::StoredTensor>, n: nat)
    requires
        n > 0,
        all_tensors(c)[n - 1].kind != LoadKind::AsHalfWithNext,
        all_tensors(c)[n as int].kind == LoadKind::AsHalfWithNext,
    ensures
        crate::loading::packed(ts, all_tensors(c), n + 2) == crate::loading::packed(
            ts,
            all_tensors(c),
            n,
        ).push(
            (
                all_tensors(c)[n as int + 1].place,
                crate::loading::stacked(
                    crate::loading::read(ts, all_tensors(c), n as int),
                    crate::loading::read(ts, all_tensors(c), n as int + 1),
                ),
            ),
        ),
{
    let p = crate::loading::packed(ts, all_tensors(c), n);
    lemma_packed_next(c, ts, n);
    assert(crate::loading::packed(ts, all_tensors(c), n + 1).drop_last() =~= p);
}

/// Place and kind of the entries of a block.
proof fn lemma_block_slots(c: DotsVisionConfig, i: nat)
    requires
        i < c.num_hidden_layers,
    ensures
        ({
            let all = all_tensors(c);
            let at = 3 + 7 * (i as int);
            let x = i as usize;
            &&& at + 7 <= all.len()
            &&& all[at - 1].kind != LoadKind::AsHalfWithNext
            &&& all[at].place == DotsVisionWt::Block(x, DotsVisionPart::Norm1)
            &&& all[at + 1].place == DotsVisionWt::Block(x, DotsVisionPart::Qkv)
            &&& all[at + 2].place == DotsVisionWt::Block(x, DotsVisionPart::Proj)
            &&& all[at + 3].place == DotsVisionWt::Block(x, DotsVisionPart::Norm2)
            &&& all[at + 5].place == DotsVisionWt::Block(x, DotsVisionPart::Fc13)
            &&& all[at + 6].place == DotsVisionWt::Block(x, DotsVisionPart::Fc2)
            &&& all[at].kind != LoadKind::AsHalfWithNext
            &&& all[at + 1].kind != LoadKind::AsHalfWithNext
            &&& all[at + 2].kind != LoadKind::AsHalfWithNext
            &&& all[at + 3].kind != LoadKind::AsHalfWithNext
            &&& all[at + 4].kind == LoadKind::AsHalfWithNext
            &&& all[at + 5].kind != LoadKind::AsHalfWithNext
            &&& all[at + 6].kind != LoadKind::AsHalfWithNext
        }),
{
    lemma_entry(c, i, 0);
    lemma_entry(c, i, 1);
    lemma_entry(c, i, 2);
    lemma_entry(c, i, 3);
    lemma_entry(c, i, 4);
    lemma_entry(c, i, 5);
    lemma_entry(c, i, 6);
    if i > 0 {
        lemma_entry(c, (i - 1) as nat, 6);
    }
}

proof fn lemma_packed_block(c: DotsVisionConfig, ts: Seq<crate::loading::StoredTensor>, i: nat)
    requires
        i < c.num_hidden_layers,
    ensures
        crate::loading::packed(ts, all_tensors(c), 3 + 7 * i + 7) == crate::loading::packed(
            ts,
            all_tensors(c),
            3 + 7 * i,
        ) + block_read(c, ts, i),
{
    let all = all_tensors(c);
    let at = 3 + 7 * i;
    let b = block_read(c, ts, i);
    let p = crate::loading::packed(ts, all, at);
    assert(crate::loading::packed(ts, all, at + 7) == p.push(b[0]).push(b[1]).push(b[2]).push(
        b[3],
    ).push(b[4]).push(b[5])) by {
        lemma_block_slots(c, i);
        lemma_packed_next(c, ts, at);
        lemma_packed_next(c, ts, at + 1);
        lemma_packed_next(c, ts, at + 2);
        lemma_packed_next(c, ts, at + 3);
        lemma_packed_pair(c, ts, at + 4);
        lemma_packed_next(c, ts, at + 6);
    }
    assert(p.push(b[0]).push(b[1]).push(b[2]).push(b[3]).push(b[4]).push(b[5]) =~= p + b);
}

/// Every block has its own tensors, each in its place: the six weights of block `i`
/// stand together behind those of the blocks before it.
pub proof fn law_blocks_are_placed(
    c: DotsVisionConfig,
    ts: Seq<crate::loading::StoredTensor>,
    i: nat,
    p: int,
)
    requires
        i < c.num_hidden_layers,
        0 <= p < 6,
    ensures
        3 + 6 * i + p < crate::loading::packed(ts, all_tensors(c), all_tensors(c).len()).len(),
        crate::loading::packed(ts, all_tensors(c), all_tensors(c).len())[3 + 6 * i + p]
            == block_read(c, ts, i)[p],
{
    let all = all_tensors(c);
    lemma_blocks_len(c, c.num_hidden_layers as nat);
    lemma_packed_blocks(c, ts, i);
    lemma_packed_block(c, ts, i);
    lemma_block_slots(c, i);
    lemma_packed_keeps(c, ts, (3 + 7 * i + 7) as nat, all.len(), 3 + 6 * i + p);
}

/// What is packed stays, unless it goes together with the next entry.
proof fn lemma_packed_keeps(
    c: DotsVisionConfig,
    ts: Seq<crate::loading::StoredTensor>,
    m: nat,
    n: nat,
    j: int,
)
    requires
        0 < m <= n <= all_tensors(c).len(),
        all_tensors(c)[m - 1].kind != LoadKind::AsHalfWithNext,
        0 <= j < crate::loading::packed(ts, all_tensors(c), m).len(),
    ensures
        ({
            let all = all_tensors(c);
            let p = crate::loading::packed(ts, all, n);
            let open: int = if all[n - 1].kind == LoadKind::AsHalfWithNext {
                1
            } else {
                0
            };
            &&& crate::loading::packed(ts, all, m).len() + open <= p.len()
            &&& p[j] == crate::loading::packed(ts, all, m)[j]
        }),
    decreases n - m,
{
    if m < n {
        lemma_packed_keeps(c, ts, m, (n - 1) as nat, j);
        lemma_kind(c, n - 2);
        lemma_kind(c, n - 1);
    }
}

/// The weights of the first `n` blocks.
pub open spec fn block_weights(n: nat) -> Seq<DotsVisionWt>
    decreases n,
{
    if n == 0 {
        Seq::empty()
    } else {
        let i = (n - 1) as usize;
        block_weights((n - 1) as nat) + seq![
            DotsVisionWt::Block(i, DotsVisionPart::Norm1),
            DotsVisionWt::Block(i, DotsVisionPart::Qkv),
            DotsVisionWt::Block(i, DotsVisionPart::Proj),
            DotsVisionWt::Block(i, DotsVisionPart::Norm2),
            DotsVisionWt::Block(i, DotsVisionPart::Fc13),
            DotsVisionWt::Block(i, DotsVisionPart::Fc2),
        ]
    }
}

/// All the weights of a vision tower with `n` blocks.
pub open spec fn all_weights(n: nat) -> Seq<DotsVisionWt> {
    seq![DotsVisionWt::PatchEmbedW, DotsVisionWt::PatchEmbedB, DotsVisionWt::PatchEmbedNorm]
        + block_weights(n) + seq![
        DotsVisionWt::PostTrunkNorm,
        DotsVisionWt::MergerLnW,
        DotsVisionWt::MergerLnB,
        DotsVisionWt::MergerFc1W,
        DotsVisionWt::MergerFc1B,
        DotsVisionWt::MergerFc2W,
        DotsVisionWt::MergerFc2B,
    ]
}

/// A loaded vision tower.
#[derive(Debug, Clone, Copy)]
pub struct DotsVisionWeights {
    pub blocks: usize,
}

impl DotsVisionWeights {
    /// The weights to give back, in order: all of them.
    pub fn free_gpu(self) -> (r: Vec<DotsVisionWt>)
        ensures
            r@ == all_weights(self.blocks as nat),
    {
        let mut r: Vec<DotsVisionWt> = vec![
            DotsVisionWt::PatchEmbedW,
            DotsVisionWt::PatchEmbedB,
            DotsVisionWt::PatchEmbedNorm,
        ];
        let ghost head = r@;
        assert(head + block_weights(0) =~= head);
        let mut i: usize = 0;
        while i < self.blocks
            invariant
                i <= self.blocks,
                r@ == head + block_weights(i as nat),
            decreases self.blocks - i,
        {
            let mut part: Vec<DotsVisionWt> = vec![
                DotsVisionWt::Block(i, DotsVisionPart::Norm1),
                DotsVisionWt::Block(i, DotsVisionPart::Qkv),
                DotsVisionWt::Block(i, DotsVisionPart::Proj),
                DotsVisionWt::Block(i, DotsVisionPart::Norm2),
                DotsVisionWt::Block(i, DotsVisionPart::Fc13),
                DotsVisionWt::Block(i, DotsVisionPart::Fc2),
            ];
            r.append(&mut part);
            assert(r@ =~= head + block_weights((i + 1) as nat));
            i = i + 1;
        }
        let mut tail: Vec<DotsVisionWt> = vec![
            DotsVisionWt::PostTrunkNorm,
            DotsVisionWt::MergerLnW,
            DotsVisionWt::MergerLnB,
            DotsVisionWt::MergerFc1W,
            DotsVisionWt::MergerFc1B,
            DotsVisionWt::MergerFc2W,
            DotsVisionWt::MergerFc2B,
        ];
        r.append(&mut tail);
        r
    }
}

proof fn lemma_block_counts(c: DotsVisionConfig, n: nat)
    ensures
        blocks_tensors(c, n).len() == 7 * n,
        block_weights(n).len() == 6 * n,
    decreases n,
{
    if n > 0 {
        lemma_block_counts(c, (n - 1) as nat);
    }
}

/// Every loaded tensor has a weight that is given back; the two joined tensors of
/// each block share theirs.
pub proof fn law_weights_are_returned(c: DotsVisionConfig)
    ensures
        all_tensors(c).len() == all_weights(c.num_hidden_layers as nat).len()
            + c.num_hidden_layers,
{
    lemma_block_counts(c, c.num_hidden_layers as nat);
}

// Vision operations.

/// `n` rows of `in_dim` times a half-precision weight, in a buffer of its own: the
/// product comes out transposed and is turned.
pub open spec fn no_bias_ops<B, W>(
    w: W,
    x: B,
    yt: B,
    y: B,
    out_dim: usize,
    in_dim: usize,
    n: usize,
) -> Seq<Op<B, W>> {
    seq![
        Op::Alloc { buf: yt, elems: (out_dim * n) as usize },
        Op::GemmF16 { w, x, y: yt, m: out_dim, k: in_dim, rows: n },
        Op::Alloc { buf: y, elems: (n * out_dim) as usize },
        Op::Transpose { x: yt, out: y, rows: out_dim, cols: n },
        Op::Free { buf: yt },
    ]
}

/// Rows times a half-precision weight.
pub fn linear_f16_no_bias<B: Copy, W>(
    w: W,
    x: B,
    yt: B,
    y: B,
    out_dim: usize,
    in_dim: usize,
    n: usize,
) -> (ops: Vec<Op<B, W>>)
    requires
        out_dim * n <= usize::MAX,
    ensures
        ops@ == no_bias_ops(w, x, yt, y, out_dim, in_dim, n),
{
    assert(out_dim * n == n * out_dim) by (nonlinear_arith);
    vec![
        Op::Alloc { buf: yt, elems: out_dim * n },
        Op::GemmF16 { w, x, y: yt, m: out_dim, k: in_dim, rows: n },
        Op::Alloc { buf: y, elems: n * out_dim },
        Op::Transpose { x: yt, out: y, rows: out_dim, cols: n },
        Op::Free { buf: yt },
    ]
}

/// Rows times a half-precision weight, plus a bias.
pub fn linear_f16<B: Copy, W>(
    w: W,
    x: B,
    bias: W,
    yt: B,
    y: B,
    out_dim: usize,
    in_dim: usize,
    n: usize,
) -> (ops: Vec<Op<B, W>>)
    requires
        out_dim * n <= usize::MAX,
    ensures
        ops@ == no_bias_ops(w, x, yt, y, out_dim, in_dim, n).push(
            Op::BiasAdd { x: y, b: bias, rows: n, n: out_dim },
        ),
{
    let mut ops: Vec<Op<B, W>> = linear_f16_no_bias(w, x, yt, y, out_dim, in_dim, n);
    ops.push(Op::BiasAdd { x: y, b: bias, rows: n, n: out_dim });
    ops
}

/// Such a product works inside its buffers and leaves nothing behind but its
/// result.
pub proof fn law_linear_is_memory_safe<B, W>(
    w: W,
    x: B,
    yt: B,
    y: B,
    out_dim: usize,
    in_dim: usize,
    n: usize,
    heap: Map<B, int>,
)
    requires
        out_dim * n <= usize::MAX,
        heap.dom().contains(x),
        4 * (in_dim * n) <= heap[x],
        !heap.dom().contains(yt),
        !heap.dom().contains(y),
        y != yt,
    ensures
        crate::device::heap_safe(no_bias_ops(w, x, yt, y, out_dim, in_dim, n), heap),
        crate::device::heap_after(no_bias_ops(w, x, yt, y, out_dim, in_dim, n), 5, heap)
            == heap.insert(y, 4 * (n * out_dim)),
{
    assert(out_dim * n == n * out_dim && 0 <= out_dim * n) by (nonlinear_arith);
    reveal_with_fuel(crate::device::heap_after, 6);
    let ops = no_bias_ops(w, x, yt, y, out_dim, in_dim, n);
    assert(crate::device::heap_after(ops, 5, heap) =~= heap.insert(y, 4 * (n * out_dim)));
}

/// Encoding of patches: there is none for this vision tower, whatever the patches.
pub fn vision_forward(
    _weights: &DotsVisionWeights,
    _cfg: &DotsVisionConfig,
    _patches: &[F32],
    _grid_h: usize,
    _grid_w: usize,
) -> (r: Result<Vec<F32>, String>)
    ensures
        r is Err,
        r->Err_0@ == "dots-ocr: vision_forward is a phase 2c stub. Implementation pending — see docs/plans/qwen_2.0_vlm_plus_dots_ocr.md phase 2c."@,
{
    Err("dots-ocr: vision_forward is a phase 2c stub. Implementation pending — see docs/plans/qwen_2.0_vlm_plus_dots_ocr.md phase 2c.".to_owned())
}

// Both halves.

/// What a model file holds: the text decoder's embeddings and the vision tower.
pub struct DotsOcrWeights {
    pub text: Qwen2Weights,
    pub vision: DotsVisionWeights,
}

impl DotsOcrWeights {
    /// The text half, and the tensors of the vision half in the order in which
    /// they are loaded.
    pub fn load(hfq: &HfqFile, cfg: &DotsOcrConfig) -> (r: Result<(Self, Vec<TensorSpec<DotsVisionWt>>), String>)
        requires
            cfg.text.vocab_size * cfg.text.hidden_size <= usize::MAX,
            cfg.vision.fits(),
        ensures
            match r {
                Ok((w, list)) => {
                    &&& w.text.embeddings@ == Seq::new(
                        (cfg.text.vocab_size * cfg.text.hidden_size) as nat,
                        |i: int| F32 { bits: 0 },
                    )
                    &&& w.vision.blocks == cfg.vision.num_hidden_layers
                    &&& crate::names::tensors(list@) == all_tensors(cfg.vision)
                },
                Err(_) => false,
            },
    {
        match Qwen2Weights::load(hfq, &cfg.text) {
            Ok(text) => {
                let list: Vec<TensorSpec<DotsVisionWt>> = load_vision_weights(&cfg.vision);
                let vision: DotsVisionWeights = DotsVisionWeights {
                    blocks: cfg.vision.num_hidden_layers,
                };
                Ok((DotsOcrWeights { text, vision }, list))
            },
            Err(e) => Err(e),
        }
    }

    /// The weights to give back, in order: all of the vision half. The text half
    /// holds nothing on the device.
    pub fn free_gpu(self) -> (r: Vec<DotsVisionWt>)
        ensures
            r@ == all_weights(self.vision.blocks as nat),
    {
        self.vision.free_gpu()
    }
}

} // verus!
