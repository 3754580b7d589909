//! The vision encoder: image patches through a transformer, neighbours merged into
//! tokens for the language model.

use vstd::prelude::*;

use crate::device::{extend, Op};
use crate::float::F32;
use crate::hfq::{first_of, value_or, ConfigError, HfqFile};
use crate::json::Json;
use crate::names::{numbered_name, push_tensor, LoadKind, TensorSpec};
use crate::quant::{decode_plain, TensorError};

verus! {

/// Shape constants of the encoder.
#[derive(Debug, Clone, Copy)]
pub struct VisionConfig {
    pub hidden_size: usize,
    pub num_heads: usize,
    pub head_dim: usize,
    pub num_layers: usize,
    pub mlp_dim: usize,
    pub patch_size: usize,
    pub temporal_patch_size: usize,
    /// Width of the tokens that come out.
    pub out_hidden_size: usize,
    /// Patches that are merged into one token, along each side.
    pub spatial_merge_size: usize,
    pub norm_eps: F32,
}

/// 1e-6.
pub const F_1E_6: u32 = 0x3586_37BD;

// Configuration.

/// The width of the language model, where the configuration tells it.
pub open spec fn text_width(config: crate::json::JVal) -> Option<u64> {
    match config.get("text_config"@) {
        Some(tc) => tc.get_u64("hidden_size"@),
        None => None,
    }
}

/// The vision section of a document, where it has one with a hidden size.
pub open spec fn vision_section(meta: crate::json::JVal) -> Option<crate::json::JVal> {
    match meta.get("config"@) {
        Some(config) => match config.get("vision_config"@) {
            Some(vc) => if vc.get_u64("hidden_size"@) is Some {
                Some(vc)
            } else {
                None
            },
            None => None,
        },
        None => None,
    }
}

/// The shape that a vision section describes. Missing are taken: 16 heads, 27
/// layers, a feed-forward width of 4304, patches of 16, two frames a patch, the
/// width of the language model or 4096 at the output, and merging two by two.
pub open spec fn vision_shape(config: crate::json::JVal, vc: crate::json::JVal) -> VisionConfig {
    let hidden = vc.get_u64("hidden_size"@)->0 as usize;
    let heads = crate::hfq::or(vc.get_u64("num_heads"@), 16) as usize;
    VisionConfig {
        hidden_size: hidden,
        num_heads: heads,
        head_dim: (hidden / heads) as usize,
        num_layers: crate::hfq::or(vc.get_u64("depth"@), 27) as usize,
        mlp_dim: crate::hfq::or(vc.get_u64("intermediate_size"@), 4304) as usize,
        patch_size: crate::hfq::or(vc.get_u64("patch_size"@), 16) as usize,
        temporal_patch_size: crate::hfq::or(vc.get_u64("temporal_patch_size"@), 2) as usize,
        out_hidden_size: crate::hfq::or(
            crate::hfq::or_else(vc.get_u64("out_hidden_size"@), text_width(config)),
            4096,
        ) as usize,
        spatial_merge_size: crate::hfq::or(vc.get_u64("spatial_merge_size"@), 2) as usize,
        norm_eps: F32 { bits: F_1E_6 },
    }
}

/// The configuration in a document.
pub open spec fn vision_in(meta: crate::json::JVal) -> Option<VisionConfig> {
    match vision_section(meta) {
        Some(vc) => Some(vision_shape(meta.get("config"@)->0, vc)),
        None => None,
    }
}

/// A head size is needed and there are no heads.
pub open spec fn zero_heads(meta: crate::json::JVal) -> bool {
    vision_section(meta) is Some && crate::hfq::or(
        vision_section(meta)->0.get_u64("num_heads"@),
        16,
    ) as usize == 0
}

pub open spec fn zero_heads_in(text: Seq<char>) -> bool {
    crate::json::parsed(text) is Some && zero_heads(crate::json::parsed(text)->0)
}

/// The configuration in a text.
pub open spec fn vision_of(text: Seq<char>) -> Option<VisionConfig> {
    match crate::json::parsed(text) {
        Some(meta) => vision_in(meta),
        None => None,
    }
}

fn width_of_text(config: &Json) -> (r: Option<u64>)
    ensures
        r == text_width(config@),
{
    match config.get("text_config") {
        Some(tc) => tc.get_u64("hidden_size"),
        None => None,
    }
}

/// The configuration in a parsed metadata document.
pub fn vision_config_from_metadata(meta: &Json) -> (r: Option<VisionConfig>)
    requires
        !zero_heads(meta@),
    ensures
        r == vision_in(meta@),
{
    let config: &Json = match meta.get("config") {
        Some(config) => config,
        None => return None,
    };
    let vc: &Json = match config.get("vision_config") {
        Some(vc) => vc,
        None => return None,
    };
    let hidden_size: usize = match vc.get_u64("hidden_size") {
        Some(v) => v as usize,
        None => return None,
    };
    let num_heads: usize = value_or(vc.get_u64("num_heads"), 16) as usize;
    Some(
        VisionConfig {
            hidden_size,
            num_heads,
            head_dim: hidden_size / num_heads,
            num_layers: value_or(vc.get_u64("depth"), 27) as usize,
            mlp_dim: value_or(vc.get_u64("intermediate_size"), 4304) as usize,
            patch_size: value_or(vc.get_u64("patch_size"), 16) as usize,
            temporal_patch_size: value_or(vc.get_u64("temporal_patch_size"), 2) as usize,
            out_hidden_size: value_or(
                first_of(vc.get_u64("out_hidden_size"), width_of_text(config)),
                4096,
            ) as usize,
            spatial_merge_size: value_or(vc.get_u64("spatial_merge_size"), 2) as usize,
            norm_eps: F32 { bits: F_1E_6 },
        },
    )
}

/// Whether a document has no heads to divide by.
pub fn has_zero_heads(meta: &Json) -> (r: bool)
    ensures
        r == zero_heads(meta@),
{
    match meta.get("config") {
        Some(config) => match config.get("vision_config") {
            Some(vc) => vc.get_u64("hidden_size").is_some() && value_or(
                vc.get_u64("num_heads"),
                16,
            ) as usize == 0,
            None => false,
        },
        None => false,
    }
}

/// The configuration in a model file.
pub fn vision_config_from_hfq(hfq: &HfqFile) -> (r: Option<VisionConfig>)
    requires
        !zero_heads_in(hfq.metadata_json@),
    ensures
        r == vision_of(hfq.metadata_json@),
{
    match crate::json::parse(hfq.metadata_json.as_str()) {
        Some(meta) => vision_config_from_metadata(&meta),
        None => None,
    }
}

/// Like [`vision_config_from_hfq`], for any model file: one without heads is
/// reported.
pub fn checked_vision_config_from_hfq(hfq: &HfqFile) -> (r: Result<Option<VisionConfig>, ConfigError>)
    ensures
        match r {
            Ok(c) => !zero_heads_in(hfq.metadata_json@) && c == vision_of(hfq.metadata_json@),
            Err(e) => zero_heads_in(hfq.metadata_json@) && e == ConfigError::ZeroHeads,
        },
{
    match crate::json::parse(hfq.metadata_json.as_str()) {
        Some(meta) => {
            if has_zero_heads(&meta) {
                return Err(ConfigError::ZeroHeads);
            }
        },
        None => {},
    }
    Ok(vision_config_from_hfq(hfq))
}

// Tensors.

/// The first `n` numbers of an unquantized tensor.
pub fn load_f32(quant_type: u8, data: &[u8], n: usize) -> (r: Result<Vec<F32>, TensorError>)
    ensures
        match r {
            Ok(v) => {
                &&& crate::quant::plain(quant_type, data@) is Some
                &&& n <= crate::quant::plain(quant_type, data@)->0.len()
                &&& v@ == crate::quant::plain(quant_type, data@)->0.subrange(0, n as int)
            },
            Err(TensorError::QuantType(q)) => crate::quant::plain(quant_type, data@) is None && q
                == quant_type,
            Err(TensorError::Shape { expected, got }) => {
                &&& crate::quant::plain(quant_type, data@) is Some
                &&& expected == n
                &&& got == crate::quant::plain(quant_type, data@)->0.len()
                &&& got < n
            },
        },
{
    match decode_plain(quant_type, data) {
        Err(e) => Err(e),
        Ok(v) => {
            let got: usize = v.len();
            if got < n {
                return Err(TensorError::Shape { expected: n, got });
            }
            let mut v: Vec<F32> = v;
            let ghost whole = v@;
            v.truncate(n);
            assert(v@ =~= whole.subrange(0, n as int));
            Ok(v)
        },
    }
}

/// Whether a tensor can serve as a half-precision weight: only if it is stored as
/// one.
pub fn check_f16(quant_type: u8) -> (r: Result<(), TensorError>)
    ensures
        match r {
            Ok(_) => quant_type == 1,
            Err(e) => quant_type != 1 && e == TensorError::QuantType(quant_type),
        },
{
    if quant_type == 1 {
        Ok(())
    } else {
        Err(TensorError::QuantType(quant_type))
    }
}

/// The parts of one layer.
#[derive(Debug, Clone, Copy, PartialEq, Eq, Structural)]
pub enum VisionPart {
    Norm1W,
    Norm1B,
    QkvW,
    QkvB,
    ProjW,
    ProjB,
    Norm2W,
    Norm2B,
    Fc1W,
    Fc1B,
    Fc2W,
    Fc2B,
}

/// The weights of the encoder.
#[derive(Debug, Clone, Copy, PartialEq, Eq, Structural)]
pub enum VisionWt {
    PatchEmbedW,
    PatchEmbedB,
    PosEmbed,
    MergerNormW,
    MergerNormB,
    MergerFc1W,
    MergerFc1B,
    MergerFc2W,
    MergerFc2B,
    Layer(usize, VisionPart),
}

impl VisionConfig {
    /// Numbers in a patch of three channels.
    pub open spec fn patch_dim(self) -> int {
        3 * self.temporal_patch_size * self.patch_size * self.patch_size
    }

    /// Width of the patches that are merged into one token.
    pub open spec fn merge_dim(self) -> int {
        self.hidden_size * self.spatial_merge_size * self.spatial_merge_size
    }

    /// Every weight can be addressed.
    pub open spec fn weights_fit(self) -> bool {
        &&& 3 * self.hidden_size <= usize::MAX
        &&& 2304 * self.hidden_size <= usize::MAX
        &&& 3 * self.temporal_patch_size * self.patch_size <= usize::MAX
        &&& 3 * self.temporal_patch_size <= usize::MAX
        &&& self.patch_dim() <= usize::MAX
        &&& self.hidden_size * self.spatial_merge_size <= usize::MAX
        &&& self.merge_dim() <= usize::MAX
    }
}

fn patch_width(c: &VisionConfig) -> (r: usize)
    requires
        c.weights_fit(),
    ensures
        r == c.patch_dim(),
{
    proof {
        assert(0 <= 3 * c.temporal_patch_size * c.patch_size) by (nonlinear_arith);
    }
    3 * c.temporal_patch_size * c.patch_size * c.patch_size
}

fn merge_width(c: &VisionConfig) -> (r: usize)
    requires
        c.weights_fit(),
    ensures
        r == c.merge_dim(),
{
    proof {
        assert(0 <= c.hidden_size * c.spatial_merge_size) by (nonlinear_arith);
    }
    c.hidden_size * c.spatial_merge_size * c.spatial_merge_size
}

pub open spec fn plain_tensor(
    place: VisionWt,
    name: Seq<char>,
    kind: LoadKind,
    m: nat,
    k: nat,
) -> crate::names::Tensor<VisionWt> {
    crate::names::Tensor { place, name, kind, m, k }
}

pub open spec fn tensor(
    place: VisionWt,
    i: nat,
    tail: Seq<char>,
    kind: LoadKind,
    m: nat,
    k: nat,
) -> crate::names::Tensor<VisionWt> {
    crate::names::Tensor { place, name: crate::names::numbered("model.visual.blocks."@, i, tail), kind, m, k }
}

/// The tensors of layer `i`.
pub open spec fn layer_tensors(c: VisionConfig, i: nat) -> Seq<crate::names::Tensor<VisionWt>> {
    let h = c.hidden_size as nat;
    let h3 = (3 * c.hidden_size) as nat;
    let mlp = c.mlp_dim as nat;
    seq![
        tensor(
            VisionWt::Layer(i as usize, VisionPart::Norm1W),
            i,
            ".norm1.weight"@,
            LoadKind::First,
            1,
            h,
        ),
        tensor(
            VisionWt::Layer(i as usize, VisionPart::Norm1B),
            i,
            ".norm1.bias"@,
            LoadKind::First,
            1,
            h,
        ),
        tensor(
            VisionWt::Layer(i as usize, VisionPart::QkvW),
            i,
            ".attn.qkv.weight"@,
            LoadKind::HalfWeight,
            h3,
            h,
        ),
        tensor(
            VisionWt::Layer(i as usize, VisionPart::QkvB),
            i,
            ".attn.qkv.bias"@,
            LoadKind::First,
            1,
            h3,
        ),
        tensor(
            VisionWt::Layer(i as usize, VisionPart::ProjW),
            i,
            ".attn.proj.weight"@,
            LoadKind::HalfWeight,
            h,
            h,
        ),
        tensor(
            VisionWt::Layer(i as usize, VisionPart::ProjB),
            i,
            ".attn.proj.bias"@,
            LoadKind::First,
            1,
            h,
        ),
        tensor(
            VisionWt::Layer(i as usize, VisionPart::Norm2W),
            i,
            ".norm2.weight"@,
            LoadKind::First,
            1,
            h,
        ),
        tensor(
            VisionWt::Layer(i as usize, VisionPart::Norm2B),
            i,
            ".norm2.bias"@,
            LoadKind::First,
            1,
            h,
        ),
        tensor(
            VisionWt::Layer(i as usize, VisionPart::Fc1W),
            i,
            ".mlp.linear_fc1.weight"@,
            LoadKind::HalfWeight,
            mlp,
            h,
        ),
        tensor(
            VisionWt::Layer(i as usize, VisionPart::Fc1B),
            i,
            ".mlp.linear_fc1.bias"@,
            LoadKind::First,
            1,
            mlp,
        ),
        tensor(
            VisionWt::Layer(i as usize, VisionPart::Fc2W),
            i,
            ".mlp.linear_fc2.weight"@,
            LoadKind::HalfWeight,
            h,
            mlp,
        ),
        tensor(
            VisionWt::Layer(i as usize, VisionPart::Fc2B),
            i,
            ".mlp.linear_fc2.bias"@,
            LoadKind::First,
            1,
            h,
        ),
    ]
}

/// The tensors of the first `n` layers.
pub open spec fn layers_tensors(c: VisionConfig, n: nat) -> Seq<crate::names::Tensor<VisionWt>>
    decreases n,
{
    if n == 0 {
        Seq::empty()
    } else {
        layers_tensors(c, (n - 1) as nat) + layer_tensors(c, (n - 1) as nat)
    }
}

/// All the tensors of the encoder: the embeddings of up to 2304 patches, the
/// layers, the merger.
pub open spec fn all_tensors(c: VisionConfig) -> Seq<crate::names::Tensor<VisionWt>> {
    let h = c.hidden_size as nat;
    let patch = c.patch_dim() as nat;
    let merge = c.merge_dim() as nat;
    let out = c.out_hidden_size as nat;
    seq![
        plain_tensor(
            VisionWt::PatchEmbedW,
            "model.visual.patch_embed.proj.weight"@,
            LoadKind::HalfWeight,
            h,
            patch,
        ),
        plain_tensor(
            VisionWt::PatchEmbedB,
            "model.visual.patch_embed.proj.bias"@,
            LoadKind::First,
            1,
            h,
        ),
        plain_tensor(
            VisionWt::PosEmbed,
            "model.visual.pos_embed.weight"@,
            LoadKind::First,
            2304,
            h,
        ),
    ] + layers_tensors(c, c.num_layers as nat) + seq![
        plain_tensor(
            VisionWt::MergerNormW,
            "model.visual.merger.norm.weight"@,
            LoadKind::First,
            1,
            h,
        ),
        plain_tensor(
            VisionWt::MergerNormB,
            "model.visual.merger.norm.bias"@,
            LoadKind::First,
            1,
            h,
        ),
        plain_tensor(
            VisionWt::MergerFc1W,
            "model.visual.merger.linear_fc1.weight"@,
            LoadKind::HalfWeight,
            merge,
            merge,
        ),
        plain_tensor(
            VisionWt::MergerFc1B,
            "model.visual.merger.linear_fc1.bias"@,
            LoadKind::First,
            1,
            merge,
        ),
        plain_tensor(
            VisionWt::MergerFc2W,
            "model.visual.merger.linear_fc2.weight"@,
            LoadKind::HalfWeight,
            out,
            merge,
        ),
        plain_tensor(
            VisionWt::MergerFc2B,
            "model.visual.merger.linear_fc2.bias"@,
            LoadKind::First,
            1,
            out,
        ),
    ]
}

fn push_layer(v: &mut Vec<TensorSpec<VisionWt>>, c: &VisionConfig, i: usize)
    requires
        c.weights_fit(),
    ensures
        crate::names::tensors(final(v)@) == crate::names::tensors(old(v)@) + layer_tensors(
            *c,
            i as nat,
        ),
{
    let ghost before = crate::names::tensors(v@);
    let h: usize = c.hidden_size;
    let h3: usize = 3 * c.hidden_size;
    let mlp: usize = c.mlp_dim;
    push_tensor(
        v,
        VisionWt::Layer(i, VisionPart::Norm1W),
        numbered_name("model.visual.blocks.", i, ".norm1.weight"),
        LoadKind::First,
        1,
        h,
    );
    push_tensor(
        v,
        VisionWt::Layer(i, VisionPart::Norm1B),
        numbered_name("model.visual.blocks.", i, ".norm1.bias"),
        LoadKind::First,
        1,
        h,
    );
    push_tensor(
        v,
        VisionWt::Layer(i, VisionPart::QkvW),
        numbered_name("model.visual.blocks.", i, ".attn.qkv.weight"),
        LoadKind::HalfWeight,
        h3,
        h,
    );
    push_tensor(
        v,
        VisionWt::Layer(i, VisionPart::QkvB),
        numbered_name("model.visual.blocks.", i, ".attn.qkv.bias"),
        LoadKind::First,
        1,
        h3,
    );
    push_tensor(
        v,
        VisionWt::Layer(i, VisionPart::ProjW),
        numbered_name("model.visual.blocks.", i, ".attn.proj.weight"),
        LoadKind::HalfWeight,
        h,
        h,
    );
    push_tensor(
        v,
        VisionWt::Layer(i, VisionPart::ProjB),
        numbered_name("model.visual.blocks.", i, ".attn.proj.bias"),
        LoadKind::First,
        1,
        h,
    );
    push_tensor(
        v,
        VisionWt::Layer(i, VisionPart::Norm2W),
        numbered_name("model.visual.blocks.", i, ".norm2.weight"),
        LoadKind::First,
        1,
        h,
    );
    push_tensor(
        v,
        VisionWt::Layer(i, VisionPart::Norm2B),
        numbered_name("model.visual.blocks.", i, ".norm2.bias"),
        LoadKind::First,
        1,
        h,
    );
    push_tensor(
        v,
        VisionWt::Layer(i, VisionPart::Fc1W),
        numbered_name("model.visual.blocks.", i, ".mlp.linear_fc1.weight"),
        LoadKind::HalfWeight,
        mlp,
        h,
    );
    push_tensor(
        v,
        VisionWt::Layer(i, VisionPart::Fc1B),
        numbered_name("model.visual.blocks.", i, ".mlp.linear_fc1.bias"),
        LoadKind::First,
        1,
        mlp,
    );
    push_tensor(
        v,
        VisionWt::Layer(i, VisionPart::Fc2W),
        numbered_name("model.visual.blocks.", i, ".mlp.linear_fc2.weight"),
        LoadKind::HalfWeight,
        h,
        mlp,
    );
    push_tensor(
        v,
        VisionWt::Layer(i, VisionPart::Fc2B),
        numbered_name("model.visual.blocks.", i, ".mlp.linear_fc2.bias"),
        LoadKind::First,
        1,
        h,
    );
    assert(crate::names::tensors(v@) =~= before + layer_tensors(*c, i as nat));
}

/// The tensors to load, in order.
pub fn load_vision_weights(c: &VisionConfig) -> (v: Vec<TensorSpec<VisionWt>>)
    requires
        c.weights_fit(),
    ensures
        crate::names::tensors(v@) == all_tensors(*c),
{
    let h: usize = c.hidden_size;
    let patch: usize = patch_width(c);
    let merge: usize = merge_width(c);
    let out: usize = c.out_hidden_size;
    let mut v: Vec<TensorSpec<VisionWt>> = Vec::new();
    assert(crate::names::tensors(v@) =~= Seq::<crate::names::Tensor<VisionWt>>::empty());
    push_tensor(
        &mut v,
        VisionWt::PatchEmbedW,
        "model.visual.patch_embed.proj.weight".to_owned(),
        LoadKind::HalfWeight,
        h,
        patch,
    );
    push_tensor(
        &mut v,
        VisionWt::PatchEmbedB,
        "model.visual.patch_embed.proj.bias".to_owned(),
        LoadKind::First,
        1,
        h,
    );
    push_tensor(
        &mut v,
        VisionWt::PosEmbed,
        "model.visual.pos_embed.weight".to_owned(),
        LoadKind::First,
        2304,
        h,
    );
    let ghost head = crate::names::tensors(v@);
    assert(head + layers_tensors(*c, 0) =~= head);
    let mut i: usize = 0;
    while i < c.num_layers
        invariant
            i <= c.num_layers,
            c.weights_fit(),
            crate::names::tensors(v@) == head + layers_tensors(*c, i as nat),
        decreases c.num_layers - i,
    {
        push_layer(&mut v, c, i);
        assert(crate::names::tensors(v@) =~= head + layers_tensors(*c, (i + 1) as nat));
        i = i + 1;
    }
    push_tensor(
        &mut v,
        VisionWt::MergerNormW,
        "model.visual.merger.norm.weight".to_owned(),
        LoadKind::First,
        1,
        h,
    );
    push_tensor(
        &mut v,
        VisionWt::MergerNormB,
        "model.visual.merger.norm.bias".to_owned(),
        LoadKind::First,
        1,
        h,
    );
    push_tensor(
        &mut v,
        VisionWt::MergerFc1W,
        "model.visual.merger.linear_fc1.weight".to_owned(),
        LoadKind::HalfWeight,
        merge,
        merge,
    );
    push_tensor(
        &mut v,
        VisionWt::MergerFc1B,
        "model.visual.merger.linear_fc1.bias".to_owned(),
        LoadKind::First,
        1,
        merge,
    );
    push_tensor(
        &mut v,
        VisionWt::MergerFc2W,
        "model.visual.merger.linear_fc2.weight".to_owned(),
        LoadKind::HalfWeight,
        out,
        merge,
    );
    push_tensor(
        &mut v,
        VisionWt::MergerFc2B,
        "model.visual.merger.linear_fc2.bias".to_owned(),
        LoadKind::First,
        1,
        out,
    );
    assert(crate::names::tensors(v@) =~= all_tensors(*c));
    v
}

// Assembly.

/// Every tensor of a layer is read on its own.
proof fn lemma_layers_kinds(c: VisionConfig, n: nat, j: int)
    requires
        0 <= j < layers_tensors(c, n).len(),
    ensures
        layers_tensors(c, n)[j].kind == LoadKind::First || layers_tensors(c, n)[j].kind
            == LoadKind::HalfWeight,
    decreases n,
{
    let m = (n - 1) as nat;
    if j < layers_tensors(c, m).len() {
        lemma_layers_kinds(c, m, j);
    } else {
        let part = layer_tensors(c, m);
        assert(layers_tensors(c, n)[j] == part[j - layers_tensors(c, m).len()]);
    }
}

proof fn lemma_kinds(c: VisionConfig, j: int)
    requires
        0 <= j < all_tensors(c).len(),
    ensures
        all_tensors(c)[j].kind == LoadKind::First || all_tensors(c)[j].kind == LoadKind::HalfWeight,
{
    let l = layers_tensors(c, c.num_layers as nat);
    if 3 <= j < 3 + l.len() {
        lemma_layers_kinds(c, c.num_layers as nat, j - 3);
        assert(all_tensors(c)[j] == l[j - 3]);
    }
}

/// The encoder's weights out of a file, each in its place, in the order of
/// [`load_vision_weights`]; or the first tensor that is missing, too short or of
/// another storage type.
pub fn assemble(c: &VisionConfig, file: &crate::loading::TensorFile) -> (r: Result<
    Vec<crate::loading::Placed<VisionWt>>,
    crate::loading::LoadError,
>)
    requires
        c.weights_fit(),
    ensures
        ({
            let ts = file.tensors@;
            let all = all_tensors(*c);
            match r {
                Ok(v) => {
                    &&& v@.len() == all.len()
                    &&& forall|j: int|
                        0 <= j < all.len() ==> {
                            &&& (#[trigger] v@[j]).place == all[j].place
                            &&& crate::loading::told(ts, all, j) == Ok::<
                                crate::loading::Told,
                                crate::loading::Fault,
                            >(v@[j]@.1)
                        }
                },
                Err(e) => crate::loading::first_fault(ts, all, e),
            }
        }),
{
    let specs: Vec<TensorSpec<VisionWt>> = load_vision_weights(c);
    let ghost ts = file.tensors@;
    let ghost all = all_tensors(*c);
    proof {
        assert forall|j: int| 0 <= j < all.len() implies {
            &&& (#[trigger] all[j]).kind != LoadKind::AsHalfWithNext
            &&& !(all[j].kind is Pooled)
        } by {
            lemma_kinds(*c, j);
        }
        crate::loading::law_packed_plainly(ts, all, all.len());
    }
    let r = crate::loading::place_all(file, &specs);
    proof {
        if let Ok(v) = &r {
            let p = crate::loading::placed(v@);
            assert(p.len() == all.len());
            assert forall|j: int| 0 <= j < all.len() implies {
                &&& (#[trigger] v@[j]).place == all[j].place
                &&& crate::loading::told(ts, all, j) == Ok::<
                    crate::loading::Told,
                    crate::loading::Fault,
                >(v@[j]@.1)
            } by {
                assert(p[j] == v@[j]@);
                assert(crate::loading::told(ts, all, j) is Ok);
            }
        }
    }
    r
}

// Forward pass.

/// The buffers of a forward pass.
#[derive(Debug, Clone, Copy, PartialEq, Eq, Structural)]
pub enum VisionBuf {
    Patches,
    /// The hidden states.
    X,
    /// A product before it is transposed.
    Yt,
    Tmp,
    Qkv,
    AttnOut,
    Proj,
    Fc1,
    Fc2,
    Normed,
    Merged,
    M1,
    M2,
}

pub type VisionOp = Op<VisionBuf, VisionWt>;

/// `n` rows of `k` times a half-precision weight of `m` rows, plus a bias, in a
/// buffer of its own: the product comes out transposed and is turned.
pub open spec fn linear_ops(
    w: VisionWt,
    x: VisionBuf,
    bias: VisionWt,
    y: VisionBuf,
    m: usize,
    k: usize,
    n: usize,
) -> Seq<VisionOp> {
    seq![
        Op::Alloc { buf: VisionBuf::Yt, elems: (m * n) as usize },
        Op::GemmF16 { w, x, y: VisionBuf::Yt, m, k, rows: n },
        Op::Alloc { buf: y, elems: (n * m) as usize },
        Op::Transpose { x: VisionBuf::Yt, out: y, rows: m, cols: n },
        Op::Free { buf: VisionBuf::Yt },
        Op::BiasAdd { x: y, b: bias, rows: n, n: m },
    ]
}

/// Rows times a half-precision weight, plus a bias.
pub fn linear_f16(
    w: VisionWt,
    x: VisionBuf,
    bias: VisionWt,
    y: VisionBuf,
    m: usize,
    k: usize,
    n: usize,
) -> (ops: Vec<VisionOp>)
    requires
        m * n <= usize::MAX,
    ensures
        ops@ == linear_ops(w, x, bias, y, m, k, n),
{
    assert(m * n == n * m) by (nonlinear_arith);
    vec![
        Op::Alloc { buf: VisionBuf::Yt, elems: m * n },
        Op::GemmF16 { w, x, y: VisionBuf::Yt, m, k, rows: n },
        Op::Alloc { buf: y, elems: n * m },
        Op::Transpose { x: VisionBuf::Yt, out: y, rows: m, cols: n },
        Op::Free { buf: VisionBuf::Yt },
        Op::BiasAdd { x: y, b: bias, rows: n, n: m },
    ]
}

impl VisionConfig {
    /// The buffers for `n` patches can be addressed.
    pub open spec fn fits(self, n: int) -> bool {
        &&& self.weights_fit()
        &&& 4 * (n * self.hidden_size) <= usize::MAX
        &&& 4 * (n * (3 * self.hidden_size)) <= usize::MAX
        &&& 4 * (n * self.mlp_dim) <= usize::MAX
        &&& 4 * (n * self.patch_dim()) <= usize::MAX
    }

    /// The buffers for `n` merged tokens can be addressed.
    pub open spec fn merged_fits(self, n: int) -> bool {
        &&& self.weights_fit()
        &&& 4 * (n * self.merge_dim()) <= usize::MAX
        &&& 4 * (n * self.out_hidden_size) <= usize::MAX
    }
}

pub proof fn lemma_fits(c: VisionConfig, n: int)
    requires
        c.fits(n),
        n >= 0,
    ensures
        0 <= n * c.hidden_size == c.hidden_size * n,
        0 <= n * (3 * c.hidden_size) == (3 * c.hidden_size) * n,
        0 <= n * c.mlp_dim == c.mlp_dim * n,
        0 <= c.patch_dim(),
        0 <= n * c.patch_dim() == c.patch_dim() * n,
{
    assert(0 <= n * c.hidden_size == c.hidden_size * n) by (nonlinear_arith)
        requires
            n >= 0,
    ;
    assert(0 <= n * (3 * c.hidden_size) == (3 * c.hidden_size) * n) by (nonlinear_arith)
        requires
            n >= 0,
    ;
    assert(0 <= n * c.mlp_dim == c.mlp_dim * n) by (nonlinear_arith)
        requires
            n >= 0,
    ;
    let t = 3 * c.temporal_patch_size;
    assert(0 <= t * c.patch_size) by (nonlinear_arith)
        requires
            t >= 0,
    ;
    let tp = t * c.patch_size;
    assert(0 <= tp * c.patch_size) by (nonlinear_arith)
        requires
            tp >= 0,
    ;
    let pd = c.patch_dim();
    assert(0 <= n * pd == pd * n) by (nonlinear_arith)
        requires
            n >= 0,
            pd >= 0,
    ;
}

/// Take the patches from the host.
pub open spec fn patches_ops(c: VisionConfig, n: usize) -> Seq<VisionOp> {
    let elems = (n * c.patch_dim()) as usize;
    seq![
        Op::Alloc { buf: VisionBuf::Patches, elems: elems },
        Op::Upload { buf: VisionBuf::Patches, elems: elems },
    ]
}

fn patches(c: &VisionConfig, n: usize) -> (ops: Vec<VisionOp>)
    requires
        c.fits(n as int),
    ensures
        ops@ == patches_ops(*c, n),
{
    proof {
        lemma_fits(*c, n as int);
    }
    let elems: usize = n * patch_width(c);
    vec![
        Op::Alloc { buf: VisionBuf::Patches, elems: elems },
        Op::Upload { buf: VisionBuf::Patches, elems: elems },
    ]
}

/// Give the patches back and add the position embeddings.
pub open spec fn positions_ops() -> Seq<VisionOp> {
    seq![
        Op::Free { buf: VisionBuf::Patches },
        Op::AddWeight { x: VisionBuf::X, w: VisionWt::PosEmbed },
    ]
}

fn positions() -> (ops: Vec<VisionOp>)
    ensures
        ops@ == positions_ops(),
{
    vec![
        Op::Free { buf: VisionBuf::Patches },
        Op::AddWeight { x: VisionBuf::X, w: VisionWt::PosEmbed },
    ]
}

/// Norm before attention.
pub open spec fn attn_in_ops(c: VisionConfig, i: usize, n: usize) -> Seq<VisionOp> {
    let nh = (n * c.hidden_size) as usize;
    seq![
        Op::Alloc { buf: VisionBuf::Tmp, elems: nh },
        Op::LayerNormRows {
            x: VisionBuf::X,
            w: VisionWt::Layer(i, VisionPart::Norm1W),
            b: VisionWt::Layer(i, VisionPart::Norm1B),
            out: VisionBuf::Tmp,
            rows: n,
            n: c.hidden_size,
            eps: c.norm_eps,
        },
    ]
}

fn attn_in(c: &VisionConfig, i: usize, n: usize) -> (ops: Vec<VisionOp>)
    requires
        c.fits(n as int),
    ensures
        ops@ == attn_in_ops(*c, i, n),
{
    proof {
        lemma_fits(*c, n as int);
    }
    let nh: usize = n * c.hidden_size;
    vec![
        Op::Alloc { buf: VisionBuf::Tmp, elems: nh },
        Op::LayerNormRows {
            x: VisionBuf::X,
            w: VisionWt::Layer(i, VisionPart::Norm1W),
            b: VisionWt::Layer(i, VisionPart::Norm1B),
            out: VisionBuf::Tmp,
            rows: n,
            n: c.hidden_size,
            eps: c.norm_eps,
        },
    ]
}

/// Attention.
pub open spec fn attn_core_ops(c: VisionConfig, n: usize) -> Seq<VisionOp> {
    let nh = (n * c.hidden_size) as usize;
    seq![
        Op::Free { buf: VisionBuf::Tmp },
        Op::Alloc { buf: VisionBuf::AttnOut, elems: nh },
        Op::VitAttend {
            qkv: VisionBuf::Qkv,
            out: VisionBuf::AttnOut,
            n,
            hidden: c.hidden_size,
            heads: c.num_heads,
            dim: c.head_dim,
        },
        Op::Free { buf: VisionBuf::Qkv },
    ]
}

fn attn_core(c: &VisionConfig, n: usize) -> (ops: Vec<VisionOp>)
    requires
        c.fits(n as int),
    ensures
        ops@ == attn_core_ops(*c, n),
{
    proof {
        lemma_fits(*c, n as int);
    }
    let nh: usize = n * c.hidden_size;
    vec![
        Op::Free { buf: VisionBuf::Tmp },
        Op::Alloc { buf: VisionBuf::AttnOut, elems: nh },
        Op::VitAttend {
            qkv: VisionBuf::Qkv,
            out: VisionBuf::AttnOut,
            n,
            hidden: c.hidden_size,
            heads: c.num_heads,
            dim: c.head_dim,
        },
        Op::Free { buf: VisionBuf::Qkv },
    ]
}

/// Residual after attention, and the norm before the feed-forward part.
pub open spec fn mlp_in_ops(c: VisionConfig, i: usize, n: usize) -> Seq<VisionOp> {
    let nh = (n * c.hidden_size) as usize;
    seq![
        Op::Free { buf: VisionBuf::AttnOut },
        Op::AddTo { x: VisionBuf::X, y: VisionBuf::Proj },
        Op::Free { buf: VisionBuf::Proj },
        Op::Alloc { buf: VisionBuf::Tmp, elems: nh },
        Op::LayerNormRows {
            x: VisionBuf::X,
            w: VisionWt::Layer(i, VisionPart::Norm2W),
            b: VisionWt::Layer(i, VisionPart::Norm2B),
            out: VisionBuf::Tmp,
            rows: n,
            n: c.hidden_size,
            eps: c.norm_eps,
        },
    ]
}

fn mlp_in(c: &VisionConfig, i: usize, n: usize) -> (ops: Vec<VisionOp>)
    requires
        c.fits(n as int),
    ensures
        ops@ == mlp_in_ops(*c, i, n),
{
    proof {
        lemma_fits(*c, n as int);
    }
    let nh: usize = n * c.hidden_size;
    vec![
        Op::Free { buf: VisionBuf::AttnOut },
        Op::AddTo { x: VisionBuf::X, y: VisionBuf::Proj },
        Op::Free { buf: VisionBuf::Proj },
        Op::Alloc { buf: VisionBuf::Tmp, elems: nh },
        Op::LayerNormRows {
            x: VisionBuf::X,
            w: VisionWt::Layer(i, VisionPart::Norm2W),
            b: VisionWt::Layer(i, VisionPart::Norm2B),
            out: VisionBuf::Tmp,
            rows: n,
            n: c.hidden_size,
            eps: c.norm_eps,
        },
    ]
}

/// The nonlinearity of the feed-forward part.
pub open spec fn mlp_core_ops(c: VisionConfig, n: usize) -> Seq<VisionOp> {
    let elems = (n * c.mlp_dim) as usize;
    seq![
        Op::Free { buf: VisionBuf::Tmp },
        Op::GeluTanh { x: VisionBuf::Fc1, out: VisionBuf::Fc1, n: elems },
    ]
}

fn mlp_core(c: &VisionConfig, n: usize) -> (ops: Vec<VisionOp>)
    requires
        c.fits(n as int),
    ensures
        ops@ == mlp_core_ops(*c, n),
{
    proof {
        lemma_fits(*c, n as int);
    }
    let elems: usize = n * c.mlp_dim;
    vec![
        Op::Free { buf: VisionBuf::Tmp },
        Op::GeluTanh { x: VisionBuf::Fc1, out: VisionBuf::Fc1, n: elems },
    ]
}

/// Residual after the feed-forward part.
pub open spec fn mlp_out_ops() -> Seq<VisionOp> {
    seq![
        Op::Free { buf: VisionBuf::Fc1 },
        Op::AddTo { x: VisionBuf::X, y: VisionBuf::Fc2 },
        Op::Free { buf: VisionBuf::Fc2 },
    ]
}

fn mlp_out() -> (ops: Vec<VisionOp>)
    ensures
        ops@ == mlp_out_ops(),
{
    vec![
        Op::Free { buf: VisionBuf::Fc1 },
        Op::AddTo { x: VisionBuf::X, y: VisionBuf::Fc2 },
        Op::Free { buf: VisionBuf::Fc2 },
    ]
}

/// The device is waited for after every ninth layer and the last.
pub open spec fn waits(c: VisionConfig, i: int) -> bool {
    i % 9 == 0 || i == c.num_layers - 1
}

/// The attention part of layer `i`, up to the norm before the feed-forward part.
pub open spec fn attn_ops(c: VisionConfig, i: usize, n: usize) -> Seq<VisionOp> {
    let h = c.hidden_size;
    let h3 = (3 * h) as usize;
    attn_in_ops(c, i, n) + linear_ops(
        VisionWt::Layer(i, VisionPart::QkvW),
        VisionBuf::Tmp,
        VisionWt::Layer(i, VisionPart::QkvB),
        VisionBuf::Qkv,
        h3,
        h,
        n,
    ) + attn_core_ops(c, n) + linear_ops(
        VisionWt::Layer(i, VisionPart::ProjW),
        VisionBuf::AttnOut,
        VisionWt::Layer(i, VisionPart::ProjB),
        VisionBuf::Proj,
        h,
        h,
        n,
    ) + mlp_in_ops(c, i, n)
}

/// The feed-forward part of layer `i`.
pub open spec fn mlp_ops(c: VisionConfig, i: usize, n: usize) -> Seq<VisionOp> {
    let h = c.hidden_size;
    linear_ops(
        VisionWt::Layer(i, VisionPart::Fc1W),
        VisionBuf::Tmp,
        VisionWt::Layer(i, VisionPart::Fc1B),
        VisionBuf::Fc1,
        c.mlp_dim,
        h,
        n,
    ) + mlp_core_ops(c, n) + linear_ops(
        VisionWt::Layer(i, VisionPart::Fc2W),
        VisionBuf::Fc1,
        VisionWt::Layer(i, VisionPart::Fc2B),
        VisionBuf::Fc2,
        h,
        c.mlp_dim,
        n,
    ) + mlp_out_ops()
}

pub open spec fn wait_ops(c: VisionConfig, i: int) -> Seq<VisionOp> {
    if waits(c, i) {
        seq![Op::Sync]
    } else {
        Seq::empty()
    }
}

/// Layer `i`.
pub open spec fn layer_ops(c: VisionConfig, i: usize, n: usize) -> Seq<VisionOp> {
    attn_ops(c, i, n) + mlp_ops(c, i, n) + wait_ops(c, i as int)
}

/// The first `k` layers.
pub open spec fn layers_ops(c: VisionConfig, k: nat, n: usize) -> Seq<VisionOp>
    decreases k,
{
    if k == 0 {
        Seq::empty()
    } else {
        layers_ops(c, (k - 1) as nat, n) + layer_ops(c, (k - 1) as usize, n)
    }
}

/// The final norm, to the host.
pub open spec fn norm_ops(c: VisionConfig, n: usize) -> Seq<VisionOp> {
    let nh = (n * c.hidden_size) as usize;
    seq![
        Op::Alloc { buf: VisionBuf::Normed, elems: nh },
        Op::LayerNormRows {
            x: VisionBuf::X,
            w: VisionWt::MergerNormW,
            b: VisionWt::MergerNormB,
            out: VisionBuf::Normed,
            rows: n,
            n: c.hidden_size,
            eps: c.norm_eps,
        },
        Op::Free { buf: VisionBuf::X },
        Op::Download { buf: VisionBuf::Normed },
        Op::Free { buf: VisionBuf::Normed },
    ]
}

fn norm(c: &VisionConfig, n: usize) -> (ops: Vec<VisionOp>)
    requires
        c.fits(n as int),
    ensures
        ops@ == norm_ops(*c, n),
{
    proof {
        lemma_fits(*c, n as int);
    }
    let nh: usize = n * c.hidden_size;
    vec![
        Op::Alloc { buf: VisionBuf::Normed, elems: nh },
        Op::LayerNormRows {
            x: VisionBuf::X,
            w: VisionWt::MergerNormW,
            b: VisionWt::MergerNormB,
            out: VisionBuf::Normed,
            rows: n,
            n: c.hidden_size,
            eps: c.norm_eps,
        },
        Op::Free { buf: VisionBuf::X },
        Op::Download { buf: VisionBuf::Normed },
        Op::Free { buf: VisionBuf::Normed },
    ]
}

/// From `n` patches on the host to their normed hidden states on the host.
pub open spec fn encode_ops(c: VisionConfig, n: usize) -> Seq<VisionOp> {
    patches_ops(c, n) + linear_ops(
        VisionWt::PatchEmbedW,
        VisionBuf::Patches,
        VisionWt::PatchEmbedB,
        VisionBuf::X,
        c.hidden_size,
        c.patch_dim() as usize,
        n,
    ) + positions_ops() + layers_ops(c, c.num_layers as nat, n) + norm_ops(c, n)
}

fn wait(c: &VisionConfig, i: usize) -> (ops: Vec<VisionOp>)
    requires
        i < c.num_layers,
    ensures
        ops@ == wait_ops(*c, i as int),
{
    if i % 9 == 0 || i == c.num_layers - 1 {
        vec![Op::Sync]
    } else {
        Vec::new()
    }
}

fn attn(c: &VisionConfig, i: usize, n: usize) -> (ops: Vec<VisionOp>)
    requires
        c.fits(n as int),
    ensures
        ops@ == attn_ops(*c, i, n),
{
    proof {
        lemma_fits(*c, n as int);
    }
    let h: usize = c.hidden_size;
    let mut ops: Vec<VisionOp> = attn_in(c, i, n);
    extend(
        &mut ops,
        linear_f16(
            VisionWt::Layer(i, VisionPart::QkvW),
            VisionBuf::Tmp,
            VisionWt::Layer(i, VisionPart::QkvB),
            VisionBuf::Qkv,
            3 * h,
            h,
            n,
        ),
    );
    extend(&mut ops, attn_core(c, n));
    extend(
        &mut ops,
        linear_f16(
            VisionWt::Layer(i, VisionPart::ProjW),
            VisionBuf::AttnOut,
            VisionWt::Layer(i, VisionPart::ProjB),
            VisionBuf::Proj,
            h,
            h,
            n,
        ),
    );
    extend(&mut ops, mlp_in(c, i, n));
    ops
}

fn mlp(c: &VisionConfig, i: usize, n: usize) -> (ops: Vec<VisionOp>)
    requires
        c.fits(n as int),
    ensures
        ops@ == mlp_ops(*c, i, n),
{
    proof {
        lemma_fits(*c, n as int);
    }
    let h: usize = c.hidden_size;
    let mut ops: Vec<VisionOp> = linear_f16(
        VisionWt::Layer(i, VisionPart::Fc1W),
        VisionBuf::Tmp,
        VisionWt::Layer(i, VisionPart::Fc1B),
        VisionBuf::Fc1,
        c.mlp_dim,
        h,
        n,
    );
    extend(&mut ops, mlp_core(c, n));
    extend(
        &mut ops,
        linear_f16(
            VisionWt::Layer(i, VisionPart::Fc2W),
            VisionBuf::Fc1,
            VisionWt::Layer(i, VisionPart::Fc2B),
            VisionBuf::Fc2,
            h,
            c.mlp_dim,
            n,
        ),
    );
    extend(&mut ops, mlp_out());
    ops
}

fn layer(c: &VisionConfig, i: usize, n: usize) -> (ops: Vec<VisionOp>)
    requires
        c.fits(n as int),
        i < c.num_layers,
    ensures
        ops@ == layer_ops(*c, i, n),
{
    let mut ops: Vec<VisionOp> = attn(c, i, n);
    extend(&mut ops, mlp(c, i, n));
    extend(&mut ops, wait(c, i));
    ops
}

/// From the patches of a grid to their normed hidden states. The host then merges
/// neighbours ([`merge_patches`]) and goes on with [`merger_forward`].
pub fn vision_forward(c: &VisionConfig, grid_h: usize, grid_w: usize) -> (ops: Vec<VisionOp>)
    requires
        grid_h * grid_w <= usize::MAX,
        c.fits(grid_h * grid_w),
    ensures
        ops@ == encode_ops(*c, (grid_h * grid_w) as usize),
{
    let n: usize = grid_h * grid_w;
    proof {
        lemma_fits(*c, n as int);
    }
    let mut ops: Vec<VisionOp> = patches(c, n);
    extend(
        &mut ops,
        linear_f16(
            VisionWt::PatchEmbedW,
            VisionBuf::Patches,
            VisionWt::PatchEmbedB,
            VisionBuf::X,
            c.hidden_size,
            patch_width(c),
            n,
        ),
    );
    extend(&mut ops, positions());
    let ghost head = ops@;
    assert(head + layers_ops(*c, 0, n) =~= head);
    let mut i: usize = 0;
    while i < c.num_layers
        invariant
            i <= c.num_layers,
            c.fits(n as int),
            ops@ == head + layers_ops(*c, i as nat, n),
        decreases c.num_layers - i,
    {
        extend(&mut ops, layer(c, i, n));
        assert(ops@ =~= head + layers_ops(*c, (i + 1) as nat, n));
        i = i + 1;
    }
    extend(&mut ops, norm(c, n));
    ops
}

// Merging.

/// Tokens that a grid is merged into.
pub open spec fn merged_count(sms: int, grid_h: int, grid_w: int) -> int {
    (grid_h / sms) * (grid_w / sms)
}

/// Where element `i` of the merged rows comes from: a merged row holds the rows of
/// a square of patches, line after line.
pub open spec fn merge_source(h: int, sms: int, grid_w: int, i: int) -> int {
    let width = h * sms * sms;
    let token = i / width;
    let sub = (i % width) / h;
    let y = (token / (grid_w / sms)) * sms + sub / sms;
    let x = (token % (grid_w / sms)) * sms + sub % sms;
    (y * grid_w + x) * h + (i % width) % h
}

/// Rows of `h` elements, one per patch of the grid, merged by squares of `sms` by
/// `sms`.
pub open spec fn merged<T>(rows: Seq<T>, h: int, sms: int, grid_h: int, grid_w: int) -> Seq<T> {
    Seq::new(
        (merged_count(sms, grid_h, grid_w) * (h * sms * sms)) as nat,
        |i: int| rows[merge_source(h, sms, grid_w, i)],
    )
}

proof fn lemma_merge_source(h: int, sms: int, grid_h: int, grid_w: int, i: int)
    requires
        h >= 0,
        sms >= 1,
        grid_h >= 0,
        grid_w >= 0,
        0 <= i < merged_count(sms, grid_h, grid_w) * (h * sms * sms),
    ensures
        h >= 1,
        h * sms * sms >= 1,
        grid_w / sms >= 1,
        0 <= i / (h * sms * sms) < merged_count(sms, grid_h, grid_w),
        0 <= (i / (h * sms * sms)) / (grid_w / sms) < grid_h / sms,
        0 <= (i / (h * sms * sms)) % (grid_w / sms) < grid_w / sms,
        0 <= i % (h * sms * sms) < h * sms * sms,
        0 <= (i % (h * sms * sms)) / h < sms * sms,
        0 <= (i % (h * sms * sms)) % h < h,
        ({
            let token = i / (h * sms * sms);
            let sub = (i % (h * sms * sms)) / h;
            &&& 0 <= sub / sms < sms
            &&& 0 <= sub % sms < sms
            &&& 0 <= (token / (grid_w / sms)) * sms
            &&& 0 <= (token % (grid_w / sms)) * sms
            &&& (token / (grid_w / sms)) * sms + sub / sms < grid_h
            &&& (token % (grid_w / sms)) * sms + sub % sms < grid_w
        }),
        0 <= merge_source(h, sms, grid_w, i) < grid_h * grid_w * h,
{
    let s2 = h * sms;
    let width = h * sms * sms;
    let mh = grid_h / sms;
    let mw = grid_w / sms;
    let count = mh * mw;
    assert(mh >= 0 && mw >= 0 && mh * sms <= grid_h && mw * sms <= grid_w) by (nonlinear_arith)
        requires
            sms >= 1,
            grid_h >= 0,
            grid_w >= 0,
            mh == grid_h / sms,
            mw == grid_w / sms,
    ;
    assert(count >= 0 && s2 >= 0) by (nonlinear_arith)
        requires
            count == mh * mw,
            mh >= 0,
            mw >= 0,
            s2 == h * sms,
            h >= 0,
            sms >= 1,
    ;
    assert(width >= 0) by (nonlinear_arith)
        requires
            width == s2 * sms,
            s2 >= 0,
            sms >= 1,
    ;
    assert(width >= 1 && count >= 1) by (nonlinear_arith)
        requires
            0 <= i < count * width,
            count >= 0,
            width >= 0,
    ;
    assert(h >= 1) by (nonlinear_arith)
        requires
            width == h * sms * sms,
            width >= 1,
            h >= 0,
    ;
    assert(mw >= 1) by (nonlinear_arith)
        requires
            count == mh * mw,
            count >= 1,
            mw >= 0,
    ;
    let token = i / width;
    let r = i % width;
    assert(0 <= token < count && 0 <= r < width) by (nonlinear_arith)
        requires
            0 <= i < count * width,
            width >= 1,
            token == i / width,
            r == i % width,
    ;
    let ty = token / mw;
    let tx = token % mw;
    assert(0 <= ty < mh && 0 <= tx < mw) by (nonlinear_arith)
        requires
            0 <= token < mh * mw,
            mw >= 1,
            ty == token / mw,
            tx == token % mw,
    ;
    let sub = r / h;
    let j = r % h;
    assert(0 <= sub < sms * sms && 0 <= j < h) by (nonlinear_arith)
        requires
            0 <= r < h * sms * sms,
            h >= 1,
            sub == r / h,
            j == r % h,
    ;
    let dy = sub / sms;
    let dx = sub % sms;
    assert(0 <= dy < sms && 0 <= dx < sms) by (nonlinear_arith)
        requires
            0 <= sub < sms * sms,
            sms >= 1,
            dy == sub / sms,
            dx == sub % sms,
    ;
    let y = ty * sms + dy;
    let x = tx * sms + dx;
    assert(0 <= ty * sms && y < grid_h) by (nonlinear_arith)
        requires
            0 <= ty < mh,
            mh * sms <= grid_h,
            0 <= dy < sms,
            y == ty * sms + dy,
            sms >= 1,
    ;
    assert(0 <= tx * sms && x < grid_w) by (nonlinear_arith)
        requires
            0 <= tx < mw,
            mw * sms <= grid_w,
            0 <= dx < sms,
            x == tx * sms + dx,
            sms >= 1,
    ;
    let p = y * grid_w + x;
    assert(0 <= p < grid_h * grid_w) by (nonlinear_arith)
        requires
            0 <= y < grid_h,
            0 <= x < grid_w,
            p == y * grid_w + x,
    ;
    let total = grid_h * grid_w;
    assert(0 <= p * h + j < total * h) by (nonlinear_arith)
        requires
            0 <= p < total,
            0 <= j < h,
    ;
}

/// Merges the rows of neighbouring patches.
pub fn merge_patches<T: Copy>(c: &VisionConfig, rows: &Vec<T>, grid_h: usize, grid_w: usize) -> (r: Vec<
    T,
>)
    requires
        c.weights_fit(),
        c.spatial_merge_size >= 1,
        rows@.len() >= grid_h * grid_w * c.hidden_size,
        c.spatial_merge_size * c.spatial_merge_size <= usize::MAX,
        merged_count(c.spatial_merge_size as int, grid_h as int, grid_w as int) <= usize::MAX,
        merged_count(c.spatial_merge_size as int, grid_h as int, grid_w as int) * c.merge_dim()
            <= usize::MAX,
        grid_h * grid_w <= usize::MAX,
    ensures
        r@ == merged(
            rows@,
            c.hidden_size as int,
            c.spatial_merge_size as int,
            grid_h as int,
            grid_w as int,
        ),
{
    let h: usize = c.hidden_size;
    let sms: usize = c.spatial_merge_size;
    let mh: usize = grid_h / sms;
    let mw: usize = grid_w / sms;
    let width: usize = merge_width(c);
    let len: usize = rows.len();
    proof {
        assert(0 <= mh * mw) by (nonlinear_arith);
        let count = mh * mw;
        let w = width as int;
        assert(0 <= count * w) by (nonlinear_arith)
            requires
                count >= 0,
                w >= 0,
        ;
    }
    let total: usize = mh * mw * width;
    let mut r: Vec<T> = Vec::new();
    let mut i: usize = 0;
    while i < total
        invariant
            i <= total,
            total == merged_count(sms as int, grid_h as int, grid_w as int) * (h * sms * sms),
            h == c.hidden_size,
            sms == c.spatial_merge_size,
            sms >= 1,
            width == h * sms * sms,
            mw == grid_w as int / sms as int,
            len == rows@.len() >= grid_h * grid_w * h,
            grid_h * grid_w <= usize::MAX,
            r@.len() == i,
            forall|k: int|
                0 <= k < i ==> #[trigger] r@[k] == rows@[merge_source(
                    h as int,
                    sms as int,
                    grid_w as int,
                    k,
                )],
        decreases total - i,
    {
        proof {
            lemma_merge_source(h as int, sms as int, grid_h as int, grid_w as int, i as int);
        }
        let token: usize = i / width;
        let sub: usize = (i % width) / h;
        let y: usize = (token / mw) * sms + sub / sms;
        let x: usize = (token % mw) * sms + sub % sms;
        proof {
            assert(0 <= y * grid_w && y * grid_w + x < grid_h * grid_w) by (nonlinear_arith)
                requires
                    0 <= y < grid_h,
                    0 <= x < grid_w,
            ;
            let p = y * grid_w + x;
            assert(0 <= p * h) by (nonlinear_arith)
                requires
                    p >= 0,
            ;
        }
        let at: usize = (y * grid_w + x) * h + (i % width) % h;
        assert(at == merge_source(h as int, sms as int, grid_w as int, i as int));
        r.push(rows[at]);
        i = i + 1;
    }
    assert(r@ =~= merged(rows@, h as int, sms as int, grid_h as int, grid_w as int));
    r
}

pub proof fn lemma_merged_fits(c: VisionConfig, n: int)
    requires
        c.merged_fits(n),
        n >= 0,
    ensures
        0 <= c.merge_dim(),
        0 <= n * c.merge_dim() == c.merge_dim() * n,
        0 <= n * c.out_hidden_size == c.out_hidden_size * n,
{
    assert(0 <= c.hidden_size * c.spatial_merge_size) by (nonlinear_arith);
    let hs = c.hidden_size * c.spatial_merge_size;
    assert(0 <= hs * c.spatial_merge_size) by (nonlinear_arith)
        requires
            hs >= 0,
    ;
    let md = c.merge_dim();
    assert(0 <= n * md == md * n) by (nonlinear_arith)
        requires
            n >= 0,
            md >= 0,
    ;
    assert(0 <= n * c.out_hidden_size == c.out_hidden_size * n) by (nonlinear_arith)
        requires
            n >= 0,
    ;
}

/// Take the merged rows from the host.
pub open spec fn merger_in_ops(c: VisionConfig, n: usize) -> Seq<VisionOp> {
    let elems = (n * c.merge_dim()) as usize;
    seq![
        Op::Alloc { buf: VisionBuf::Merged, elems: elems },
        Op::Upload { buf: VisionBuf::Merged, elems: elems },
    ]
}

fn merger_in(c: &VisionConfig, n: usize) -> (ops: Vec<VisionOp>)
    requires
        c.merged_fits(n as int),
    ensures
        ops@ == merger_in_ops(*c, n),
{
    proof {
        lemma_merged_fits(*c, n as int);
    }
    let elems: usize = n * merge_width(c);
    vec![
        Op::Alloc { buf: VisionBuf::Merged, elems: elems },
        Op::Upload { buf: VisionBuf::Merged, elems: elems },
    ]
}

/// The nonlinearity of the merger.
pub open spec fn merger_mid_ops(c: VisionConfig, n: usize) -> Seq<VisionOp> {
    let elems = (n * c.merge_dim()) as usize;
    seq![
        Op::Free { buf: VisionBuf::Merged },
        Op::GeluTanh { x: VisionBuf::M1, out: VisionBuf::M1, n: elems },
    ]
}

fn merger_mid(c: &VisionConfig, n: usize) -> (ops: Vec<VisionOp>)
    requires
        c.merged_fits(n as int),
    ensures
        ops@ == merger_mid_ops(*c, n),
{
    proof {
        lemma_merged_fits(*c, n as int);
    }
    let elems: usize = n * merge_width(c);
    vec![
        Op::Free { buf: VisionBuf::Merged },
        Op::GeluTanh { x: VisionBuf::M1, out: VisionBuf::M1, n: elems },
    ]
}

/// The tokens, to the host.
pub open spec fn merger_out_ops() -> Seq<VisionOp> {
    seq![
        Op::Free { buf: VisionBuf::M1 },
        Op::Download { buf: VisionBuf::M2 },
        Op::Free { buf: VisionBuf::M2 },
    ]
}

fn merger_out() -> (ops: Vec<VisionOp>)
    ensures
        ops@ == merger_out_ops(),
{
    vec![
        Op::Free { buf: VisionBuf::M1 },
        Op::Download { buf: VisionBuf::M2 },
        Op::Free { buf: VisionBuf::M2 },
    ]
}

/// From `n` merged rows on the host to as many tokens on the host.
pub open spec fn merger_ops(c: VisionConfig, n: usize) -> Seq<VisionOp> {
    let md = c.merge_dim() as usize;
    merger_in_ops(c, n) + linear_ops(
        VisionWt::MergerFc1W,
        VisionBuf::Merged,
        VisionWt::MergerFc1B,
        VisionBuf::M1,
        md,
        md,
        n,
    ) + merger_mid_ops(c, n) + linear_ops(
        VisionWt::MergerFc2W,
        VisionBuf::M1,
        VisionWt::MergerFc2B,
        VisionBuf::M2,
        c.out_hidden_size,
        md,
        n,
    ) + merger_out_ops()
}

/// From `n` merged rows to as many tokens.
pub fn merger_forward(c: &VisionConfig, n: usize) -> (ops: Vec<VisionOp>)
    requires
        c.merged_fits(n as int),
    ensures
        ops@ == merger_ops(*c, n),
{
    proof {
        lemma_merged_fits(*c, n as int);
    }
    let md: usize = merge_width(c);
    let mut ops: Vec<VisionOp> = merger_in(c, n);
    extend(
        &mut ops,
        linear_f16(
            VisionWt::MergerFc1W,
            VisionBuf::Merged,
            VisionWt::MergerFc1B,
            VisionBuf::M1,
            md,
            md,
            n,
        ),
    );
    extend(&mut ops, merger_mid(c, n));
    extend(
        &mut ops,
        linear_f16(
            VisionWt::MergerFc2W,
            VisionBuf::M1,
            VisionWt::MergerFc2B,
            VisionBuf::M2,
            c.out_hidden_size,
            md,
            n,
        ),
    );
    extend(&mut ops, merger_out());
    ops
}

// Memory.

#[verifier::rlimit(40)]
proof fn lemma_linear_heap(
    w: VisionWt,
    x: VisionBuf,
    bias: VisionWt,
    y: VisionBuf,
    m: usize,
    k: usize,
    n: usize,
    heap: Map<VisionBuf, int>,
)
    requires
        0 <= m * n <= usize::MAX,
        heap.dom().contains(x),
        4 * (k * n) <= heap[x],
        !heap.dom().contains(VisionBuf::Yt),
        !heap.dom().contains(y),
        y != VisionBuf::Yt,
    ensures
        crate::device::runs(
            linear_ops(w, x, bias, y, m, k, n),
            heap,
            heap.insert(y, 4 * (n * m)),
        ),
{
    reveal(crate::device::runs);
    assert(m * n == n * m) by (nonlinear_arith);
    reveal_with_fuel(crate::device::heap_after, 7);
    let ops = linear_ops(w, x, bias, y, m, k, n);
    assert(crate::device::heap_after(ops, ops.len(), heap) =~= heap.insert(y, 4 * (n * m)));
}

/// The hidden states alone.
pub open spec fn states_heap(c: VisionConfig, n: int) -> Map<VisionBuf, int> {
    Map::empty().insert(VisionBuf::X, 4 * (n * c.hidden_size))
}

#[verifier::rlimit(40)]
proof fn lemma_patches_heap(
    c: VisionConfig,
    n: usize,
)
    requires
        c.fits(n as int),
    ensures
        crate::device::runs(
            patches_ops(c, n),
            Map::<VisionBuf,
            int>::empty(),
            Map::<VisionBuf,
            int>::empty().insert(VisionBuf::Patches, 4 * (n * c.patch_dim())),
        ),
{
    lemma_fits(c, n as int);
    reveal(crate::device::runs);
    reveal_with_fuel(crate::device::heap_after, 3);
    let start = Map::<VisionBuf, int>::empty();
    let ops = patches_ops(c, n);
    assert(crate::device::heap_after(ops, ops.len(), start)
        =~= Map::<VisionBuf, int>::empty().insert(VisionBuf::Patches, 4 * (n * c.patch_dim())));
}

#[verifier::rlimit(40)]
proof fn lemma_positions_heap(
    c: VisionConfig,
    n: usize,
)
    requires
        c.fits(n as int),
    ensures
        crate::device::runs(
            positions_ops(),
            Map::<VisionBuf,
            int>::empty()
                .insert(VisionBuf::Patches, 4 * (n * c.patch_dim()))
                .insert(VisionBuf::X, 4 * (n * c.hidden_size)),
            states_heap(c, n as int),
        ),
{
    lemma_fits(c, n as int);
    reveal(crate::device::runs);
    reveal_with_fuel(crate::device::heap_after, 3);
    let start = Map::<VisionBuf, int>::empty()
        .insert(VisionBuf::Patches, 4 * (n * c.patch_dim()))
        .insert(VisionBuf::X, 4 * (n * c.hidden_size));
    let ops = positions_ops();
    assert(crate::device::heap_after(ops, ops.len(), start) =~= states_heap(c, n as int));
}

#[verifier::rlimit(40)]
proof fn lemma_attn_in_heap(
    c: VisionConfig,
    i: usize,
    n: usize,
)
    requires
        c.fits(n as int),
    ensures
        crate::device::runs(
            attn_in_ops(c, i, n),
            states_heap(c, n as int),
            states_heap(c, n as int).insert(VisionBuf::Tmp, 4 * (n * c.hidden_size)),
        ),
{
    lemma_fits(c, n as int);
    reveal(crate::device::runs);
    reveal_with_fuel(crate::device::heap_after, 3);
    let start = states_heap(c, n as int);
    let ops = attn_in_ops(c, i, n);
    assert(crate::device::heap_after(ops, ops.len(), start)
        =~= states_heap(c, n as int).insert(VisionBuf::Tmp, 4 * (n * c.hidden_size)));
}

#[verifier::rlimit(40)]
proof fn lemma_attn_core_heap(
    c: VisionConfig,
    n: usize,
)
    requires
        c.fits(n as int),
    ensures
        crate::device::runs(
            attn_core_ops(c, n),
            states_heap(c, n as int)
                .insert(VisionBuf::Tmp, 4 * (n * c.hidden_size))
                .insert(VisionBuf::Qkv, 4 * (n * (3 * c.hidden_size))),
            states_heap(c, n as int).insert(VisionBuf::AttnOut, 4 * (n * c.hidden_size)),
        ),
{
    lemma_fits(c, n as int);
    reveal(crate::device::runs);
    reveal_with_fuel(crate::device::heap_after, 5);
    let start = states_heap(c, n as int)
        .insert(VisionBuf::Tmp, 4 * (n * c.hidden_size))
        .insert(VisionBuf::Qkv, 4 * (n * (3 * c.hidden_size)));
    let ops = attn_core_ops(c, n);
    assert(crate::device::heap_after(ops, ops.len(), start)
        =~= states_heap(c, n as int).insert(VisionBuf::AttnOut, 4 * (n * c.hidden_size)));
}

#[verifier::rlimit(40)]
proof fn lemma_mlp_in_heap(
    c: VisionConfig,
    i: usize,
    n: usize,
)
    requires
        c.fits(n as int),
    ensures
        crate::device::runs(
            mlp_in_ops(c, i, n),
            states_heap(c, n as int)
                .insert(VisionBuf::AttnOut, 4 * (n * c.hidden_size))
                .insert(VisionBuf::Proj, 4 * (n * c.hidden_size)),
            states_heap(c, n as int).insert(VisionBuf::Tmp, 4 * (n * c.hidden_size)),
        ),
{
    lemma_fits(c, n as int);
    reveal(crate::device::runs);
    reveal_with_fuel(crate::device::heap_after, 6);
    let start = states_heap(c, n as int)
        .insert(VisionBuf::AttnOut, 4 * (n * c.hidden_size))
        .insert(VisionBuf::Proj, 4 * (n * c.hidden_size));
    let ops = mlp_in_ops(c, i, n);
    assert(crate::device::heap_after(ops, ops.len(), start)
        =~= states_heap(c, n as int).insert(VisionBuf::Tmp, 4 * (n * c.hidden_size)));
}

#[verifier::rlimit(40)]
proof fn lemma_mlp_core_heap(
    c: VisionConfig,
    n: usize,
)
    requires
        c.fits(n as int),
    ensures
        crate::device::runs(
            mlp_core_ops(c, n),
            states_heap(c, n as int)
                .insert(VisionBuf::Tmp, 4 * (n * c.hidden_size))
                .insert(VisionBuf::Fc1, 4 * (n * c.mlp_dim)),
            states_heap(c, n as int).insert(VisionBuf::Fc1, 4 * (n * c.mlp_dim)),
        ),
{
    lemma_fits(c, n as int);
    reveal(crate::device::runs);
    reveal_with_fuel(crate::device::heap_after, 3);
    let start = states_heap(c, n as int)
        .insert(VisionBuf::Tmp, 4 * (n * c.hidden_size))
        .insert(VisionBuf::Fc1, 4 * (n * c.mlp_dim));
    let ops = mlp_core_ops(c, n);
    assert(crate::device::heap_after(ops, ops.len(), start)
        =~= states_heap(c, n as int).insert(VisionBuf::Fc1, 4 * (n * c.mlp_dim)));
}

#[verifier::rlimit(40)]
proof fn lemma_mlp_out_heap(
    c: VisionConfig,
    n: usize,
)
    requires
        c.fits(n as int),
    ensures
        crate::device::runs(
            mlp_out_ops(),
            states_heap(c, n as int)
                .insert(VisionBuf::Fc1, 4 * (n * c.mlp_dim))
                .insert(VisionBuf::Fc2, 4 * (n * c.hidden_size)),
            states_heap(c, n as int),
        ),
{
    lemma_fits(c, n as int);
    reveal(crate::device::runs);
    reveal_with_fuel(crate::device::heap_after, 4);
    let start = states_heap(c, n as int)
        .insert(VisionBuf::Fc1, 4 * (n * c.mlp_dim))
        .insert(VisionBuf::Fc2, 4 * (n * c.hidden_size));
    let ops = mlp_out_ops();
    assert(crate::device::heap_after(ops, ops.len(), start) =~= states_heap(c, n as int));
}

#[verifier::rlimit(40)]
proof fn lemma_norm_heap(
    c: VisionConfig,
    n: usize,
)
    requires
        c.fits(n as int),
    ensures
        crate::device::runs(
            norm_ops(c, n),
            states_heap(c, n as int),
            Map::<VisionBuf,
            int>::empty(),
        ),
{
    lemma_fits(c, n as int);
    reveal(crate::device::runs);
    reveal_with_fuel(crate::device::heap_after, 6);
    let start = states_heap(c, n as int);
    let ops = norm_ops(c, n);
    assert(crate::device::heap_after(ops, ops.len(), start) =~= Map::<VisionBuf, int>::empty());
}

#[verifier::rlimit(40)]
proof fn lemma_merger_in_heap(
    c: VisionConfig,
    n: usize,
)
    requires
        c.merged_fits(n as int),
    ensures
        crate::device::runs(
            merger_in_ops(c, n),
            Map::<VisionBuf,
            int>::empty(),
            Map::<VisionBuf,
            int>::empty().insert(VisionBuf::Merged, 4 * (n * c.merge_dim())),
        ),
{
    lemma_merged_fits(c, n as int);
    reveal(crate::device::runs);
    reveal_with_fuel(crate::device::heap_after, 3);
    let start = Map::<VisionBuf, int>::empty();
    let ops = merger_in_ops(c, n);
    assert(crate::device::heap_after(ops, ops.len(), start)
        =~= Map::<VisionBuf, int>::empty().insert(VisionBuf::Merged, 4 * (n * c.merge_dim())));
}

#[verifier::rlimit(40)]
proof fn lemma_merger_mid_heap(
    c: VisionConfig,
    n: usize,
)
    requires
        c.merged_fits(n as int),
    ensures
        crate::device::runs(
            merger_mid_ops(c, n),
            Map::<VisionBuf,
            int>::empty()
                .insert(VisionBuf::Merged, 4 * (n * c.merge_dim()))
                .insert(VisionBuf::M1, 4 * (n * c.merge_dim())),
            Map::<VisionBuf,
            int>::empty().insert(VisionBuf::M1, 4 * (n * c.merge_dim())),
        ),
{
    lemma_merged_fits(c, n as int);
    reveal(crate::device::runs);
    reveal_with_fuel(crate::device::heap_after, 3);
    let start = Map::<VisionBuf, int>::empty()
        .insert(VisionBuf::Merged, 4 * (n * c.merge_dim()))
        .insert(VisionBuf::M1, 4 * (n * c.merge_dim()));
    let ops = merger_mid_ops(c, n);
    assert(crate::device::heap_after(ops, ops.len(), start)
        =~= Map::<VisionBuf, int>::empty().insert(VisionBuf::M1, 4 * (n * c.merge_dim())));
}

#[verifier::rlimit(40)]
proof fn lemma_merger_out_heap(
    c: VisionConfig,
    n: usize,
)
    requires
        c.merged_fits(n as int),
    ensures
        crate::device::runs(
            merger_out_ops(),
            Map::<VisionBuf,
            int>::empty()
                .insert(VisionBuf::M1, 4 * (n * c.merge_dim()))
                .insert(VisionBuf::M2, 4 * (n * c.out_hidden_size)),
            Map::<VisionBuf,
            int>::empty(),
        ),
{
    lemma_merged_fits(c, n as int);
    reveal(crate::device::runs);
    reveal_with_fuel(crate::device::heap_after, 4);
    let start = Map::<VisionBuf, int>::empty()
        .insert(VisionBuf::M1, 4 * (n * c.merge_dim()))
        .insert(VisionBuf::M2, 4 * (n * c.out_hidden_size));
    let ops = merger_out_ops();
    assert(crate::device::heap_after(ops, ops.len(), start) =~= Map::<VisionBuf, int>::empty());
}

#[verifier::rlimit(40)]
proof fn lemma_attn_heap(c: VisionConfig, i: usize, n: usize)
    requires
        c.fits(n as int),
    ensures
        crate::device::runs(
            attn_ops(c, i, n),
            states_heap(c, n as int),
            states_heap(c, n as int).insert(VisionBuf::Tmp, 4 * (n * c.hidden_size)),
        ),
{
    lemma_fits(c, n as int);
    let h = c.hidden_size;
    let h3 = (3 * h) as usize;
    let start = states_heap(c, n as int);
    let g1 = start.insert(VisionBuf::Tmp, 4 * (n * h));
    let g2 = g1.insert(VisionBuf::Qkv, 4 * (n * (3 * h)));
    let g3 = start.insert(VisionBuf::AttnOut, 4 * (n * h));
    let g4 = g3.insert(VisionBuf::Proj, 4 * (n * h));
    let qw = VisionWt::Layer(i, VisionPart::QkvW);
    let qb = VisionWt::Layer(i, VisionPart::QkvB);
    let pw = VisionWt::Layer(i, VisionPart::ProjW);
    let pb = VisionWt::Layer(i, VisionPart::ProjB);
    lemma_attn_in_heap(c, i, n);
    lemma_linear_heap(qw, VisionBuf::Tmp, qb, VisionBuf::Qkv, h3, h, n, g1);
    lemma_attn_core_heap(c, n);
    lemma_linear_heap(pw, VisionBuf::AttnOut, pb, VisionBuf::Proj, h, h, n, g3);
    lemma_mlp_in_heap(c, i, n);
    let a0 = attn_in_ops(c, i, n);
    let a1 = linear_ops(qw, VisionBuf::Tmp, qb, VisionBuf::Qkv, h3, h, n);
    let a2 = attn_core_ops(c, n);
    let a3 = linear_ops(pw, VisionBuf::AttnOut, pb, VisionBuf::Proj, h, h, n);
    let a4 = mlp_in_ops(c, i, n);
    crate::device::lemma_runs_concat(a0, a1, start, g1, g2);
    crate::device::lemma_runs_concat(a0 + a1, a2, start, g2, g3);
    crate::device::lemma_runs_concat(a0 + a1 + a2, a3, start, g3, g4);
    crate::device::lemma_runs_concat(a0 + a1 + a2 + a3, a4, start, g4, g1);
}

#[verifier::rlimit(40)]
proof fn lemma_mlp_heap(c: VisionConfig, i: usize, n: usize)
    requires
        c.fits(n as int),
    ensures
        crate::device::runs(
            mlp_ops(c, i, n),
            states_heap(c, n as int).insert(VisionBuf::Tmp, 4 * (n * c.hidden_size)),
            states_heap(c, n as int),
        ),
{
    lemma_fits(c, n as int);
    let h = c.hidden_size;
    let start = states_heap(c, n as int);
    let g1 = start.insert(VisionBuf::Tmp, 4 * (n * h));
    let g6 = g1.insert(VisionBuf::Fc1, 4 * (n * c.mlp_dim));
    let g7 = start.insert(VisionBuf::Fc1, 4 * (n * c.mlp_dim));
    let g8 = g7.insert(VisionBuf::Fc2, 4 * (n * h));
    let w1 = VisionWt::Layer(i, VisionPart::Fc1W);
    let b1 = VisionWt::Layer(i, VisionPart::Fc1B);
    let w2 = VisionWt::Layer(i, VisionPart::Fc2W);
    let b2 = VisionWt::Layer(i, VisionPart::Fc2B);
    lemma_linear_heap(w1, VisionBuf::Tmp, b1, VisionBuf::Fc1, c.mlp_dim, h, n, g1);
    lemma_mlp_core_heap(c, n);
    lemma_linear_heap(w2, VisionBuf::Fc1, b2, VisionBuf::Fc2, h, c.mlp_dim, n, g7);
    lemma_mlp_out_heap(c, n);
    let a5 = linear_ops(w1, VisionBuf::Tmp, b1, VisionBuf::Fc1, c.mlp_dim, h, n);
    let a6 = mlp_core_ops(c, n);
    let a7 = linear_ops(w2, VisionBuf::Fc1, b2, VisionBuf::Fc2, h, c.mlp_dim, n);
    let a8 = mlp_out_ops();
    crate::device::lemma_runs_concat(a5, a6, g1, g6, g7);
    crate::device::lemma_runs_concat(a5 + a6, a7, g1, g7, g8);
    crate::device::lemma_runs_concat(a5 + a6 + a7, a8, g1, g8, start);
}

#[verifier::rlimit(40)]
proof fn lemma_wait_heap(c: VisionConfig, i: int, heap: Map<VisionBuf, int>)
    ensures
        crate::device::runs(wait_ops(c, i), heap, heap),
{
    reveal(crate::device::runs);
    reveal_with_fuel(crate::device::heap_after, 2);
}

#[verifier::rlimit(40)]
proof fn lemma_layer_heap(c: VisionConfig, i: usize, n: usize)
    requires
        c.fits(n as int),
    ensures
        crate::device::runs(
            layer_ops(c, i, n),
            states_heap(c, n as int),
            states_heap(c, n as int),
        ),
{
    let start = states_heap(c, n as int);
    let g1 = start.insert(VisionBuf::Tmp, 4 * (n * c.hidden_size));
    lemma_attn_heap(c, i, n);
    lemma_mlp_heap(c, i, n);
    let last = wait_ops(c, i as int);
    lemma_wait_heap(c, i as int, start);
    crate::device::lemma_runs_concat(attn_ops(c, i, n), mlp_ops(c, i, n), start, g1, start);
    crate::device::lemma_runs_concat(
        attn_ops(c, i, n) + mlp_ops(c, i, n),
        last,
        start,
        start,
        start,
    );
}

#[verifier::rlimit(40)]
proof fn lemma_layers_heap(c: VisionConfig, k: nat, n: usize)
    requires
        c.fits(n as int),
    ensures
        crate::device::runs(
            layers_ops(c, k, n),
            states_heap(c, n as int),
            states_heap(c, n as int),
        ),
    decreases k,
{
    if k > 0 {
        lemma_layers_heap(c, (k - 1) as nat, n);
        lemma_layer_heap(c, (k - 1) as usize, n);
        crate::device::lemma_runs_concat(
            layers_ops(c, (k - 1) as nat, n),
            layer_ops(c, (k - 1) as usize, n),
            states_heap(c, n as int),
            states_heap(c, n as int),
            states_heap(c, n as int),
        );
    } else {
        crate::device::lemma_runs_empty::<VisionBuf, VisionWt>(states_heap(c, n as int));
    }
}

/// Encoding touches only buffers that it has allocated, inside their bounds, and
/// gives all of them back.
pub proof fn law_encoding_is_memory_safe(c: VisionConfig, n: usize)
    requires
        c.fits(n as int),
    ensures
        crate::device::heap_safe(encode_ops(c, n), Map::empty()),
        crate::device::heap_after(encode_ops(c, n), encode_ops(c, n).len(), Map::empty())
            == Map::<VisionBuf, int>::empty(),
{
    lemma_fits(c, n as int);
    let none = Map::<VisionBuf, int>::empty();
    let h = c.hidden_size;
    let pd = c.patch_dim() as usize;
    let with_patches = none.insert(VisionBuf::Patches, 4 * (n * c.patch_dim()));
    lemma_patches_heap(c, n);
    lemma_linear_heap(
        VisionWt::PatchEmbedW,
        VisionBuf::Patches,
        VisionWt::PatchEmbedB,
        VisionBuf::X,
        h,
        pd,
        n,
        with_patches,
    );
    lemma_positions_heap(c, n);
    lemma_layers_heap(c, c.num_layers as nat, n);
    lemma_norm_heap(c, n);
    let a0 = patches_ops(c, n);
    let a1 = linear_ops(
        VisionWt::PatchEmbedW,
        VisionBuf::Patches,
        VisionWt::PatchEmbedB,
        VisionBuf::X,
        h,
        pd,
        n,
    );
    let a2 = positions_ops();
    let a3 = layers_ops(c, c.num_layers as nat, n);
    let a4 = norm_ops(c, n);
    let st = states_heap(c, n as int);
    let g2 = with_patches.insert(VisionBuf::X, 4 * (n * h));
    crate::device::lemma_runs_concat(a0, a1, none, with_patches, g2);
    crate::device::lemma_runs_concat(a0 + a1, a2, none, g2, st);
    crate::device::lemma_runs_concat(a0 + a1 + a2, a3, none, st, st);
    crate::device::lemma_runs_concat(a0 + a1 + a2 + a3, a4, none, st, none);
    reveal(crate::device::runs);
}

/// The merger touches only buffers that it has allocated, inside their bounds, and
/// gives all of them back.
pub proof fn law_merger_is_memory_safe(c: VisionConfig, n: usize)
    requires
        c.merged_fits(n as int),
    ensures
        crate::device::heap_safe(merger_ops(c, n), Map::empty()),
        crate::device::heap_after(merger_ops(c, n), merger_ops(c, n).len(), Map::empty())
            == Map::<VisionBuf, int>::empty(),
{
    lemma_merged_fits(c, n as int);
    let none = Map::<VisionBuf, int>::empty();
    let md = c.merge_dim() as usize;
    let out = c.out_hidden_size;
    let g1 = none.insert(VisionBuf::Merged, 4 * (n * c.merge_dim()));
    let g3 = none.insert(VisionBuf::M1, 4 * (n * c.merge_dim()));
    lemma_merger_in_heap(c, n);
    lemma_merger_mid_heap(c, n);
    lemma_merger_out_heap(c, n);
    let w1 = VisionWt::MergerFc1W;
    let b1 = VisionWt::MergerFc1B;
    let w2 = VisionWt::MergerFc2W;
    let b2 = VisionWt::MergerFc2B;
    lemma_linear_heap(w1, VisionBuf::Merged, b1, VisionBuf::M1, md, md, n, g1);
    lemma_linear_heap(w2, VisionBuf::M1, b2, VisionBuf::M2, out, md, n, g3);
    let a0 = merger_in_ops(c, n);
    let a1 = linear_ops(w1, VisionBuf::Merged, b1, VisionBuf::M1, md, md, n);
    let a2 = merger_mid_ops(c, n);
    let a3 = linear_ops(w2, VisionBuf::M1, b2, VisionBuf::M2, out, md, n);
    let a4 = merger_out_ops();
    let g2 = g1.insert(VisionBuf::M1, 4 * (n * md));
    let g4 = g3.insert(VisionBuf::M2, 4 * (n * out));
    crate::device::lemma_runs_concat(a0, a1, none, g1, g2);
    crate::device::lemma_runs_concat(a0 + a1, a2, none, g2, g3);
    crate::device::lemma_runs_concat(a0 + a1 + a2, a3, none, g3, g4);
    crate::device::lemma_runs_concat(a0 + a1 + a2 + a3, a4, none, g4, none);
    reveal(crate::device::runs);
}

/// Merging takes no element twice.
pub proof fn law_merging_takes_each_once(h: int, sms: int, grid_h: int, grid_w: int, i: int, k: int)
    requires
        h >= 0,
        sms >= 1,
        grid_h >= 0,
        grid_w >= 0,
        0 <= i < merged_count(sms, grid_h, grid_w) * (h * sms * sms),
        0 <= k < merged_count(sms, grid_h, grid_w) * (h * sms * sms),
        merge_source(h, sms, grid_w, i) == merge_source(h, sms, grid_w, k),
    ensures
        i == k,
{
    lemma_merge_source(h, sms, grid_h, grid_w, i);
    lemma_merge_source(h, sms, grid_h, grid_w, k);
    let width = h * sms * sms;
    let mw = grid_w / sms;
    let ti = i / width;
    let tk = k / width;
    let ri = i % width;
    let rk = k % width;
    let yi = (ti / mw) * sms + (ri / h) / sms;
    let xi = (ti % mw) * sms + (ri / h) % sms;
    let yk = (tk / mw) * sms + (rk / h) / sms;
    let xk = (tk % mw) * sms + (rk / h) % sms;
    lemma_same_parts(h, yi * grid_w + xi, ri % h, yk * grid_w + xk, rk % h);
    lemma_same_parts(grid_w, yi, xi, yk, xk);
    lemma_same_parts(sms, ti / mw, (ri / h) / sms, tk / mw, (rk / h) / sms);
    lemma_same_parts(sms, ti % mw, (ri / h) % sms, tk % mw, (rk / h) % sms);
    vstd::arithmetic::div_mod::lemma_fundamental_div_mod(ti, mw);
    vstd::arithmetic::div_mod::lemma_fundamental_div_mod(tk, mw);
    vstd::arithmetic::div_mod::lemma_fundamental_div_mod(ri / h, sms);
    vstd::arithmetic::div_mod::lemma_fundamental_div_mod(rk / h, sms);
    vstd::arithmetic::div_mod::lemma_fundamental_div_mod(ri, h);
    vstd::arithmetic::div_mod::lemma_fundamental_div_mod(rk, h);
    vstd::arithmetic::div_mod::lemma_fundamental_div_mod(i, width);
    vstd::arithmetic::div_mod::lemma_fundamental_div_mod(k, width);
}

proof fn lemma_same_parts(d: int, a: int, r: int, b: int, s: int)
    requires
        0 <= r < d,
        0 <= s < d,
        a * d + r == b * d + s,
    ensures
        a == b,
        r == s,
{
    vstd::arithmetic::div_mod::lemma_fundamental_div_mod_converse(a * d + r, d, a, r);
    vstd::arithmetic::div_mod::lemma_fundamental_div_mod_converse(b * d + s, d, b, s);
}

} // verus!
