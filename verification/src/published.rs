//! What the tensors of the models are called in model files, and what they are.

use vstd::prelude::*;

use crate::dflash::{DflashConfig, DflashWt};
use crate::dots_ocr::{DotsVisionConfig, DotsVisionPart, DotsVisionWt};
use crate::gemma4::{ExpertPart, Gemma4Config, Gemma4Wt};
use crate::names::{LoadKind, Tensor};
use crate::qwen35::{Qwen35Config, Qwen35Wt};
use crate::qwen35_vl::{VisionConfig, VisionPart, VisionWt};

verus! {

/// A tensor of layer `i`: the layer's prefix, its number, the part's own name.
pub open spec fn entry<P>(
    e: Tensor<P>,
    head: Seq<char>,
    i: nat,
    tail: Seq<char>,
    kind: LoadKind,
    m: int,
    k: int,
) -> bool {
    e.name == crate::names::numbered(head, i, tail) && e.kind == kind && e.m == m && e.k == k
}

/// A tensor outside the layers.
pub open spec fn single<P>(e: Tensor<P>, name: Seq<char>, kind: LoadKind, m: int, k: int) -> bool {
    e.name == name && e.kind == kind && e.m == m && e.k == k
}

// Qwen3.5.

/// A tensor is what its place asks for.
pub open spec fn qwen35_entry(c: Qwen35Config, e: Tensor<Qwen35Wt>) -> bool {
    match e.place {
        Qwen35Wt::TokenEmbd => single(
            e,
            "model.language_model.embed_tokens.weight"@,
            LoadKind::AnyEmbedding,
            c.vocab_size as int,
            c.dim as int,
        ),
        Qwen35Wt::OutputNorm => single(e, "norm.weight"@, LoadKind::ShiftedNorm, 1, c.dim as int),
        Qwen35Wt::Output => single(
            e,
            "lm_head.weight"@,
            LoadKind::Head,
            c.vocab_size as int,
            c.dim as int,
        ),
        Qwen35Wt::Layer(i, part) => {
            &&& i < c.n_layers
            &&& qwen35_part(
                c,
                i,
                c.layer_types@[i as int] == crate::qwen35::LayerType::LinearAttention,
                part,
                e,
            )
        },
    }
}

/// A tensor of layer `i` is what a part of such a layer asks for.
pub open spec fn qwen35_part(
    c: Qwen35Config,
    i: usize,
    linear: bool,
    part: crate::qwen35::LayerPart,
    e: Tensor<Qwen35Wt>,
) -> bool {
    match part {
            crate::qwen35::LayerPart::AttnNorm => entry(
                e,
                "layers."@,
                i as nat,
                ".input_layernorm.weight"@,
                LoadKind::ShiftedNorm,
                1,
                c.dim as int,
            ),
            crate::qwen35::LayerPart::Wqkv => linear && entry(
                e,
                "layers."@,
                i as nat,
                ".linear_attn.in_proj_qkv.weight"@,
                LoadKind::Weight,
                c.qkv_dim(),
                c.dim as int,
            ),
            crate::qwen35::LayerPart::Wz => linear && entry(
                e,
                "layers."@,
                i as nat,
                ".linear_attn.in_proj_z.weight"@,
                LoadKind::Weight,
                c.v_dim(),
                c.dim as int,
            ),
            crate::qwen35::LayerPart::WAlpha => linear && entry(
                e,
                "layers."@,
                i as nat,
                ".linear_attn.in_proj_a.weight"@,
                LoadKind::Weight,
                c.linear_num_value_heads as int,
                c.dim as int,
            ),
            crate::qwen35::LayerPart::WBeta => linear && entry(
                e,
                "layers."@,
                i as nat,
                ".linear_attn.in_proj_b.weight"@,
                LoadKind::Weight,
                c.linear_num_value_heads as int,
                c.dim as int,
            ),
            crate::qwen35::LayerPart::ALog => linear && entry(
                e,
                "layers."@,
                i as nat,
                ".linear_attn.A_log"@,
                LoadKind::Numbers,
                1,
                c.linear_num_value_heads as int,
            ),
            crate::qwen35::LayerPart::DtBias => linear && entry(
                e,
                "layers."@,
                i as nat,
                ".linear_attn.dt_bias"@,
                LoadKind::Numbers,
                1,
                c.linear_num_value_heads as int,
            ),
            crate::qwen35::LayerPart::ConvWeight => linear && entry(
                e,
                "layers."@,
                i as nat,
                ".linear_attn.conv1d.weight"@,
                LoadKind::Numbers,
                1,
                c.qkv_dim() * c.conv_kernel_dim,
            ),
            crate::qwen35::LayerPart::NormWeight => linear && entry(
                e,
                "layers."@,
                i as nat,
                ".linear_attn.norm.weight"@,
                LoadKind::Numbers,
                1,
                c.linear_value_head_dim as int,
            ),
            crate::qwen35::LayerPart::Wq => !linear && entry(
                e,
                "layers."@,
                i as nat,
                ".self_attn.q_proj.weight"@,
                LoadKind::Weight,
                2 * c.q_dim(),
                c.dim as int,
            ),
            crate::qwen35::LayerPart::Wk => !linear && entry(
                e,
                "layers."@,
                i as nat,
                ".self_attn.k_proj.weight"@,
                LoadKind::Weight,
                c.kv_dim(),
                c.dim as int,
            ),
            crate::qwen35::LayerPart::Wv => !linear && entry(
                e,
                "layers."@,
                i as nat,
                ".self_attn.v_proj.weight"@,
                LoadKind::Weight,
                c.kv_dim(),
                c.dim as int,
            ),
            crate::qwen35::LayerPart::Wo => if linear {
                entry(
                    e,
                    "layers."@,
                    i as nat,
                    ".linear_attn.out_proj.weight"@,
                    LoadKind::Weight,
                    c.dim as int,
                    c.v_dim(),
                )
            } else {
                entry(
                    e,
                    "layers."@,
                    i as nat,
                    ".self_attn.o_proj.weight"@,
                    LoadKind::Weight,
                    c.dim as int,
                    c.q_dim(),
                )
            },
            crate::qwen35::LayerPart::QNorm => !linear && entry(
                e,
                "layers."@,
                i as nat,
                ".self_attn.q_norm.weight"@,
                LoadKind::ShiftedNorm,
                1,
                c.head_dim as int,
            ),
            crate::qwen35::LayerPart::KNorm => !linear && entry(
                e,
                "layers."@,
                i as nat,
                ".self_attn.k_norm.weight"@,
                LoadKind::ShiftedNorm,
                1,
                c.head_dim as int,
            ),
            crate::qwen35::LayerPart::FfnNorm => entry(
                e,
                "layers."@,
                i as nat,
                ".post_attention_layernorm.weight"@,
                LoadKind::ShiftedNorm,
                1,
                c.dim as int,
            ),
            crate::qwen35::LayerPart::WGate => entry(
                e,
                "layers."@,
                i as nat,
                ".mlp.gate_proj.weight"@,
                LoadKind::Weight,
                c.hidden_dim as int,
                c.dim as int,
            ),
            crate::qwen35::LayerPart::WUp => entry(
                e,
                "layers."@,
                i as nat,
                ".mlp.up_proj.weight"@,
                LoadKind::Weight,
                c.hidden_dim as int,
                c.dim as int,
            ),
            crate::qwen35::LayerPart::WDown => entry(
                e,
                "layers."@,
                i as nat,
                ".mlp.down_proj.weight"@,
                LoadKind::Weight,
                c.dim as int,
                c.hidden_dim as int,
            ),
    }
}

/// A layer has a part.
pub open spec fn qwen35_has(linear: bool, part: crate::qwen35::LayerPart) -> bool {
    match part {
        crate::qwen35::LayerPart::AttnNorm => true,
        crate::qwen35::LayerPart::Wqkv => linear,
        crate::qwen35::LayerPart::Wz => linear,
        crate::qwen35::LayerPart::WAlpha => linear,
        crate::qwen35::LayerPart::WBeta => linear,
        crate::qwen35::LayerPart::ALog => linear,
        crate::qwen35::LayerPart::DtBias => linear,
        crate::qwen35::LayerPart::ConvWeight => linear,
        crate::qwen35::LayerPart::NormWeight => linear,
        crate::qwen35::LayerPart::Wq => !linear,
        crate::qwen35::LayerPart::Wk => !linear,
        crate::qwen35::LayerPart::Wv => !linear,
        crate::qwen35::LayerPart::Wo => true,
        crate::qwen35::LayerPart::QNorm => !linear,
        crate::qwen35::LayerPart::KNorm => !linear,
        crate::qwen35::LayerPart::FfnNorm => true,
        crate::qwen35::LayerPart::WGate => true,
        crate::qwen35::LayerPart::WUp => true,
        crate::qwen35::LayerPart::WDown => true,
    }
}

proof fn lemma_qwen35_layer(c: Qwen35Config, i: usize)
    requires
        i < c.n_layers,
        c.fits(),
    ensures
        ({
            let linear = c.layer_types@[i as int] == crate::qwen35::LayerType::LinearAttention;
            let list = crate::qwen35::layer_tensors(c, linear, i as nat);
            &&& forall|k: int| 0 <= k < list.len() ==> qwen35_entry(c, #[trigger] list[k])
            &&& forall|part: crate::qwen35::LayerPart|
                qwen35_has(linear, part) ==> #[trigger] holds_place(list, Qwen35Wt::Layer(i, part))
        }),
{
    reveal(crate::qwen35::layer_tensors);
    let linear = c.layer_types@[i as int] == crate::qwen35::LayerType::LinearAttention;
    let list = crate::qwen35::layer_tensors(c, linear, i as nat);
    assert(0 <= c.n_heads * c.head_dim) by (nonlinear_arith);
    assert(0 <= c.n_kv_heads * c.head_dim) by (nonlinear_arith);
    assert(0 <= c.linear_num_key_heads * c.linear_key_head_dim) by (nonlinear_arith);
    assert(0 <= c.linear_num_value_heads * c.linear_value_head_dim) by (nonlinear_arith);
    let q = c.qkv_dim();
    assert(0 <= q * c.conv_kernel_dim) by (nonlinear_arith)
        requires
            q >= 0,
    ;
    if linear {
        assert(list.len() == 14);
        assert(
            list[0].place == Qwen35Wt::Layer(i, crate::qwen35::LayerPart::AttnNorm)
                && qwen35_entry(c, list[0])
        );
        assert(
            list[1].place == Qwen35Wt::Layer(i, crate::qwen35::LayerPart::Wqkv)
                && qwen35_entry(c, list[1])
        );
        assert(
            list[2].place == Qwen35Wt::Layer(i, crate::qwen35::LayerPart::Wz)
                && qwen35_entry(c, list[2])
        );
        assert(
            list[3].place == Qwen35Wt::Layer(i, crate::qwen35::LayerPart::WAlpha)
                && qwen35_entry(c, list[3])
        );
        assert(
            list[4].place == Qwen35Wt::Layer(i, crate::qwen35::LayerPart::WBeta)
                && qwen35_entry(c, list[4])
        );
        assert(
            list[5].place == Qwen35Wt::Layer(i, crate::qwen35::LayerPart::ALog)
                && qwen35_entry(c, list[5])
        );
        assert(
            list[6].place == Qwen35Wt::Layer(i, crate::qwen35::LayerPart::DtBias)
                && qwen35_entry(c, list[6])
        );
        assert(
            list[7].place == Qwen35Wt::Layer(i, crate::qwen35::LayerPart::ConvWeight)
                && qwen35_entry(c, list[7])
        );
        assert(
            list[8].place == Qwen35Wt::Layer(i, crate::qwen35::LayerPart::NormWeight)
                && qwen35_entry(c, list[8])
        );
        assert(
            list[9].place == Qwen35Wt::Layer(i, crate::qwen35::LayerPart::Wo)
                && qwen35_entry(c, list[9])
        );
        assert(
            list[10].place == Qwen35Wt::Layer(i, crate::qwen35::LayerPart::FfnNorm)
                && qwen35_entry(c, list[10])
        );
        assert(
            list[11].place == Qwen35Wt::Layer(i, crate::qwen35::LayerPart::WGate)
                && qwen35_entry(c, list[11])
        );
        assert(
            list[12].place == Qwen35Wt::Layer(i, crate::qwen35::LayerPart::WUp)
                && qwen35_entry(c, list[12])
        );
        assert(
            list[13].place == Qwen35Wt::Layer(i, crate::qwen35::LayerPart::WDown)
                && qwen35_entry(c, list[13])
        );
    } else {
        assert(list.len() == 11);
        assert(
            list[0].place == Qwen35Wt::Layer(i, crate::qwen35::LayerPart::AttnNorm)
                && qwen35_entry(c, list[0])
        );
        assert(
            list[1].place == Qwen35Wt::Layer(i, crate::qwen35::LayerPart::Wq)
                && qwen35_entry(c, list[1])
        );
        assert(
            list[2].place == Qwen35Wt::Layer(i, crate::qwen35::LayerPart::Wk)
                && qwen35_entry(c, list[2])
        );
        assert(
            list[3].place == Qwen35Wt::Layer(i, crate::qwen35::LayerPart::Wv)
                && qwen35_entry(c, list[3])
        );
        assert(
            list[4].place == Qwen35Wt::Layer(i, crate::qwen35::LayerPart::Wo)
                && qwen35_entry(c, list[4])
        );
        assert(
            list[5].place == Qwen35Wt::Layer(i, crate::qwen35::LayerPart::QNorm)
                && qwen35_entry(c, list[5])
        );
        assert(
            list[6].place == Qwen35Wt::Layer(i, crate::qwen35::LayerPart::KNorm)
                && qwen35_entry(c, list[6])
        );
        assert(
            list[7].place == Qwen35Wt::Layer(i, crate::qwen35::LayerPart::FfnNorm)
                && qwen35_entry(c, list[7])
        );
        assert(
            list[8].place == Qwen35Wt::Layer(i, crate::qwen35::LayerPart::WGate)
                && qwen35_entry(c, list[8])
        );
        assert(
            list[9].place == Qwen35Wt::Layer(i, crate::qwen35::LayerPart::WUp)
                && qwen35_entry(c, list[9])
        );
        assert(
            list[10].place == Qwen35Wt::Layer(i, crate::qwen35::LayerPart::WDown)
                && qwen35_entry(c, list[10])
        );
    }
}

proof fn lemma_qwen35_layers(c: Qwen35Config, n: nat)
    requires
        n <= c.n_layers,
        c.fits(),
    ensures
        ({
            let list = crate::qwen35::layers_tensors(c, n);
            &&& forall|k: int| 0 <= k < list.len() ==> qwen35_entry(c, #[trigger] list[k])
            &&& forall|i: usize, part: crate::qwen35::LayerPart|
                i < n && qwen35_has(
                    c.layer_types@[i as int] == crate::qwen35::LayerType::LinearAttention,
                    part,
                ) ==> #[trigger] holds_place(list, Qwen35Wt::Layer(i, part))
        }),
    decreases n,
{
    if n > 0 {
        let p = (n - 1) as nat;
        lemma_qwen35_layers(c, p);
        lemma_qwen35_layer(c, p as usize);
        let a = crate::qwen35::layers_tensors(c, p);
        let linear = crate::qwen35::is_linear(c, p as int);
        let b = crate::qwen35::layer_tensors(c, linear, p);
        assert(crate::qwen35::layers_tensors(c, n) == a + b);
        assert forall|i: usize, part: crate::qwen35::LayerPart|
            i < n && qwen35_has(
                c.layer_types@[i as int] == crate::qwen35::LayerType::LinearAttention,
                part,
            ) implies #[trigger] holds_place(a + b, Qwen35Wt::Layer(i, part)) by {
            let place = Qwen35Wt::Layer(i, part);
            assert(i < p ==> holds_place(a, place));
            assert(i == p ==> holds_place(b, place));
            lemma_holds_more(a, b, place);
        }
    }
}

/// Some tensor of a list has a place.
pub open spec fn holds_place<P>(list: Seq<Tensor<P>>, place: P) -> bool {
    exists|k: int| 0 <= k < list.len() && (#[trigger] list[k]).place == place
}

proof fn lemma_holds_more<P>(a: Seq<Tensor<P>>, b: Seq<Tensor<P>>, place: P)
    requires
        holds_place(a, place) || holds_place(b, place),
    ensures
        holds_place(a + b, place),
{
    if holds_place(a, place) {
        let k = choose|k: int| 0 <= k < a.len() && (#[trigger] a[k]).place == place;
        assert((a + b)[k] == a[k]);
    } else {
        let k = choose|k: int| 0 <= k < b.len() && (#[trigger] b[k]).place == place;
        assert((a + b)[a.len() + k] == b[k]);
    }
}

/// Every tensor that Qwen3.5 loads is the one that its place asks for, by name, form and
/// size, and every part of every layer is loaded.
pub proof fn law_qwen35_tensors(c: Qwen35Config, j: int, i: usize, part: crate::qwen35::LayerPart)
    requires
        c.fits(),
    ensures
        ({
            let list = crate::qwen35::all_tensors(c);
            &&& 0 <= j < list.len() ==> qwen35_entry(c, list[j])
            &&& holds_place(list, Qwen35Wt::TokenEmbd)
            &&& holds_place(list, Qwen35Wt::OutputNorm)
            &&& holds_place(list, Qwen35Wt::Output)
            &&& i < c.n_layers && qwen35_has(
                c.layer_types@[i as int] == crate::qwen35::LayerType::LinearAttention,
                part,
            ) ==> holds_place(list, Qwen35Wt::Layer(i, part))
        }),
{
    let a = crate::qwen35::head_tensors(c);
    let b = crate::qwen35::layers_tensors(c, c.n_layers as nat);
    lemma_qwen35_layers(c, c.n_layers as nat);
    let list = a + b;
    assert(list[0] == a[0] && list[1] == a[1] && list[2] == a[2]);
    if i < c.n_layers && qwen35_has(
        c.layer_types@[i as int] == crate::qwen35::LayerType::LinearAttention,
        part,
    ) {
        lemma_holds_more(a, b, Qwen35Wt::Layer(i, part));
    }
}

// The draft model.

/// A tensor is what its place asks for.
pub open spec fn dflash_entry(c: DflashConfig, e: Tensor<DflashWt>) -> bool {
    match e.place {
        DflashWt::Fc => single(
            e,
            "fc.weight"@,
            LoadKind::DraftWeight,
            c.hidden as int,
            c.ne() * c.hidden,
        ),
        DflashWt::HiddenNorm => single(
            e,
            "hidden_norm.weight"@,
            LoadKind::Exact,
            1,
            c.hidden as int,
        ),
        DflashWt::Norm => single(e, "norm.weight"@, LoadKind::Exact, 1, c.hidden as int),
        DflashWt::Layer(i, part) => i < c.n_layers && dflash_part(c, i, part, e),
    }
}

/// A tensor of layer `i` is what a part asks for.
pub open spec fn dflash_part(
    c: DflashConfig,
    i: usize,
    part: crate::dflash::LayerPart,
    e: Tensor<DflashWt>,
) -> bool {
    match part {
        crate::dflash::LayerPart::AttnNorm => entry(
            e,
            "layers."@,
            i as nat,
            ".input_layernorm.weight"@,
            LoadKind::Exact,
            1,
            c.hidden as int,
        ),
        crate::dflash::LayerPart::Wq => entry(
            e,
            "layers."@,
            i as nat,
            ".self_attn.q_proj.weight"@,
            LoadKind::DraftWeight,
            c.qd(),
            c.hidden as int,
        ),
        crate::dflash::LayerPart::Wk => entry(
            e,
            "layers."@,
            i as nat,
            ".self_attn.k_proj.weight"@,
            LoadKind::DraftWeight,
            c.kvd(),
            c.hidden as int,
        ),
        crate::dflash::LayerPart::Wv => entry(
            e,
            "layers."@,
            i as nat,
            ".self_attn.v_proj.weight"@,
            LoadKind::DraftWeight,
            c.kvd(),
            c.hidden as int,
        ),
        crate::dflash::LayerPart::Wo => entry(
            e,
            "layers."@,
            i as nat,
            ".self_attn.o_proj.weight"@,
            LoadKind::DraftWeight,
            c.hidden as int,
            c.qd(),
        ),
        crate::dflash::LayerPart::QNorm => entry(
            e,
            "layers."@,
            i as nat,
            ".self_attn.q_norm.weight"@,
            LoadKind::Exact,
            1,
            c.head_dim as int,
        ),
        crate::dflash::LayerPart::KNorm => entry(
            e,
            "layers."@,
            i as nat,
            ".self_attn.k_norm.weight"@,
            LoadKind::Exact,
            1,
            c.head_dim as int,
        ),
        crate::dflash::LayerPart::FfnNorm => entry(
            e,
            "layers."@,
            i as nat,
            ".post_attention_layernorm.weight"@,
            LoadKind::Exact,
            1,
            c.hidden as int,
        ),
        crate::dflash::LayerPart::WGate => entry(
            e,
            "layers."@,
            i as nat,
            ".mlp.gate_proj.weight"@,
            LoadKind::DraftWeight,
            c.intermediate as int,
            c.hidden as int,
        ),
        crate::dflash::LayerPart::WUp => entry(
            e,
            "layers."@,
            i as nat,
            ".mlp.up_proj.weight"@,
            LoadKind::DraftWeight,
            c.intermediate as int,
            c.hidden as int,
        ),
        crate::dflash::LayerPart::WDown => entry(
            e,
            "layers."@,
            i as nat,
            ".mlp.down_proj.weight"@,
            LoadKind::DraftWeight,
            c.hidden as int,
            c.intermediate as int,
        ),
    }
}

proof fn lemma_dflash_layer(c: DflashConfig, i: usize)
    requires
        i < c.n_layers,
    ensures
        ({
            let list = crate::dflash::layer_tensors(c, i as nat);
            &&& forall|k: int| 0 <= k < list.len() ==> dflash_entry(c, #[trigger] list[k])
            &&& forall|part: crate::dflash::LayerPart| #[trigger] holds_place(
                list,
                DflashWt::Layer(i, part),
            )
        }),
{
    reveal(crate::dflash::layer_tensors);
    assert(0 <= c.n_heads * c.head_dim && 0 <= c.n_kv_heads * c.head_dim) by (nonlinear_arith);
    let ids = c.target_layer_ids@.len() as int;
    assert(0 <= ids * c.hidden) by (nonlinear_arith)
        requires
            ids >= 0,
    ;
    let list = crate::dflash::layer_tensors(c, i as nat);
    assert(list.len() == 11);
    assert(
        list[0].place == DflashWt::Layer(i, crate::dflash::LayerPart::AttnNorm)
            && dflash_entry(c, list[0])
    );
    assert(
        list[1].place == DflashWt::Layer(i, crate::dflash::LayerPart::Wq)
            && dflash_entry(c, list[1])
    );
    assert(
        list[2].place == DflashWt::Layer(i, crate::dflash::LayerPart::Wk)
            && dflash_entry(c, list[2])
    );
    assert(
        list[3].place == DflashWt::Layer(i, crate::dflash::LayerPart::Wv)
            && dflash_entry(c, list[3])
    );
    assert(
        list[4].place == DflashWt::Layer(i, crate::dflash::LayerPart::Wo)
            && dflash_entry(c, list[4])
    );
    assert(
        list[5].place == DflashWt::Layer(i, crate::dflash::LayerPart::QNorm)
            && dflash_entry(c, list[5])
    );
    assert(
        list[6].place == DflashWt::Layer(i, crate::dflash::LayerPart::KNorm)
            && dflash_entry(c, list[6])
    );
    assert(
        list[7].place == DflashWt::Layer(i, crate::dflash::LayerPart::FfnNorm)
            && dflash_entry(c, list[7])
    );
    assert(
        list[8].place == DflashWt::Layer(i, crate::dflash::LayerPart::WGate)
            && dflash_entry(c, list[8])
    );
    assert(
        list[9].place == DflashWt::Layer(i, crate::dflash::LayerPart::WUp)
            && dflash_entry(c, list[9])
    );
    assert(
        list[10].place == DflashWt::Layer(i, crate::dflash::LayerPart::WDown)
            && dflash_entry(c, list[10])
    );
    assert forall|part: crate::dflash::LayerPart| #[trigger] holds_place(
        list,
        DflashWt::Layer(i, part),
    ) by {}
}

proof fn lemma_dflash_layers(c: DflashConfig, n: nat)
    requires
        n <= c.n_layers,
    ensures
        ({
            let list = crate::dflash::layers_tensors(c, n);
            &&& forall|k: int| 0 <= k < list.len() ==> dflash_entry(c, #[trigger] list[k])
            &&& forall|i: usize, part: crate::dflash::LayerPart|
                i < n ==> #[trigger] holds_place(list, DflashWt::Layer(i, part))
        }),
    decreases n,
{
    if n > 0 {
        let p = (n - 1) as nat;
        lemma_dflash_layers(c, p);
        lemma_dflash_layer(c, p as usize);
        let a = crate::dflash::layers_tensors(c, p);
        let b = crate::dflash::layer_tensors(c, p);
        assert(crate::dflash::layers_tensors(c, n) == a + b);
        assert forall|i: usize, part: crate::dflash::LayerPart| i < n implies #[trigger] holds_place(
            a + b,
            DflashWt::Layer(i, part),
        ) by {
            let place = DflashWt::Layer(i, part);
            assert(i < p ==> holds_place(a, place));
            assert(i == p ==> holds_place(b, place));
            lemma_holds_more(a, b, place);
        }
    }
}

/// Every tensor that is loaded is the one that its place asks for, by name, form and size,
/// and nothing is left out.
pub proof fn law_dflash_tensors(c: DflashConfig, j: int, i: usize, part: crate::dflash::LayerPart)
    ensures
        ({
            let list = crate::dflash::all_tensors(c);
            &&& 0 <= j < list.len() ==> dflash_entry(c, list[j])
            &&& holds_place(list, DflashWt::Fc)
            &&& holds_place(list, DflashWt::HiddenNorm)
            &&& holds_place(list, DflashWt::Norm)
            &&& i < c.n_layers ==> holds_place(list, DflashWt::Layer(i, part))
        }),
{
    assert(0 <= c.n_heads * c.head_dim && 0 <= c.n_kv_heads * c.head_dim) by (nonlinear_arith);
    let ids = c.target_layer_ids@.len() as int;
    assert(0 <= ids * c.hidden) by (nonlinear_arith)
        requires
            ids >= 0,
    ;
    let n = c.n_layers as nat;
    lemma_dflash_layers(c, n);
    let b = crate::dflash::layers_tensors(c, n);
    let list = crate::dflash::all_tensors(c);
    assert(list.len() == b.len() + 3);
    assert forall|k: int| 0 <= k < b.len() implies list[k + 3] == #[trigger] b[k] by {}
    assert(list[0].place == DflashWt::Fc && dflash_entry(c, list[0]));
    assert(list[1].place == DflashWt::HiddenNorm && dflash_entry(c, list[1]));
    assert(list[2].place == DflashWt::Norm && dflash_entry(c, list[2]));
    if 0 <= j < list.len() {
        if 3 <= j < b.len() + 3 {
            assert(list[j] == b[j - 3]);
        }
    }
    if i < c.n_layers {
        assert(holds_place(b, DflashWt::Layer(i, part)));
        let k = choose|k: int| 0 <= k < b.len() && (#[trigger] b[k]).place == DflashWt::Layer(
            i,
            part,
        );
        assert(list[k + 3] == b[k]);
    }
}

// The vision tower of Qwen3.5.

/// A tensor is what its place asks for.
pub open spec fn vision_entry(c: VisionConfig, e: Tensor<VisionWt>) -> bool {
    match e.place {
        VisionWt::PatchEmbedW => single(
            e,
            "model.visual.patch_embed.proj.weight"@,
            LoadKind::HalfWeight,
            c.hidden_size as int,
            c.patch_dim(),
        ),
        VisionWt::PatchEmbedB => single(
            e,
            "model.visual.patch_embed.proj.bias"@,
            LoadKind::First,
            1,
            c.hidden_size as int,
        ),
        VisionWt::PosEmbed => single(
            e,
            "model.visual.pos_embed.weight"@,
            LoadKind::First,
            2304,
            c.hidden_size as int,
        ),
        VisionWt::MergerNormW => single(
            e,
            "model.visual.merger.norm.weight"@,
            LoadKind::First,
            1,
            c.hidden_size as int,
        ),
        VisionWt::MergerNormB => single(
            e,
            "model.visual.merger.norm.bias"@,
            LoadKind::First,
            1,
            c.hidden_size as int,
        ),
        VisionWt::MergerFc1W => single(
            e,
            "model.visual.merger.linear_fc1.weight"@,
            LoadKind::HalfWeight,
            c.merge_dim(),
            c.merge_dim(),
        ),
        VisionWt::MergerFc1B => single(
            e,
            "model.visual.merger.linear_fc1.bias"@,
            LoadKind::First,
            1,
            c.merge_dim(),
        ),
        VisionWt::MergerFc2W => single(
            e,
            "model.visual.merger.linear_fc2.weight"@,
            LoadKind::HalfWeight,
            c.out_hidden_size as int,
            c.merge_dim(),
        ),
        VisionWt::MergerFc2B => single(
            e,
            "model.visual.merger.linear_fc2.bias"@,
            LoadKind::First,
            1,
            c.out_hidden_size as int,
        ),
        VisionWt::Layer(i, part) => i < c.num_layers && vision_part(c, i, part, e),
    }
}

/// A tensor of layer `i` is what a part asks for.
pub open spec fn vision_part(
    c: VisionConfig,
    i: usize,
    part: VisionPart,
    e: Tensor<VisionWt>,
) -> bool {
    match part {
        VisionPart::Norm1W => entry(
            e,
            "model.visual.blocks."@,
            i as nat,
            ".norm1.weight"@,
            LoadKind::First,
            1,
            c.hidden_size as int,
        ),
        VisionPart::Norm1B => entry(
            e,
            "model.visual.blocks."@,
            i as nat,
            ".norm1.bias"@,
            LoadKind::First,
            1,
            c.hidden_size as int,
        ),
        VisionPart::QkvW => entry(
            e,
            "model.visual.blocks."@,
            i as nat,
            ".attn.qkv.weight"@,
            LoadKind::HalfWeight,
            3 * c.hidden_size,
            c.hidden_size as int,
        ),
        VisionPart::QkvB => entry(
            e,
            "model.visual.blocks."@,
            i as nat,
            ".attn.qkv.bias"@,
            LoadKind::First,
            1,
            3 * c.hidden_size,
        ),
        VisionPart::ProjW => entry(
            e,
            "model.visual.blocks."@,
            i as nat,
            ".attn.proj.weight"@,
            LoadKind::HalfWeight,
            c.hidden_size as int,
            c.hidden_size as int,
        ),
        VisionPart::ProjB => entry(
            e,
            "model.visual.blocks."@,
            i as nat,
            ".attn.proj.bias"@,
            LoadKind::First,
            1,
            c.hidden_size as int,
        ),
        VisionPart::Norm2W => entry(
            e,
            "model.visual.blocks."@,
            i as nat,
            ".norm2.weight"@,
            LoadKind::First,
            1,
            c.hidden_size as int,
        ),
        VisionPart::Norm2B => entry(
            e,
            "model.visual.blocks."@,
            i as nat,
            ".norm2.bias"@,
            LoadKind::First,
            1,
            c.hidden_size as int,
        ),
        VisionPart::Fc1W => entry(
            e,
            "model.visual.blocks."@,
            i as nat,
            ".mlp.linear_fc1.weight"@,
            LoadKind::HalfWeight,
            c.mlp_dim as int,
            c.hidden_size as int,
        ),
        VisionPart::Fc1B => entry(
            e,
            "model.visual.blocks."@,
            i as nat,
            ".mlp.linear_fc1.bias"@,
            LoadKind::First,
            1,
            c.mlp_dim as int,
        ),
        VisionPart::Fc2W => entry(
            e,
            "model.visual.blocks."@,
            i as nat,
            ".mlp.linear_fc2.weight"@,
            LoadKind::HalfWeight,
            c.hidden_size as int,
            c.mlp_dim as int,
        ),
        VisionPart::Fc2B => entry(
            e,
            "model.visual.blocks."@,
            i as nat,
            ".mlp.linear_fc2.bias"@,
            LoadKind::First,
            1,
            c.hidden_size as int,
        ),
    }
}

proof fn lemma_vision_layer(c: VisionConfig, i: usize)
    requires
        i < c.num_layers,
    ensures
        ({
            let list = crate::qwen35_vl::layer_tensors(c, i as nat);
            &&& forall|k: int| 0 <= k < list.len() ==> vision_entry(c, #[trigger] list[k])
            &&& forall|part: VisionPart| #[trigger] holds_place(list, VisionWt::Layer(i, part))
        }),
{
    assert(0 <= 3 * c.temporal_patch_size * c.patch_size) by (nonlinear_arith);
    let t = 3 * c.temporal_patch_size * c.patch_size;
    assert(0 <= t * c.patch_size) by (nonlinear_arith)
        requires
            t >= 0,
    ;
    assert(0 <= c.hidden_size * c.spatial_merge_size) by (nonlinear_arith);
    let u = c.hidden_size * c.spatial_merge_size;
    assert(0 <= u * c.spatial_merge_size) by (nonlinear_arith)
        requires
            u >= 0,
    ;
    let list = crate::qwen35_vl::layer_tensors(c, i as nat);
    assert(list.len() == 12);
    assert(list[0].place == VisionWt::Layer(i, VisionPart::Norm1W) && vision_entry(c, list[0]));
    assert(list[1].place == VisionWt::Layer(i, VisionPart::Norm1B) && vision_entry(c, list[1]));
    assert(list[2].place == VisionWt::Layer(i, VisionPart::QkvW) && vision_entry(c, list[2]));
    assert(list[3].place == VisionWt::Layer(i, VisionPart::QkvB) && vision_entry(c, list[3]));
    assert(list[4].place == VisionWt::Layer(i, VisionPart::ProjW) && vision_entry(c, list[4]));
    assert(list[5].place == VisionWt::Layer(i, VisionPart::ProjB) && vision_entry(c, list[5]));
    assert(list[6].place == VisionWt::Layer(i, VisionPart::Norm2W) && vision_entry(c, list[6]));
    assert(list[7].place == VisionWt::Layer(i, VisionPart::Norm2B) && vision_entry(c, list[7]));
    assert(list[8].place == VisionWt::Layer(i, VisionPart::Fc1W) && vision_entry(c, list[8]));
    assert(list[9].place == VisionWt::Layer(i, VisionPart::Fc1B) && vision_entry(c, list[9]));
    assert(list[10].place == VisionWt::Layer(i, VisionPart::Fc2W) && vision_entry(c, list[10]));
    assert(list[11].place == VisionWt::Layer(i, VisionPart::Fc2B) && vision_entry(c, list[11]));
    assert forall|part: VisionPart| #[trigger] holds_place(list, VisionWt::Layer(i, part)) by {}
}

proof fn lemma_vision_layers(c: VisionConfig, n: nat)
    requires
        n <= c.num_layers,
    ensures
        ({
            let list = crate::qwen35_vl::layers_tensors(c, n);
            &&& forall|k: int| 0 <= k < list.len() ==> vision_entry(c, #[trigger] list[k])
            &&& forall|i: usize, part: VisionPart|
                i < n ==> #[trigger] holds_place(list, VisionWt::Layer(i, part))
        }),
    decreases n,
{
    if n > 0 {
        let p = (n - 1) as nat;
        lemma_vision_layers(c, p);
        lemma_vision_layer(c, p as usize);
        let a = crate::qwen35_vl::layers_tensors(c, p);
        let b = crate::qwen35_vl::layer_tensors(c, p);
        assert(crate::qwen35_vl::layers_tensors(c, n) == a + b);
        assert forall|i: usize, part: VisionPart| i < n implies #[trigger] holds_place(
            a + b,
            VisionWt::Layer(i, part),
        ) by {
            let place = VisionWt::Layer(i, part);
            assert(i < p ==> holds_place(a, place));
            assert(i == p ==> holds_place(b, place));
            lemma_holds_more(a, b, place);
        }
    }
}

/// Every tensor that is loaded is the one that its place asks for, by name, form and size,
/// and nothing is left out.
pub proof fn law_vision_tensors(c: VisionConfig, j: int, i: usize, part: VisionPart)
    ensures
        ({
            let list = crate::qwen35_vl::all_tensors(c);
            &&& 0 <= j < list.len() ==> vision_entry(c, list[j])
            &&& holds_place(list, VisionWt::PatchEmbedW)
            &&& holds_place(list, VisionWt::PatchEmbedB)
            &&& holds_place(list, VisionWt::PosEmbed)
            &&& holds_place(list, VisionWt::MergerNormW)
            &&& holds_place(list, VisionWt::MergerNormB)
            &&& holds_place(list, VisionWt::MergerFc1W)
            &&& holds_place(list, VisionWt::MergerFc1B)
            &&& holds_place(list, VisionWt::MergerFc2W)
            &&& holds_place(list, VisionWt::MergerFc2B)
            &&& i < c.num_layers ==> holds_place(list, VisionWt::Layer(i, part))
        }),
{
    assert(0 <= 3 * c.temporal_patch_size * c.patch_size) by (nonlinear_arith);
    let t = 3 * c.temporal_patch_size * c.patch_size;
    assert(0 <= t * c.patch_size) by (nonlinear_arith)
        requires
            t >= 0,
    ;
    assert(0 <= c.hidden_size * c.spatial_merge_size) by (nonlinear_arith);
    let u = c.hidden_size * c.spatial_merge_size;
    assert(0 <= u * c.spatial_merge_size) by (nonlinear_arith)
        requires
            u >= 0,
    ;
    let n = c.num_layers as nat;
    lemma_vision_layers(c, n);
    let b = crate::qwen35_vl::layers_tensors(c, n);
    let list = crate::qwen35_vl::all_tensors(c);
    assert(list.len() == b.len() + 9);
    assert forall|k: int| 0 <= k < b.len() implies list[k + 3] == #[trigger] b[k] by {}
    assert(list[0].place == VisionWt::PatchEmbedW && vision_entry(c, list[0]));
    assert(list[1].place == VisionWt::PatchEmbedB && vision_entry(c, list[1]));
    assert(list[2].place == VisionWt::PosEmbed && vision_entry(c, list[2]));
    assert(
        list[b.len() as int + 3].place == VisionWt::MergerNormW
            && vision_entry(c, list[b.len() as int + 3])
    );
    assert(
        list[b.len() as int + 4].place == VisionWt::MergerNormB
            && vision_entry(c, list[b.len() as int + 4])
    );
    assert(
        list[b.len() as int + 5].place == VisionWt::MergerFc1W
            && vision_entry(c, list[b.len() as int + 5])
    );
    assert(
        list[b.len() as int + 6].place == VisionWt::MergerFc1B
            && vision_entry(c, list[b.len() as int + 6])
    );
    assert(
        list[b.len() as int + 7].place == VisionWt::MergerFc2W
            && vision_entry(c, list[b.len() as int + 7])
    );
    assert(
        list[b.len() as int + 8].place == VisionWt::MergerFc2B
            && vision_entry(c, list[b.len() as int + 8])
    );
    if 0 <= j < list.len() {
        if 3 <= j < b.len() + 3 {
            assert(list[j] == b[j - 3]);
        }
    }
    if i < c.num_layers {
        assert(holds_place(b, VisionWt::Layer(i, part)));
        let k = choose|k: int| 0 <= k < b.len() && (#[trigger] b[k]).place == VisionWt::Layer(
            i,
            part,
        );
        assert(list[k + 3] == b[k]);
    }
}

// The vision tower of dots.ocr.

/// A tensor is what its place asks for.
pub open spec fn dots_entry(c: DotsVisionConfig, e: Tensor<DotsVisionWt>) -> bool {
    match e.place {
        DotsVisionWt::PatchEmbedW => single(
            e,
            "vision_tower.patch_embed.patchifier.proj.weight"@,
            LoadKind::AsHalf,
            c.embed_dim as int,
            c.patch_dim(),
        ),
        DotsVisionWt::PatchEmbedB => single(
            e,
            "vision_tower.patch_embed.patchifier.proj.bias"@,
            LoadKind::Exact,
            1,
            c.embed_dim as int,
        ),
        DotsVisionWt::PatchEmbedNorm => single(
            e,
            "vision_tower.patch_embed.patchifier.norm.weight"@,
            LoadKind::Exact,
            1,
            c.embed_dim as int,
        ),
        DotsVisionWt::PostTrunkNorm => single(
            e,
            "vision_tower.post_trunk_norm.weight"@,
            LoadKind::Exact,
            1,
            c.embed_dim as int,
        ),
        DotsVisionWt::MergerLnW => single(
            e,
            "vision_tower.merger.ln_q.weight"@,
            LoadKind::Exact,
            1,
            c.embed_dim as int,
        ),
        DotsVisionWt::MergerLnB => single(
            e,
            "vision_tower.merger.ln_q.bias"@,
            LoadKind::Exact,
            1,
            c.embed_dim as int,
        ),
        DotsVisionWt::MergerFc1W => single(
            e,
            "vision_tower.merger.mlp.0.weight"@,
            LoadKind::AsHalf,
            c.merge_dim(),
            c.merge_dim(),
        ),
        DotsVisionWt::MergerFc1B => single(
            e,
            "vision_tower.merger.mlp.0.bias"@,
            LoadKind::Exact,
            1,
            c.merge_dim(),
        ),
        DotsVisionWt::MergerFc2W => single(
            e,
            "vision_tower.merger.mlp.2.weight"@,
            LoadKind::AsHalf,
            c.out_hidden_size as int,
            c.merge_dim(),
        ),
        DotsVisionWt::MergerFc2B => single(
            e,
            "vision_tower.merger.mlp.2.bias"@,
            LoadKind::Exact,
            1,
            c.out_hidden_size as int,
        ),
        DotsVisionWt::Block(i, part) => i < c.num_hidden_layers && dots_part(c, i, part, e),
    }
}

/// A tensor of layer `i` is what a part asks for.
pub open spec fn dots_part(
    c: DotsVisionConfig,
    i: usize,
    part: DotsVisionPart,
    e: Tensor<DotsVisionWt>,
) -> bool {
    match part {
        DotsVisionPart::Norm1 => entry(
            e,
            "vision_tower.blocks."@,
            i as nat,
            ".norm1.weight"@,
            LoadKind::Exact,
            1,
            c.embed_dim as int,
        ),
        DotsVisionPart::Qkv => entry(
            e,
            "vision_tower.blocks."@,
            i as nat,
            ".attn.qkv.weight"@,
            LoadKind::AsHalf,
            3 * c.embed_dim,
            c.embed_dim as int,
        ),
        DotsVisionPart::Proj => entry(
            e,
            "vision_tower.blocks."@,
            i as nat,
            ".attn.proj.weight"@,
            LoadKind::AsHalf,
            c.embed_dim as int,
            c.embed_dim as int,
        ),
        DotsVisionPart::Norm2 => entry(
            e,
            "vision_tower.blocks."@,
            i as nat,
            ".norm2.weight"@,
            LoadKind::Exact,
            1,
            c.embed_dim as int,
        ),
        DotsVisionPart::Fc13 => entry(e, "vision_tower.blocks."@, i as nat, ".mlp.fc1.weight"@, LoadKind::AsHalfWithNext, c.intermediate_size as int, c.embed_dim as int) || entry(e, "vision_tower.blocks."@, i as nat, ".mlp.fc3.weight"@, LoadKind::AsHalf, c.intermediate_size as int, c.embed_dim as int),
        DotsVisionPart::Fc2 => entry(
            e,
            "vision_tower.blocks."@,
            i as nat,
            ".mlp.fc2.weight"@,
            LoadKind::AsHalf,
            c.embed_dim as int,
            c.intermediate_size as int,
        ),
    }
}

proof fn lemma_dots_layer(c: DotsVisionConfig, i: usize)
    requires
        i < c.num_hidden_layers,
    ensures
        ({
            let list = crate::dots_ocr::block_tensors(c, i as nat);
            &&& forall|k: int| 0 <= k < list.len() ==> dots_entry(c, #[trigger] list[k])
            &&& forall|part: DotsVisionPart| #[trigger] holds_place(
                list,
                DotsVisionWt::Block(i, part),
            )
        }),
{
    let p = c.num_channels * c.temporal_patch_size;
    assert(0 <= p) by (nonlinear_arith)
        requires
            p == c.num_channels * c.temporal_patch_size,
    ;
    let t = p * c.patch_size;
    assert(0 <= t) by (nonlinear_arith)
        requires
            t == p * c.patch_size,
            p >= 0,
    ;
    assert(0 <= t * c.patch_size) by (nonlinear_arith)
        requires
            t >= 0,
    ;
    assert(0 <= c.embed_dim * c.spatial_merge_size) by (nonlinear_arith);
    let u = c.embed_dim * c.spatial_merge_size;
    assert(0 <= u * c.spatial_merge_size) by (nonlinear_arith)
        requires
            u >= 0,
    ;
    let list = crate::dots_ocr::block_tensors(c, i as nat);
    assert(list.len() == 7);
    assert(
        list[0].place == DotsVisionWt::Block(i, DotsVisionPart::Norm1) && dots_entry(c, list[0])
    );
    assert(list[1].place == DotsVisionWt::Block(i, DotsVisionPart::Qkv) && dots_entry(c, list[1]));
    assert(list[2].place == DotsVisionWt::Block(i, DotsVisionPart::Proj) && dots_entry(c, list[2]));
    assert(
        list[3].place == DotsVisionWt::Block(i, DotsVisionPart::Norm2) && dots_entry(c, list[3])
    );
    assert(list[4].place == DotsVisionWt::Block(i, DotsVisionPart::Fc13) && dots_entry(c, list[4]));
    assert(list[5].place == DotsVisionWt::Block(i, DotsVisionPart::Fc13) && dots_entry(c, list[5]));
    assert(list[6].place == DotsVisionWt::Block(i, DotsVisionPart::Fc2) && dots_entry(c, list[6]));
    assert forall|part: DotsVisionPart| #[trigger] holds_place(
        list,
        DotsVisionWt::Block(i, part),
    ) by {}
}

proof fn lemma_dots_layers(c: DotsVisionConfig, n: nat)
    requires
        n <= c.num_hidden_layers,
    ensures
        ({
            let list = crate::dots_ocr::blocks_tensors(c, n);
            &&& forall|k: int| 0 <= k < list.len() ==> dots_entry(c, #[trigger] list[k])
            &&& forall|i: usize, part: DotsVisionPart|
                i < n ==> #[trigger] holds_place(list, DotsVisionWt::Block(i, part))
        }),
    decreases n,
{
    if n > 0 {
        let p = (n - 1) as nat;
        lemma_dots_layers(c, p);
        lemma_dots_layer(c, p as usize);
        let a = crate::dots_ocr::blocks_tensors(c, p);
        let b = crate::dots_ocr::block_tensors(c, p);
        assert(crate::dots_ocr::blocks_tensors(c, n) == a + b);
        assert forall|i: usize, part: DotsVisionPart| i < n implies #[trigger] holds_place(
            a + b,
            DotsVisionWt::Block(i, part),
        ) by {
            let place = DotsVisionWt::Block(i, part);
            assert(i < p ==> holds_place(a, place));
            assert(i == p ==> holds_place(b, place));
            lemma_holds_more(a, b, place);
        }
    }
}

/// Every tensor that is loaded is the one that its place asks for, by name, form and size,
/// and nothing is left out.
pub proof fn law_dots_tensors(c: DotsVisionConfig, j: int, i: usize, part: DotsVisionPart)
    ensures
        ({
            let list = crate::dots_ocr::all_tensors(c);
            &&& 0 <= j < list.len() ==> dots_entry(c, list[j])
            &&& holds_place(list, DotsVisionWt::PatchEmbedW)
            &&& holds_place(list, DotsVisionWt::PatchEmbedB)
            &&& holds_place(list, DotsVisionWt::PatchEmbedNorm)
            &&& holds_place(list, DotsVisionWt::PostTrunkNorm)
            &&& holds_place(list, DotsVisionWt::MergerLnW)
            &&& holds_place(list, DotsVisionWt::MergerLnB)
            &&& holds_place(list, DotsVisionWt::MergerFc1W)
            &&& holds_place(list, DotsVisionWt::MergerFc1B)
            &&& holds_place(list, DotsVisionWt::MergerFc2W)
            &&& holds_place(list, DotsVisionWt::MergerFc2B)
            &&& i < c.num_hidden_layers ==> holds_place(list, DotsVisionWt::Block(i, part))
        }),
{
    let p = c.num_channels * c.temporal_patch_size;
    assert(0 <= p) by (nonlinear_arith)
        requires
            p == c.num_channels * c.temporal_patch_size,
    ;
    let t = p * c.patch_size;
    assert(0 <= t) by (nonlinear_arith)
        requires
            t == p * c.patch_size,
            p >= 0,
    ;
    assert(0 <= t * c.patch_size) by (nonlinear_arith)
        requires
            t >= 0,
    ;
    assert(0 <= c.embed_dim * c.spatial_merge_size) by (nonlinear_arith);
    let u = c.embed_dim * c.spatial_merge_size;
    assert(0 <= u * c.spatial_merge_size) by (nonlinear_arith)
        requires
            u >= 0,
    ;
    let n = c.num_hidden_layers as nat;
    lemma_dots_layers(c, n);
    let b = crate::dots_ocr::blocks_tensors(c, n);
    let list = crate::dots_ocr::all_tensors(c);
    assert(list.len() == b.len() + 10);
    assert forall|k: int| 0 <= k < b.len() implies list[k + 3] == #[trigger] b[k] by {}
    assert(list[0].place == DotsVisionWt::PatchEmbedW && dots_entry(c, list[0]));
    assert(list[1].place == DotsVisionWt::PatchEmbedB && dots_entry(c, list[1]));
    assert(list[2].place == DotsVisionWt::PatchEmbedNorm && dots_entry(c, list[2]));
    assert(
        list[b.len() as int + 3].place == DotsVisionWt::PostTrunkNorm
            && dots_entry(c, list[b.len() as int + 3])
    );
    assert(
        list[b.len() as int + 4].place == DotsVisionWt::MergerLnW
            && dots_entry(c, list[b.len() as int + 4])
    );
    assert(
        list[b.len() as int + 5].place == DotsVisionWt::MergerLnB
            && dots_entry(c, list[b.len() as int + 5])
    );
    assert(
        list[b.len() as int + 6].place == DotsVisionWt::MergerFc1W
            && dots_entry(c, list[b.len() as int + 6])
    );
    assert(
        list[b.len() as int + 7].place == DotsVisionWt::MergerFc1B
            && dots_entry(c, list[b.len() as int + 7])
    );
    assert(
        list[b.len() as int + 8].place == DotsVisionWt::MergerFc2W
            && dots_entry(c, list[b.len() as int + 8])
    );
    assert(
        list[b.len() as int + 9].place == DotsVisionWt::MergerFc2B
            && dots_entry(c, list[b.len() as int + 9])
    );
    if 0 <= j < list.len() {
        if 3 <= j < b.len() + 3 {
            assert(list[j] == b[j - 3]);
        }
    }
    if i < c.num_hidden_layers {
        assert(holds_place(b, DotsVisionWt::Block(i, part)));
        let k = choose|k: int| 0 <= k < b.len() && (#[trigger] b[k]).place == DotsVisionWt::Block(
            i,
            part,
        );
        assert(list[k + 3] == b[k]);
    }
}

// Gemma 4.

/// A tensor is what its place asks for.
pub open spec fn gemma4_entry(c: Gemma4Config, e: Tensor<Gemma4Wt>) -> bool {
    match e.place {
        Gemma4Wt::EmbedTokens => single(
            e,
            "model.language_model.embed_tokens.weight"@,
            LoadKind::Embedding,
            c.vocab_size as int,
            c.dim as int,
        ),
        Gemma4Wt::FinalNorm => single(
            e,
            "model.language_model.norm.weight"@,
            LoadKind::Shaped,
            1,
            c.dim as int,
        ),
        Gemma4Wt::Layer(i, part) => {
            &&& i < c.n_layers
            &&& gemma4_part(
                c,
                i,
                c.layer_types@[i as int] == crate::gemma4::LayerType::Sliding,
                c.enable_moe_block,
                part,
                e,
            )
        },
        Gemma4Wt::Expert(i, x, part) => {
            let head = crate::names::numbered(
                "model.language_model.layers."@,
                i as nat,
                ".experts."@,
            );
            let kind = LoadKind::Pooled { back: x };
            let mi = c.moe_intermediate_size as int;
            &&& i < c.n_layers
            &&& c.enable_moe_block
            &&& match part {
                ExpertPart::GateUp => entry(
                    e,
                    head,
                    x as nat,
                    ".gate_up_proj.weight"@,
                    kind,
                    2 * mi,
                    c.dim as int,
                ),
                ExpertPart::Down => entry(
                    e,
                    head,
                    x as nat,
                    ".down_proj.weight"@,
                    kind,
                    c.dim as int,
                    mi,
                ),
            }
        },
        _ => false,
    }
}

/// A tensor of layer `i` is what a part of such a layer asks for.
pub open spec fn gemma4_part(
    c: Gemma4Config,
    i: usize,
    sliding: bool,
    moe: bool,
    part: crate::gemma4::LayerPart,
    e: Tensor<Gemma4Wt>,
) -> bool {
    let hd = if sliding {
        c.sliding_head_dim as int
    } else {
        c.full_head_dim as int
    };
    let nk = if sliding {
        c.sliding_n_kv_heads as int
    } else {
        c.full_n_kv_heads as int
    };
    match part {
        crate::gemma4::LayerPart::LayerScalar => entry(
            e,
            "model.language_model.layers."@,
            i as nat,
            ".layer_scalar"@,
            LoadKind::Scalar,
            1,
            1,
        ),
        crate::gemma4::LayerPart::RouterProj => moe && entry(
            e,
            "model.language_model.layers."@,
            i as nat,
            ".router.proj.weight"@,
            LoadKind::AnyWeight,
            c.num_experts as int,
            c.dim as int,
        ),
        crate::gemma4::LayerPart::RouterScale => moe && entry(
            e,
            "model.language_model.layers."@,
            i as nat,
            ".router.scale"@,
            LoadKind::Shaped,
            1,
            c.dim as int,
        ),
        crate::gemma4::LayerPart::PerExpertScale => moe && entry(
            e,
            "model.language_model.layers."@,
            i as nat,
            ".router.per_expert_scale"@,
            LoadKind::Shaped,
            1,
            c.num_experts as int,
        ),
        crate::gemma4::LayerPart::PreFfnNorm2 => moe && entry(
            e,
            "model.language_model.layers."@,
            i as nat,
            ".pre_feedforward_layernorm_2.weight"@,
            LoadKind::Shaped,
            1,
            c.dim as int,
        ),
        crate::gemma4::LayerPart::PostFfnNorm1 => moe && entry(
            e,
            "model.language_model.layers."@,
            i as nat,
            ".post_feedforward_layernorm_1.weight"@,
            LoadKind::Shaped,
            1,
            c.dim as int,
        ),
        crate::gemma4::LayerPart::PostFfnNorm2 => moe && entry(
            e,
            "model.language_model.layers."@,
            i as nat,
            ".post_feedforward_layernorm_2.weight"@,
            LoadKind::Shaped,
            1,
            c.dim as int,
        ),
        crate::gemma4::LayerPart::InputNorm => entry(
            e,
            "model.language_model.layers."@,
            i as nat,
            ".input_layernorm.weight"@,
            LoadKind::Shaped,
            1,
            c.dim as int,
        ),
        crate::gemma4::LayerPart::PostAttnNorm => entry(
            e,
            "model.language_model.layers."@,
            i as nat,
            ".post_attention_layernorm.weight"@,
            LoadKind::Shaped,
            1,
            c.dim as int,
        ),
        crate::gemma4::LayerPart::PreFfnNorm => entry(
            e,
            "model.language_model.layers."@,
            i as nat,
            ".pre_feedforward_layernorm.weight"@,
            LoadKind::Shaped,
            1,
            c.dim as int,
        ),
        crate::gemma4::LayerPart::PostFfnNorm => entry(
            e,
            "model.language_model.layers."@,
            i as nat,
            ".post_feedforward_layernorm.weight"@,
            LoadKind::Shaped,
            1,
            c.dim as int,
        ),
        crate::gemma4::LayerPart::QProj => entry(
            e,
            "model.language_model.layers."@,
            i as nat,
            ".self_attn.q_proj.weight"@,
            LoadKind::AnyWeight,
            c.n_heads * hd,
            c.dim as int,
        ),
        crate::gemma4::LayerPart::KProj => entry(
            e,
            "model.language_model.layers."@,
            i as nat,
            ".self_attn.k_proj.weight"@,
            LoadKind::AnyWeight,
            nk * hd,
            c.dim as int,
        ),
        crate::gemma4::LayerPart::VProj => sliding && entry(
            e,
            "model.language_model.layers."@,
            i as nat,
            ".self_attn.v_proj.weight"@,
            LoadKind::AnyWeight,
            nk * hd,
            c.dim as int,
        ),
        crate::gemma4::LayerPart::OProj => entry(
            e,
            "model.language_model.layers."@,
            i as nat,
            ".self_attn.o_proj.weight"@,
            LoadKind::AnyWeight,
            c.dim as int,
            c.n_heads * hd,
        ),
        crate::gemma4::LayerPart::QNorm => entry(
            e,
            "model.language_model.layers."@,
            i as nat,
            ".self_attn.q_norm.weight"@,
            LoadKind::Shaped,
            1,
            hd,
        ),
        crate::gemma4::LayerPart::KNorm => entry(
            e,
            "model.language_model.layers."@,
            i as nat,
            ".self_attn.k_norm.weight"@,
            LoadKind::Shaped,
            1,
            hd,
        ),
        crate::gemma4::LayerPart::GateProj => entry(
            e,
            "model.language_model.layers."@,
            i as nat,
            ".mlp.gate_proj.weight"@,
            LoadKind::AnyWeight,
            c.hidden_dim as int,
            c.dim as int,
        ),
        crate::gemma4::LayerPart::UpProj => entry(
            e,
            "model.language_model.layers."@,
            i as nat,
            ".mlp.up_proj.weight"@,
            LoadKind::AnyWeight,
            c.hidden_dim as int,
            c.dim as int,
        ),
        crate::gemma4::LayerPart::DownProj => entry(
            e,
            "model.language_model.layers."@,
            i as nat,
            ".mlp.down_proj.weight"@,
            LoadKind::AnyWeight,
            c.dim as int,
            c.hidden_dim as int,
        ),
        _ => false,
    }
}

/// A layer has a part.
pub open spec fn gemma4_has(sliding: bool, moe: bool, part: crate::gemma4::LayerPart) -> bool {
    match part {
        crate::gemma4::LayerPart::LayerScalar => true,
        crate::gemma4::LayerPart::RouterProj => moe,
        crate::gemma4::LayerPart::RouterScale => moe,
        crate::gemma4::LayerPart::PerExpertScale => moe,
        crate::gemma4::LayerPart::PreFfnNorm2 => moe,
        crate::gemma4::LayerPart::PostFfnNorm1 => moe,
        crate::gemma4::LayerPart::PostFfnNorm2 => moe,
        crate::gemma4::LayerPart::InputNorm => true,
        crate::gemma4::LayerPart::PostAttnNorm => true,
        crate::gemma4::LayerPart::PreFfnNorm => true,
        crate::gemma4::LayerPart::PostFfnNorm => true,
        crate::gemma4::LayerPart::QProj => true,
        crate::gemma4::LayerPart::KProj => true,
        crate::gemma4::LayerPart::VProj => sliding,
        crate::gemma4::LayerPart::OProj => true,
        crate::gemma4::LayerPart::QNorm => true,
        crate::gemma4::LayerPart::KNorm => true,
        crate::gemma4::LayerPart::GateProj => true,
        crate::gemma4::LayerPart::UpProj => true,
        crate::gemma4::LayerPart::DownProj => true,
        _ => false,
    }
}

/// A place that layer `i` of Gemma 4 has tensors for.
pub open spec fn gemma4_place(c: Gemma4Config, i: usize, place: Gemma4Wt) -> bool {
    match place {
        Gemma4Wt::Layer(j, part) => {
            &&& j == i
            &&& gemma4_has(
                c.layer_types@[i as int] == crate::gemma4::LayerType::Sliding,
                c.enable_moe_block,
                part,
            )
        },
        Gemma4Wt::Expert(j, x, _) => j == i && c.enable_moe_block && (x < c.num_experts || x == 0),
        _ => false,
    }
}

proof fn lemma_gemma4_moe(c: Gemma4Config, i: usize)
    requires
        i < c.n_layers,
        c.enable_moe_block,
        c.weights_fit(),
    ensures
        ({
            let list = crate::gemma4::moe_tensors(c, i as nat);
            &&& forall|k: int| 0 <= k < list.len() ==> gemma4_entry(c, #[trigger] list[k])
            &&& forall|part: crate::gemma4::LayerPart|
                (part == crate::gemma4::LayerPart::RouterProj || part == crate::gemma4::LayerPart::RouterScale || part
                    == crate::gemma4::LayerPart::PerExpertScale || part == crate::gemma4::LayerPart::PreFfnNorm2 || part
                    == crate::gemma4::LayerPart::PostFfnNorm1 || part == crate::gemma4::LayerPart::PostFfnNorm2)
                    ==> #[trigger] holds_place(list, Gemma4Wt::Layer(i, part))
            &&& forall|x: usize, part: ExpertPart|
                x < c.num_experts || x == 0 ==> #[trigger] holds_place(
                    list,
                    Gemma4Wt::Expert(i, x, part),
                )
        }),
{
    let list = crate::gemma4::moe_tensors(c, i as nat);
    let mi = c.moe_intermediate_size as nat;
    let n = crate::gemma4::read_experts(c);
    let up = crate::gemma4::expert_tensors(
        i as nat,
        ExpertPart::GateUp,
        ".gate_up_proj.weight"@,
        2 * mi,
        c.dim as nat,
        n,
    );
    let down = crate::gemma4::expert_tensors(
        i as nat,
        ExpertPart::Down,
        ".down_proj.weight"@,
        c.dim as nat,
        mi,
        n,
    );
    assert(list.len() == 6 + 2 * n);
    assert(
        list[0].place == Gemma4Wt::Layer(i, crate::gemma4::LayerPart::RouterProj)
            && gemma4_entry(c, list[0])
    );
    assert(
        list[1].place == Gemma4Wt::Layer(i, crate::gemma4::LayerPart::RouterScale)
            && gemma4_entry(c, list[1])
    );
    assert(
        list[2].place == Gemma4Wt::Layer(i, crate::gemma4::LayerPart::PerExpertScale)
            && gemma4_entry(c, list[2])
    );
    assert(
        list[3].place == Gemma4Wt::Layer(i, crate::gemma4::LayerPart::PreFfnNorm2)
            && gemma4_entry(c, list[3])
    );
    assert(
        list[4].place == Gemma4Wt::Layer(i, crate::gemma4::LayerPart::PostFfnNorm1)
            && gemma4_entry(c, list[4])
    );
    assert(
        list[5].place == Gemma4Wt::Layer(i, crate::gemma4::LayerPart::PostFfnNorm2)
            && gemma4_entry(c, list[5])
    );
    assert forall|k: int| 0 <= k < n implies list[6 + k] == #[trigger] up[k] by {}
    assert forall|k: int| 0 <= k < n implies list[6 + n + k] == #[trigger] down[k] by {}
    assert forall|k: int| 0 <= k < list.len() implies gemma4_entry(c, #[trigger] list[k]) by {
        if 6 <= k < 6 + n {
            assert(list[k] == up[k - 6]);
        } else if k >= 6 + n {
            assert(list[k] == down[k - 6 - n]);
        }
    }
    assert forall|x: usize, part: ExpertPart| x < c.num_experts || x == 0 implies #[trigger] holds_place(
        list,
        Gemma4Wt::Expert(i, x, part),
    ) by {
        assert(x < n);
        assert(up[x as int].place == Gemma4Wt::Expert(i, x, ExpertPart::GateUp));
        assert(down[x as int].place == Gemma4Wt::Expert(i, x, ExpertPart::Down));
        assert(list[6 + x] == up[x as int]);
        assert(list[6 + n + x] == down[x as int]);
    }
}

#[verifier::spinoff_prover]
proof fn lemma_gemma4_attn(c: Gemma4Config, i: usize)
    requires
        i < c.n_layers,
    ensures
        ({
            let kind = c.layer_types@[i as int];
            let list = crate::gemma4::attn_tensors(c, kind, i as nat);
            &&& forall|k: int| 0 <= k < list.len() ==> gemma4_entry(c, #[trigger] list[k])
            &&& forall|part: crate::gemma4::LayerPart|
                (part == crate::gemma4::LayerPart::QProj || part == crate::gemma4::LayerPart::KProj || (part == crate::gemma4::LayerPart::VProj && kind
                    == crate::gemma4::LayerType::Sliding) || part == crate::gemma4::LayerPart::OProj || part == crate::gemma4::LayerPart::QNorm || part
                    == crate::gemma4::LayerPart::KNorm) ==> #[trigger] holds_place(
                        list,
                        Gemma4Wt::Layer(i, part),
                    )
        }),
{
    let kind = c.layer_types@[i as int];
    let list = crate::gemma4::attn_tensors(c, kind, i as nat);
    assert(0 <= c.n_heads * c.sliding_head_dim && 0 <= c.n_heads * c.full_head_dim && 0
        <= c.sliding_n_kv_heads * c.sliding_head_dim && 0 <= c.full_n_kv_heads * c.full_head_dim)
        by (nonlinear_arith);
    if kind == crate::gemma4::LayerType::Sliding {
        assert(list.len() == 6);
        assert(
            list[0].place == Gemma4Wt::Layer(i, crate::gemma4::LayerPart::QProj)
                && gemma4_entry(c, list[0])
        );
        assert(
            list[1].place == Gemma4Wt::Layer(i, crate::gemma4::LayerPart::KProj)
                && gemma4_entry(c, list[1])
        );
        assert(
            list[2].place == Gemma4Wt::Layer(i, crate::gemma4::LayerPart::VProj)
                && gemma4_entry(c, list[2])
        );
        assert(
            list[3].place == Gemma4Wt::Layer(i, crate::gemma4::LayerPart::OProj)
                && gemma4_entry(c, list[3])
        );
        assert(
            list[4].place == Gemma4Wt::Layer(i, crate::gemma4::LayerPart::QNorm)
                && gemma4_entry(c, list[4])
        );
        assert(
            list[5].place == Gemma4Wt::Layer(i, crate::gemma4::LayerPart::KNorm)
                && gemma4_entry(c, list[5])
        );
    } else {
        assert(list.len() == 5);
        assert(
            list[0].place == Gemma4Wt::Layer(i, crate::gemma4::LayerPart::QProj)
                && gemma4_entry(c, list[0])
        );
        assert(
            list[1].place == Gemma4Wt::Layer(i, crate::gemma4::LayerPart::KProj)
                && gemma4_entry(c, list[1])
        );
        assert(
            list[2].place == Gemma4Wt::Layer(i, crate::gemma4::LayerPart::OProj)
                && gemma4_entry(c, list[2])
        );
        assert(
            list[3].place == Gemma4Wt::Layer(i, crate::gemma4::LayerPart::QNorm)
                && gemma4_entry(c, list[3])
        );
        assert(
            list[4].place == Gemma4Wt::Layer(i, crate::gemma4::LayerPart::KNorm)
                && gemma4_entry(c, list[4])
        );
    }
}

proof fn lemma_gemma4_layer(c: Gemma4Config, i: usize)
    requires
        i < c.n_layers,
        c.weights_fit(),
    ensures
        ({
            let list = crate::gemma4::layer_tensors(c, c.layer_types@[i as int], i as nat);
            &&& forall|k: int| 0 <= k < list.len() ==> gemma4_entry(c, #[trigger] list[k])
            &&& forall|place: Gemma4Wt|
                gemma4_place(c, i, place) ==> #[trigger] holds_place(list, place)
        }),
{
    reveal(crate::gemma4::layer_tensors);
    let kind = c.layer_types@[i as int];
    let one = seq![
        crate::gemma4::tensor(
            Gemma4Wt::Layer(i, crate::gemma4::LayerPart::LayerScalar),
            i as nat,
            ".layer_scalar"@,
            LoadKind::Scalar,
            1,
            1,
        ),
    ];
    let moe = if c.enable_moe_block {
        crate::gemma4::moe_tensors(c, i as nat)
    } else {
        Seq::empty()
    };
    let norms = crate::gemma4::norm_tensors(c, i as nat);
    let attn = crate::gemma4::attn_tensors(c, kind, i as nat);
    let ffn = crate::gemma4::ffn_tensors(c, i as nat);
    let list = crate::gemma4::layer_tensors(c, kind, i as nat);
    assert(list == one + moe + norms + attn + ffn);
    if c.enable_moe_block {
        lemma_gemma4_moe(c, i);
    }
    lemma_gemma4_attn(c, i);
    assert(
        one[0].place == Gemma4Wt::Layer(i, crate::gemma4::LayerPart::LayerScalar)
            && gemma4_entry(c, one[0])
    );
    assert(
        norms[0].place == Gemma4Wt::Layer(i, crate::gemma4::LayerPart::InputNorm)
            && gemma4_entry(c, norms[0])
    );
    assert(
        norms[1].place == Gemma4Wt::Layer(i, crate::gemma4::LayerPart::PostAttnNorm)
            && gemma4_entry(c, norms[1])
    );
    assert(
        norms[2].place == Gemma4Wt::Layer(i, crate::gemma4::LayerPart::PreFfnNorm)
            && gemma4_entry(c, norms[2])
    );
    assert(
        norms[3].place == Gemma4Wt::Layer(i, crate::gemma4::LayerPart::PostFfnNorm)
            && gemma4_entry(c, norms[3])
    );
    assert(
        ffn[0].place == Gemma4Wt::Layer(i, crate::gemma4::LayerPart::GateProj)
            && gemma4_entry(c, ffn[0])
    );
    assert(
        ffn[1].place == Gemma4Wt::Layer(i, crate::gemma4::LayerPart::UpProj)
            && gemma4_entry(c, ffn[1])
    );
    assert(
        ffn[2].place == Gemma4Wt::Layer(i, crate::gemma4::LayerPart::DownProj)
            && gemma4_entry(c, ffn[2])
    );
    assert forall|place: Gemma4Wt| gemma4_place(
        c,
        i,
        place,
    ) implies #[trigger] holds_place(list, place) by {
        match place {
            Gemma4Wt::Layer(_, part) => {
                assert(place == Gemma4Wt::Layer(i, part));
                assert(part == crate::gemma4::LayerPart::LayerScalar ==> one[0].place == place);
                if c.enable_moe_block {
                    let all = crate::gemma4::moe_tensors(c, i as nat);
                    assert(moe == all);
                    assert(holds_place(all, Gemma4Wt::Layer(i, part)) || !holds_place(all, place));
                }
                assert(holds_place(attn, Gemma4Wt::Layer(i, part)) || !holds_place(attn, place));
                assert(part == crate::gemma4::LayerPart::InputNorm ==> norms[0].place == place);
                assert(part == crate::gemma4::LayerPart::PostAttnNorm ==> norms[1].place == place);
                assert(part == crate::gemma4::LayerPart::PreFfnNorm ==> norms[2].place == place);
                assert(part == crate::gemma4::LayerPart::PostFfnNorm ==> norms[3].place == place);
                assert(part == crate::gemma4::LayerPart::GateProj ==> ffn[0].place == place);
                assert(part == crate::gemma4::LayerPart::UpProj ==> ffn[1].place == place);
                assert(part == crate::gemma4::LayerPart::DownProj ==> ffn[2].place == place);
            },
            Gemma4Wt::Expert(_, x, part) => {
                assert(place == Gemma4Wt::Expert(i, x, part));
                let all = crate::gemma4::moe_tensors(c, i as nat);
                assert(moe == all);
                assert(holds_place(all, Gemma4Wt::Expert(i, x, part)));
            },
            _ => {},
        }
        assert(holds_place(one, place) || holds_place(moe, place) || holds_place(norms, place)
            || holds_place(attn, place) || holds_place(ffn, place));
        if holds_place(one, place) || holds_place(moe, place) {
            lemma_holds_more(one, moe, place);
        }
        if holds_place(one + moe, place) || holds_place(norms, place) {
            lemma_holds_more(one + moe, norms, place);
        }
        if holds_place(one + moe + norms, place) || holds_place(attn, place) {
            lemma_holds_more(one + moe + norms, attn, place);
        }
        if holds_place(one + moe + norms + attn, place) || holds_place(ffn, place) {
            lemma_holds_more(one + moe + norms + attn, ffn, place);
        }
    }
}

proof fn lemma_gemma4_layers(c: Gemma4Config, n: nat)
    requires
        n <= c.n_layers,
        c.weights_fit(),
    ensures
        ({
            let list = crate::gemma4::layers_tensors(c, n);
            &&& forall|k: int| 0 <= k < list.len() ==> gemma4_entry(c, #[trigger] list[k])
            &&& forall|i: usize, place: Gemma4Wt|
                #![trigger gemma4_place(c, i, place)]
                i < n && gemma4_place(c, i, place) ==> holds_place(list, place)
        }),
    decreases n,
{
    if n > 0 {
        let p = (n - 1) as nat;
        lemma_gemma4_layers(c, p);
        lemma_gemma4_layer(c, p as usize);
        let a = crate::gemma4::layers_tensors(c, p);
        let b = crate::gemma4::layer_tensors(c, c.layer_types@[p as int], p);
        assert(crate::gemma4::layers_tensors(c, n) == a + b);
        assert forall|i: usize, place: Gemma4Wt|
            #![trigger gemma4_place(c, i, place)]
            i < n && gemma4_place(c, i, place) implies holds_place(a + b, place) by {
            assert(i == p ==> holds_place(b, place));
            lemma_holds_more(a, b, place);
        }
    }
}

/// Every tensor that Gemma 4 loads is the one that its place asks for, by name, form and
/// size, and every part of every layer and of every expert is loaded.
pub proof fn law_gemma4_tensors(c: Gemma4Config, j: int, i: usize, place: Gemma4Wt)
    requires
        c.weights_fit(),
    ensures
        ({
            let list = crate::gemma4::all_tensors(c);
            &&& 0 <= j < list.len() ==> gemma4_entry(c, list[j])
            &&& holds_place(list, Gemma4Wt::EmbedTokens)
            &&& holds_place(list, Gemma4Wt::FinalNorm)
            &&& i < c.n_layers && gemma4_place(c, i, place) ==> holds_place(list, place)
        }),
{
    let a = crate::gemma4::head_tensors(c);
    let b = crate::gemma4::layers_tensors(c, c.n_layers as nat);
    lemma_gemma4_layers(c, c.n_layers as nat);
    let list = a + b;
    assert(list[0] == a[0] && list[1] == a[1]);
    if i < c.n_layers && gemma4_place(c, i, place) {
        lemma_holds_more(a, b, place);
    }
}

} // verus!
