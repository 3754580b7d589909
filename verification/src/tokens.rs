//! What a token goes through in Gemma 4.

use vstd::prelude::*;

use crate::device::{CacheKind, KvForm, KvSide};
use crate::float::F32;
use crate::gemma4::{Gemma4Config, Gemma4Wt, LayerCommon, LayerPart, LayerType, MoeLayerExtras};
use crate::meaning::{Attention, Kernels, Rotation, Routed, Side};
use crate::quant::DType;

verus! {

/// Heads of keys in a kind of layer, and the size of a head.
pub open spec fn kv_heads(c: Gemma4Config, kind: LayerType) -> int {
    match kind {
        LayerType::Sliding => c.sliding_n_kv_heads as int,
        LayerType::Full => c.full_n_kv_heads as int,
    }
}

pub open spec fn head(c: Gemma4Config, kind: LayerType) -> int {
    match kind {
        LayerType::Sliding => c.sliding_head_dim as int,
        LayerType::Full => c.full_head_dim as int,
    }
}

/// How positions rotate the heads of a kind of layer: all dimensions of a sliding layer's,
/// a part of the pairs of a full layer's.
pub open spec fn turn(c: Gemma4Config, kind: LayerType) -> Rotation {
    match kind {
        LayerType::Sliding => Rotation::Plain { theta: c.sliding_rope_theta },
        LayerType::Full => Rotation::Halved {
            pairs: crate::float::trunc_nat(
                crate::float::product(
                    crate::float::product(
                        crate::float::of_nat(c.full_head_dim as nat),
                        c.full_partial_rotary_factor,
                    ),
                    F32 { bits: crate::gemma4::HALF },
                ),
            ) as usize as int,
            theta: c.full_rope_theta,
        },
    }
}

pub open spec fn part_times<E>(
    k: Kernels<Gemma4Wt, E>,
    i: usize,
    p: LayerPart,
    m: int,
    n: int,
    x: Seq<E>,
) -> Seq<E> {
    crate::meaning::times(k, Gemma4Wt::Layer(i, p), m, n, x)
}

pub open spec fn part_norm<E>(
    k: Kernels<Gemma4Wt, E>,
    c: Gemma4Config,
    i: usize,
    p: LayerPart,
    x: Seq<E>,
) -> Seq<E> {
    crate::meaning::normed(k, Gemma4Wt::Layer(i, p), c.norm_eps, x)
}

/// The queries of a token: projected, normed head by head, multiplied by the root of the
/// head size and rotated.
pub open spec fn queries<E>(
    k: Kernels<Gemma4Wt, E>,
    c: Gemma4Config,
    kind: LayerType,
    i: usize,
    pos: int,
    x: Seq<E>,
) -> Seq<E> {
    let nh = c.n_heads as int;
    let hd = head(c, kind);
    let h = part_norm(k, c, i, LayerPart::InputNorm, x);
    crate::meaning::roped(
        k,
        turn(c, kind),
        pos,
        nh,
        hd,
        crate::meaning::scaled(
            k,
            crate::float::square_root(crate::float::of_nat(hd as nat)),
            crate::meaning::normed_rows(
                k,
                Gemma4Wt::Layer(i, LayerPart::QNorm),
                c.norm_eps,
                nh,
                hd,
                part_times(k, i, LayerPart::QProj, nh * hd, c.dim as int, h),
            ),
        ),
    )
}

/// The keys of a token: projected, normed head by head and rotated.
pub open spec fn keys<E>(
    k: Kernels<Gemma4Wt, E>,
    c: Gemma4Config,
    kind: LayerType,
    i: usize,
    pos: int,
    x: Seq<E>,
) -> Seq<E> {
    let nk = kv_heads(c, kind);
    let hd = head(c, kind);
    let h = part_norm(k, c, i, LayerPart::InputNorm, x);
    crate::meaning::roped(
        k,
        turn(c, kind),
        pos,
        nk,
        hd,
        crate::meaning::normed_rows(
            k,
            Gemma4Wt::Layer(i, LayerPart::KNorm),
            c.norm_eps,
            nk,
            hd,
            part_times(k, i, LayerPart::KProj, nk * hd, c.dim as int, h),
        ),
    )
}

/// The values of a token, normed head by head without a weight: a projection of its own in
/// a sliding layer, the keys' projection in a full one.
pub open spec fn values<E>(
    k: Kernels<Gemma4Wt, E>,
    c: Gemma4Config,
    kind: LayerType,
    i: usize,
    x: Seq<E>,
) -> Seq<E> {
    let nk = kv_heads(c, kind);
    let hd = head(c, kind);
    let h = part_norm(k, c, i, LayerPart::InputNorm, x);
    let p = match kind {
        LayerType::Sliding => LayerPart::VProj,
        LayerType::Full => LayerPart::KProj,
    };
    crate::meaning::normed_rows(
        k,
        Gemma4Wt::Ones,
        c.norm_eps,
        nk,
        hd,
        part_times(k, i, p, nk * hd, c.dim as int, h),
    )
}

/// How attention of a kind of layer works: a sliding layer sees its window, and its
/// three-bit cache is a ring of the window's size.
pub open spec fn attention_of(
    c: Gemma4Config,
    kind: LayerType,
    form: KvForm,
    max_seq: int,
) -> Attention {
    let window = (c.sliding_window as u32) as int;
    Attention {
        form,
        heads: c.n_heads as int,
        kv_heads: kv_heads(c, kind),
        dim: head(c, kind),
        max_seq,
        window: match kind {
            LayerType::Sliding => window,
            LayerType::Full => 0,
        },
        capacity: if kind == LayerType::Sliding && form == KvForm::Asym3 {
            window
        } else {
            0
        },
    }
}

/// A token's state after attention, which `a` is: projected, normed and added.
pub open spec fn after_attention<E>(
    k: Kernels<Gemma4Wt, E>,
    c: Gemma4Config,
    kind: LayerType,
    i: usize,
    x: Seq<E>,
    a: Seq<E>,
) -> Seq<E> {
    let o = part_times(k, i, LayerPart::OProj, c.dim as int, c.n_heads * head(c, kind), a);
    crate::meaning::added(k, x, part_norm(k, c, i, LayerPart::PostAttnNorm, o))
}

/// The feed-forward result: `down(gelu(gate(n)) * up(n))` for the normed state `n`.
pub open spec fn feed_forward<E>(
    k: Kernels<Gemma4Wt, E>,
    c: Gemma4Config,
    i: usize,
    x: Seq<E>,
) -> Seq<E> {
    let d = c.dim as int;
    let f = c.hidden_dim as int;
    let n = part_norm(k, c, i, LayerPart::PreFfnNorm, x);
    part_times(
        k,
        i,
        LayerPart::DownProj,
        d,
        f,
        crate::meaning::multiplied(
            k,
            crate::meaning::mapped(k.gelu, part_times(k, i, LayerPart::GateProj, f, d, n)),
            part_times(k, i, LayerPart::UpProj, f, d, n),
        ),
    )
}

/// The router's scores for a state: scaled down, normed, projected.
pub open spec fn router_scores<E>(
    k: Kernels<Gemma4Wt, E>,
    c: Gemma4Config,
    i: usize,
    x: Seq<E>,
) -> Seq<E> {
    let root = crate::float::quotient(
        F32 { bits: crate::cask::ONE },
        crate::float::square_root(crate::float::of_nat(c.dim as nat)),
    );
    part_times(
        k,
        i,
        LayerPart::RouterProj,
        c.num_experts as int,
        c.dim as int,
        crate::meaning::scaled(k, root, part_norm(k, c, i, LayerPart::RouterScale, x)),
    )
}

/// What the eight experts that the router names make of a state, added up under the
/// router's weights.
pub open spec fn experts<E>(
    k: Kernels<Gemma4Wt, E>,
    c: Gemma4Config,
    dtype: DType,
    i: usize,
    x: Seq<E>,
) -> Seq<E> {
    let d = c.dim as int;
    let mi = c.moe_intermediate_size as int;
    let s = router_scores(k, c, i, x);
    let ne = c.num_experts as int;
    let by = Routed::Indexed { indices: crate::meaning::chosen_rows(k.top_index, 1, ne, s) };
    let y = crate::meaning::rotated_rows(
        k,
        1,
        d,
        part_norm(k, c, i, LayerPart::PreFfnNorm2, x),
    );
    let w = Gemma4Wt::Layer(i, LayerPart::GateUpPtrs);
    let gate = crate::meaning::expert_rows(k.expert_gate, w, by, 1, 8, mi, d, y);
    let up = crate::meaning::expert_rows(k.expert_up, w, by, 1, 8, mi, d, y);
    crate::meaning::added(
        k,
        Seq::new(d as nat, |j: int| k.zero),
        crate::meaning::expert_sums(
            k,
            Gemma4Wt::Layer(i, LayerPart::DownPtrs),
            dtype,
            Gemma4Wt::Layer(i, LayerPart::PerExpertScale),
            by,
            1,
            8,
            d,
            mi,
            crate::meaning::chosen_rows(k.top_weight, 1, ne, s),
            crate::meaning::multiplied(k, crate::meaning::mapped(k.gelu, gate), up),
        ),
    )
}

/// What a layer adds to the state `y` whose feed-forward result is `f`: that result under
/// a norm, or, with experts, the sum of that result and the experts', each under a norm of
/// its own and the sum under the last.
pub open spec fn ending<E>(
    k: Kernels<Gemma4Wt, E>,
    c: Gemma4Config,
    moe: Option<MoeLayerExtras>,
    i: usize,
    y: Seq<E>,
    f: Seq<E>,
) -> Seq<E> {
    match moe {
        None => part_norm(k, c, i, LayerPart::PostFfnNorm, f),
        Some(m) => part_norm(
            k,
            c,
            i,
            LayerPart::PostFfnNorm,
            crate::meaning::added(
                k,
                part_norm(k, c, i, LayerPart::PostFfnNorm1, f),
                part_norm(
                    k,
                    c,
                    i,
                    LayerPart::PostFfnNorm2,
                    experts(k, c, m.down.dtype, i, y),
                ),
            ),
        ),
    }
}

/// A token's state after a layer: with what the layer adds, times the layer's scalar.
pub open spec fn finished<E>(
    k: Kernels<Gemma4Wt, E>,
    c: Gemma4Config,
    w: LayerCommon,
    moe: Option<MoeLayerExtras>,
    kind: LayerType,
    i: usize,
    x: Seq<E>,
    a: Seq<E>,
) -> Seq<E> {
    let y = after_attention(k, c, kind, i, x, a);
    let f = feed_forward(k, c, i, y);
    crate::meaning::scaled(
        k,
        w.layer_scalar_host,
        crate::meaning::added(k, y, ending(k, c, moe, i, y, f)),
    )
}

/// A token on its way, and the caches.
#[verifier::reject_recursive_types(E)]
pub struct Flow<E> {
    pub x: Seq<E>,
    pub keys: Map<(CacheKind, usize), Side<E>>,
    pub values: Map<(CacheKind, usize), Side<E>>,
}

/// How many of the first `n` layers are of a kind.
pub open spec fn before(kinds: Seq<LayerType>, kind: LayerType, n: int) -> nat {
    kinds.take(n).filter(|t: LayerType| t == kind).len()
}

/// Where a layer's cache is: in that of its kind, after as many as stand before it.
pub open spec fn cache_of(c: Gemma4Config, kind: LayerType, i: int) -> (CacheKind, usize) {
    let n = before(c.layer_types@, kind, i) as usize;
    match kind {
        LayerType::Sliding => (CacheKind::Sliding, n),
        LayerType::Full => (CacheKind::Full, n),
    }
}

/// Layer `i` on a token at `pos`: its keys and values go to the layer's cache, its queries
/// attend to all up to them, and the state goes on as [`finished`] says.
pub open spec fn token_layer<E>(
    k: Kernels<Gemma4Wt, E>,
    c: Gemma4Config,
    w: LayerCommon,
    moe: Option<MoeLayerExtras>,
    kind: LayerType,
    i: usize,
    pos: int,
    form: KvForm,
    max_seq: int,
    f: Flow<E>,
) -> Flow<E> {
    let at = cache_of(c, kind, i as int);
    let how = attention_of(c, kind, form, max_seq);
    let slot = crate::meaning::cache_slot(pos, how.capacity);
    let nk = kv_heads(c, kind);
    let hd = head(c, kind);
    let all_keys = crate::meaning::stored(
        k,
        form,
        KvSide::Keys,
        nk,
        hd,
        keys(k, c, kind, i, pos, f.x),
        slot,
        f.keys[at],
    );
    let all_values = crate::meaning::stored(
        k,
        form,
        KvSide::Values,
        nk,
        hd,
        values(k, c, kind, i, f.x),
        slot,
        f.values[at],
    );
    let a = crate::meaning::attended(
        k,
        how,
        pos + 1,
        queries(k, c, kind, i, pos, f.x),
        all_keys,
        all_values,
    );
    Flow {
        x: finished(k, c, w, moe, kind, i, f.x, a),
        keys: f.keys.insert(at, all_keys),
        values: f.values.insert(at, all_values),
    }
}

} // verus!
