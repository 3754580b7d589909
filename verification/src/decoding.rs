//! What one token goes through in Gemma 4, layer by layer, to its logits.

use vstd::prelude::*;

use crate::batches::Contents;
use crate::device::{CacheKind, KvForm, KvSide};
use crate::float::F32;
use crate::gemma4::{
    Caches, FullLayerWeights, Gemma4Buf, Gemma4Config, Gemma4Weights, Gemma4Wt, KvCache,
    LayerCommon, LayerPart, LayerType, LayerWeights, MoeLayerExtras, SlidingLayerWeights,
};
use crate::meaning::{Kernels, Machine, Routed};
use crate::tokens::Flow;

verus! {

/// A token's heads stand in front, and its state is kept.
pub open spec fn in_heads<E>(
    k: Kernels<Gemma4Wt, E>,
    c: Gemma4Config,
    kind: LayerType,
    i: usize,
    pos: int,
    m: Contents<E>,
    a: Contents<E>,
) -> bool {
    let x = m.bufs[Gemma4Buf::X];
    let hd = crate::tokens::head(c, kind);
    let qd = c.n_heads * hd;
    let kd = crate::tokens::kv_heads(c, kind) * hd;
    &&& crate::meaning::alike(m, a)
    &&& crate::batches::sized(a, c)
    &&& same_batch(m, a)
    &&& a.bufs[Gemma4Buf::Residual] == x
    &&& crate::meaning::part(a, Gemma4Buf::Q, qd) == crate::tokens::queries(k, c, kind, i, pos, x)
    &&& crate::meaning::part(a, Gemma4Buf::K, kd) == crate::tokens::keys(k, c, kind, i, pos, x)
    &&& crate::meaning::part(a, Gemma4Buf::V, kd) == crate::tokens::values(k, c, kind, i, x)
}

/// The heads of a token in a sliding layer.
#[verifier::rlimit(40)]
proof fn lemma_sliding_in<E>(
    k: Kernels<Gemma4Wt, E>,
    c: Gemma4Config,
    w: SlidingLayerWeights,
    i: usize,
    pos: int,
    m: Contents<E>,
)
    requires
        c.batch_fits(),
        crate::gemma4::layer_shaped(LayerWeights::Sliding(w), c),
        crate::batches::sized(m, c),
        m.pos == pos,
    ensures
        in_heads(
            k,
            c,
            LayerType::Sliding,
            i,
            pos,
            m,
            crate::meaning::after(k, crate::gemma4::sliding_in_ops(c, w, i), m),
        ),
{
    let kind = LayerType::Sliding;
    let d = c.dim as int;
    let nh = c.n_heads as int;
    let nk = crate::tokens::kv_heads(c, kind);
    let hd = crate::tokens::head(c, kind);
    let qd = nh * hd;
    let kd = nk * hd;
    let by = crate::float::square_root(crate::float::of_nat(hd as nat));
    crate::gemma4::lemma_token_sizes(c, kind);
    assert(c.q_dim(kind) == qd && c.kv_dim(kind) == kd);
    let ops = crate::gemma4::sliding_in_ops(c, w, i);
    assert(crate::meaning::run(k, ops, 0, m) == m);
    crate::meaning::lemma_pasted(m.bufs[Gemma4Buf::Residual], m.bufs[Gemma4Buf::X], 0, d);
    crate::meaning::lemma_slice_all(m.bufs[Gemma4Buf::X], d);
    let v1 = m.bufs[Gemma4Buf::X];
    let s1 = crate::meaning::set(m, Gemma4Buf::Residual, v1);
    assert(crate::meaning::run(k, ops, 1, m) == s1);
    let v2 = crate::meaning::normed(
        k,
        Gemma4Wt::Layer(i, LayerPart::InputNorm),
        c.norm_eps,
        s1.bufs[Gemma4Buf::X],
    );
    assert(s1.bufs[Gemma4Buf::Tmp].len() == v2.len());
    crate::meaning::lemma_put(s1, Gemma4Buf::Tmp, v2);
    let s2 = crate::meaning::set(s1, Gemma4Buf::Tmp, v2);
    assert(crate::meaning::run(k, ops, 2, m) == s2);
    let v3 = crate::meaning::times(
        k,
        Gemma4Wt::Layer(i, LayerPart::QProj),
        qd,
        d,
        s2.bufs[Gemma4Buf::Tmp],
    );
    let s3 = crate::meaning::put(s2, Gemma4Buf::Q, v3);
    assert(crate::meaning::run(k, ops, 3, m) == s3);
    crate::meaning::lemma_front_part(s2.bufs[Gemma4Buf::Q], v3);
    assert(crate::meaning::part(s3, Gemma4Buf::Q, qd) == v3);
    let v4 = crate::meaning::times(
        k,
        Gemma4Wt::Layer(i, LayerPart::KProj),
        kd,
        d,
        s3.bufs[Gemma4Buf::Tmp],
    );
    let s4 = crate::meaning::put(s3, Gemma4Buf::K, v4);
    assert(crate::meaning::run(k, ops, 4, m) == s4);
    crate::meaning::lemma_front_part(s3.bufs[Gemma4Buf::K], v4);
    assert(crate::meaning::part(s4, Gemma4Buf::K, kd) == v4);
    let v5 = crate::meaning::times(
        k,
        Gemma4Wt::Layer(i, LayerPart::VProj),
        kd,
        d,
        s4.bufs[Gemma4Buf::Tmp],
    );
    let s5 = crate::meaning::put(s4, Gemma4Buf::V, v5);
    assert(crate::meaning::run(k, ops, 5, m) == s5);
    crate::meaning::lemma_front_part(s4.bufs[Gemma4Buf::V], v5);
    assert(crate::meaning::part(s5, Gemma4Buf::V, kd) == v5);
    let v6 = crate::meaning::normed_rows(
        k,
        Gemma4Wt::Layer(i, LayerPart::QNorm),
        c.norm_eps,
        nh,
        hd,
        s5.bufs[Gemma4Buf::Q],
    );
    crate::meaning::lemma_norm_part(
        k,
        Gemma4Wt::Layer(i, LayerPart::QNorm),
        c.norm_eps,
        nh,
        hd,
        s5.bufs[Gemma4Buf::Q],
    );
    let s6 = crate::meaning::put(s5, Gemma4Buf::Q, v6);
    assert(crate::meaning::run(k, ops, 6, m) == s6);
    crate::meaning::lemma_front_part(s5.bufs[Gemma4Buf::Q], v6);
    assert(crate::meaning::part(s6, Gemma4Buf::Q, nh * hd) == v6);
    let v7 = crate::meaning::normed_rows(
        k,
        Gemma4Wt::Layer(i, LayerPart::KNorm),
        c.norm_eps,
        nk,
        hd,
        s6.bufs[Gemma4Buf::K],
    );
    crate::meaning::lemma_norm_part(
        k,
        Gemma4Wt::Layer(i, LayerPart::KNorm),
        c.norm_eps,
        nk,
        hd,
        s6.bufs[Gemma4Buf::K],
    );
    let s7 = crate::meaning::put(s6, Gemma4Buf::K, v7);
    assert(crate::meaning::run(k, ops, 7, m) == s7);
    crate::meaning::lemma_front_part(s6.bufs[Gemma4Buf::K], v7);
    assert(crate::meaning::part(s7, Gemma4Buf::K, nk * hd) == v7);
    let v8 = crate::meaning::normed_rows(
        k,
        Gemma4Wt::Ones,
        c.norm_eps,
        nk,
        hd,
        s7.bufs[Gemma4Buf::V],
    );
    crate::meaning::lemma_norm_part(k, Gemma4Wt::Ones, c.norm_eps, nk, hd, s7.bufs[Gemma4Buf::V]);
    let s8 = crate::meaning::put(s7, Gemma4Buf::V, v8);
    assert(crate::meaning::run(k, ops, 8, m) == s8);
    crate::meaning::lemma_front_part(s7.bufs[Gemma4Buf::V], v8);
    assert(crate::meaning::part(s8, Gemma4Buf::V, nk * hd) == v8);
    crate::meaning::lemma_scaled_part(k, by, s8.bufs[Gemma4Buf::Q], 0, qd);
    let v9 = crate::meaning::scaled(k, by, s8.bufs[Gemma4Buf::Q]);
    let s9 = crate::meaning::set(s8, Gemma4Buf::Q, v9);
    assert(crate::meaning::run(k, ops, 9, m) == s9);
    let how = crate::tokens::turn(c, kind);
    let rq = crate::meaning::roped(k, how, pos, nh, hd, s9.bufs[Gemma4Buf::Q]);
    let rk = crate::meaning::roped(k, how, pos, nk, hd, s9.bufs[Gemma4Buf::K]);
    crate::meaning::lemma_roped_part(k, how, pos, nh, hd, s9.bufs[Gemma4Buf::Q]);
    crate::meaning::lemma_roped_part(k, how, pos, nk, hd, s9.bufs[Gemma4Buf::K]);
    let s10 = crate::meaning::put(crate::meaning::put(s9, Gemma4Buf::Q, rq), Gemma4Buf::K, rk);
    assert(crate::meaning::run(k, ops, 10, m) == s10);
    crate::meaning::lemma_front_part(s9.bufs[Gemma4Buf::Q], rq);
    crate::meaning::lemma_front_part(s9.bufs[Gemma4Buf::K], rk);
}

/// The heads of a token in a full layer.
#[verifier::rlimit(40)]
proof fn lemma_full_in<E>(
    k: Kernels<Gemma4Wt, E>,
    c: Gemma4Config,
    w: FullLayerWeights,
    i: usize,
    pos: int,
    m: Contents<E>,
)
    requires
        c.batch_fits(),
        crate::gemma4::layer_shaped(LayerWeights::Full(w), c),
        crate::batches::sized(m, c),
        m.pos == pos,
    ensures
        in_heads(
            k,
            c,
            LayerType::Full,
            i,
            pos,
            m,
            crate::meaning::after(k, crate::gemma4::full_in_ops(c, w, i), m),
        ),
{
    let kind = LayerType::Full;
    let d = c.dim as int;
    let nh = c.n_heads as int;
    let nk = crate::tokens::kv_heads(c, kind);
    let hd = crate::tokens::head(c, kind);
    let qd = nh * hd;
    let kd = nk * hd;
    let by = crate::float::square_root(crate::float::of_nat(hd as nat));
    crate::gemma4::lemma_token_sizes(c, kind);
    assert(c.q_dim(kind) == qd && c.kv_dim(kind) == kd);
    let ops = crate::gemma4::full_in_ops(c, w, i);
    assert(crate::meaning::run(k, ops, 0, m) == m);
    crate::meaning::lemma_pasted(m.bufs[Gemma4Buf::Residual], m.bufs[Gemma4Buf::X], 0, d);
    crate::meaning::lemma_slice_all(m.bufs[Gemma4Buf::X], d);
    let v1 = m.bufs[Gemma4Buf::X];
    let s1 = crate::meaning::set(m, Gemma4Buf::Residual, v1);
    assert(crate::meaning::run(k, ops, 1, m) == s1);
    let v2 = crate::meaning::normed(
        k,
        Gemma4Wt::Layer(i, LayerPart::InputNorm),
        c.norm_eps,
        s1.bufs[Gemma4Buf::X],
    );
    assert(s1.bufs[Gemma4Buf::Tmp].len() == v2.len());
    crate::meaning::lemma_put(s1, Gemma4Buf::Tmp, v2);
    let s2 = crate::meaning::set(s1, Gemma4Buf::Tmp, v2);
    assert(crate::meaning::run(k, ops, 2, m) == s2);
    let v3 = crate::meaning::times(
        k,
        Gemma4Wt::Layer(i, LayerPart::QProj),
        qd,
        d,
        s2.bufs[Gemma4Buf::Tmp],
    );
    let s3 = crate::meaning::put(s2, Gemma4Buf::Q, v3);
    assert(crate::meaning::run(k, ops, 3, m) == s3);
    crate::meaning::lemma_front_part(s2.bufs[Gemma4Buf::Q], v3);
    assert(crate::meaning::part(s3, Gemma4Buf::Q, qd) == v3);
    let v4 = crate::meaning::times(
        k,
        Gemma4Wt::Layer(i, LayerPart::KProj),
        kd,
        d,
        s3.bufs[Gemma4Buf::Tmp],
    );
    let s4 = crate::meaning::put(s3, Gemma4Buf::K, v4);
    assert(crate::meaning::run(k, ops, 4, m) == s4);
    crate::meaning::lemma_front_part(s3.bufs[Gemma4Buf::K], v4);
    assert(crate::meaning::part(s4, Gemma4Buf::K, kd) == v4);
    let v5 = crate::meaning::pasted(s4.bufs[Gemma4Buf::V], 0, s4.bufs[Gemma4Buf::K], 0, kd);
    let s5 = crate::meaning::set(s4, Gemma4Buf::V, v5);
    assert(crate::meaning::run(k, ops, 5, m) == s5);
    assert(crate::meaning::slice(v5, 0, kd) =~= crate::meaning::part(s4, Gemma4Buf::K, kd));
    let v6 = crate::meaning::normed_rows(
        k,
        Gemma4Wt::Layer(i, LayerPart::QNorm),
        c.norm_eps,
        nh,
        hd,
        s5.bufs[Gemma4Buf::Q],
    );
    crate::meaning::lemma_norm_part(
        k,
        Gemma4Wt::Layer(i, LayerPart::QNorm),
        c.norm_eps,
        nh,
        hd,
        s5.bufs[Gemma4Buf::Q],
    );
    let s6 = crate::meaning::put(s5, Gemma4Buf::Q, v6);
    assert(crate::meaning::run(k, ops, 6, m) == s6);
    crate::meaning::lemma_front_part(s5.bufs[Gemma4Buf::Q], v6);
    assert(crate::meaning::part(s6, Gemma4Buf::Q, nh * hd) == v6);
    let v7 = crate::meaning::normed_rows(
        k,
        Gemma4Wt::Layer(i, LayerPart::KNorm),
        c.norm_eps,
        nk,
        hd,
        s6.bufs[Gemma4Buf::K],
    );
    crate::meaning::lemma_norm_part(
        k,
        Gemma4Wt::Layer(i, LayerPart::KNorm),
        c.norm_eps,
        nk,
        hd,
        s6.bufs[Gemma4Buf::K],
    );
    let s7 = crate::meaning::put(s6, Gemma4Buf::K, v7);
    assert(crate::meaning::run(k, ops, 7, m) == s7);
    crate::meaning::lemma_front_part(s6.bufs[Gemma4Buf::K], v7);
    assert(crate::meaning::part(s7, Gemma4Buf::K, nk * hd) == v7);
    let v8 = crate::meaning::normed_rows(
        k,
        Gemma4Wt::Ones,
        c.norm_eps,
        nk,
        hd,
        s7.bufs[Gemma4Buf::V],
    );
    crate::meaning::lemma_norm_part(k, Gemma4Wt::Ones, c.norm_eps, nk, hd, s7.bufs[Gemma4Buf::V]);
    let s8 = crate::meaning::put(s7, Gemma4Buf::V, v8);
    assert(crate::meaning::run(k, ops, 8, m) == s8);
    crate::meaning::lemma_front_part(s7.bufs[Gemma4Buf::V], v8);
    assert(crate::meaning::part(s8, Gemma4Buf::V, nk * hd) == v8);
    crate::meaning::lemma_scaled_part(k, by, s8.bufs[Gemma4Buf::Q], 0, qd);
    let v9 = crate::meaning::scaled(k, by, s8.bufs[Gemma4Buf::Q]);
    let s9 = crate::meaning::set(s8, Gemma4Buf::Q, v9);
    assert(crate::meaning::run(k, ops, 9, m) == s9);
    let how = crate::tokens::turn(c, kind);
    let rq = crate::meaning::roped(k, how, pos, nh, hd, s9.bufs[Gemma4Buf::Q]);
    let rk = crate::meaning::roped(k, how, pos, nk, hd, s9.bufs[Gemma4Buf::K]);
    crate::meaning::lemma_roped_part(k, how, pos, nh, hd, s9.bufs[Gemma4Buf::Q]);
    crate::meaning::lemma_roped_part(k, how, pos, nk, hd, s9.bufs[Gemma4Buf::K]);
    let s10 = crate::meaning::put(crate::meaning::put(s9, Gemma4Buf::Q, rq), Gemma4Buf::K, rk);
    assert(crate::meaning::run(k, ops, 10, m) == s10);
    crate::meaning::lemma_front_part(s9.bufs[Gemma4Buf::Q], rq);
    crate::meaning::lemma_front_part(s9.bufs[Gemma4Buf::K], rk);
}

/// A token at its layer's cache: its keys and values are stored at its place, and its
/// queries attend to everything up to it.
pub open spec fn in_cache<E>(
    k: Kernels<Gemma4Wt, E>,
    c: Gemma4Config,
    kind: LayerType,
    form: KvForm,
    max_seq: int,
    s: usize,
    pos: int,
    m: Contents<E>,
    a: Contents<E>,
) -> bool {
    let hd = crate::tokens::head(c, kind);
    let nk = crate::tokens::kv_heads(c, kind);
    let qd = c.n_heads * hd;
    let at = (crate::batches::cache_kind(kind), s);
    let how = crate::tokens::attention_of(c, kind, form, max_seq);
    let slot = crate::meaning::cache_slot(pos, how.capacity);
    let keys = crate::meaning::stored(
        k,
        form,
        KvSide::Keys,
        nk,
        hd,
        crate::meaning::part(m, Gemma4Buf::K, nk * hd),
        slot,
        m.keys[at],
    );
    let values = crate::meaning::stored(
        k,
        form,
        KvSide::Values,
        nk,
        hd,
        crate::meaning::part(m, Gemma4Buf::V, nk * hd),
        slot,
        m.values[at],
    );
    &&& a.keys == m.keys.insert(at, keys)
    &&& a.values == m.values.insert(at, values)
    &&& a.pos == m.pos
    &&& a.out == m.out
    &&& same_batch(m, a)
    &&& a.bufs[Gemma4Buf::Residual] == m.bufs[Gemma4Buf::Residual]
    &&& crate::batches::sized(a, c)
    &&& crate::meaning::part(a, Gemma4Buf::AttnOut, qd) == crate::meaning::attended(
        k,
        how,
        pos + 1,
        crate::meaning::part(m, Gemma4Buf::Q, qd),
        keys,
        values,
    )
}

#[verifier::rlimit(40)]
proof fn lemma_sliding_cache<E>(
    k: Kernels<Gemma4Wt, E>,
    c: Gemma4Config,
    s: usize,
    pos: usize,
    kv: KvCache,
    m: Contents<E>,
)
    requires
        c.batch_fits(),
        pos < usize::MAX,
        crate::batches::sized(m, c),
        m.pos == pos,
        crate::gemma4::sliding_cache_ops(c, s, pos, kv) is Ok,
    ensures
        in_cache(
            k,
            c,
            LayerType::Sliding,
            kv.form(),
            kv.max_seq as int,
            s,
            pos as int,
            m,
            crate::meaning::after(k, crate::gemma4::sliding_cache_ops(c, s, pos, kv).unwrap(), m),
        ),
{
    let kind = LayerType::Sliding;
    let hd = crate::tokens::head(c, kind);
    let nk = crate::tokens::kv_heads(c, kind);
    let qd = c.n_heads * hd;
    crate::gemma4::lemma_token_sizes(c, kind);
    assert(c.q_dim(kind) == qd && c.kv_dim(kind) == nk * hd);
    let form = kv.form();
    let at = (CacheKind::Sliding, s);
    let how = crate::tokens::attention_of(c, kind, form, kv.max_seq as int);
    let slot = crate::meaning::cache_slot(pos as int, how.capacity);
    let key = m.bufs[Gemma4Buf::K];
    let v = m.bufs[Gemma4Buf::V];
    let q = m.bufs[Gemma4Buf::Q];
    crate::meaning::lemma_stored_part(k, form, KvSide::Keys, nk, hd, key, slot, m.keys[at]);
    crate::meaning::lemma_stored_part(k, form, KvSide::Values, nk, hd, v, slot, m.values[at]);
    let keys = crate::meaning::stored(k, form, KvSide::Keys, nk, hd, key, slot, m.keys[at]);
    let values = crate::meaning::stored(k, form, KvSide::Values, nk, hd, v, slot, m.values[at]);
    let stored = Machine {
        keys: m.keys.insert(at, keys),
        values: m.values.insert(at, values),
        ..m
    };
    let out = crate::meaning::attended(k, how, pos + 1, q, keys, values);
    crate::meaning::lemma_attended_part(k, how, pos + 1, q, keys, values);
    let a = crate::meaning::put(stored, Gemma4Buf::AttnOut, out);
    crate::meaning::lemma_front_part(m.bufs[Gemma4Buf::AttnOut], out);
    let ops = crate::gemma4::sliding_cache_ops(c, s, pos, kv).unwrap();
    assert(crate::meaning::run(k, ops, 0, m) == m);
    let one = crate::meaning::step(k, m, ops[0]);
    assert(crate::meaning::run(k, ops, 1, m) == one);
    let two = crate::meaning::step(k, one, ops[1]);
    assert(crate::meaning::run(k, ops, 2, m) == two);
    if ops.len() == 2 {
        assert(one == stored);
        assert(two == a);
    } else {
        assert(two == stored);
        let three = crate::meaning::step(k, two, ops[2]);
        assert(crate::meaning::run(k, ops, 3, m) == three);
        assert(three == a);
    }
}

#[verifier::rlimit(40)]
proof fn lemma_full_cache<E>(
    k: Kernels<Gemma4Wt, E>,
    c: Gemma4Config,
    s: usize,
    pos: usize,
    kv: KvCache,
    m: Contents<E>,
)
    requires
        c.batch_fits(),
        pos < usize::MAX,
        crate::batches::sized(m, c),
        m.pos == pos,
        crate::gemma4::full_cache_ops(c, s, pos, kv) is Ok,
    ensures
        in_cache(
            k,
            c,
            LayerType::Full,
            kv.form(),
            kv.max_seq as int,
            s,
            pos as int,
            m,
            crate::meaning::after(k, crate::gemma4::full_cache_ops(c, s, pos, kv).unwrap(), m),
        ),
{
    let kind = LayerType::Full;
    let hd = crate::tokens::head(c, kind);
    let nk = crate::tokens::kv_heads(c, kind);
    let qd = c.n_heads * hd;
    crate::gemma4::lemma_token_sizes(c, kind);
    assert(c.q_dim(kind) == qd && c.kv_dim(kind) == nk * hd);
    let form = kv.form();
    let at = (CacheKind::Full, s);
    let how = crate::tokens::attention_of(c, kind, form, kv.max_seq as int);
    let slot = crate::meaning::cache_slot(pos as int, how.capacity);
    let key = m.bufs[Gemma4Buf::K];
    let v = m.bufs[Gemma4Buf::V];
    let q = m.bufs[Gemma4Buf::Q];
    crate::meaning::lemma_stored_part(k, form, KvSide::Keys, nk, hd, key, slot, m.keys[at]);
    crate::meaning::lemma_stored_part(k, form, KvSide::Values, nk, hd, v, slot, m.values[at]);
    let keys = crate::meaning::stored(k, form, KvSide::Keys, nk, hd, key, slot, m.keys[at]);
    let values = crate::meaning::stored(k, form, KvSide::Values, nk, hd, v, slot, m.values[at]);
    let stored = Machine {
        keys: m.keys.insert(at, keys),
        values: m.values.insert(at, values),
        ..m
    };
    let out = crate::meaning::attended(k, how, pos + 1, q, keys, values);
    crate::meaning::lemma_attended_part(k, how, pos + 1, q, keys, values);
    let a = crate::meaning::put(stored, Gemma4Buf::AttnOut, out);
    crate::meaning::lemma_front_part(m.bufs[Gemma4Buf::AttnOut], out);
    let ops = crate::gemma4::full_cache_ops(c, s, pos, kv).unwrap();
    assert(crate::meaning::run(k, ops, 0, m) == m);
    let one = crate::meaning::step(k, m, ops[0]);
    assert(crate::meaning::run(k, ops, 1, m) == one);
    let two = crate::meaning::step(k, one, ops[1]);
    assert(crate::meaning::run(k, ops, 2, m) == two);
    if ops.len() == 2 {
        assert(one == stored);
        assert(two == a);
    } else {
        assert(two == stored);
        let three = crate::meaning::step(k, two, ops[2]);
        assert(crate::meaning::run(k, ops, 3, m) == three);
        assert(three == a);
    }
}

/// A layer from its attention to the feed-forward result.
#[verifier::rlimit(40)]
proof fn lemma_after_cache<E>(
    k: Kernels<Gemma4Wt, E>,
    c: Gemma4Config,
    w: LayerCommon,
    kind: LayerType,
    i: usize,
    m: Contents<E>,
)
    requires
        c.batch_fits(),
        crate::gemma4::common_shaped(w, c, kind),
        crate::batches::sized(m, c),
    ensures
        ({
            let a = crate::meaning::after(k, crate::gemma4::after_cache_ops(c, w, i), m);
            let y = crate::tokens::after_attention(
                k,
                c,
                kind,
                i,
                m.bufs[Gemma4Buf::Residual],
                crate::meaning::part(
                    m,
                    Gemma4Buf::AttnOut,
                    c.n_heads * crate::tokens::head(c, kind),
                ),
            );
            &&& crate::meaning::alike(m, a)
            &&& crate::batches::sized(a, c)
            &&& same_batch(m, a)
            &&& a.bufs[Gemma4Buf::Residual] == y
            &&& a.bufs[Gemma4Buf::X] == y
            &&& a.bufs[Gemma4Buf::FfnOut] == crate::tokens::feed_forward(k, c, i, y)
        }),
{
    let d = c.dim as int;
    let f = c.hidden_dim as int;
    let qd = c.n_heads * crate::tokens::head(c, kind);
    crate::gemma4::lemma_token_sizes(c, kind);
    assert(c.q_dim(kind) == qd);
    let ops = crate::gemma4::after_cache_ops(c, w, i);
    assert(crate::meaning::run(k, ops, 0, m) == m);
    crate::meaning::lemma_times_part(
        k,
        Gemma4Wt::Layer(i, LayerPart::OProj),
        d,
        qd,
        m.bufs[Gemma4Buf::AttnOut],
    );
    let v1 = crate::meaning::times(
        k,
        Gemma4Wt::Layer(i, LayerPart::OProj),
        d,
        qd,
        m.bufs[Gemma4Buf::AttnOut],
    );
    assert(m.bufs[Gemma4Buf::Tmp].len() == v1.len());
    crate::meaning::lemma_put(m, Gemma4Buf::Tmp, v1);
    let s1 = crate::meaning::set(m, Gemma4Buf::Tmp, v1);
    assert(crate::meaning::run(k, ops, 1, m) == s1);
    let v2 = crate::meaning::normed(
        k,
        Gemma4Wt::Layer(i, LayerPart::PostAttnNorm),
        c.norm_eps,
        s1.bufs[Gemma4Buf::Tmp],
    );
    assert(s1.bufs[Gemma4Buf::Tmp].len() == v2.len());
    crate::meaning::lemma_put(s1, Gemma4Buf::Tmp, v2);
    let s2 = crate::meaning::set(s1, Gemma4Buf::Tmp, v2);
    assert(crate::meaning::run(k, ops, 2, m) == s2);
    crate::meaning::lemma_pasted(s2.bufs[Gemma4Buf::X], s2.bufs[Gemma4Buf::Residual], 0, d);
    crate::meaning::lemma_slice_all(s2.bufs[Gemma4Buf::Residual], d);
    let v3 = s2.bufs[Gemma4Buf::Residual];
    let s3 = crate::meaning::set(s2, Gemma4Buf::X, v3);
    assert(crate::meaning::run(k, ops, 3, m) == s3);
    let v4 = crate::meaning::added(k, s3.bufs[Gemma4Buf::X], s3.bufs[Gemma4Buf::Tmp]);
    let s4 = crate::meaning::set(s3, Gemma4Buf::X, v4);
    assert(crate::meaning::run(k, ops, 4, m) == s4);
    crate::meaning::lemma_pasted(s4.bufs[Gemma4Buf::Residual], s4.bufs[Gemma4Buf::X], 0, d);
    crate::meaning::lemma_slice_all(s4.bufs[Gemma4Buf::X], d);
    let v5 = s4.bufs[Gemma4Buf::X];
    let s5 = crate::meaning::set(s4, Gemma4Buf::Residual, v5);
    assert(crate::meaning::run(k, ops, 5, m) == s5);
    let v6 = crate::meaning::normed(
        k,
        Gemma4Wt::Layer(i, LayerPart::PreFfnNorm),
        c.norm_eps,
        s5.bufs[Gemma4Buf::X],
    );
    assert(s5.bufs[Gemma4Buf::Tmp].len() == v6.len());
    crate::meaning::lemma_put(s5, Gemma4Buf::Tmp, v6);
    let s6 = crate::meaning::set(s5, Gemma4Buf::Tmp, v6);
    assert(crate::meaning::run(k, ops, 6, m) == s6);
    let v7 = crate::meaning::times(
        k,
        Gemma4Wt::Layer(i, LayerPart::GateProj),
        f,
        d,
        s6.bufs[Gemma4Buf::Tmp],
    );
    assert(s6.bufs[Gemma4Buf::GateFfn].len() == v7.len());
    crate::meaning::lemma_put(s6, Gemma4Buf::GateFfn, v7);
    let s7 = crate::meaning::set(s6, Gemma4Buf::GateFfn, v7);
    assert(crate::meaning::run(k, ops, 7, m) == s7);
    let v8 = crate::meaning::times(
        k,
        Gemma4Wt::Layer(i, LayerPart::UpProj),
        f,
        d,
        s7.bufs[Gemma4Buf::Tmp],
    );
    assert(s7.bufs[Gemma4Buf::UpFfn].len() == v8.len());
    crate::meaning::lemma_put(s7, Gemma4Buf::UpFfn, v8);
    let s8 = crate::meaning::set(s7, Gemma4Buf::UpFfn, v8);
    assert(crate::meaning::run(k, ops, 8, m) == s8);
    crate::meaning::lemma_slice_all(s8.bufs[Gemma4Buf::GateFfn], f);
    let v9 = crate::meaning::mapped(k.gelu, s8.bufs[Gemma4Buf::GateFfn]);
    assert(s8.bufs[Gemma4Buf::FfnHidden].len() == v9.len());
    crate::meaning::lemma_put(s8, Gemma4Buf::FfnHidden, v9);
    let s9 = crate::meaning::set(s8, Gemma4Buf::FfnHidden, v9);
    assert(crate::meaning::run(k, ops, 9, m) == s9);
    let v10 = crate::meaning::multiplied(
        k,
        s9.bufs[Gemma4Buf::FfnHidden],
        s9.bufs[Gemma4Buf::UpFfn],
    );
    assert(s9.bufs[Gemma4Buf::FfnHidden].len() == v10.len());
    crate::meaning::lemma_put(s9, Gemma4Buf::FfnHidden, v10);
    let s10 = crate::meaning::set(s9, Gemma4Buf::FfnHidden, v10);
    assert(crate::meaning::run(k, ops, 10, m) == s10);
    let v11 = crate::meaning::times(
        k,
        Gemma4Wt::Layer(i, LayerPart::DownProj),
        d,
        f,
        s10.bufs[Gemma4Buf::FfnHidden],
    );
    assert(s10.bufs[Gemma4Buf::FfnOut].len() == v11.len());
    crate::meaning::lemma_put(s10, Gemma4Buf::FfnOut, v11);
    let s11 = crate::meaning::set(s10, Gemma4Buf::FfnOut, v11);
    assert(crate::meaning::run(k, ops, 11, m) == s11);
}

/// The experts that the router names for a token.
proof fn lemma_route<E>(
    k: Kernels<Gemma4Wt, E>,
    c: Gemma4Config,
    x: MoeLayerExtras,
    i: usize,
    m: Contents<E>,
)
    requires
        c.batch_fits(),
        crate::batches::sized(m, c),
        c.top_k_experts == 8,
        c.num_experts >= 1,
        c.moe_intermediate_size >= 1,
        crate::gemma4::moe_shaped(x, c),
    ensures
        ({
            let a = crate::meaning::after(k, crate::gemma4::route_ops(c, x, i), m);
            let y = m.bufs[Gemma4Buf::Residual];
            let s = crate::tokens::router_scores(k, c, i, y);
            let ne = c.num_experts as int;
            &&& crate::meaning::alike(m, a)
            &&& crate::batches::sized(a, c)
            &&& a.bufs[Gemma4Buf::Residual] == y
            &&& a.bufs[Gemma4Buf::MoeCurMlp] == crate::meaning::normed(
                k,
                Gemma4Wt::Layer(i, LayerPart::PostFfnNorm1),
                c.norm_eps,
                m.bufs[Gemma4Buf::FfnOut],
            )
            &&& a.bufs[Gemma4Buf::MoePre2] == crate::meaning::normed(
                k,
                Gemma4Wt::Layer(i, LayerPart::PreFfnNorm2),
                c.norm_eps,
                y,
            )
            &&& a.bufs[Gemma4Buf::MoeTopkIndices] == crate::meaning::chosen_rows(k.top_index, 1, ne, s)
            &&& a.bufs[Gemma4Buf::MoeTopkWeights] == crate::meaning::chosen_rows(k.top_weight, 1, ne, s)
        }),
{
    let d = c.dim as int;
    let ne = c.num_experts as int;
    let by = crate::qwen35::inverse_root(c.dim as nat);
    let ops = crate::gemma4::route_ops(c, x, i);
    assert(crate::meaning::run(k, ops, 0, m) == m);
    let v1 = crate::meaning::normed(
        k,
        Gemma4Wt::Layer(i, LayerPart::PostFfnNorm1),
        c.norm_eps,
        m.bufs[Gemma4Buf::FfnOut],
    );
    assert(m.bufs[Gemma4Buf::MoeCurMlp].len() == v1.len());
    crate::meaning::lemma_put(m, Gemma4Buf::MoeCurMlp, v1);
    let s1 = crate::meaning::set(m, Gemma4Buf::MoeCurMlp, v1);
    assert(crate::meaning::run(k, ops, 1, m) == s1);
    let v2 = crate::meaning::normed(
        k,
        Gemma4Wt::Layer(i, LayerPart::PreFfnNorm2),
        c.norm_eps,
        s1.bufs[Gemma4Buf::Residual],
    );
    assert(s1.bufs[Gemma4Buf::MoePre2].len() == v2.len());
    crate::meaning::lemma_put(s1, Gemma4Buf::MoePre2, v2);
    let s2 = crate::meaning::set(s1, Gemma4Buf::MoePre2, v2);
    assert(crate::meaning::run(k, ops, 2, m) == s2);
    let v3 = crate::meaning::normed(
        k,
        Gemma4Wt::Layer(i, LayerPart::RouterScale),
        c.norm_eps,
        s2.bufs[Gemma4Buf::Residual],
    );
    assert(s2.bufs[Gemma4Buf::MoeRouterIn].len() == v3.len());
    crate::meaning::lemma_put(s2, Gemma4Buf::MoeRouterIn, v3);
    let s3 = crate::meaning::set(s2, Gemma4Buf::MoeRouterIn, v3);
    assert(crate::meaning::run(k, ops, 3, m) == s3);
    let v4 = crate::meaning::scaled(k, by, s3.bufs[Gemma4Buf::MoeRouterIn]);
    let s4 = crate::meaning::set(s3, Gemma4Buf::MoeRouterIn, v4);
    assert(crate::meaning::run(k, ops, 4, m) == s4);
    let v5 = crate::meaning::times(
        k,
        Gemma4Wt::Layer(i, LayerPart::RouterProj),
        ne,
        d,
        s4.bufs[Gemma4Buf::MoeRouterIn],
    );
    assert(s4.bufs[Gemma4Buf::MoeRouterLogits].len() == v5.len());
    crate::meaning::lemma_put(s4, Gemma4Buf::MoeRouterLogits, v5);
    let s5 = crate::meaning::set(s4, Gemma4Buf::MoeRouterLogits, v5);
    assert(crate::meaning::run(k, ops, 5, m) == s5);
    let vi = crate::meaning::chosen_rows(k.top_index, 1, ne, v5);
    let vw = crate::meaning::chosen_rows(k.top_weight, 1, ne, v5);
    crate::meaning::lemma_put(s5, Gemma4Buf::MoeTopkIndices, vi);
    let si = crate::meaning::set(s5, Gemma4Buf::MoeTopkIndices, vi);
    crate::meaning::lemma_put(si, Gemma4Buf::MoeTopkWeights, vw);
    let s6 = crate::meaning::set(si, Gemma4Buf::MoeTopkWeights, vw);
    assert(crate::meaning::run(k, ops, 6, m) == s6);
}

/// The named experts on a token.
#[verifier::rlimit(40)]
proof fn lemma_experts<E>(
    k: Kernels<Gemma4Wt, E>,
    c: Gemma4Config,
    dtype: crate::quant::DType,
    i: usize,
    m: Contents<E>,
)
    requires
        c.batch_fits(),
        crate::batches::sized(m, c),
        c.top_k_experts == 8,
        c.num_experts >= 1,
        c.moe_intermediate_size >= 1,
        ({
            let s = crate::tokens::router_scores(k, c, i, m.bufs[Gemma4Buf::Residual]);
            let ne = c.num_experts as int;
            &&& m.bufs[Gemma4Buf::MoePre2] == crate::meaning::normed(
                k,
                Gemma4Wt::Layer(i, LayerPart::PreFfnNorm2),
                c.norm_eps,
                m.bufs[Gemma4Buf::Residual],
            )
            &&& m.bufs[Gemma4Buf::MoeTopkIndices] == crate::meaning::chosen_rows(k.top_index, 1, ne, s)
            &&& m.bufs[Gemma4Buf::MoeTopkWeights] == crate::meaning::chosen_rows(k.top_weight, 1, ne, s)
        }),
    ensures
        ({
            let a = crate::meaning::after(k, crate::gemma4::experts_ops(c, dtype, i), m);
            &&& crate::meaning::alike(m, a)
            &&& crate::batches::sized(a, c)
            &&& a.bufs[Gemma4Buf::Residual] == m.bufs[Gemma4Buf::Residual]
            &&& a.bufs[Gemma4Buf::MoeCurMlp] == m.bufs[Gemma4Buf::MoeCurMlp]
            &&& a.bufs[Gemma4Buf::MoeCurMoe] == crate::tokens::experts(
                k,
                c,
                dtype,
                i,
                m.bufs[Gemma4Buf::Residual],
            )
        }),
{
    let d = c.dim as int;
    let mi = c.moe_intermediate_size as int;
    crate::gemma4::lemma_batch_sizes(c, 1);
    crate::gemma4::lemma_token_sizes(c, LayerType::Full);
    assert(c.top() * c.mi() == 8 * mi);
    let ops = crate::gemma4::experts_ops(c, dtype, i);
    assert(crate::meaning::run(k, ops, 0, m) == m);
    let v1 = crate::meaning::rotated_rows(k, 1, d, m.bufs[Gemma4Buf::MoePre2]);
    assert(m.bufs[Gemma4Buf::MoePre2Rot].len() == v1.len());
    crate::meaning::lemma_put(m, Gemma4Buf::MoePre2Rot, v1);
    let s1 = crate::meaning::set(m, Gemma4Buf::MoePre2Rot, v1);
    assert(crate::meaning::run(k, ops, 1, m) == s1);
    let by = Routed::Indexed { indices: m.bufs[Gemma4Buf::MoeTopkIndices] };
    let vg = crate::meaning::expert_rows(
        k.expert_gate,
        Gemma4Wt::Layer(i, LayerPart::GateUpPtrs),
        by,
        1,
        8,
        mi,
        d,
        v1,
    );
    let vu = crate::meaning::expert_rows(
        k.expert_up,
        Gemma4Wt::Layer(i, LayerPart::GateUpPtrs),
        by,
        1,
        8,
        mi,
        d,
        v1,
    );
    crate::meaning::lemma_put(s1, Gemma4Buf::MoeExpertGateBatch, vg);
    let sg = crate::meaning::set(s1, Gemma4Buf::MoeExpertGateBatch, vg);
    crate::meaning::lemma_put(sg, Gemma4Buf::MoeExpertUpBatch, vu);
    let s2 = crate::meaning::set(sg, Gemma4Buf::MoeExpertUpBatch, vu);
    assert(crate::meaning::run(k, ops, 2, m) == s2);
    crate::meaning::lemma_slice_all(vg, 8 * mi);
    let v3 = crate::meaning::mapped(k.gelu, s2.bufs[Gemma4Buf::MoeExpertGateBatch]);
    assert(s2.bufs[Gemma4Buf::MoeExpertHiddenBatch].len() == v3.len());
    crate::meaning::lemma_put(s2, Gemma4Buf::MoeExpertHiddenBatch, v3);
    let s3 = crate::meaning::set(s2, Gemma4Buf::MoeExpertHiddenBatch, v3);
    assert(crate::meaning::run(k, ops, 3, m) == s3);
    let v4 = crate::meaning::multiplied(
        k,
        s3.bufs[Gemma4Buf::MoeExpertHiddenBatch],
        s3.bufs[Gemma4Buf::MoeExpertUpBatch],
    );
    assert(s3.bufs[Gemma4Buf::MoeExpertHiddenBatch].len() == v4.len());
    crate::meaning::lemma_put(s3, Gemma4Buf::MoeExpertHiddenBatch, v4);
    let s4 = crate::meaning::set(s3, Gemma4Buf::MoeExpertHiddenBatch, v4);
    assert(crate::meaning::run(k, ops, 4, m) == s4);
    let v5 = Seq::new(d as nat, |j: int| k.zero);
    assert(s4.bufs[Gemma4Buf::MoeCurMoe].len() == v5.len());
    crate::meaning::lemma_put(s4, Gemma4Buf::MoeCurMoe, v5);
    let s5 = crate::meaning::set(s4, Gemma4Buf::MoeCurMoe, v5);
    assert(crate::meaning::run(k, ops, 5, m) == s5);
    crate::meaning::lemma_slice_all(s5.bufs[Gemma4Buf::MoeCurMoe], d);
    let v6 = crate::meaning::added(
        k,
        s5.bufs[Gemma4Buf::MoeCurMoe],
        crate::meaning::expert_sums(
            k,
            Gemma4Wt::Layer(i, LayerPart::DownPtrs),
            dtype,
            Gemma4Wt::Layer(i, LayerPart::PerExpertScale),
            by,
            1,
            8,
            d,
            mi,
            s5.bufs[Gemma4Buf::MoeTopkWeights],
            s5.bufs[Gemma4Buf::MoeExpertHiddenBatch],
        ),
    );
    assert(s5.bufs[Gemma4Buf::MoeCurMoe].len() == v6.len());
    crate::meaning::lemma_put(s5, Gemma4Buf::MoeCurMoe, v6);
    let s6 = crate::meaning::set(s5, Gemma4Buf::MoeCurMoe, v6);
    assert(crate::meaning::run(k, ops, 6, m) == s6);
}

/// Both results of a layer with experts, added up.
proof fn lemma_join<E>(
    k: Kernels<Gemma4Wt, E>,
    c: Gemma4Config,
    i: usize,
    m: Contents<E>,
)
    requires
        c.batch_fits(),
        crate::batches::sized(m, c),
    ensures
        ({
            let a = crate::meaning::after(k, crate::gemma4::join_experts_ops(c, i), m);
            &&& crate::meaning::alike(m, a)
            &&& crate::batches::sized(a, c)
            &&& a.bufs[Gemma4Buf::Residual] == m.bufs[Gemma4Buf::Residual]
            &&& a.bufs[Gemma4Buf::Tmp] == crate::meaning::normed(
                k,
                Gemma4Wt::Layer(i, LayerPart::PostFfnNorm),
                c.norm_eps,
                crate::meaning::added(
                    k,
                    m.bufs[Gemma4Buf::MoeCurMlp],
                    crate::meaning::normed(
                        k,
                        Gemma4Wt::Layer(i, LayerPart::PostFfnNorm2),
                        c.norm_eps,
                        m.bufs[Gemma4Buf::MoeCurMoe],
                    ),
                ),
            )
        }),
{
    let ops = crate::gemma4::join_experts_ops(c, i);
    assert(crate::meaning::run(k, ops, 0, m) == m);
    let v1 = crate::meaning::normed(
        k,
        Gemma4Wt::Layer(i, LayerPart::PostFfnNorm2),
        c.norm_eps,
        m.bufs[Gemma4Buf::MoeCurMoe],
    );
    assert(m.bufs[Gemma4Buf::MoeCurMoe].len() == v1.len());
    crate::meaning::lemma_put(m, Gemma4Buf::MoeCurMoe, v1);
    let s1 = crate::meaning::set(m, Gemma4Buf::MoeCurMoe, v1);
    assert(crate::meaning::run(k, ops, 1, m) == s1);
    let v2 = crate::meaning::added(k, s1.bufs[Gemma4Buf::MoeCurMlp], s1.bufs[Gemma4Buf::MoeCurMoe]);
    assert(s1.bufs[Gemma4Buf::Tmp].len() == v2.len());
    crate::meaning::lemma_put(s1, Gemma4Buf::Tmp, v2);
    let s2 = crate::meaning::set(s1, Gemma4Buf::Tmp, v2);
    assert(crate::meaning::run(k, ops, 2, m) == s2);
    let v3 = crate::meaning::normed(
        k,
        Gemma4Wt::Layer(i, LayerPart::PostFfnNorm),
        c.norm_eps,
        s2.bufs[Gemma4Buf::Tmp],
    );
    assert(s2.bufs[Gemma4Buf::Tmp].len() == v3.len());
    crate::meaning::lemma_put(s2, Gemma4Buf::Tmp, v3);
    let s3 = crate::meaning::set(s2, Gemma4Buf::Tmp, v3);
    assert(crate::meaning::run(k, ops, 3, m) == s3);
}

/// The end of a layer.
proof fn lemma_finish<E>(
    k: Kernels<Gemma4Wt, E>,
    c: Gemma4Config,
    w: LayerCommon,
    m: Contents<E>,
)
    requires
        c.batch_fits(),
        crate::batches::sized(m, c),
    ensures
        ({
            let a = crate::meaning::after(k, crate::gemma4::finish_ops(c, w), m);
            &&& crate::meaning::alike(m, a)
            &&& crate::batches::sized(a, c)
            &&& a.bufs[Gemma4Buf::X] == crate::meaning::scaled(
                k,
                w.layer_scalar_host,
                crate::meaning::added(k, m.bufs[Gemma4Buf::Residual], m.bufs[Gemma4Buf::Tmp]),
            )
        }),
{
    let d = c.dim as int;
    crate::gemma4::lemma_token_sizes(c, LayerType::Full);
    let ops = crate::gemma4::finish_ops(c, w);
    assert(crate::meaning::run(k, ops, 0, m) == m);
    crate::meaning::lemma_pasted(m.bufs[Gemma4Buf::X], m.bufs[Gemma4Buf::Residual], 0, d);
    crate::meaning::lemma_slice_all(m.bufs[Gemma4Buf::Residual], d);
    let v1 = m.bufs[Gemma4Buf::Residual];
    let s1 = crate::meaning::set(m, Gemma4Buf::X, v1);
    assert(crate::meaning::run(k, ops, 1, m) == s1);
    let v2 = crate::meaning::added(k, s1.bufs[Gemma4Buf::X], s1.bufs[Gemma4Buf::Tmp]);
    let s2 = crate::meaning::set(s1, Gemma4Buf::X, v2);
    assert(crate::meaning::run(k, ops, 2, m) == s2);
    let v3 = crate::meaning::scaled(k, w.layer_scalar_host, s2.bufs[Gemma4Buf::X]);
    let s3 = crate::meaning::set(s2, Gemma4Buf::X, v3);
    assert(crate::meaning::run(k, ops, 3, m) == s3);
}

/// The experts of a layer that a pass uses.
pub open spec fn used(w: LayerCommon, bypass: bool) -> Option<MoeLayerExtras> {
    if bypass {
        None
    } else {
        w.moe
    }
}

/// Experts that the device routes by itself, if there are any.
pub open spec fn on_device(w: LayerCommon, c: Gemma4Config, bypass: bool) -> bool {
    used(w, bypass) matches Some(x) ==> {
        &&& crate::gemma4::on_device(x)
        &&& c.num_experts >= 1
        &&& c.moe_intermediate_size >= 1
    }
}

/// What a layer adds in the end.
proof fn lemma_branch<E>(
    k: Kernels<Gemma4Wt, E>,
    c: Gemma4Config,
    w: LayerCommon,
    kind: LayerType,
    i: usize,
    bypass: bool,
    m: Contents<E>,
)
    requires
        c.batch_fits(),
        crate::batches::sized(m, c),
        crate::gemma4::common_shaped(w, c, kind),
        on_device(w, c, bypass),
        crate::gemma4::branch_ops(c, w, i, bypass) is Ok,
    ensures
        ({
            let a = crate::meaning::after(
                k,
                crate::gemma4::branch_ops(c, w, i, bypass).unwrap(),
                m,
            );
            &&& crate::meaning::alike(m, a)
            &&& crate::batches::sized(a, c)
            &&& a.bufs[Gemma4Buf::Residual] == m.bufs[Gemma4Buf::Residual]
            &&& a.bufs[Gemma4Buf::Tmp] == crate::tokens::ending(
                k,
                c,
                used(w, bypass),
                i,
                m.bufs[Gemma4Buf::Residual],
                m.bufs[Gemma4Buf::FfnOut],
            )
        }),
{
    match used(w, bypass) {
        Some(x) => {
            let a = crate::gemma4::route_ops(c, x, i);
            let b = crate::gemma4::experts_ops(c, x.down.dtype, i);
            let e = crate::gemma4::join_experts_ops(c, i);
            crate::meaning::lemma_after_concat(k, a + b, e, m);
            crate::meaning::lemma_after_concat(k, a, b, m);
            let m1 = crate::meaning::after(k, a, m);
            let m2 = crate::meaning::after(k, b, m1);
            lemma_route(k, c, x, i, m);
            lemma_experts(k, c, x.down.dtype, i, m1);
            lemma_join(k, c, i, m2);
        },
        None => {
            let ops = crate::gemma4::branch_ops(c, w, i, bypass).unwrap();
            assert(crate::meaning::run(k, ops, 0, m) == m);
            let v = crate::meaning::normed(
                k,
                Gemma4Wt::Layer(i, LayerPart::PostFfnNorm),
                c.norm_eps,
                m.bufs[Gemma4Buf::FfnOut],
            );
            crate::meaning::lemma_put(m, Gemma4Buf::Tmp, v);
            assert(crate::meaning::run(k, ops, 1, m) == crate::meaning::set(m, Gemma4Buf::Tmp, v));
        },
    }
}

/// The cache of a kind of layer.
pub open spec fn cache_for(kv: Caches, kind: LayerType) -> KvCache {
    match kind {
        LayerType::Sliding => kv.sliding,
        LayerType::Full => kv.full,
    }
}

/// What stands of a token and the caches.
pub open spec fn flow<E>(m: Contents<E>) -> Flow<E> {
    Flow { x: m.bufs[Gemma4Buf::X], keys: m.keys, values: m.values }
}

/// Layer `i` on one token does what the layer's formula says: to the state, which ends up
/// as the sum of the token, its attention and its feed-forward result, scaled, and to the
/// layer's own cache, where the token's keys and values are.
pub proof fn law_token_layer<E>(
    k: Kernels<Gemma4Wt, E>,
    c: Gemma4Config,
    w: LayerWeights,
    i: usize,
    pos: usize,
    kv: Caches,
    bypass: bool,
    m: Contents<E>,
)
    requires
        c.batch_fits(),
        crate::gemma4::layer_shaped(w, c),
        i < c.layer_types@.len(),
        pos < usize::MAX,
        on_device(crate::gemma4::common_of(w), c, bypass),
        crate::batches::sized(m, c),
        m.pos == pos,
    ensures
        crate::gemma4::layer_ops(c, w, i, pos, kv, false, bypass) matches Ok(ops) ==> {
            let a = crate::meaning::after(k, ops, m);
            let kind = crate::batches::kind_of(w);
            let own = cache_for(kv, kind);
            &&& crate::batches::sized(a, c)
            &&& a.pos == pos
            &&& a.out == m.out
            &&& flow(a) == crate::tokens::token_layer(
                k,
                c,
                crate::gemma4::common_of(w),
                used(crate::gemma4::common_of(w), bypass),
                kind,
                i,
                pos as int,
                own.form(),
                own.max_seq as int,
                flow(m),
            )
        },
{
    if crate::gemma4::layer_ops(c, w, i, pos, kv, false, bypass) is Ok {
        let kind = crate::batches::kind_of(w);
        let own = cache_for(kv, kind);
        let com = crate::gemma4::common_of(w);
        crate::batches::lemma_count(c.layer_types@, kind, i as nat);
        let s = crate::gemma4::count_kind(c.layer_types@, kind, i as nat) as usize;
        let heads = match w {
            LayerWeights::Sliding(l) => crate::gemma4::sliding_in_ops(c, l, i),
            LayerWeights::Full(l) => crate::gemma4::full_in_ops(c, l, i),
        };
        let cache = match kind {
            LayerType::Sliding => crate::gemma4::sliding_cache_ops(c, s, pos, own).unwrap(),
            LayerType::Full => crate::gemma4::full_cache_ops(c, s, pos, own).unwrap(),
        };
        let rest = crate::gemma4::after_cache_ops(c, com, i);
        let branch = crate::gemma4::branch_ops(c, com, i, bypass).unwrap();
        let finish = crate::gemma4::finish_ops(c, com);
        crate::meaning::lemma_after_concat(k, heads + cache, rest + (branch + finish), m);
        crate::meaning::lemma_after_concat(k, heads, cache, m);
        let m1 = crate::meaning::after(k, heads, m);
        let m2 = crate::meaning::after(k, cache, m1);
        crate::meaning::lemma_after_concat(k, rest, branch + finish, m2);
        let m3 = crate::meaning::after(k, rest, m2);
        crate::meaning::lemma_after_concat(k, branch, finish, m3);
        let m4 = crate::meaning::after(k, branch, m3);
        match w {
            LayerWeights::Sliding(l) => {
                lemma_sliding_in(k, c, l, i, pos as int, m);
                lemma_sliding_cache(k, c, s, pos, own, m1);
            },
            LayerWeights::Full(l) => {
                lemma_full_in(k, c, l, i, pos as int, m);
                lemma_full_cache(k, c, s, pos, own, m1);
            },
        }
        lemma_after_cache(k, c, com, kind, i, m2);
        lemma_branch(k, c, com, kind, i, bypass, m3);
        lemma_finish(k, c, com, m4);
    }
}

/// The first half of a layer on one token: the state after attention and the feed-forward
/// result, from which the layer's formula goes on.
pub proof fn lemma_first_half<E>(
    k: Kernels<Gemma4Wt, E>,
    c: Gemma4Config,
    w: LayerWeights,
    i: usize,
    pos: usize,
    kv: Caches,
    m: Contents<E>,
)
    requires
        c.batch_fits(),
        crate::gemma4::layer_shaped(w, c),
        i < c.layer_types@.len(),
        pos < usize::MAX,
        crate::batches::sized(m, c),
        m.pos == pos,
        crate::gemma4::layer_ops(c, w, i, pos, kv, true, false) is Ok,
    ensures
        ({
            let a = crate::meaning::after(
                k,
                crate::gemma4::layer_ops(c, w, i, pos, kv, true, false).unwrap(),
                m,
            );
            let g = crate::stepwise::decoded(k, c, w, i, pos as int, kv, flow(m));
            let y = a.bufs[Gemma4Buf::Residual];
            &&& crate::batches::sized(a, c)
            &&& a.keys == g.keys
            &&& a.values == g.values
            &&& a.bufs[Gemma4Buf::FfnOut] == crate::tokens::feed_forward(k, c, i, y)
            &&& crate::stepwise::halfway(k, c, crate::gemma4::common_of(w), i, y, g.x)
            &&& same_batch(m, a)
        }),
{
    let kind = crate::batches::kind_of(w);
    let own = cache_for(kv, kind);
    let com = crate::gemma4::common_of(w);
    crate::batches::lemma_count(c.layer_types@, kind, i as nat);
    let s = crate::gemma4::count_kind(c.layer_types@, kind, i as nat) as usize;
    let heads = match w {
        LayerWeights::Sliding(l) => crate::gemma4::sliding_in_ops(c, l, i),
        LayerWeights::Full(l) => crate::gemma4::full_in_ops(c, l, i),
    };
    let cache = match kind {
        LayerType::Sliding => crate::gemma4::sliding_cache_ops(c, s, pos, own).unwrap(),
        LayerType::Full => crate::gemma4::full_cache_ops(c, s, pos, own).unwrap(),
    };
    let rest = crate::gemma4::after_cache_ops(c, com, i);
    crate::meaning::lemma_after_concat(k, heads + cache, rest, m);
    crate::meaning::lemma_after_concat(k, heads, cache, m);
    let m1 = crate::meaning::after(k, heads, m);
    let m2 = crate::meaning::after(k, cache, m1);
    match w {
        LayerWeights::Sliding(l) => {
            lemma_sliding_in(k, c, l, i, pos as int, m);
            lemma_sliding_cache(k, c, s, pos, own, m1);
        },
        LayerWeights::Full(l) => {
            lemma_full_in(k, c, l, i, pos as int, m);
            lemma_full_cache(k, c, s, pos, own, m1);
        },
    }
    lemma_after_cache(k, c, com, kind, i, m2);
}

/// The buffers of a batch are as they were.
pub open spec fn same_batch<E>(m: Contents<E>, a: Contents<E>) -> bool {
    &&& a.bufs[Gemma4Buf::PbResidual] == m.bufs[Gemma4Buf::PbResidual]
    &&& a.bufs[Gemma4Buf::PbFfnOut] == m.bufs[Gemma4Buf::PbFfnOut]
    &&& a.bufs[Gemma4Buf::PbAttnOut] == m.bufs[Gemma4Buf::PbAttnOut]
}

/// The first `n` layers on a token.
pub open spec fn token_layers<E>(
    k: Kernels<Gemma4Wt, E>,
    c: Gemma4Config,
    layers: Seq<LayerWeights>,
    pos: int,
    kv: Caches,
    bypass: bool,
    n: nat,
    f: Flow<E>,
) -> Flow<E>
    decreases n,
{
    if n == 0 {
        f
    } else {
        let w = layers[n - 1];
        let kind = crate::batches::kind_of(w);
        crate::tokens::token_layer(
            k,
            c,
            crate::gemma4::common_of(w),
            used(crate::gemma4::common_of(w), bypass),
            kind,
            (n - 1) as usize,
            pos,
            cache_for(kv, kind).form(),
            cache_for(kv, kind).max_seq as int,
            token_layers(k, c, layers, pos, kv, bypass, (n - 1) as nat, f),
        )
    }
}

proof fn lemma_layers<E>(
    k: Kernels<Gemma4Wt, E>,
    c: Gemma4Config,
    w: Gemma4Weights,
    pos: usize,
    kv: Caches,
    bypass: bool,
    n: nat,
    m: Contents<E>,
)
    requires
        c.batch_fits(),
        crate::gemma4::shaped(w, c),
        n <= c.layer_types@.len() <= w.layers@.len(),
        pos < usize::MAX,
        forall|j: int|
            0 <= j < w.layers@.len() ==> on_device(
                crate::gemma4::common_of(#[trigger] w.layers@[j]),
                c,
                bypass,
            ),
        crate::batches::sized(m, c),
        m.pos == pos,
    ensures
        crate::gemma4::layers_ops(c, w.layers@, pos, kv, bypass, n) matches Ok(ops) ==> {
            let a = crate::meaning::after(k, ops, m);
            &&& crate::batches::sized(a, c)
            &&& a.pos == pos
            &&& a.out == m.out
            &&& flow(a) == token_layers(
                k,
                c,
                w.layers@,
                pos as int,
                kv,
                bypass,
                n,
                flow(m),
            )
        },
    decreases n,
{
    if n == 0 {
        crate::meaning::lemma_after_empty(k, m);
    } else if crate::gemma4::layers_ops(c, w.layers@, pos, kv, bypass, n) is Ok {
        let j = (n - 1) as nat;
        lemma_layers(k, c, w, pos, kv, bypass, j, m);
        let l = w.layers@[j as int];
        assert(crate::gemma4::layer_shaped(l, c));
        let a = crate::gemma4::layers_ops(c, w.layers@, pos, kv, bypass, j).unwrap();
        let b = crate::gemma4::layer_ops(c, l, j as usize, pos, kv, false, bypass).unwrap();
        crate::meaning::lemma_after_concat(k, a, b, m);
        law_token_layer(k, c, l, j as usize, pos, kv, bypass, crate::meaning::after(k, a, m));
    }
}

/// What a token's logits are: the last state under the final norm times the head, and under
/// the soft cap where there is one.
pub open spec fn logits<E>(k: Kernels<Gemma4Wt, E>, c: Gemma4Config, x: Seq<E>) -> Seq<E> {
    let l = crate::meaning::times(
        k,
        Gemma4Wt::LmHead,
        c.vocab_size as int,
        c.dim as int,
        crate::meaning::normed(k, Gemma4Wt::FinalNorm, c.norm_eps, x),
    );
    let cap = c.final_logit_softcapping;
    if (F32 { bits: 0 }).below(cap) {
        crate::meaning::mapped(|e: E| (k.softcap)(cap, e), l)
    } else {
        l
    }
}

proof fn lemma_output<E>(
    k: Kernels<Gemma4Wt, E>,
    c: Gemma4Config,
    w: Gemma4Weights,
    m: Contents<E>,
)
    requires
        crate::gemma4::shaped(w, c),
        crate::batches::sized(m, c),
    ensures
        ({
            let a = crate::meaning::after(k, crate::gemma4::output_ops(c, w), m);
            &&& crate::meaning::alike(m, a)
            &&& a.bufs[Gemma4Buf::Logits] == logits(k, c, m.bufs[Gemma4Buf::X])
        }),
{
    let ops = crate::gemma4::output_ops(c, w);
    assert(crate::meaning::run(k, ops, 0, m) == m);
    let v1 = crate::meaning::normed(k, Gemma4Wt::FinalNorm, c.norm_eps, m.bufs[Gemma4Buf::X]);
    crate::meaning::lemma_put(m, Gemma4Buf::Tmp, v1);
    let s1 = crate::meaning::set(m, Gemma4Buf::Tmp, v1);
    assert(crate::meaning::run(k, ops, 1, m) == s1);
    let v2 = crate::meaning::times(k, Gemma4Wt::LmHead, c.vocab_size as int, c.dim as int, v1);
    crate::meaning::lemma_put(s1, Gemma4Buf::Logits, v2);
    let s2 = crate::meaning::set(s1, Gemma4Buf::Logits, v2);
    assert(crate::meaning::run(k, ops, 2, m) == s2);
    let cap = c.final_logit_softcapping;
    if (F32 { bits: 0 }).below(cap) {
        crate::meaning::lemma_slice_all(v2, c.vocab_size as int);
        let s3 = crate::meaning::step(k, s2, ops[2]);
        assert(crate::meaning::run(k, ops, 3, m) == s3);
        assert(s3.bufs[Gemma4Buf::Logits] =~= logits(k, c, m.bufs[Gemma4Buf::X]));
    }
}

/// A pass over a token at `pos` leaves its logits: the token's embedding, scaled, through
/// all the layers to the head; and every layer's cache holds the token's keys and values.
pub proof fn law_pass_computes_logits<E>(
    k: Kernels<Gemma4Wt, E>,
    c: Gemma4Config,
    w: Gemma4Weights,
    token: u32,
    pos: usize,
    kv: Caches,
    bypass: bool,
    m: Contents<E>,
)
    requires
        c.batch_fits(),
        crate::gemma4::shaped(w, c),
        c.layer_types@.len() <= w.layers@.len(),
        pos < usize::MAX,
        forall|j: int|
            0 <= j < w.layers@.len() ==> on_device(
                crate::gemma4::common_of(#[trigger] w.layers@[j]),
                c,
                bypass,
            ),
        crate::batches::sized(m, c),
        m.pos == pos,
    ensures
        crate::gemma4::inner_ops(c, w, pos, kv, bypass) matches Ok(ops) ==> {
            let e = crate::gemma4::embed_ops(c, w.embd_format, token);
            let a = crate::meaning::after(k, e + ops, m);
            let f = token_layers(
                k,
                c,
                w.layers@,
                pos as int,
                kv,
                bypass,
                c.layer_types@.len(),
                Flow {
                    x: crate::meaning::scaled(
                        k,
                        c.embed_scale,
                        crate::meaning::embedded(k, w.embd_format, token, c.dim as int),
                    ),
                    ..flow(m)
                },
            );
            &&& a.bufs[Gemma4Buf::Logits] == logits(k, c, f.x)
            &&& a.keys == f.keys
            &&& a.values == f.values
        },
{
    if crate::gemma4::inner_ops(c, w, pos, kv, bypass) is Ok {
        let ops = crate::gemma4::inner_ops(c, w, pos, kv, bypass).unwrap();
        let e = crate::gemma4::embed_ops(c, w.embd_format, token);
        crate::meaning::lemma_after_concat(k, e, ops, m);
        let m1 = crate::meaning::after(k, e, m);
        lemma_embedded(k, c, w.embd_format, token, m);
        let n = c.layer_types@.len();
        let a = crate::gemma4::layers_ops(c, w.layers@, pos, kv, bypass, n).unwrap();
        let b = crate::gemma4::output_ops(c, w);
        crate::meaning::lemma_after_concat(k, a, b, m1);
        lemma_layers(k, c, w, pos, kv, bypass, n, m1);
        lemma_output(k, c, w, crate::meaning::after(k, a, m1));
    }
}

/// A token's embedding, scaled.
pub proof fn lemma_embedded<E>(
    k: Kernels<Gemma4Wt, E>,
    c: Gemma4Config,
    format: crate::quant::EmbeddingFormat,
    token: u32,
    m: Contents<E>,
)
    requires
        crate::batches::sized(m, c),
    ensures
        crate::meaning::after(
            k,
            crate::gemma4::embed_ops(c, format, token),
            m,
        ) == crate::meaning::set(
            m,
            Gemma4Buf::X,
            crate::meaning::scaled(
                k,
                c.embed_scale,
                crate::meaning::embedded(k, format, token, c.dim as int),
            ),
        ),
        crate::batches::sized(
            crate::meaning::after(k, crate::gemma4::embed_ops(c, format, token), m),
            c,
        ),
{
    let ops = crate::gemma4::embed_ops(c, format, token);
    assert(crate::meaning::run(k, ops, 0, m) == m);
    let v1 = crate::meaning::embedded(k, format, token, c.dim as int);
    crate::meaning::lemma_put(m, Gemma4Buf::X, v1);
    let s1 = crate::meaning::set(m, Gemma4Buf::X, v1);
    assert(crate::meaning::run(k, ops, 1, m) == s1);
    let v2 = crate::meaning::scaled(k, c.embed_scale, v1);
    let s2 = crate::meaning::set(s1, Gemma4Buf::X, v2);
    assert(crate::meaning::run(k, ops, 2, m) == s2);
    assert(s2.bufs =~= m.bufs.insert(Gemma4Buf::X, v2));
}

} // verus!
