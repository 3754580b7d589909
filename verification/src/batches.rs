//! What a batch of tokens goes through in Gemma 4, row by row.

use vstd::prelude::*;

use crate::device::{CacheKind, KvForm, KvSide};
use crate::gemma4::{
    Caches, Flags, FullLayerWeights, Gemma4Buf, Gemma4Config, Gemma4Weights, Gemma4Wt, LayerCommon,
    LayerPart, LayerType, LayerWeights, SlidingLayerWeights,
};
use crate::meaning::{Kernels, Machine, Side};
use crate::tokens::Flow;

verus! {

pub type Contents<E> = Machine<Gemma4Buf, E>;

/// Every buffer has the size that the configuration gives it.
pub open spec fn sized<E>(m: Contents<E>, c: Gemma4Config) -> bool {
    forall|b: Gemma4Buf|
        b != Gemma4Buf::FlashPartials ==> (#[trigger] m.bufs[b]).len()
            == crate::gemma4::buf_elems(c, 0, b)
}

/// Row `t` of a buffer.
pub open spec fn at<E>(m: Contents<E>, b: Gemma4Buf, t: int, n: int) -> Seq<E> {
    crate::rows::row(m.bufs[b], t, n)
}


/// Sizes of `nn` rows, as a batch takes them.
pub proof fn lemma_room(c: Gemma4Config, kind: LayerType, nn: int)
    requires
        c.batch_fits(),
        0 <= nn <= 128,
    ensures
        0 <= nn * c.dim <= 128 * c.dim,
        4 * (nn * c.dim) <= usize::MAX,
        0 <= nn * c.hidden_dim <= 128 * c.hidden_dim,
        4 * (nn * c.hidden_dim) <= usize::MAX,
        crate::tokens::head(c, kind) == crate::gemma4::head_dim(c, kind),
        c.q_dim(kind) == c.n_heads * crate::tokens::head(c, kind),
        c.kv_dim(kind) == crate::tokens::kv_heads(c, kind) * crate::tokens::head(c, kind),
        0 <= nn * c.q_dim(kind) <= 128 * c.widest_q(),
        c.n_heads * c.widest_head() == c.widest_q(),
        0 <= nn * c.kv_dim(kind) <= 128 * c.widest_kv(),
        4 * (nn * c.kv_dim(kind)) <= usize::MAX,
        0 <= nn * c.n_heads <= usize::MAX,
        0 <= nn * crate::tokens::kv_heads(c, kind) <= usize::MAX,
        0 <= c.q_dim(kind) <= c.widest_q(),
        0 <= c.kv_dim(kind) <= c.widest_kv(),
        512 * c.widest_q() <= usize::MAX,
        512 * c.widest_kv() <= usize::MAX,
        512 * c.dim <= usize::MAX,
{
    crate::gemma4::lemma_batch_sizes(c, nn);
    crate::gemma4::lemma_token_sizes(c, kind);
    crate::gemma4::lemma_kind_sizes(c, nn, kind);
    crate::gemma4::lemma_state_sizes(c, nn);
    assert(kind == LayerType::Sliding || kind == LayerType::Full);
    let q = c.q_dim(kind);
    assert(nn * q == q * nn && 0 <= nn * q) by (nonlinear_arith)
        requires
            0 <= nn,
            0 <= q,
    ;
}

/// A batched layer after its attention, row by row: each row's state, kept twice, and its
/// feed-forward result are what a token's are.
proof fn lemma_batch_rest<E>(
    k: Kernels<Gemma4Wt, E>,
    c: Gemma4Config,
    w: LayerCommon,
    kind: LayerType,
    i: usize,
    n: usize,
    m: Contents<E>,
    t: int,
)
    requires
        c.batch_fits(),
        crate::gemma4::common_shaped(w, c, kind),
        0 <= t < n <= 128,
        sized(m, c),
    ensures
        ({
            let a = crate::meaning::after(k, crate::gemma4::batch_rest_ops(c, w, i, n), m);
            let qd = c.n_heads * crate::tokens::head(c, kind);
            let y = crate::tokens::after_attention(
                k,
                c,
                kind,
                i,
                at(m, Gemma4Buf::PbResidual, t, c.dim as int),
                at(m, Gemma4Buf::PbQ, t, qd),
            );
            &&& crate::meaning::alike(m, a)
            &&& sized(a, c)
            &&& at(a, Gemma4Buf::PbResidual, t, c.dim as int) == y
            &&& at(a, Gemma4Buf::PbAttnOut, t, c.dim as int) == y
            &&& at(a, Gemma4Buf::PbFfnOut, t, c.dim as int) == crate::tokens::feed_forward(
                k,
                c,
                i,
                y,
            )
        }),
{
    let nn = n as int;
    let d = c.dim as int;
    let f = c.hidden_dim as int;
    let qd = c.n_heads * crate::tokens::head(c, kind);
    lemma_room(c, kind, nn);
    let ops = crate::gemma4::batch_rest_ops(c, w, i, n);
    assert(crate::meaning::run(k, ops, 0, m) == m);
    let v1 = crate::meaning::product_rows(
        k.times,
        Gemma4Wt::Layer(i, LayerPart::OProj),
        nn,
        d,
        qd,
        m.bufs[Gemma4Buf::PbQ],
    );
    let s1 = crate::meaning::put(m, Gemma4Buf::PbAttnOut, v1);
    assert(crate::meaning::run(k, ops, 1, m) == s1);
    crate::rows::lemma_product_row(
        k,
        Gemma4Wt::Layer(i, LayerPart::OProj),
        t,
        nn,
        d,
        qd,
        m.bufs[Gemma4Buf::PbQ],
    );
    crate::rows::lemma_fits(t, nn, d);
    crate::rows::lemma_front_row(m.bufs[Gemma4Buf::PbAttnOut], v1, t, nn, d);
    assert(
        at(s1, Gemma4Buf::PbAttnOut, t, d) == crate::meaning::times(
            k,
            Gemma4Wt::Layer(i, LayerPart::OProj),
            d,
            qd,
            at(m, Gemma4Buf::PbQ, t, qd),
        )
    );
    let v2 = crate::meaning::normed_rows(
        k,
        Gemma4Wt::Layer(i, LayerPart::PostAttnNorm),
        c.norm_eps,
        nn,
        d,
        s1.bufs[Gemma4Buf::PbAttnOut],
    );
    let s2 = crate::meaning::put(s1, Gemma4Buf::PbAttnOut, v2);
    assert(crate::meaning::run(k, ops, 2, m) == s2);
    crate::rows::lemma_norm_whole_row(
        k,
        Gemma4Wt::Layer(i, LayerPart::PostAttnNorm),
        c.norm_eps,
        t,
        nn,
        d,
        s1.bufs[Gemma4Buf::PbAttnOut],
    );
    crate::rows::lemma_fits(t, nn, d);
    crate::rows::lemma_front_row(s1.bufs[Gemma4Buf::PbAttnOut], v2, t, nn, d);
    assert(
        at(s2, Gemma4Buf::PbAttnOut, t, d) == crate::meaning::normed(
            k,
            Gemma4Wt::Layer(i, LayerPart::PostAttnNorm),
            c.norm_eps,
            at(s1, Gemma4Buf::PbAttnOut, t, d),
        )
    );
    let v3 = crate::meaning::added(
        k,
        s2.bufs[Gemma4Buf::PbResidual],
        s2.bufs[Gemma4Buf::PbAttnOut],
    );
    let s3 = crate::meaning::set(s2, Gemma4Buf::PbResidual, v3);
    assert(crate::meaning::run(k, ops, 3, m) == s3);
    crate::rows::lemma_elements_row(
        k,
        c.norm_eps,
        k.gelu,
        s2.bufs[Gemma4Buf::PbResidual],
        s2.bufs[Gemma4Buf::PbAttnOut],
        t,
        nn,
        d,
    );
    assert(
        at(s3, Gemma4Buf::PbResidual, t, d) == crate::meaning::added(
            k,
            at(s2, Gemma4Buf::PbResidual, t, d),
            at(s2, Gemma4Buf::PbAttnOut, t, d),
        )
    );
    let v4 = crate::meaning::pasted(
        s3.bufs[Gemma4Buf::PbAttnOut],
        0,
        s3.bufs[Gemma4Buf::PbResidual],
        0,
        nn * d,
    );
    let s4 = crate::meaning::set(s3, Gemma4Buf::PbAttnOut, v4);
    assert(crate::meaning::run(k, ops, 4, m) == s4);
    crate::rows::lemma_pasted_row(
        s3.bufs[Gemma4Buf::PbAttnOut],
        s3.bufs[Gemma4Buf::PbResidual],
        t,
        nn,
        d,
    );
    assert(at(s4, Gemma4Buf::PbAttnOut, t, d) == at(s3, Gemma4Buf::PbResidual, t, d));
    let v5 = crate::meaning::normed_rows(
        k,
        Gemma4Wt::Layer(i, LayerPart::PreFfnNorm),
        c.norm_eps,
        nn,
        d,
        s4.bufs[Gemma4Buf::PbResidual],
    );
    let s5 = crate::meaning::put(s4, Gemma4Buf::PbTmp, v5);
    assert(crate::meaning::run(k, ops, 5, m) == s5);
    crate::rows::lemma_norm_whole_row(
        k,
        Gemma4Wt::Layer(i, LayerPart::PreFfnNorm),
        c.norm_eps,
        t,
        nn,
        d,
        s4.bufs[Gemma4Buf::PbResidual],
    );
    crate::rows::lemma_fits(t, nn, d);
    crate::rows::lemma_front_row(s4.bufs[Gemma4Buf::PbTmp], v5, t, nn, d);
    assert(
        at(s5, Gemma4Buf::PbTmp, t, d) == crate::meaning::normed(
            k,
            Gemma4Wt::Layer(i, LayerPart::PreFfnNorm),
            c.norm_eps,
            at(s4, Gemma4Buf::PbResidual, t, d),
        )
    );
    let v6 = crate::meaning::product_rows(
        k.times,
        Gemma4Wt::Layer(i, LayerPart::GateProj),
        nn,
        f,
        d,
        s5.bufs[Gemma4Buf::PbTmp],
    );
    let s6 = crate::meaning::put(s5, Gemma4Buf::PbGate, v6);
    assert(crate::meaning::run(k, ops, 6, m) == s6);
    crate::rows::lemma_product_row(
        k,
        Gemma4Wt::Layer(i, LayerPart::GateProj),
        t,
        nn,
        f,
        d,
        s5.bufs[Gemma4Buf::PbTmp],
    );
    crate::rows::lemma_fits(t, nn, f);
    crate::rows::lemma_front_row(s5.bufs[Gemma4Buf::PbGate], v6, t, nn, f);
    assert(
        at(s6, Gemma4Buf::PbGate, t, f) == crate::meaning::times(
            k,
            Gemma4Wt::Layer(i, LayerPart::GateProj),
            f,
            d,
            at(s5, Gemma4Buf::PbTmp, t, d),
        )
    );
    let v7 = crate::meaning::product_rows(
        k.times,
        Gemma4Wt::Layer(i, LayerPart::UpProj),
        nn,
        f,
        d,
        s6.bufs[Gemma4Buf::PbTmp],
    );
    let s7 = crate::meaning::put(s6, Gemma4Buf::PbUp, v7);
    assert(crate::meaning::run(k, ops, 7, m) == s7);
    crate::rows::lemma_product_row(
        k,
        Gemma4Wt::Layer(i, LayerPart::UpProj),
        t,
        nn,
        f,
        d,
        s6.bufs[Gemma4Buf::PbTmp],
    );
    crate::rows::lemma_fits(t, nn, f);
    crate::rows::lemma_front_row(s6.bufs[Gemma4Buf::PbUp], v7, t, nn, f);
    assert(
        at(s7, Gemma4Buf::PbUp, t, f) == crate::meaning::times(
            k,
            Gemma4Wt::Layer(i, LayerPart::UpProj),
            f,
            d,
            at(s6, Gemma4Buf::PbTmp, t, d),
        )
    );
    let v8 = crate::meaning::mapped(
        k.gelu,
        crate::meaning::slice(s7.bufs[Gemma4Buf::PbGate], 0, nn * f),
    );
    let s8 = crate::meaning::put(s7, Gemma4Buf::PbFfnHidden, v8);
    assert(crate::meaning::run(k, ops, 8, m) == s8);
    crate::rows::lemma_elements_row(
        k,
        c.norm_eps,
        k.gelu,
        s7.bufs[Gemma4Buf::PbGate],
        s7.bufs[Gemma4Buf::PbGate],
        t,
        nn,
        f,
    );
    crate::rows::lemma_fits(t, nn, f);
    crate::rows::lemma_front_row(s7.bufs[Gemma4Buf::PbFfnHidden], v8, t, nn, f);
    assert(
        at(
            s8,
            Gemma4Buf::PbFfnHidden,
            t,
            f,
        ) == crate::meaning::mapped(k.gelu, at(s7, Gemma4Buf::PbGate, t, f))
    );
    let v9 = crate::meaning::multiplied(
        k,
        s8.bufs[Gemma4Buf::PbFfnHidden],
        s8.bufs[Gemma4Buf::PbUp],
    );
    let s9 = crate::meaning::put(s8, Gemma4Buf::PbFfnHidden, v9);
    assert(crate::meaning::run(k, ops, 9, m) == s9);
    crate::rows::lemma_elements_row(
        k,
        c.norm_eps,
        k.gelu,
        s8.bufs[Gemma4Buf::PbFfnHidden],
        s8.bufs[Gemma4Buf::PbUp],
        t,
        nn,
        f,
    );
    crate::rows::lemma_fits(t, nn, f);
    crate::rows::lemma_front_row(s8.bufs[Gemma4Buf::PbFfnHidden], v9, t, nn, f);
    assert(
        at(s9, Gemma4Buf::PbFfnHidden, t, f) == crate::meaning::multiplied(
            k,
            at(s8, Gemma4Buf::PbFfnHidden, t, f),
            at(s8, Gemma4Buf::PbUp, t, f),
        )
    );
    let v10 = crate::meaning::product_rows(
        k.times,
        Gemma4Wt::Layer(i, LayerPart::DownProj),
        nn,
        d,
        f,
        s9.bufs[Gemma4Buf::PbFfnHidden],
    );
    let s10 = crate::meaning::put(s9, Gemma4Buf::PbFfnOut, v10);
    assert(crate::meaning::run(k, ops, 10, m) == s10);
    crate::rows::lemma_product_row(
        k,
        Gemma4Wt::Layer(i, LayerPart::DownProj),
        t,
        nn,
        d,
        f,
        s9.bufs[Gemma4Buf::PbFfnHidden],
    );
    crate::rows::lemma_fits(t, nn, d);
    crate::rows::lemma_front_row(s9.bufs[Gemma4Buf::PbFfnOut], v10, t, nn, d);
    assert(
        at(s10, Gemma4Buf::PbFfnOut, t, d) == crate::meaning::times(
            k,
            Gemma4Wt::Layer(i, LayerPart::DownProj),
            d,
            f,
            at(s9, Gemma4Buf::PbFfnHidden, t, f),
        )
    );
}

/// The end of a batched layer without experts, row by row.
proof fn lemma_batch_dense<E>(
    k: Kernels<Gemma4Wt, E>,
    c: Gemma4Config,
    w: LayerCommon,
    i: usize,
    n: usize,
    m: Contents<E>,
    t: int,
)
    requires
        c.batch_fits(),
        0 <= t < n <= 128,
        sized(m, c),
    ensures
        ({
            let a = crate::meaning::after(k, crate::gemma4::batch_dense_ops(c, w, i, n), m);
            let y = at(m, Gemma4Buf::PbResidual, t, c.dim as int);
            let f = at(m, Gemma4Buf::PbFfnOut, t, c.dim as int);
            &&& crate::meaning::alike(m, a)
            &&& sized(a, c)
            &&& at(a, Gemma4Buf::PbResidual, t, c.dim as int) == crate::meaning::scaled(
                k,
                w.layer_scalar_host,
                crate::meaning::added(k, y, crate::tokens::ending(k, c, None, i, y, f)),
            )
        }),
{
    let nn = n as int;
    let d = c.dim as int;
    lemma_room(c, LayerType::Full, nn);
    let ops = crate::gemma4::batch_dense_ops(c, w, i, n);
    assert(crate::meaning::run(k, ops, 0, m) == m);
    let v1 = crate::meaning::normed_rows(
        k,
        Gemma4Wt::Layer(i, LayerPart::PostFfnNorm),
        c.norm_eps,
        nn,
        d,
        m.bufs[Gemma4Buf::PbFfnOut],
    );
    let s1 = crate::meaning::put(m, Gemma4Buf::PbFfnOut, v1);
    assert(crate::meaning::run(k, ops, 1, m) == s1);
    crate::rows::lemma_norm_whole_row(
        k,
        Gemma4Wt::Layer(i, LayerPart::PostFfnNorm),
        c.norm_eps,
        t,
        nn,
        d,
        m.bufs[Gemma4Buf::PbFfnOut],
    );
    crate::rows::lemma_fits(t, nn, d);
    crate::rows::lemma_front_row(m.bufs[Gemma4Buf::PbFfnOut], v1, t, nn, d);
    assert(
        at(s1, Gemma4Buf::PbFfnOut, t, d) == crate::meaning::normed(
            k,
            Gemma4Wt::Layer(i, LayerPart::PostFfnNorm),
            c.norm_eps,
            at(m, Gemma4Buf::PbFfnOut, t, d),
        )
    );
    let v2 = crate::meaning::added(k, s1.bufs[Gemma4Buf::PbResidual], s1.bufs[Gemma4Buf::PbFfnOut]);
    let s2 = crate::meaning::set(s1, Gemma4Buf::PbResidual, v2);
    assert(crate::meaning::run(k, ops, 2, m) == s2);
    crate::rows::lemma_elements_row(
        k,
        c.norm_eps,
        k.gelu,
        s1.bufs[Gemma4Buf::PbResidual],
        s1.bufs[Gemma4Buf::PbFfnOut],
        t,
        nn,
        d,
    );
    assert(
        at(s2, Gemma4Buf::PbResidual, t, d) == crate::meaning::added(
            k,
            at(s1, Gemma4Buf::PbResidual, t, d),
            at(s1, Gemma4Buf::PbFfnOut, t, d),
        )
    );
    let v3 = crate::meaning::scaled(k, w.layer_scalar_host, s2.bufs[Gemma4Buf::PbResidual]);
    let s3 = crate::meaning::set(s2, Gemma4Buf::PbResidual, v3);
    assert(crate::meaning::run(k, ops, 3, m) == s3);
    crate::rows::lemma_elements_row(
        k,
        w.layer_scalar_host,
        k.gelu,
        s2.bufs[Gemma4Buf::PbResidual],
        s2.bufs[Gemma4Buf::PbResidual],
        t,
        nn,
        d,
    );
    assert(
        at(
            s3,
            Gemma4Buf::PbResidual,
            t,
            d,
        ) == crate::meaning::scaled(k, w.layer_scalar_host, at(s2, Gemma4Buf::PbResidual, t, d))
    );
}

/// One side of a cache after the first `n` tokens of a batch: their keys, each at its place.
pub open spec fn batch_keys<E>(
    k: Kernels<Gemma4Wt, E>,
    c: Gemma4Config,
    kind: LayerType,
    i: usize,
    start: int,
    x: Seq<E>,
    capacity: int,
    n: nat,
    before: Side<E>,
) -> Side<E>
    decreases n,
{
    if n == 0 {
        before
    } else {
        let t = n - 1;
        crate::meaning::stored(
            k,
            KvForm::Asym3,
            KvSide::Keys,
            crate::tokens::kv_heads(c, kind),
            crate::tokens::head(c, kind),
            crate::tokens::keys(k, c, kind, i, start + t, crate::rows::row(x, t, c.dim as int)),
            crate::meaning::cache_slot(start + t, capacity),
            batch_keys(k, c, kind, i, start, x, capacity, t as nat, before),
        )
    }
}

/// The other side: their values.
pub open spec fn batch_values<E>(
    k: Kernels<Gemma4Wt, E>,
    c: Gemma4Config,
    kind: LayerType,
    i: usize,
    start: int,
    x: Seq<E>,
    capacity: int,
    n: nat,
    before: Side<E>,
) -> Side<E>
    decreases n,
{
    if n == 0 {
        before
    } else {
        let t = n - 1;
        crate::meaning::stored(
            k,
            KvForm::Asym3,
            KvSide::Values,
            crate::tokens::kv_heads(c, kind),
            crate::tokens::head(c, kind),
            crate::tokens::values(k, c, kind, i, crate::rows::row(x, t, c.dim as int)),
            crate::meaning::cache_slot(start + t, capacity),
            batch_values(k, c, kind, i, start, x, capacity, t as nat, before),
        )
    }
}

/// The heads of a batch are its tokens' heads: row `t` of `q`, `key` and `v` is what a
/// token at `start + t` with the state in row `t` of `x` has.
pub open spec fn heads_of<E>(
    k: Kernels<Gemma4Wt, E>,
    c: Gemma4Config,
    kind: LayerType,
    i: usize,
    start: int,
    x: Seq<E>,
    q: Seq<E>,
    key: Seq<E>,
    v: Seq<E>,
    t: int,
) -> bool {
    let qd = c.n_heads * crate::tokens::head(c, kind);
    let kd = crate::tokens::kv_heads(c, kind) * crate::tokens::head(c, kind);
    let s = crate::rows::row(x, t, c.dim as int);
    &&& crate::rows::row(q, t, qd) == crate::tokens::queries(k, c, kind, i, start + t, s)
    &&& crate::rows::row(key, t, kd) == crate::tokens::keys(k, c, kind, i, start + t, s)
    &&& crate::rows::row(v, t, kd) == crate::tokens::values(k, c, kind, i, s)
}

proof fn lemma_stored<E>(
    k: Kernels<Gemma4Wt, E>,
    c: Gemma4Config,
    kind: LayerType,
    i: usize,
    start: int,
    x: Seq<E>,
    q: Seq<E>,
    key: Seq<E>,
    v: Seq<E>,
    p: Seq<int>,
    capacity: int,
    n: nat,
    keys: Side<E>,
    values: Side<E>,
)
    requires
        forall|t: int| 0 <= t < n ==> #[trigger] heads_of(k, c, kind, i, start, x, q, key, v, t),
        forall|t: int| 0 <= t < n ==> #[trigger] p[t] == start + t,
    ensures
        crate::meaning::stored_rows(
            k,
            KvForm::Asym3,
            KvSide::Keys,
            crate::tokens::kv_heads(c, kind),
            crate::tokens::head(c, kind),
            key,
            p,
            capacity,
            n,
            keys,
        ) == batch_keys(k, c, kind, i, start, x, capacity, n, keys),
        crate::meaning::stored_rows(
            k,
            KvForm::Asym3,
            KvSide::Values,
            crate::tokens::kv_heads(c, kind),
            crate::tokens::head(c, kind),
            v,
            p,
            capacity,
            n,
            values,
        ) == batch_values(k, c, kind, i, start, x, capacity, n, values),
    decreases n,
{
    if n > 0 {
        lemma_stored(
            k,
            c,
            kind,
            i,
            start,
            x,
            q,
            key,
            v,
            p,
            capacity,
            (n - 1) as nat,
            keys,
            values,
        );
        assert(heads_of(k, c, kind, i, start, x, q, key, v, n - 1));
        assert(p[n - 1] == start + (n - 1));
    }
}

proof fn lemma_parts(rows: int, r: int, n: int)
    requires
        0 <= rows,
        0 <= r,
        0 <= n,
    ensures
        (rows * r) * n == rows * (r * n),
        0 <= r * n,
        0 <= rows * (r * n),
{
    assert((rows * r) * n == rows * (r * n)) by (nonlinear_arith);
    assert(0 <= r * n) by (nonlinear_arith)
        requires
            0 <= r,
            0 <= n,
    ;
    let x = r * n;
    assert(0 <= rows * x) by (nonlinear_arith)
        requires
            0 <= rows,
            0 <= x,
    ;
}

/// Attention of a batch: what is kept besides the heads, where the batch's keys and values
/// are, and what each row attended to.
pub open spec fn attended_batch<E>(
    k: Kernels<Gemma4Wt, E>,
    c: Gemma4Config,
    kind: LayerType,
    i: usize,
    start: int,
    n: nat,
    max_seq: int,
    at_cache: (CacheKind, usize),
    m: Contents<E>,
    a: Contents<E>,
) -> bool {
    let how = crate::tokens::attention_of(c, kind, KvForm::Asym3, max_seq);
    let x = m.bufs[Gemma4Buf::PbResidual];
    let keys = batch_keys(k, c, kind, i, start, x, how.capacity, n, m.keys[at_cache]);
    let values = batch_values(k, c, kind, i, start, x, how.capacity, n, m.values[at_cache]);
    &&& a.keys == m.keys.insert(at_cache, keys)
    &&& a.values == m.values.insert(at_cache, values)
    &&& a.bufs[Gemma4Buf::PbResidual] == x
    &&& a.positions == m.positions
    &&& sized(a, c)
    &&& forall|t: int|
        0 <= t < n ==> #[trigger] at(a, Gemma4Buf::PbQ, t, c.n_heads * crate::tokens::head(c, kind))
            == crate::meaning::attended(
            k,
            how,
            start + t + 1,
            crate::tokens::queries(
                k,
                c,
                kind,
                i,
                start + t,
                crate::rows::row(x, t, c.dim as int),
            ),
            keys,
            values,
        )
}

/// The heads of a sliding layer's batch, row by row.
#[verifier::rlimit(40)]
proof fn lemma_batch_sliding_heads<E>(
    k: Kernels<Gemma4Wt, E>,
    c: Gemma4Config,
    w: SlidingLayerWeights,
    i: usize,
    s: usize,
    start: usize,
    n: usize,
    kv: crate::gemma4::KvCache,
    m: Contents<E>,
    t: int,
)
    requires
        c.batch_fits(),
        crate::gemma4::layer_shaped(LayerWeights::Sliding(w), c),
        0 <= t < n <= 128,
        sized(m, c),
        m.positions[Gemma4Buf::PbPositions] == Seq::new(n as nat, |u: int| start + u),
    ensures
        ({
            let a = crate::meaning::run(
                k,
                crate::gemma4::batch_sliding_ops(c, w, i, s, start, n, kv),
                9,
                m,
            );
            &&& crate::meaning::alike(m, a)
            &&& sized(a, c)
            &&& a.bufs[Gemma4Buf::PbResidual] == m.bufs[Gemma4Buf::PbResidual]
            &&& heads_of(
                k,
                c,
                LayerType::Sliding,
                i,
                start as int,
                m.bufs[Gemma4Buf::PbResidual],
                a.bufs[Gemma4Buf::PbQ],
                a.bufs[Gemma4Buf::PbK],
                a.bufs[Gemma4Buf::PbV],
                t,
            )
        }),
{
    let nn = n as int;
    let kind = LayerType::Sliding;
    let d = c.dim as int;
    let nh = c.n_heads as int;
    let nk = crate::tokens::kv_heads(c, kind);
    let hd = crate::tokens::head(c, kind);
    let qd = nh * hd;
    let kd = nk * hd;
    let by = crate::float::square_root(crate::float::of_nat(hd as nat));
    lemma_room(c, kind, nn);
    lemma_parts(nn, nh, hd);
    lemma_parts(nn, nk, hd);
    let ops = crate::gemma4::batch_sliding_ops(c, w, i, s, start, n, kv);
    assert(crate::meaning::run(k, ops, 0, m) == m);
    let v1 = crate::meaning::normed_rows(
        k,
        Gemma4Wt::Layer(i, LayerPart::InputNorm),
        c.norm_eps,
        nn,
        d,
        m.bufs[Gemma4Buf::PbResidual],
    );
    let s1 = crate::meaning::put(m, Gemma4Buf::PbTmp, v1);
    assert(crate::meaning::run(k, ops, 1, m) == s1);
    crate::rows::lemma_norm_whole_row(
        k,
        Gemma4Wt::Layer(i, LayerPart::InputNorm),
        c.norm_eps,
        t,
        nn,
        d,
        m.bufs[Gemma4Buf::PbResidual],
    );
    crate::rows::lemma_fits(t, nn, d);
    crate::rows::lemma_front_row(m.bufs[Gemma4Buf::PbTmp], v1, t, nn, d);
    assert(
        at(s1, Gemma4Buf::PbTmp, t, d) == crate::meaning::normed(
            k,
            Gemma4Wt::Layer(i, LayerPart::InputNorm),
            c.norm_eps,
            at(m, Gemma4Buf::PbResidual, t, d),
        )
    );
    let v2 = crate::meaning::product_rows(
        k.times,
        Gemma4Wt::Layer(i, LayerPart::QProj),
        nn,
        qd,
        d,
        s1.bufs[Gemma4Buf::PbTmp],
    );
    let s2 = crate::meaning::put(s1, Gemma4Buf::PbQ, v2);
    assert(crate::meaning::run(k, ops, 2, m) == s2);
    crate::rows::lemma_product_row(
        k,
        Gemma4Wt::Layer(i, LayerPart::QProj),
        t,
        nn,
        qd,
        d,
        s1.bufs[Gemma4Buf::PbTmp],
    );
    crate::rows::lemma_fits(t, nn, qd);
    crate::rows::lemma_front_row(s1.bufs[Gemma4Buf::PbQ], v2, t, nn, qd);
    assert(
        at(s2, Gemma4Buf::PbQ, t, qd) == crate::meaning::times(
            k,
            Gemma4Wt::Layer(i, LayerPart::QProj),
            qd,
            d,
            at(s1, Gemma4Buf::PbTmp, t, d),
        )
    );
    let v3 = crate::meaning::product_rows(
        k.times,
        Gemma4Wt::Layer(i, LayerPart::KProj),
        nn,
        kd,
        d,
        s2.bufs[Gemma4Buf::PbTmp],
    );
    let s3 = crate::meaning::put(s2, Gemma4Buf::PbK, v3);
    assert(crate::meaning::run(k, ops, 3, m) == s3);
    crate::rows::lemma_product_row(
        k,
        Gemma4Wt::Layer(i, LayerPart::KProj),
        t,
        nn,
        kd,
        d,
        s2.bufs[Gemma4Buf::PbTmp],
    );
    crate::rows::lemma_fits(t, nn, kd);
    crate::rows::lemma_front_row(s2.bufs[Gemma4Buf::PbK], v3, t, nn, kd);
    assert(
        at(s3, Gemma4Buf::PbK, t, kd) == crate::meaning::times(
            k,
            Gemma4Wt::Layer(i, LayerPart::KProj),
            kd,
            d,
            at(s2, Gemma4Buf::PbTmp, t, d),
        )
    );
    let v4 = crate::meaning::product_rows(
        k.times,
        Gemma4Wt::Layer(i, LayerPart::VProj),
        nn,
        kd,
        d,
        s3.bufs[Gemma4Buf::PbTmp],
    );
    let s4 = crate::meaning::put(s3, Gemma4Buf::PbV, v4);
    assert(crate::meaning::run(k, ops, 4, m) == s4);
    crate::rows::lemma_product_row(
        k,
        Gemma4Wt::Layer(i, LayerPart::VProj),
        t,
        nn,
        kd,
        d,
        s3.bufs[Gemma4Buf::PbTmp],
    );
    crate::rows::lemma_fits(t, nn, kd);
    crate::rows::lemma_front_row(s3.bufs[Gemma4Buf::PbV], v4, t, nn, kd);
    assert(
        at(s4, Gemma4Buf::PbV, t, kd) == crate::meaning::times(
            k,
            Gemma4Wt::Layer(i, LayerPart::VProj),
            kd,
            d,
            at(s3, Gemma4Buf::PbTmp, t, d),
        )
    );
    let v5 = crate::meaning::normed_rows(
        k,
        Gemma4Wt::Layer(i, LayerPart::QNorm),
        c.norm_eps,
        nn * nh,
        hd,
        s4.bufs[Gemma4Buf::PbQ],
    );
    let s5 = crate::meaning::put(s4, Gemma4Buf::PbQ, v5);
    assert(crate::meaning::run(k, ops, 5, m) == s5);
    crate::rows::lemma_norm_row(
        k,
        Gemma4Wt::Layer(i, LayerPart::QNorm),
        c.norm_eps,
        t,
        nn,
        nh,
        hd,
        s4.bufs[Gemma4Buf::PbQ],
    );
    lemma_parts(nn, nh, hd);
    crate::rows::lemma_front_row(s4.bufs[Gemma4Buf::PbQ], v5, t, nn, nh * hd);
    assert(
        at(s5, Gemma4Buf::PbQ, t, nh * hd) == crate::meaning::normed_rows(
            k,
            Gemma4Wt::Layer(i, LayerPart::QNorm),
            c.norm_eps,
            nh,
            hd,
            at(s4, Gemma4Buf::PbQ, t, nh * hd),
        )
    );
    let v6 = crate::meaning::normed_rows(
        k,
        Gemma4Wt::Layer(i, LayerPart::KNorm),
        c.norm_eps,
        nn * nk,
        hd,
        s5.bufs[Gemma4Buf::PbK],
    );
    let s6 = crate::meaning::put(s5, Gemma4Buf::PbK, v6);
    assert(crate::meaning::run(k, ops, 6, m) == s6);
    crate::rows::lemma_norm_row(
        k,
        Gemma4Wt::Layer(i, LayerPart::KNorm),
        c.norm_eps,
        t,
        nn,
        nk,
        hd,
        s5.bufs[Gemma4Buf::PbK],
    );
    lemma_parts(nn, nk, hd);
    crate::rows::lemma_front_row(s5.bufs[Gemma4Buf::PbK], v6, t, nn, nk * hd);
    assert(
        at(s6, Gemma4Buf::PbK, t, nk * hd) == crate::meaning::normed_rows(
            k,
            Gemma4Wt::Layer(i, LayerPart::KNorm),
            c.norm_eps,
            nk,
            hd,
            at(s5, Gemma4Buf::PbK, t, nk * hd),
        )
    );
    let v7 = crate::meaning::normed_rows(
        k,
        Gemma4Wt::Ones,
        c.norm_eps,
        nn * nk,
        hd,
        s6.bufs[Gemma4Buf::PbV],
    );
    let s7 = crate::meaning::put(s6, Gemma4Buf::PbV, v7);
    assert(crate::meaning::run(k, ops, 7, m) == s7);
    crate::rows::lemma_norm_row(
        k,
        Gemma4Wt::Ones,
        c.norm_eps,
        t,
        nn,
        nk,
        hd,
        s6.bufs[Gemma4Buf::PbV],
    );
    lemma_parts(nn, nk, hd);
    crate::rows::lemma_front_row(s6.bufs[Gemma4Buf::PbV], v7, t, nn, nk * hd);
    assert(
        at(s7, Gemma4Buf::PbV, t, nk * hd) == crate::meaning::normed_rows(
            k,
            Gemma4Wt::Ones,
            c.norm_eps,
            nk,
            hd,
            at(s6, Gemma4Buf::PbV, t, nk * hd),
        )
    );
    let v8 = crate::meaning::scaled(k, by, s7.bufs[Gemma4Buf::PbQ]);
    let s8 = crate::meaning::set(s7, Gemma4Buf::PbQ, v8);
    assert(crate::meaning::run(k, ops, 8, m) == s8);
    crate::rows::lemma_elements_row(
        k,
        by,
        k.gelu,
        s7.bufs[Gemma4Buf::PbQ],
        s7.bufs[Gemma4Buf::PbQ],
        t,
        nn,
        qd,
    );
    assert(
        at(
            s8,
            Gemma4Buf::PbQ,
            t,
            qd,
        ) == crate::meaning::scaled(k, by, at(s7, Gemma4Buf::PbQ, t, qd))
    );
    let how = crate::tokens::turn(c, kind);
    let p = m.positions[Gemma4Buf::PbPositions];
    let vq = crate::meaning::roped_rows(k, how, p, nn, nh, hd, s8.bufs[Gemma4Buf::PbQ]);
    let a = crate::meaning::put(s8, Gemma4Buf::PbQ, vq);
    let vk = crate::meaning::roped_rows(k, how, p, nn, nk, hd, s8.bufs[Gemma4Buf::PbK]);
    let s9 = crate::meaning::put(a, Gemma4Buf::PbK, vk);
    assert(crate::meaning::run(k, ops, 9, m) == s9);
    crate::rows::lemma_roped_row(k, how, p, t, nn, nh, hd, s8.bufs[Gemma4Buf::PbQ]);
    crate::rows::lemma_roped_row(k, how, p, t, nn, nk, hd, s8.bufs[Gemma4Buf::PbK]);
    crate::rows::lemma_front_row(s8.bufs[Gemma4Buf::PbQ], vq, t, nn, qd);
    crate::rows::lemma_front_row(s8.bufs[Gemma4Buf::PbK], vk, t, nn, kd);
    assert(p[t] == start + t);
}

proof fn lemma_batch_sliding<E>(
    k: Kernels<Gemma4Wt, E>,
    c: Gemma4Config,
    w: SlidingLayerWeights,
    i: usize,
    s: usize,
    start: usize,
    n: usize,
    kv: crate::gemma4::KvCache,
    m: Contents<E>,
)
    requires
        c.batch_fits(),
        crate::gemma4::layer_shaped(LayerWeights::Sliding(w), c),
        0 < n <= 128,
        start + n <= usize::MAX,
        sized(m, c),
        m.positions[Gemma4Buf::PbPositions] == Seq::new(n as nat, |u: int| start + u),
    ensures
        attended_batch(
            k,
            c,
            LayerType::Sliding,
            i,
            start as int,
            n as nat,
            kv.max_seq as int,
            (CacheKind::Sliding, s),
            m,
            crate::meaning::after(
                k,
                crate::gemma4::batch_sliding_ops(c, w, i, s, start, n, kv),
                m,
            ),
        ),
{
    let nn = n as int;
    let kind = LayerType::Sliding;
    lemma_room(c, kind, nn);
    lemma_parts(nn, c.n_heads as int, crate::tokens::head(c, kind));
    let ops = crate::gemma4::batch_sliding_ops(c, w, i, s, start, n, kv);
    let s9 = crate::meaning::run(k, ops, 9, m);
    lemma_batch_sliding_heads(k, c, w, i, s, start, n, kv, m, 0);
    let x = m.bufs[Gemma4Buf::PbResidual];
    let q = s9.bufs[Gemma4Buf::PbQ];
    let key = s9.bufs[Gemma4Buf::PbK];
    let v = s9.bufs[Gemma4Buf::PbV];
    assert forall|t: int| 0 <= t < n implies #[trigger] heads_of(
        k,
        c,
        kind,
        i,
        start as int,
        x,
        q,
        key,
        v,
        t,
    ) by {
        lemma_batch_sliding_heads(k, c, w, i, s, start, n, kv, m, t);
    }
    let s10 = crate::meaning::step(k, s9, ops[9]);
    let s11 = crate::meaning::step(k, s10, ops[10]);
    assert(crate::meaning::run(k, ops, 10, m) == s10);
    assert(crate::meaning::run(k, ops, 11, m) == s11);
    lemma_batch_attention(k, c, kind, i, s, start, n, kv.max_seq, s9, s10, s11);
}

/// From the heads of a batch to its attention.
proof fn lemma_batch_attention<E>(
    k: Kernels<Gemma4Wt, E>,
    c: Gemma4Config,
    kind: LayerType,
    i: usize,
    s: usize,
    start: usize,
    n: usize,
    max_seq: usize,
    m: Contents<E>,
    mid: Contents<E>,
    a: Contents<E>,
)
    requires
        c.batch_fits(),
        0 < n <= 128,
        start + n <= usize::MAX,
        sized(m, c),
        m.positions[Gemma4Buf::PbPositions] == Seq::new(n as nat, |u: int| start + u),
        forall|t: int|
            0 <= t < n ==> #[trigger] heads_of(
                k,
                c,
                kind,
                i,
                start as int,
                m.bufs[Gemma4Buf::PbResidual],
                m.bufs[Gemma4Buf::PbQ],
                m.bufs[Gemma4Buf::PbK],
                m.bufs[Gemma4Buf::PbV],
                t,
            ),
        mid == crate::meaning::step(
            k,
            m,
            crate::device::Op::KvStoreRows {
                cache: cache_kind(kind),
                form: KvForm::Asym3,
                layer: s,
                k: Gemma4Buf::PbK,
                v: Gemma4Buf::PbV,
                positions: Gemma4Buf::PbPositions,
                heads: crate::gemma4::n_kv_heads(c, kind),
                dim: crate::gemma4::head_dim(c, kind),
                rows: n,
                capacity: if kind == LayerType::Sliding {
                    crate::gemma4::window(c)
                } else {
                    0
                },
            },
        ),
        a == crate::meaning::step(
            k,
            mid,
            crate::device::Op::AttendRows {
                cache: cache_kind(kind),
                form: KvForm::Asym3,
                layer: s,
                q: Gemma4Buf::PbQ,
                out: Gemma4Buf::PbQ,
                positions: Gemma4Buf::PbPositions,
                heads: c.n_heads,
                kv_heads: crate::gemma4::n_kv_heads(c, kind),
                dim: crate::gemma4::head_dim(c, kind),
                max_seq,
                max_ctx: (start + n) as usize,
                rows: n,
                window: if kind == LayerType::Sliding {
                    crate::gemma4::window(c)
                } else {
                    0
                },
                capacity: if kind == LayerType::Sliding {
                    crate::gemma4::window(c)
                } else {
                    0
                },
            },
        ),
    ensures
        attended_batch(
            k,
            c,
            kind,
            i,
            start as int,
            n as nat,
            max_seq as int,
            (cache_kind(kind), s),
            m,
            a,
        ),
{
    let nn = n as int;
    let hd = crate::tokens::head(c, kind);
    let nh = c.n_heads as int;
    let qd = nh * hd;
    lemma_room(c, kind, nn);
    lemma_parts(nn, nh, hd);
    let at_cache = (cache_kind(kind), s);
    let how = crate::tokens::attention_of(c, kind, KvForm::Asym3, max_seq as int);
    let p = m.positions[Gemma4Buf::PbPositions];
    let x = m.bufs[Gemma4Buf::PbResidual];
    let q = m.bufs[Gemma4Buf::PbQ];
    let key = m.bufs[Gemma4Buf::PbK];
    let v = m.bufs[Gemma4Buf::PbV];
    lemma_stored(
        k,
        c,
        kind,
        i,
        start as int,
        x,
        q,
        key,
        v,
        p,
        how.capacity,
        n as nat,
        m.keys[at_cache],
        m.values[at_cache],
    );
    let keys = mid.keys[at_cache];
    let values = mid.values[at_cache];
    let out = crate::meaning::attended_rows(k, how, p, start + n, nn, q, keys, values);
    assert(a == crate::meaning::put(mid, Gemma4Buf::PbQ, out));
    assert forall|t: int| 0 <= t < n implies #[trigger] at(a, Gemma4Buf::PbQ, t, qd)
        == crate::meaning::attended(
        k,
        how,
        start + t + 1,
        crate::tokens::queries(k, c, kind, i, start + t, crate::rows::row(x, t, c.dim as int)),
        keys,
        values,
    ) by {
        assert(heads_of(k, c, kind, i, start as int, x, q, key, v, t));
        assert(p[t] == start + t);
        crate::rows::lemma_attended_row(k, how, p, start + n, t, nn, q, keys, values);
        crate::rows::lemma_front_row(q, out, t, nn, qd);
    }
}

/// Where the layers of a kind keep their keys and values.
pub open spec fn cache_kind(kind: LayerType) -> CacheKind {
    match kind {
        LayerType::Sliding => CacheKind::Sliding,
        LayerType::Full => CacheKind::Full,
    }
}

/// The heads of a full layer's batch before positions rotate them, row by row.
#[verifier::rlimit(40)]
proof fn lemma_batch_full_in<E>(
    k: Kernels<Gemma4Wt, E>,
    c: Gemma4Config,
    w: FullLayerWeights,
    i: usize,
    n: usize,
    pos: int,
    m: Contents<E>,
    t: int,
)
    requires
        c.batch_fits(),
        crate::gemma4::layer_shaped(LayerWeights::Full(w), c),
        0 <= t < n <= 128,
        sized(m, c),
    ensures
        ({
            let a = crate::meaning::after(k, crate::gemma4::batch_full_in_ops(c, w, i, n), m);
            let kind = LayerType::Full;
            let hd = crate::tokens::head(c, kind);
            let nh = c.n_heads as int;
            let nk = crate::tokens::kv_heads(c, kind);
            let x = at(m, Gemma4Buf::PbResidual, t, c.dim as int);
            let turn = crate::tokens::turn(c, kind);
            &&& crate::meaning::alike(m, a)
            &&& sized(a, c)
            &&& a.bufs[Gemma4Buf::PbResidual] == m.bufs[Gemma4Buf::PbResidual]
            &&& crate::meaning::roped(
                k,
                turn,
                pos,
                nh,
                hd,
                at(a, Gemma4Buf::PbQ, t, nh * hd),
            ) == crate::tokens::queries(k, c, kind, i, pos, x)
            &&& crate::meaning::roped(
                k,
                turn,
                pos,
                nk,
                hd,
                at(a, Gemma4Buf::PbK, t, nk * hd),
            ) == crate::tokens::keys(k, c, kind, i, pos, x)
            &&& at(a, Gemma4Buf::PbV, t, nk * hd) == crate::tokens::values(k, c, kind, i, x)
        }),
{
    let nn = n as int;
    let kind = LayerType::Full;
    let d = c.dim as int;
    let nh = c.n_heads as int;
    let nk = crate::tokens::kv_heads(c, kind);
    let hd = crate::tokens::head(c, kind);
    let qd = nh * hd;
    let kd = nk * hd;
    let by = crate::float::square_root(crate::float::of_nat(hd as nat));
    lemma_room(c, kind, nn);
    lemma_parts(nn, nh, hd);
    lemma_parts(nn, nk, hd);
    let ops = crate::gemma4::batch_full_in_ops(c, w, i, n);
    assert(crate::meaning::run(k, ops, 0, m) == m);
    let v1 = crate::meaning::normed_rows(
        k,
        Gemma4Wt::Layer(i, LayerPart::InputNorm),
        c.norm_eps,
        nn,
        d,
        m.bufs[Gemma4Buf::PbResidual],
    );
    let s1 = crate::meaning::put(m, Gemma4Buf::PbTmp, v1);
    assert(crate::meaning::run(k, ops, 1, m) == s1);
    crate::rows::lemma_norm_whole_row(
        k,
        Gemma4Wt::Layer(i, LayerPart::InputNorm),
        c.norm_eps,
        t,
        nn,
        d,
        m.bufs[Gemma4Buf::PbResidual],
    );
    crate::rows::lemma_fits(t, nn, d);
    crate::rows::lemma_front_row(m.bufs[Gemma4Buf::PbTmp], v1, t, nn, d);
    assert(
        at(s1, Gemma4Buf::PbTmp, t, d) == crate::meaning::normed(
            k,
            Gemma4Wt::Layer(i, LayerPart::InputNorm),
            c.norm_eps,
            at(m, Gemma4Buf::PbResidual, t, d),
        )
    );
    let v2 = crate::meaning::product_rows(
        k.times,
        Gemma4Wt::Layer(i, LayerPart::QProj),
        nn,
        qd,
        d,
        s1.bufs[Gemma4Buf::PbTmp],
    );
    let s2 = crate::meaning::put(s1, Gemma4Buf::PbQ, v2);
    assert(crate::meaning::run(k, ops, 2, m) == s2);
    crate::rows::lemma_product_row(
        k,
        Gemma4Wt::Layer(i, LayerPart::QProj),
        t,
        nn,
        qd,
        d,
        s1.bufs[Gemma4Buf::PbTmp],
    );
    crate::rows::lemma_fits(t, nn, qd);
    crate::rows::lemma_front_row(s1.bufs[Gemma4Buf::PbQ], v2, t, nn, qd);
    assert(
        at(s2, Gemma4Buf::PbQ, t, qd) == crate::meaning::times(
            k,
            Gemma4Wt::Layer(i, LayerPart::QProj),
            qd,
            d,
            at(s1, Gemma4Buf::PbTmp, t, d),
        )
    );
    let v3 = crate::meaning::product_rows(
        k.times,
        Gemma4Wt::Layer(i, LayerPart::KProj),
        nn,
        kd,
        d,
        s2.bufs[Gemma4Buf::PbTmp],
    );
    let s3 = crate::meaning::put(s2, Gemma4Buf::PbK, v3);
    assert(crate::meaning::run(k, ops, 3, m) == s3);
    crate::rows::lemma_product_row(
        k,
        Gemma4Wt::Layer(i, LayerPart::KProj),
        t,
        nn,
        kd,
        d,
        s2.bufs[Gemma4Buf::PbTmp],
    );
    crate::rows::lemma_fits(t, nn, kd);
    crate::rows::lemma_front_row(s2.bufs[Gemma4Buf::PbK], v3, t, nn, kd);
    assert(
        at(s3, Gemma4Buf::PbK, t, kd) == crate::meaning::times(
            k,
            Gemma4Wt::Layer(i, LayerPart::KProj),
            kd,
            d,
            at(s2, Gemma4Buf::PbTmp, t, d),
        )
    );
    let v4 = crate::meaning::pasted(
        s3.bufs[Gemma4Buf::PbV],
        0,
        s3.bufs[Gemma4Buf::PbK],
        0,
        nn * kd,
    );
    let s4 = crate::meaning::set(s3, Gemma4Buf::PbV, v4);
    assert(crate::meaning::run(k, ops, 4, m) == s4);
    crate::rows::lemma_pasted_row(s3.bufs[Gemma4Buf::PbV], s3.bufs[Gemma4Buf::PbK], t, nn, kd);
    assert(at(s4, Gemma4Buf::PbV, t, kd) == at(s3, Gemma4Buf::PbK, t, kd));
    let v5 = crate::meaning::normed_rows(
        k,
        Gemma4Wt::Layer(i, LayerPart::QNorm),
        c.norm_eps,
        nn * nh,
        hd,
        s4.bufs[Gemma4Buf::PbQ],
    );
    let s5 = crate::meaning::put(s4, Gemma4Buf::PbQ, v5);
    assert(crate::meaning::run(k, ops, 5, m) == s5);
    crate::rows::lemma_norm_row(
        k,
        Gemma4Wt::Layer(i, LayerPart::QNorm),
        c.norm_eps,
        t,
        nn,
        nh,
        hd,
        s4.bufs[Gemma4Buf::PbQ],
    );
    lemma_parts(nn, nh, hd);
    crate::rows::lemma_front_row(s4.bufs[Gemma4Buf::PbQ], v5, t, nn, nh * hd);
    assert(
        at(s5, Gemma4Buf::PbQ, t, nh * hd) == crate::meaning::normed_rows(
            k,
            Gemma4Wt::Layer(i, LayerPart::QNorm),
            c.norm_eps,
            nh,
            hd,
            at(s4, Gemma4Buf::PbQ, t, nh * hd),
        )
    );
    let v6 = crate::meaning::normed_rows(
        k,
        Gemma4Wt::Layer(i, LayerPart::KNorm),
        c.norm_eps,
        nn * nk,
        hd,
        s5.bufs[Gemma4Buf::PbK],
    );
    let s6 = crate::meaning::put(s5, Gemma4Buf::PbK, v6);
    assert(crate::meaning::run(k, ops, 6, m) == s6);
    crate::rows::lemma_norm_row(
        k,
        Gemma4Wt::Layer(i, LayerPart::KNorm),
        c.norm_eps,
        t,
        nn,
        nk,
        hd,
        s5.bufs[Gemma4Buf::PbK],
    );
    lemma_parts(nn, nk, hd);
    crate::rows::lemma_front_row(s5.bufs[Gemma4Buf::PbK], v6, t, nn, nk * hd);
    assert(
        at(s6, Gemma4Buf::PbK, t, nk * hd) == crate::meaning::normed_rows(
            k,
            Gemma4Wt::Layer(i, LayerPart::KNorm),
            c.norm_eps,
            nk,
            hd,
            at(s5, Gemma4Buf::PbK, t, nk * hd),
        )
    );
    let v7 = crate::meaning::normed_rows(
        k,
        Gemma4Wt::Ones,
        c.norm_eps,
        nn * nk,
        hd,
        s6.bufs[Gemma4Buf::PbV],
    );
    let s7 = crate::meaning::put(s6, Gemma4Buf::PbV, v7);
    assert(crate::meaning::run(k, ops, 7, m) == s7);
    crate::rows::lemma_norm_row(
        k,
        Gemma4Wt::Ones,
        c.norm_eps,
        t,
        nn,
        nk,
        hd,
        s6.bufs[Gemma4Buf::PbV],
    );
    lemma_parts(nn, nk, hd);
    crate::rows::lemma_front_row(s6.bufs[Gemma4Buf::PbV], v7, t, nn, nk * hd);
    assert(
        at(s7, Gemma4Buf::PbV, t, nk * hd) == crate::meaning::normed_rows(
            k,
            Gemma4Wt::Ones,
            c.norm_eps,
            nk,
            hd,
            at(s6, Gemma4Buf::PbV, t, nk * hd),
        )
    );
    let v8 = crate::meaning::scaled(k, by, s7.bufs[Gemma4Buf::PbQ]);
    let s8 = crate::meaning::set(s7, Gemma4Buf::PbQ, v8);
    assert(crate::meaning::run(k, ops, 8, m) == s8);
    crate::rows::lemma_elements_row(
        k,
        by,
        k.gelu,
        s7.bufs[Gemma4Buf::PbQ],
        s7.bufs[Gemma4Buf::PbQ],
        t,
        nn,
        qd,
    );
    assert(
        at(
            s8,
            Gemma4Buf::PbQ,
            t,
            qd,
        ) == crate::meaning::scaled(k, by, at(s7, Gemma4Buf::PbQ, t, qd))
    );
}

/// A row that is copied into rows.
pub proof fn lemma_into_row<E>(dst: Seq<E>, src: Seq<E>, t: int, u: int, rows: int, n: int)
    requires
        0 <= t,
        0 <= u < rows,
        0 <= n,
        rows * n <= dst.len(),
    ensures
        crate::rows::row(crate::meaning::pasted(dst, t * n, src, 0, n), u, n) == if u == t {
            crate::meaning::slice(src, 0, n)
        } else {
            crate::rows::row(dst, u, n)
        },
{
    crate::rows::lemma_fits(u, rows, n);
    let a = crate::rows::row(crate::meaning::pasted(dst, t * n, src, 0, n), u, n);
    if u == t {
        assert(a =~= crate::meaning::slice(src, 0, n));
    } else {
        assert(u * n + n <= t * n || t * n + n <= u * n) by (nonlinear_arith)
            requires
                u != t,
                0 <= n,
        ;
        assert(a =~= crate::rows::row(dst, u, n));
    }
}

/// Row `t` of the heads of a full layer's batch, rotated by its position.
#[verifier::rlimit(40)]
proof fn lemma_rotate_row<E>(
    k: Kernels<Gemma4Wt, E>,
    c: Gemma4Config,
    start: usize,
    t: usize,
    m: Contents<E>,
)
    requires
        c.batch_fits(),
        t < 128,
        start + t <= usize::MAX,
        sized(m, c),
    ensures
        ({
            let a = crate::meaning::after(k, crate::gemma4::rotate_row_ops(c, start, t), m);
            let kind = LayerType::Full;
            let hd = crate::tokens::head(c, kind);
            let nh = c.n_heads as int;
            let nk = crate::tokens::kv_heads(c, kind);
            let turn = crate::tokens::turn(c, kind);
            &&& crate::meaning::alike(Machine { pos: a.pos, ..m }, a)
            &&& sized(a, c)
            &&& a.bufs[Gemma4Buf::PbResidual] == m.bufs[Gemma4Buf::PbResidual]
            &&& a.bufs[Gemma4Buf::PbV] == m.bufs[Gemma4Buf::PbV]
            &&& forall|u: int|
                0 <= u < 128 ==> #[trigger] at(a, Gemma4Buf::PbQ, u, nh * hd) == if u == t {
                    crate::meaning::roped(
                        k,
                        turn,
                        start + t,
                        nh,
                        hd,
                        at(m, Gemma4Buf::PbQ, u, nh * hd),
                    )
                } else {
                    at(m, Gemma4Buf::PbQ, u, nh * hd)
                }
            &&& forall|u: int|
                0 <= u < 128 ==> #[trigger] at(a, Gemma4Buf::PbK, u, nk * hd) == if u == t {
                    crate::meaning::roped(
                        k,
                        turn,
                        start + t,
                        nk,
                        hd,
                        at(m, Gemma4Buf::PbK, u, nk * hd),
                    )
                } else {
                    at(m, Gemma4Buf::PbK, u, nk * hd)
                }
        }),
{
    let kind = LayerType::Full;
    let nh = c.n_heads as int;
    let nk = crate::tokens::kv_heads(c, kind);
    let hd = crate::tokens::head(c, kind);
    let qd = nh * hd;
    let kd = nk * hd;
    let tt = t as int;
    lemma_room(c, kind, 128);
    lemma_room(c, kind, tt);
    crate::rows::lemma_fits(tt, 128, qd);
    crate::rows::lemma_fits(tt, 128, kd);
    lemma_parts(128, nh, hd);
    lemma_parts(128, nk, hd);
    let q4 = (4 * c.q_dim(kind)) as usize;
    let k4 = (4 * c.kv_dim(kind)) as usize;
    assert(q4 == 4 * qd && k4 == 4 * kd);
    assert(tt * q4 == 4 * (tt * qd)) by (nonlinear_arith)
        requires
            q4 == 4 * qd,
    ;
    assert(tt * k4 == 4 * (tt * kd)) by (nonlinear_arith)
        requires
            k4 == 4 * kd,
    ;
    let turn = crate::tokens::turn(c, kind);
    let ops = crate::gemma4::rotate_row_ops(c, start, t);
    assert(crate::meaning::run(k, ops, 0, m) == m);
    let s1 = Machine { pos: start + t, ..m };
    assert(crate::meaning::run(k, ops, 1, m) == s1);
    let v2 = crate::meaning::pasted(
        m.bufs[Gemma4Buf::Q],
        0,
        m.bufs[Gemma4Buf::PbQ],
        tt * qd,
        qd,
    );
    let s2 = crate::meaning::set(s1, Gemma4Buf::Q, v2);
    assert(crate::meaning::run(k, ops, 2, m) == s2);
    let v3 = crate::meaning::pasted(
        m.bufs[Gemma4Buf::K],
        0,
        m.bufs[Gemma4Buf::PbK],
        tt * kd,
        kd,
    );
    let s3 = crate::meaning::set(s2, Gemma4Buf::K, v3);
    assert(crate::meaning::run(k, ops, 3, m) == s3);
    let rq = crate::meaning::roped(k, turn, start + t, nh, hd, v2);
    let rk = crate::meaning::roped(k, turn, start + t, nk, hd, v3);
    let s4 = crate::meaning::put(
        crate::meaning::put(s3, Gemma4Buf::Q, rq),
        Gemma4Buf::K,
        rk,
    );
    assert(crate::meaning::run(k, ops, 4, m) == s4);
    let v5 = crate::meaning::pasted(
        m.bufs[Gemma4Buf::PbQ],
        tt * qd,
        s4.bufs[Gemma4Buf::Q],
        0,
        qd,
    );
    let s5 = crate::meaning::set(s4, Gemma4Buf::PbQ, v5);
    assert(crate::meaning::run(k, ops, 5, m) == s5);
    let v6 = crate::meaning::pasted(
        m.bufs[Gemma4Buf::PbK],
        tt * kd,
        s4.bufs[Gemma4Buf::K],
        0,
        kd,
    );
    let s6 = crate::meaning::set(s5, Gemma4Buf::PbK, v6);
    assert(crate::meaning::run(k, ops, 6, m) == s6);
    assert(crate::meaning::slice(v2, 0, qd) =~= at(m, Gemma4Buf::PbQ, tt, qd));
    assert(crate::meaning::slice(v3, 0, kd) =~= at(m, Gemma4Buf::PbK, tt, kd));
    crate::meaning::lemma_roped_part(k, turn, start + t, nh, hd, v2);
    crate::meaning::lemma_roped_part(k, turn, start + t, nk, hd, v3);
    crate::meaning::lemma_front_part(v2, rq);
    crate::meaning::lemma_front_part(v3, rk);
    assert forall|u: int| 0 <= u < 128 implies #[trigger] at(s6, Gemma4Buf::PbQ, u, qd) == if u
        == t {
        rq
    } else {
        at(m, Gemma4Buf::PbQ, u, qd)
    } by {
        lemma_into_row(m.bufs[Gemma4Buf::PbQ], s4.bufs[Gemma4Buf::Q], tt, u, 128, qd);
    }
    assert forall|u: int| 0 <= u < 128 implies #[trigger] at(s6, Gemma4Buf::PbK, u, kd) == if u
        == t {
        rk
    } else {
        at(m, Gemma4Buf::PbK, u, kd)
    } by {
        lemma_into_row(m.bufs[Gemma4Buf::PbK], s4.bufs[Gemma4Buf::K], tt, u, 128, kd);
    }
}

/// The first `n` rows, each rotated by its position.
proof fn lemma_rotate_rows<E>(
    k: Kernels<Gemma4Wt, E>,
    c: Gemma4Config,
    start: usize,
    n: nat,
    m: Contents<E>,
)
    requires
        c.batch_fits(),
        n <= 128,
        start + n <= usize::MAX,
        sized(m, c),
    ensures
        ({
            let a = crate::meaning::after(k, crate::gemma4::rotate_rows_ops(c, start, n), m);
            let kind = LayerType::Full;
            let hd = crate::tokens::head(c, kind);
            let nh = c.n_heads as int;
            let nk = crate::tokens::kv_heads(c, kind);
            let turn = crate::tokens::turn(c, kind);
            &&& crate::meaning::alike(Machine { pos: a.pos, ..m }, a)
            &&& sized(a, c)
            &&& a.bufs[Gemma4Buf::PbResidual] == m.bufs[Gemma4Buf::PbResidual]
            &&& a.bufs[Gemma4Buf::PbV] == m.bufs[Gemma4Buf::PbV]
            &&& forall|u: int|
                0 <= u < 128 ==> #[trigger] at(a, Gemma4Buf::PbQ, u, nh * hd) == if u < n {
                    crate::meaning::roped(
                        k,
                        turn,
                        start + u,
                        nh,
                        hd,
                        at(m, Gemma4Buf::PbQ, u, nh * hd),
                    )
                } else {
                    at(m, Gemma4Buf::PbQ, u, nh * hd)
                }
            &&& forall|u: int|
                0 <= u < 128 ==> #[trigger] at(a, Gemma4Buf::PbK, u, nk * hd) == if u < n {
                    crate::meaning::roped(
                        k,
                        turn,
                        start + u,
                        nk,
                        hd,
                        at(m, Gemma4Buf::PbK, u, nk * hd),
                    )
                } else {
                    at(m, Gemma4Buf::PbK, u, nk * hd)
                }
        }),
    decreases n,
{
    if n == 0 {
        crate::meaning::lemma_after_empty(k, m);
    } else {
        let t = (n - 1) as nat;
        lemma_rotate_rows(k, c, start, t, m);
        let a = crate::gemma4::rotate_rows_ops(c, start, t);
        let b = crate::gemma4::rotate_row_ops(c, start, t as usize);
        let mid = crate::meaning::after(k, a, m);
        crate::meaning::lemma_after_concat(k, a, b, m);
        lemma_rotate_row(k, c, start, t as usize, mid);
    }
}

/// Attention of a full layer's batch.
proof fn lemma_batch_full<E>(
    k: Kernels<Gemma4Wt, E>,
    c: Gemma4Config,
    w: FullLayerWeights,
    i: usize,
    s: usize,
    start: usize,
    n: usize,
    kv: crate::gemma4::KvCache,
    m: Contents<E>,
)
    requires
        c.batch_fits(),
        crate::gemma4::layer_shaped(LayerWeights::Full(w), c),
        0 < n <= 128,
        start + n <= usize::MAX,
        sized(m, c),
        m.positions[Gemma4Buf::PbPositions] == Seq::new(n as nat, |u: int| start + u),
    ensures
        attended_batch(
            k,
            c,
            LayerType::Full,
            i,
            start as int,
            n as nat,
            kv.max_seq as int,
            (CacheKind::Full, s),
            m,
            crate::meaning::after(
                k,
                crate::gemma4::batch_full_in_ops(c, w, i, n) + crate::gemma4::rotate_rows_ops(
                    c,
                    start,
                    n as nat,
                ) + crate::gemma4::batch_full_cache_ops(c, s, start, n, kv),
                m,
            ),
        ),
{
    let kind = LayerType::Full;
    let a = crate::gemma4::batch_full_in_ops(c, w, i, n);
    let b = crate::gemma4::rotate_rows_ops(c, start, n as nat);
    let ops = crate::gemma4::batch_full_cache_ops(c, s, start, n, kv);
    crate::meaning::lemma_after_concat(k, a + b, ops, m);
    crate::meaning::lemma_after_concat(k, a, b, m);
    let m1 = crate::meaning::after(k, a, m);
    let m2 = crate::meaning::after(k, b, m1);
    lemma_batch_full_in(k, c, w, i, n, 0, m, 0);
    lemma_rotate_rows(k, c, start, n as nat, m1);
    let x = m.bufs[Gemma4Buf::PbResidual];
    let q = m2.bufs[Gemma4Buf::PbQ];
    let key = m2.bufs[Gemma4Buf::PbK];
    let v = m2.bufs[Gemma4Buf::PbV];
    assert forall|t: int| 0 <= t < n implies #[trigger] heads_of(
        k,
        c,
        kind,
        i,
        start as int,
        x,
        q,
        key,
        v,
        t,
    ) by {
        lemma_batch_full_in(k, c, w, i, n, start + t, m, t);
        let qd = c.n_heads * crate::tokens::head(c, kind);
        let kd = crate::tokens::kv_heads(c, kind) * crate::tokens::head(c, kind);
        assert(at(m2, Gemma4Buf::PbQ, t, qd) == crate::rows::row(q, t, qd));
        assert(at(m2, Gemma4Buf::PbK, t, kd) == crate::rows::row(key, t, kd));
        assert(at(m1, Gemma4Buf::PbV, t, kd) == crate::rows::row(v, t, kd));
    }
    let s1 = crate::meaning::step(k, m2, ops[0]);
    let s2 = crate::meaning::step(k, s1, ops[1]);
    assert(crate::meaning::run(k, ops, 0, m2) == m2);
    assert(crate::meaning::run(k, ops, 1, m2) == s1);
    assert(crate::meaning::run(k, ops, 2, m2) == s2);
    lemma_batch_attention(k, c, kind, i, s, start, n, kv.max_seq, m2, s1, s2);
}

/// How many of the first `n` layers are of a kind.
pub proof fn lemma_count(kinds: Seq<LayerType>, kind: LayerType, n: nat)
    requires
        n <= kinds.len(),
    ensures
        crate::gemma4::count_kind(kinds, kind, n) == crate::tokens::before(kinds, kind, n as int),
    decreases n,
{
    reveal(Seq::filter);
    if n == 0 {
        assert(kinds.take(0).len() == 0);
    } else {
        lemma_count(kinds, kind, (n - 1) as nat);
        assert(kinds.take(n as int).drop_last() =~= kinds.take(n - 1));
        assert(kinds.take(n as int).last() == kinds[n - 1]);
    }
}

/// The part of a layer that both kinds have, and the layer's kind.
pub open spec fn kind_of(w: LayerWeights) -> LayerType {
    match w {
        LayerWeights::Sliding(_) => LayerType::Sliding,
        LayerWeights::Full(_) => LayerType::Full,
    }
}

/// Attention of layer `i` on a batch of `n` tokens from `start` on. Row by row, a batch has
/// the queries, keys and values that single tokens have; all the keys and values go to the
/// layer's own cache, and each row attends to everything up to itself.
pub proof fn law_batch_attention<E>(
    k: Kernels<Gemma4Wt, E>,
    c: Gemma4Config,
    w: LayerWeights,
    i: usize,
    start: usize,
    n: usize,
    kv: Caches,
    m: Contents<E>,
)
    requires
        c.batch_fits(),
        crate::gemma4::layer_shaped(w, c),
        i < c.layer_types@.len(),
        c.layer_types@[i as int] == kind_of(w),
        0 < n <= 128,
        start + n <= usize::MAX,
        sized(m, c),
        m.positions[Gemma4Buf::PbPositions] == Seq::new(n as nat, |u: int| start + u),
    ensures
        ({
            let kind = kind_of(w);
            let max_seq = match kind {
                LayerType::Sliding => kv.sliding.max_seq,
                LayerType::Full => kv.full.max_seq,
            };
            crate::gemma4::batch_attn_ops(c, w, i, start, n, kv) matches Ok(ops)
                && attended_batch(
                k,
                c,
                kind,
                i,
                start as int,
                n as nat,
                max_seq as int,
                crate::tokens::cache_of(c, kind, i as int),
                m,
                crate::meaning::after(k, ops, m),
            )
        }),
{
    let kind = kind_of(w);
    lemma_count(c.layer_types@, kind, i as nat);
    let s = crate::gemma4::count_kind(c.layer_types@, kind, i as nat) as usize;
    match w {
        LayerWeights::Sliding(l) => lemma_batch_sliding(k, c, l, i, s, start, n, kv.sliding, m),
        LayerWeights::Full(l) => lemma_batch_full(k, c, l, i, s, start, n, kv.full, m),
    }
}

/// Row `t` of a batched layer, without experts, is what a layer makes of the token in row
/// `t`: with `a` for what it attended to, its new state is the token's, and so are the kept
/// state and the feed-forward result on the way, `down(gelu(gate) * up)`.
pub proof fn law_batch_layer_row<E>(
    k: Kernels<Gemma4Wt, E>,
    c: Gemma4Config,
    w: LayerWeights,
    i: usize,
    start: usize,
    n: usize,
    kv: Caches,
    flags: Flags,
    m: Contents<E>,
    t: int,
)
    requires
        c.batch_fits(),
        crate::gemma4::layer_shaped(w, c),
        i < c.layer_types@.len(),
        c.layer_types@[i as int] == kind_of(w),
        crate::gemma4::common_of(w).moe is None || flags.moe_bypass,
        0 <= t < n <= 128,
        start + n <= usize::MAX,
        sized(m, c),
        m.positions[Gemma4Buf::PbPositions] == Seq::new(n as nat, |u: int| start + u),
    ensures
        ({
            let kind = kind_of(w);
            let at_cache = crate::tokens::cache_of(c, kind, i as int);
            let max_seq = match kind {
                LayerType::Sliding => kv.sliding.max_seq,
                LayerType::Full => kv.full.max_seq,
            };
            let how = crate::tokens::attention_of(c, kind, KvForm::Asym3, max_seq as int);
            let x = m.bufs[Gemma4Buf::PbResidual];
            let s = start as int;
            let keys = batch_keys(
                k,
                c,
                kind,
                i,
                s,
                x,
                how.capacity,
                n as nat,
                m.keys[at_cache],
            );
            let values = batch_values(
                k,
                c,
                kind,
                i,
                s,
                x,
                how.capacity,
                n as nat,
                m.values[at_cache],
            );
            let token = at(m, Gemma4Buf::PbResidual, t, c.dim as int);
            crate::gemma4::batch_layer_ops(c, w, i, start, n, kv, flags) matches Ok(ops) && {
                let a = crate::meaning::after(k, ops, m);
                &&& sized(a, c)
                &&& a.positions == m.positions
                &&& a.keys == m.keys.insert(at_cache, keys)
                &&& a.values == m.values.insert(at_cache, values)
                &&& at(a, Gemma4Buf::PbResidual, t, c.dim as int) == crate::tokens::finished(
                    k,
                    c,
                    crate::gemma4::common_of(w),
                    None,
                    kind,
                    i,
                    token,
                    crate::meaning::attended(
                        k,
                        how,
                        s + t + 1,
                        crate::tokens::queries(k, c, kind, i, s + t, token),
                        keys,
                        values,
                    ),
                )
            }
        }),
{
    let kind = kind_of(w);
    let com = crate::gemma4::common_of(w);
    law_batch_attention(k, c, w, i, start, n, kv, m);
    let a = crate::gemma4::batch_attn_ops(c, w, i, start, n, kv).unwrap();
    let b = crate::gemma4::batch_rest_ops(c, com, i, n);
    let e = crate::gemma4::batch_dense_ops(c, com, i, n);
    crate::meaning::lemma_after_concat(k, a + b, e, m);
    crate::meaning::lemma_after_concat(k, a, b, m);
    let m1 = crate::meaning::after(k, a, m);
    let m2 = crate::meaning::after(k, b, m1);
    let qd = c.n_heads * crate::tokens::head(c, kind);
    assert(at(m1, Gemma4Buf::PbQ, t, qd) == crate::rows::row(m1.bufs[Gemma4Buf::PbQ], t, qd));
    lemma_batch_rest(k, c, com, kind, i, n, m1, t);
    lemma_batch_dense(k, c, com, i, n, m2, t);
}

/// The tokens of a batch on their way, row after row, and the caches.
pub open spec fn batch_layer<E>(
    k: Kernels<Gemma4Wt, E>,
    c: Gemma4Config,
    w: LayerWeights,
    i: usize,
    start: int,
    n: nat,
    max_seq: int,
    f: Flow<E>,
) -> Flow<E> {
    let kind = kind_of(w);
    let at_cache = crate::tokens::cache_of(c, kind, i as int);
    let how = crate::tokens::attention_of(c, kind, KvForm::Asym3, max_seq);
    let d = c.dim as int;
    let keys = batch_keys(k, c, kind, i, start, f.x, how.capacity, n, f.keys[at_cache]);
    let values = batch_values(k, c, kind, i, start, f.x, how.capacity, n, f.values[at_cache]);
    let token = |t: int|
        crate::tokens::finished(
            k,
            c,
            crate::gemma4::common_of(w),
            None,
            kind,
            i,
            crate::rows::row(f.x, t, d),
            crate::meaning::attended(
                k,
                how,
                start + t + 1,
                crate::tokens::queries(k, c, kind, i, start + t, crate::rows::row(f.x, t, d)),
                keys,
                values,
            ),
        );
    Flow {
        x: stacked(token, n as int, d),
        keys: f.keys.insert(at_cache, keys),
        values: f.values.insert(at_cache, values),
    }
}

/// Rows of `d`, one after the other.
pub open spec fn stacked<E>(token: spec_fn(int) -> Seq<E>, n: int, d: int) -> Seq<E> {
    Seq::new((n * d) as nat, |j: int| token(j / d)[j % d])
}

proof fn lemma_stacked<E>(token: spec_fn(int) -> Seq<E>, t: int, n: int, d: int)
    requires
        0 <= t < n,
        0 <= d,
        token(t).len() == d,
    ensures
        crate::rows::row(stacked(token, n, d), t, d) == token(t),
{
    let a = crate::rows::row(stacked(token, n, d), t, d);
    assert forall|j: int| 0 <= j < d implies a[j] == token(t)[j] by {
        crate::rows::lemma_inside(t, j, n, d);
    }
    assert(a =~= token(t));
}

/// The first `l` layers on a batch.
pub open spec fn batch_layers<E>(
    k: Kernels<Gemma4Wt, E>,
    c: Gemma4Config,
    layers: Seq<LayerWeights>,
    start: int,
    n: nat,
    kv: Caches,
    l: nat,
    f: Flow<E>,
) -> Flow<E>
    decreases l,
{
    if l == 0 {
        f
    } else {
        let w = layers[l - 1];
        let max_seq = match kind_of(w) {
            LayerType::Sliding => kv.sliding.max_seq,
            LayerType::Full => kv.full.max_seq,
        };
        batch_layer(
            k,
            c,
            w,
            (l - 1) as usize,
            start,
            n,
            max_seq as int,
            batch_layers(k, c, layers, start, n, kv, (l - 1) as nat, f),
        )
    }
}

/// What stands in the buffers of a batch of `n` is what a flow says.
pub open spec fn carries<E>(m: Contents<E>, c: Gemma4Config, n: int, f: Flow<E>) -> bool {
    &&& m.keys == f.keys
    &&& m.values == f.values
    &&& forall|t: int|
        0 <= t < n ==> #[trigger] at(m, Gemma4Buf::PbResidual, t, c.dim as int) == crate::rows::row(
            f.x,
            t,
            c.dim as int,
        )
}

proof fn lemma_same_rows<E>(
    k: Kernels<Gemma4Wt, E>,
    c: Gemma4Config,
    kind: LayerType,
    i: usize,
    start: int,
    x: Seq<E>,
    y: Seq<E>,
    capacity: int,
    n: nat,
    before: Side<E>,
)
    requires
        forall|t: int|
            0 <= t < n ==> #[trigger] crate::rows::row(x, t, c.dim as int) == crate::rows::row(
                y,
                t,
                c.dim as int,
            ),
    ensures
        batch_keys(k, c, kind, i, start, x, capacity, n, before) == batch_keys(
            k,
            c,
            kind,
            i,
            start,
            y,
            capacity,
            n,
            before,
        ),
        batch_values(k, c, kind, i, start, x, capacity, n, before) == batch_values(
            k,
            c,
            kind,
            i,
            start,
            y,
            capacity,
            n,
            before,
        ),
    decreases n,
{
    if n > 0 {
        lemma_same_rows(k, c, kind, i, start, x, y, capacity, (n - 1) as nat, before);
        assert(crate::rows::row(x, n - 1, c.dim as int) == crate::rows::row(
            y,
            n - 1,
            c.dim as int,
        ));
    }
}

proof fn lemma_batch_layers<E>(
    k: Kernels<Gemma4Wt, E>,
    c: Gemma4Config,
    w: Gemma4Weights,
    start: usize,
    n: usize,
    kv: Caches,
    flags: Flags,
    l: nat,
    m: Contents<E>,
    f: Flow<E>,
)
    requires
        c.batch_fits(),
        crate::gemma4::shaped(w, c),
        l <= c.layer_types@.len() <= w.layers@.len(),
        forall|j: int|
            0 <= j < w.layers@.len() ==> crate::gemma4::common_of(#[trigger] w.layers@[j]).moe
                is None || flags.moe_bypass,
        0 < n <= 128,
        start + n <= usize::MAX,
        sized(m, c),
        m.positions[Gemma4Buf::PbPositions] == Seq::new(n as nat, |u: int| start + u),
        carries(m, c, n as int, f),
    ensures
        crate::gemma4::batch_layers_ops(c, w.layers@, start, n, kv, flags, l) matches Ok(ops) ==> {
            let a = crate::meaning::after(k, ops, m);
            &&& sized(a, c)
            &&& a.positions == m.positions
            &&& carries(
                a,
                c,
                n as int,
                batch_layers(k, c, w.layers@, start as int, n as nat, kv, l, f),
            )
        },
    decreases l,
{
    if l == 0 {
        crate::meaning::lemma_after_empty(k, m);
    } else if crate::gemma4::batch_layers_ops(c, w.layers@, start, n, kv, flags, l) is Ok {
        let j = (l - 1) as nat;
        lemma_batch_layers(k, c, w, start, n, kv, flags, j, m, f);
        assert(c.layer_types.len() == c.layer_types@.len());
        let lw = w.layers@[j as int];
        assert(crate::gemma4::layer_shaped(lw, c));
        let i = j as usize;
        let a = crate::gemma4::batch_layers_ops(c, w.layers@, start, n, kv, flags, j).unwrap();
        let b = crate::gemma4::batch_layer_ops(c, lw, i, start, n, kv, flags).unwrap();
        crate::meaning::lemma_after_concat(k, a, b, m);
        let mid = crate::meaning::after(k, a, m);
        let g = batch_layers(k, c, w.layers@, start as int, n as nat, kv, j, f);
        let out = crate::meaning::after(k, b, mid);
        let kind = kind_of(lw);
        let max_seq = match kind {
            LayerType::Sliding => kv.sliding.max_seq,
            LayerType::Full => kv.full.max_seq,
        };
        let d = c.dim as int;
        let s = start as int;
        let x = mid.bufs[Gemma4Buf::PbResidual];
        let at_cache = crate::tokens::cache_of(c, kind, i as int);
        let how = crate::tokens::attention_of(c, kind, KvForm::Asym3, max_seq as int);
        assert forall|t: int| 0 <= t < n implies #[trigger] crate::rows::row(x, t, d)
            == crate::rows::row(g.x, t, d) by {
            assert(at(mid, Gemma4Buf::PbResidual, t, d) == crate::rows::row(g.x, t, d));
        }
        lemma_same_rows(
            k,
            c,
            kind,
            i,
            s,
            x,
            g.x,
            how.capacity,
            n as nat,
            mid.keys[at_cache],
        );
        lemma_same_rows(
            k,
            c,
            kind,
            i,
            s,
            x,
            g.x,
            how.capacity,
            n as nat,
            mid.values[at_cache],
        );
        law_batch_layer_row(k, c, lw, i, start, n, kv, flags, mid, 0);
        let h = batch_layer(k, c, lw, i, s, n as nat, max_seq as int, g);
        let keys = batch_keys(k, c, kind, i, s, g.x, how.capacity, n as nat, g.keys[at_cache]);
        let values = batch_values(
            k,
            c,
            kind,
            i,
            s,
            g.x,
            how.capacity,
            n as nat,
            g.values[at_cache],
        );
        let token = |t: int|
            crate::tokens::finished(
                k,
                c,
                crate::gemma4::common_of(lw),
                None,
                kind,
                i,
                crate::rows::row(g.x, t, d),
                crate::meaning::attended(
                    k,
                    how,
                    s + t + 1,
                    crate::tokens::queries(
                        k,
                        c,
                        kind,
                        i,
                        s + t,
                        crate::rows::row(g.x, t, d),
                    ),
                    keys,
                    values,
                ),
            );
        assert(h.x =~= stacked(token, n as int, d));
        assert forall|t: int| 0 <= t < n implies #[trigger] at(out, Gemma4Buf::PbResidual, t, d)
            == crate::rows::row(h.x, t, d) by {
            law_batch_layer_row(k, c, lw, i, start, n, kv, flags, mid, t);
            assert(crate::rows::row(x, t, d) == crate::rows::row(g.x, t, d));
            lemma_stacked(token, t, n as int, d);
        }
    }
}

/// The embeddings of the first `n` tokens stand in the rows of a batch.
proof fn lemma_embeds<E>(
    k: Kernels<Gemma4Wt, E>,
    c: Gemma4Config,
    format: crate::quant::EmbeddingFormat,
    tokens: Seq<u32>,
    n: nat,
    m: Contents<E>,
)
    requires
        c.batch_fits(),
        n <= tokens.len(),
        n <= 128,
        sized(m, c),
    ensures
        ({
            let a = crate::meaning::after(
                k,
                crate::gemma4::embeds_ops(c, format, tokens, n),
                m,
            );
            &&& crate::meaning::alike(m, a)
            &&& sized(a, c)
            &&& forall|u: int|
                0 <= u < n ==> #[trigger] at(a, Gemma4Buf::PbResidual, u, c.dim as int)
                    == crate::meaning::scaled(
                    k,
                    c.embed_scale,
                    crate::meaning::embedded(k, format, tokens[u], c.dim as int),
                )
        }),
    decreases n,
{
    if n == 0 {
        crate::meaning::lemma_after_empty(k, m);
    } else {
        let t = n - 1;
        let d = c.dim as int;
        lemma_embeds(k, c, format, tokens, t as nat, m);
        let a = crate::gemma4::embeds_ops(c, format, tokens, t as nat);
        let b = crate::gemma4::embed_ops(c, format, tokens[t]);
        let e = seq![
            crate::device::Op::<Gemma4Buf, Gemma4Wt>::Copy {
                dst: Gemma4Buf::PbResidual,
                dst_off: (t * (4 * c.dim)) as usize,
                src: Gemma4Buf::X,
                src_off: 0,
                bytes: (4 * c.dim) as usize,
            },
        ];
        crate::meaning::lemma_after_concat(k, a, b + e, m);
        let m1 = crate::meaning::after(k, a, m);
        crate::meaning::lemma_after_concat(k, b, e, m1);
        crate::decoding::lemma_embedded(k, c, format, tokens[t], m1);
        let m2 = crate::meaning::after(k, b, m1);
        lemma_room(c, LayerType::Full, 128);
        crate::rows::lemma_fits(t, 128, d);
        assert(t * (4 * d) == 4 * (t * d)) by (nonlinear_arith);
        let v = crate::meaning::pasted(
            m2.bufs[Gemma4Buf::PbResidual],
            t * d,
            m2.bufs[Gemma4Buf::X],
            0,
            d,
        );
        let m3 = crate::meaning::set(m2, Gemma4Buf::PbResidual, v);
        assert(crate::meaning::run(k, e, 0, m2) == m2);
        assert(crate::meaning::run(k, e, 1, m2) == m3);
        crate::meaning::lemma_slice_all(m2.bufs[Gemma4Buf::X], d);
        assert forall|u: int| 0 <= u < n implies #[trigger] at(m3, Gemma4Buf::PbResidual, u, d)
            == crate::meaning::scaled(
            k,
            c.embed_scale,
            crate::meaning::embedded(k, format, tokens[u], d),
        ) by {
            lemma_into_row(
                m2.bufs[Gemma4Buf::PbResidual],
                m2.bufs[Gemma4Buf::X],
                t,
                u,
                128,
                d,
            );
            if u < t {
                assert(at(m1, Gemma4Buf::PbResidual, u, d) == crate::rows::row(
                    m2.bufs[Gemma4Buf::PbResidual],
                    u,
                    d,
                ));
            }
        }
    }
}

/// A prompt that goes through the layers in one batch, without experts. Each token starts
/// from its embedding, scaled, and each layer leaves in row `t` what the layer makes of
/// token `t`, and in its cache the keys and values of all the tokens.
pub proof fn law_prefill<E>(
    k: Kernels<Gemma4Wt, E>,
    c: Gemma4Config,
    w: Gemma4Weights,
    tokens: Seq<u32>,
    start: usize,
    kv: Caches,
    flags: Flags,
    m: Contents<E>,
)
    requires
        c.batch_fits(),
        crate::gemma4::shaped(w, c),
        c.layer_types@.len() <= w.layers@.len(),
        forall|j: int|
            0 <= j < w.layers@.len() ==> crate::gemma4::common_of(#[trigger] w.layers@[j]).moe
                is None || flags.moe_bypass,
        0 < tokens.len(),
        start + tokens.len() <= usize::MAX,
        sized(m, c),
    ensures
        crate::gemma4::prefill_ops(c, w, tokens, start, kv, flags) matches Ok(ops) ==> {
            let d = c.dim as int;
            let n = tokens.len();
            carries(
                crate::meaning::after(k, ops, m),
                c,
                n as int,
                batch_layers(
                    k,
                    c,
                    w.layers@,
                    start as int,
                    n,
                    kv,
                    c.layer_types@.len(),
                    Flow {
                        x: embeddings(k, c, w.embd_format, tokens),
                        keys: m.keys,
                        values: m.values,
                    },
                ),
            )
        },
{
    if crate::gemma4::prefill_ops(c, w, tokens, start, kv, flags) is Ok {
        let d = c.dim as int;
        let n = tokens.len() as usize;
        let first = seq![
            crate::device::Op::<Gemma4Buf, Gemma4Wt>::SetPositions {
                buf: Gemma4Buf::PbPositions,
                start,
                n,
            },
        ];
        let e = crate::gemma4::embeds_ops(c, w.embd_format, tokens, tokens.len());
        let l = crate::gemma4::batch_layers_ops(
            c,
            w.layers@,
            start,
            n,
            kv,
            flags,
            c.layer_types@.len(),
        ).unwrap();
        crate::meaning::lemma_after_concat(k, first + e, l, m);
        crate::meaning::lemma_after_concat(k, first, e, m);
        let m1 = Machine {
            positions: m.positions.insert(
                Gemma4Buf::PbPositions,
                Seq::new(n as nat, |t: int| start + t),
            ),
            ..m
        };
        assert(crate::meaning::run(k, first, 0, m) == m);
        assert(crate::meaning::run(k, first, 1, m) == m1);
        lemma_embeds(k, c, w.embd_format, tokens, tokens.len(), m1);
        let m2 = crate::meaning::after(k, e, m1);
        let token = |t: int|
            crate::meaning::scaled(
                k,
                c.embed_scale,
                crate::meaning::embedded(k, w.embd_format, tokens[t], d),
            );
        let f = Flow {
            x: embeddings(k, c, w.embd_format, tokens),
            keys: m.keys,
            values: m.values,
        };
        assert(f.x =~= stacked(token, n as int, d));
        assert forall|t: int| 0 <= t < n implies #[trigger] at(m2, Gemma4Buf::PbResidual, t, d)
            == crate::rows::row(f.x, t, d) by {
            lemma_stacked(token, t, n as int, d);
        }
        lemma_batch_layers(
            k,
            c,
            w,
            start,
            n,
            kv,
            flags,
            c.layer_types@.len(),
            m2,
            f,
        );
    }
}

/// The scaled embeddings of tokens, row after row.
pub open spec fn embeddings<E>(
    k: Kernels<Gemma4Wt, E>,
    c: Gemma4Config,
    format: crate::quant::EmbeddingFormat,
    tokens: Seq<u32>,
) -> Seq<E> {
    let d = c.dim as int;
    let token = |t: int|
        crate::meaning::scaled(
            k,
            c.embed_scale,
            crate::meaning::embedded(k, format, tokens[t], d),
        );
    stacked(token, tokens.len() as int, d)
}

} // verus!
