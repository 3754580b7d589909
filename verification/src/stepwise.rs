//! What a batch that goes token by token leaves: the states and caches of as many passes
//! of a layer over single tokens.

use vstd::prelude::*;

use crate::batches::Contents;
use crate::gemma4::{
    Caches, Gemma4Buf, Gemma4Config, Gemma4Wt, LayerCommon, LayerPart, LayerType, LayerWeights,
};
use crate::meaning::{Kernels, Machine};
use crate::tokens::Flow;

verus! {

/// Layer `i` without experts on the first `n` tokens whose states are the rows of `x`, one
/// after the other, and what it leaves: the caches, and the last token's state.
pub open spec fn one_by_one<E>(
    k: Kernels<Gemma4Wt, E>,
    c: Gemma4Config,
    w: LayerWeights,
    i: usize,
    start: int,
    kv: Caches,
    n: nat,
    f: Flow<E>,
) -> Flow<E>
    decreases n,
{
    if n == 0 {
        f
    } else {
        let before = one_by_one(k, c, w, i, start, kv, (n - 1) as nat, f);
        decoded(
            k,
            c,
            w,
            i,
            start + (n - 1),
            kv,
            Flow { x: crate::rows::row(f.x, n - 1, c.dim as int), ..before },
        )
    }
}

/// A layer without experts on one token.
pub open spec fn decoded<E>(
    k: Kernels<Gemma4Wt, E>,
    c: Gemma4Config,
    w: LayerWeights,
    i: usize,
    pos: int,
    kv: Caches,
    f: Flow<E>,
) -> Flow<E> {
    let kind = crate::batches::kind_of(w);
    let own = crate::decoding::cache_for(kv, kind);
    crate::tokens::token_layer(
        k,
        c,
        crate::gemma4::common_of(w),
        None,
        kind,
        i,
        pos,
        own.form(),
        own.max_seq as int,
        f,
    )
}

/// The state that a token has between attention and feed-forward part, if its state after
/// the layer is `x`: there is one, and `x` comes from it.
pub open spec fn halfway<E>(
    k: Kernels<Gemma4Wt, E>,
    c: Gemma4Config,
    w: LayerCommon,
    i: usize,
    y: Seq<E>,
    x: Seq<E>,
) -> bool {
    x == crate::meaning::scaled(
        k,
        w.layer_scalar_host,
        crate::meaning::added(
            k,
            y,
            crate::tokens::ending(
                k,
                c,
                None,
                i,
                y,
                crate::tokens::feed_forward(k, c, i, y),
            ),
        ),
    )
}

/// Token `t` of the batch, made current.
proof fn lemma_load<E>(
    k: Kernels<Gemma4Wt, E>,
    c: Gemma4Config,
    start: usize,
    t: usize,
    m: Contents<E>,
)
    requires
        c.batch_fits(),
        t < 128,
        start + t <= usize::MAX,
        crate::batches::sized(m, c),
    ensures
        crate::meaning::after(k, crate::gemma4::load_row_ops(c, start, t), m)
            == crate::meaning::set(
            Machine { pos: start + t, ..m },
            Gemma4Buf::X,
            crate::batches::at(m, Gemma4Buf::PbResidual, t as int, c.dim as int),
        ),
{
    let d = c.dim as int;
    let tt = t as int;
    crate::batches::lemma_room(c, LayerType::Full, 128);
    crate::rows::lemma_fits(tt, 128, d);
    assert(tt * (4 * d) == 4 * (tt * d)) by (nonlinear_arith);
    let ops = crate::gemma4::load_row_ops(c, start, t);
    assert(crate::meaning::run(k, ops, 0, m) == m);
    let s1 = Machine { pos: start + t, ..m };
    assert(crate::meaning::run(k, ops, 1, m) == s1);
    crate::meaning::lemma_pasted(
        m.bufs[Gemma4Buf::X],
        m.bufs[Gemma4Buf::PbResidual],
        tt * d,
        d,
    );
    let s2 = crate::meaning::set(
        s1,
        Gemma4Buf::X,
        crate::batches::at(m, Gemma4Buf::PbResidual, tt, d),
    );
    assert(crate::meaning::run(k, ops, 2, m) == s2);
}

/// The current token, put back: its state twice, and its feed-forward result.
proof fn lemma_store<E>(k: Kernels<Gemma4Wt, E>, c: Gemma4Config, t: usize, m: Contents<E>)
    requires
        c.batch_fits(),
        t < 128,
        crate::batches::sized(m, c),
    ensures
        ({
            let a = crate::meaning::after(k, crate::gemma4::store_row_ops(c, t), m);
            let d = c.dim as int;
            &&& crate::meaning::alike(m, a)
            &&& crate::batches::sized(a, c)
            &&& forall|u: int|
                0 <= u < 128 ==> #[trigger] crate::batches::at(
                    a,
                    Gemma4Buf::PbResidual,
                    u,
                    d,
                ) == if u
                    == t {
                    m.bufs[Gemma4Buf::Residual]
                } else {
                    crate::batches::at(m, Gemma4Buf::PbResidual, u, d)
                }
            &&& forall|u: int|
                0 <= u < 128 ==> #[trigger] crate::batches::at(a, Gemma4Buf::PbFfnOut, u, d) == if u
                    == t {
                    m.bufs[Gemma4Buf::FfnOut]
                } else {
                    crate::batches::at(m, Gemma4Buf::PbFfnOut, u, d)
                }
            &&& forall|u: int|
                0 <= u < 128 ==> #[trigger] crate::batches::at(
                    a,
                    Gemma4Buf::PbAttnOut,
                    u,
                    d,
                ) == if u
                    == t {
                    m.bufs[Gemma4Buf::Residual]
                } else {
                    crate::batches::at(m, Gemma4Buf::PbAttnOut, u, d)
                }
        }),
{
    let d = c.dim as int;
    let tt = t as int;
    crate::batches::lemma_room(c, LayerType::Full, 128);
    crate::rows::lemma_fits(tt, 128, d);
    assert(tt * (4 * d) == 4 * (tt * d)) by (nonlinear_arith);
    let ops = crate::gemma4::store_row_ops(c, t);
    let r = m.bufs[Gemma4Buf::Residual];
    let f = m.bufs[Gemma4Buf::FfnOut];
    crate::meaning::lemma_slice_all(r, d);
    crate::meaning::lemma_slice_all(f, d);
    assert(crate::meaning::run(k, ops, 0, m) == m);
    let v1 = crate::meaning::pasted(m.bufs[Gemma4Buf::PbAttnOut], tt * d, r, 0, d);
    let s1 = crate::meaning::set(m, Gemma4Buf::PbAttnOut, v1);
    assert(crate::meaning::run(k, ops, 1, m) == s1);
    let v2 = crate::meaning::pasted(m.bufs[Gemma4Buf::PbFfnOut], tt * d, f, 0, d);
    let s2 = crate::meaning::set(s1, Gemma4Buf::PbFfnOut, v2);
    assert(crate::meaning::run(k, ops, 2, m) == s2);
    let v3 = crate::meaning::pasted(m.bufs[Gemma4Buf::PbResidual], tt * d, r, 0, d);
    let s3 = crate::meaning::set(s2, Gemma4Buf::PbResidual, v3);
    assert(crate::meaning::run(k, ops, 3, m) == s3);
    assert forall|u: int| 0 <= u < 128 implies #[trigger] crate::batches::at(
        s3,
        Gemma4Buf::PbResidual,
        u,
        d,
    ) == if u == t {
        r
    } else {
        crate::batches::at(m, Gemma4Buf::PbResidual, u, d)
    } by {
        crate::batches::lemma_into_row(m.bufs[Gemma4Buf::PbResidual], r, tt, u, 128, d);
    }
    assert forall|u: int| 0 <= u < 128 implies #[trigger] crate::batches::at(
        s3,
        Gemma4Buf::PbFfnOut,
        u,
        d,
    ) == if u == t {
        f
    } else {
        crate::batches::at(m, Gemma4Buf::PbFfnOut, u, d)
    } by {
        crate::batches::lemma_into_row(m.bufs[Gemma4Buf::PbFfnOut], f, tt, u, 128, d);
    }
    assert forall|u: int| 0 <= u < 128 implies #[trigger] crate::batches::at(
        s3,
        Gemma4Buf::PbAttnOut,
        u,
        d,
    ) == if u == t {
        r
    } else {
        crate::batches::at(m, Gemma4Buf::PbAttnOut, u, d)
    } by {
        crate::batches::lemma_into_row(m.bufs[Gemma4Buf::PbAttnOut], r, tt, u, 128, d);
    }
}

/// What stands in row `u` after the first part of a layer: a state halfway to what the
/// layer makes of the token, and its feed-forward result.
pub open spec fn reached<E>(
    k: Kernels<Gemma4Wt, E>,
    c: Gemma4Config,
    w: LayerWeights,
    i: usize,
    start: int,
    kv: Caches,
    f: Flow<E>,
    a: Contents<E>,
    u: int,
) -> bool {
    let d = c.dim as int;
    let y = crate::batches::at(a, Gemma4Buf::PbResidual, u, d);
    &&& crate::batches::at(a, Gemma4Buf::PbAttnOut, u, d) == y
    &&& crate::batches::at(a, Gemma4Buf::PbFfnOut, u, d) == crate::tokens::feed_forward(k, c, i, y)
    &&& halfway(
        k,
        c,
        crate::gemma4::common_of(w),
        i,
        y,
        one_by_one(k, c, w, i, start, kv, (u + 1) as nat, f).x,
    )
}

/// The first part of a layer, token by token.
proof fn lemma_first_part<E>(
    k: Kernels<Gemma4Wt, E>,
    c: Gemma4Config,
    w: LayerWeights,
    i: usize,
    start: usize,
    kv: Caches,
    n: nat,
    m: Contents<E>,
)
    requires
        c.batch_fits(),
        crate::gemma4::layer_shaped(w, c),
        i < c.layer_types@.len(),
        n <= 128,
        start + n <= usize::MAX,
        crate::batches::sized(m, c),
        crate::gemma4::stepwise_ops(c, w, i, start, kv, n) is Ok,
    ensures
        ({
            let a = crate::meaning::after(
                k,
                crate::gemma4::stepwise_ops(c, w, i, start, kv, n).unwrap(),
                m,
            );
            let f = Flow { x: m.bufs[Gemma4Buf::PbResidual], keys: m.keys, values: m.values };
            let g = one_by_one(k, c, w, i, start as int, kv, n, f);
            let d = c.dim as int;
            &&& crate::batches::sized(a, c)
            &&& a.keys == g.keys
            &&& a.values == g.values
            &&& forall|u: int|
                0 <= u < n ==> #[trigger] reached(k, c, w, i, start as int, kv, f, a, u)
            &&& forall|u: int|
                n <= u < 128 ==> #[trigger] crate::batches::at(a, Gemma4Buf::PbResidual, u, d)
                    == crate::batches::at(m, Gemma4Buf::PbResidual, u, d)
        }),
    decreases n,
{
    let f = Flow { x: m.bufs[Gemma4Buf::PbResidual], keys: m.keys, values: m.values };
    let d = c.dim as int;
    if n == 0 {
        crate::meaning::lemma_after_empty(k, m);
    } else {
        let tn = (n - 1) as nat;
        let t = tn as usize;
        lemma_first_part(k, c, w, i, start, kv, tn, m);
        let first = crate::gemma4::stepwise_ops(c, w, i, start, kv, tn).unwrap();
        let load = crate::gemma4::load_row_ops(c, start, t);
        let layer = crate::gemma4::layer_ops(
            c,
            w,
            i,
            (start + t) as usize,
            kv,
            true,
            false,
        ).unwrap();
        let store = crate::gemma4::store_row_ops(c, t);
        crate::meaning::lemma_after_concat(k, first, load + layer + store, m);
        let m0 = crate::meaning::after(k, first, m);
        crate::meaning::lemma_after_concat(k, load + layer, store, m0);
        crate::meaning::lemma_after_concat(k, load, layer, m0);
        let m1 = crate::meaning::after(k, load, m0);
        let m2 = crate::meaning::after(k, layer, m1);
        let m3 = crate::meaning::after(k, store, m2);
        lemma_load(k, c, start, t, m0);
        assert(crate::batches::at(m0, Gemma4Buf::PbResidual, tn as int, d)
            == crate::batches::at(m, Gemma4Buf::PbResidual, tn as int, d));
        crate::decoding::lemma_first_half(k, c, w, i, (start + t) as usize, kv, m1);
        lemma_store(k, c, t, m2);
        assert forall|u: int| 0 <= u < n implies #[trigger] reached(
            k,
            c,
            w,
            i,
            start as int,
            kv,
            f,
            m3,
            u,
        ) by {
            assert(crate::batches::at(m3, Gemma4Buf::PbResidual, u, d) == if u == t {
                m2.bufs[Gemma4Buf::Residual]
            } else {
                crate::batches::at(m2, Gemma4Buf::PbResidual, u, d)
            });
            assert(crate::batches::at(m3, Gemma4Buf::PbFfnOut, u, d) == if u == t {
                m2.bufs[Gemma4Buf::FfnOut]
            } else {
                crate::batches::at(m2, Gemma4Buf::PbFfnOut, u, d)
            });
            assert(crate::batches::at(m3, Gemma4Buf::PbAttnOut, u, d) == if u == t {
                m2.bufs[Gemma4Buf::Residual]
            } else {
                crate::batches::at(m2, Gemma4Buf::PbAttnOut, u, d)
            });
            if u < t {
                assert(reached(k, c, w, i, start as int, kv, f, m0, u));
            }
        }
        assert forall|u: int| n <= u < 128 implies #[trigger] crate::batches::at(
            m3,
            Gemma4Buf::PbResidual,
            u,
            d,
        ) == crate::batches::at(m, Gemma4Buf::PbResidual, u, d) by {
            assert(crate::batches::at(m0, Gemma4Buf::PbResidual, u, d) == crate::batches::at(
                m,
                Gemma4Buf::PbResidual,
                u,
                d,
            ));
        }
    }
}

/// The end of a layer without experts, on token `t` of the batch.
#[verifier::rlimit(40)]
proof fn lemma_dense_row<E>(
    k: Kernels<Gemma4Wt, E>,
    c: Gemma4Config,
    w: LayerCommon,
    i: usize,
    t: usize,
    m: Contents<E>,
)
    requires
        c.batch_fits(),
        t < 128,
        crate::batches::sized(m, c),
    ensures
        ({
            let a = crate::meaning::after(k, crate::gemma4::dense_row_ops(c, w, i, t), m);
            let d = c.dim as int;
            &&& crate::meaning::alike(m, a)
            &&& crate::batches::sized(a, c)
            &&& a.bufs[Gemma4Buf::PbFfnOut] == m.bufs[Gemma4Buf::PbFfnOut]
            &&& a.bufs[Gemma4Buf::PbAttnOut] == m.bufs[Gemma4Buf::PbAttnOut]
            &&& forall|u: int|
                0 <= u < 128 ==> #[trigger] crate::batches::at(
                    a,
                    Gemma4Buf::PbResidual,
                    u,
                    d,
                ) == if u
                    == t {
                    crate::meaning::scaled(
                        k,
                        w.layer_scalar_host,
                        crate::meaning::added(
                            k,
                            crate::batches::at(m, Gemma4Buf::PbResidual, u, d),
                            crate::meaning::normed(
                                k,
                                Gemma4Wt::Layer(i, LayerPart::PostFfnNorm),
                                c.norm_eps,
                                crate::batches::at(m, Gemma4Buf::PbFfnOut, u, d),
                            ),
                        ),
                    )
                } else {
                    crate::batches::at(m, Gemma4Buf::PbResidual, u, d)
                }
        }),
{
    let d = c.dim as int;
    let tt = t as int;
    crate::batches::lemma_room(c, LayerType::Full, 128);
    crate::rows::lemma_fits(tt, 128, d);
    assert(tt * (4 * d) == 4 * (tt * d)) by (nonlinear_arith);
    let ops = crate::gemma4::dense_row_ops(c, w, i, t);
    let y = crate::batches::at(m, Gemma4Buf::PbResidual, tt, d);
    let f = crate::batches::at(m, Gemma4Buf::PbFfnOut, tt, d);
    assert(crate::meaning::run(k, ops, 0, m) == m);
    crate::meaning::lemma_pasted(
        m.bufs[Gemma4Buf::X],
        m.bufs[Gemma4Buf::PbResidual],
        tt * d,
        d,
    );
    let s1 = crate::meaning::set(m, Gemma4Buf::X, y);
    assert(crate::meaning::run(k, ops, 1, m) == s1);
    crate::meaning::lemma_pasted(
        m.bufs[Gemma4Buf::Residual],
        m.bufs[Gemma4Buf::PbResidual],
        tt * d,
        d,
    );
    let s2 = crate::meaning::set(s1, Gemma4Buf::Residual, y);
    assert(crate::meaning::run(k, ops, 2, m) == s2);
    crate::meaning::lemma_pasted(
        m.bufs[Gemma4Buf::FfnOut],
        m.bufs[Gemma4Buf::PbFfnOut],
        tt * d,
        d,
    );
    let s3 = crate::meaning::set(s2, Gemma4Buf::FfnOut, f);
    assert(crate::meaning::run(k, ops, 3, m) == s3);
    let v4 = crate::meaning::normed(
        k,
        Gemma4Wt::Layer(i, LayerPart::PostFfnNorm),
        c.norm_eps,
        f,
    );
    crate::meaning::lemma_put(s3, Gemma4Buf::Tmp, v4);
    let s4 = crate::meaning::set(s3, Gemma4Buf::Tmp, v4);
    assert(crate::meaning::run(k, ops, 4, m) == s4);
    crate::meaning::lemma_pasted(y, y, 0, d);
    crate::meaning::lemma_slice_all(y, d);
    let s5 = crate::meaning::set(s4, Gemma4Buf::X, y);
    assert(crate::meaning::run(k, ops, 5, m) == s5);
    let v6 = crate::meaning::added(k, y, v4);
    let s6 = crate::meaning::set(s5, Gemma4Buf::X, v6);
    assert(crate::meaning::run(k, ops, 6, m) == s6);
    let v7 = crate::meaning::scaled(k, w.layer_scalar_host, v6);
    let s7 = crate::meaning::set(s6, Gemma4Buf::X, v7);
    assert(crate::meaning::run(k, ops, 7, m) == s7);
    let v8 = crate::meaning::pasted(m.bufs[Gemma4Buf::PbResidual], tt * d, v7, 0, d);
    let s8 = crate::meaning::set(s7, Gemma4Buf::PbResidual, v8);
    assert(crate::meaning::run(k, ops, 8, m) == s8);
    crate::meaning::lemma_slice_all(v7, d);
    assert forall|u: int| 0 <= u < 128 implies #[trigger] crate::batches::at(
        s8,
        Gemma4Buf::PbResidual,
        u,
        d,
    ) == if u == t {
        v7
    } else {
        crate::batches::at(m, Gemma4Buf::PbResidual, u, d)
    } by {
        crate::batches::lemma_into_row(m.bufs[Gemma4Buf::PbResidual], v7, tt, u, 128, d);
    }
}

/// The end of a layer without experts, on the first `n` tokens.
proof fn lemma_dense_rows<E>(
    k: Kernels<Gemma4Wt, E>,
    c: Gemma4Config,
    w: LayerCommon,
    i: usize,
    n: nat,
    m: Contents<E>,
)
    requires
        c.batch_fits(),
        n <= 128,
        crate::batches::sized(m, c),
    ensures
        ({
            let a = crate::meaning::after(k, crate::gemma4::dense_rows_ops(c, w, i, n), m);
            let d = c.dim as int;
            &&& crate::meaning::alike(m, a)
            &&& crate::batches::sized(a, c)
            &&& a.bufs[Gemma4Buf::PbFfnOut] == m.bufs[Gemma4Buf::PbFfnOut]
            &&& forall|u: int|
                0 <= u < 128 ==> #[trigger] crate::batches::at(
                    a,
                    Gemma4Buf::PbResidual,
                    u,
                    d,
                ) == if u
                    < n {
                    crate::meaning::scaled(
                        k,
                        w.layer_scalar_host,
                        crate::meaning::added(
                            k,
                            crate::batches::at(m, Gemma4Buf::PbResidual, u, d),
                            crate::meaning::normed(
                                k,
                                Gemma4Wt::Layer(i, LayerPart::PostFfnNorm),
                                c.norm_eps,
                                crate::batches::at(m, Gemma4Buf::PbFfnOut, u, d),
                            ),
                        ),
                    )
                } else {
                    crate::batches::at(m, Gemma4Buf::PbResidual, u, d)
                }
        }),
    decreases n,
{
    if n == 0 {
        crate::meaning::lemma_after_empty(k, m);
    } else {
        let t = (n - 1) as nat;
        lemma_dense_rows(k, c, w, i, t, m);
        let a = crate::gemma4::dense_rows_ops(c, w, i, t);
        let b = crate::gemma4::dense_row_ops(c, w, i, t as usize);
        crate::meaning::lemma_after_concat(k, a, b, m);
        let m1 = crate::meaning::after(k, a, m);
        lemma_dense_row(k, c, w, i, t as usize, m1);
        let m2 = crate::meaning::after(k, b, m1);
        let d = c.dim as int;
        assert forall|u: int| 0 <= u < 128 implies (#[trigger] crate::batches::at(
            m2,
            Gemma4Buf::PbResidual,
            u,
            d,
        )) == if u == t {
            crate::meaning::scaled(
                k,
                w.layer_scalar_host,
                crate::meaning::added(
                    k,
                    crate::batches::at(m, Gemma4Buf::PbResidual, u, d),
                    crate::meaning::normed(
                        k,
                        Gemma4Wt::Layer(i, LayerPart::PostFfnNorm),
                        c.norm_eps,
                        crate::batches::at(m, Gemma4Buf::PbFfnOut, u, d),
                    ),
                ),
            )
        } else {
            crate::batches::at(m1, Gemma4Buf::PbResidual, u, d)
        } by {
            assert(crate::batches::at(m1, Gemma4Buf::PbResidual, t as int, d)
                == crate::batches::at(m, Gemma4Buf::PbResidual, t as int, d));
        }
    }
}

/// A layer without experts on a batch of `n` tokens, token by token, leaves what as many
/// passes of the layer over single tokens leave: each row is the state of its token after
/// the pass that follows those of the tokens before it, and the caches are those after the
/// last.
pub proof fn law_stepwise_layer<E>(
    k: Kernels<Gemma4Wt, E>,
    c: Gemma4Config,
    w: LayerWeights,
    i: usize,
    start: usize,
    n: usize,
    kv: Caches,
    bucketed: bool,
    m: Contents<E>,
)
    requires
        c.batch_fits(),
        crate::gemma4::layer_shaped(w, c),
        i < c.layer_types@.len(),
        crate::gemma4::common_of(w).moe is None,
        n <= 128,
        start + n <= usize::MAX,
        crate::batches::sized(m, c),
    ensures
        crate::gemma4::stepwise_layer_ops(c, w, i, start, n, kv, bucketed) matches Ok(ops) ==> {
            let a = crate::meaning::after(k, ops, m);
            let f = Flow { x: m.bufs[Gemma4Buf::PbResidual], keys: m.keys, values: m.values };
            let s = start as int;
            &&& crate::batches::sized(a, c)
            &&& a.keys == one_by_one(k, c, w, i, s, kv, n as nat, f).keys
            &&& a.values == one_by_one(k, c, w, i, s, kv, n as nat, f).values
            &&& forall|t: int|
                0 <= t < n ==> #[trigger] crate::batches::at(
                    a,
                    Gemma4Buf::PbResidual,
                    t,
                    c.dim as int,
                ) == one_by_one(k, c, w, i, s, kv, (t + 1) as nat, f).x
        },
{
    if crate::gemma4::stepwise_layer_ops(c, w, i, start, n, kv, bucketed) is Ok {
        let com = crate::gemma4::common_of(w);
        let f = Flow { x: m.bufs[Gemma4Buf::PbResidual], keys: m.keys, values: m.values };
        let s = start as int;
        let d = c.dim as int;
        let a = crate::gemma4::stepwise_ops(c, w, i, start, kv, n as nat).unwrap();
        let b = crate::gemma4::dense_rows_ops(c, com, i, n as nat);
        crate::meaning::lemma_after_concat(k, a, b, m);
        let m1 = crate::meaning::after(k, a, m);
        let m2 = crate::meaning::after(k, b, m1);
        lemma_first_part(k, c, w, i, start, kv, n as nat, m);
        lemma_dense_rows(k, c, com, i, n as nat, m1);
        assert forall|t: int| 0 <= t < n implies #[trigger] crate::batches::at(
            m2,
            Gemma4Buf::PbResidual,
            t,
            d,
        ) == one_by_one(k, c, w, i, s, kv, (t + 1) as nat, f).x by {
            assert(reached(k, c, w, i, s, kv, f, m1, t));
        }
    }
}

} // verus!
