//! What operations do to the contents of buffers, caches and states.
//!
//! The kernels are left open: whatever each computes, element by element, a list of
//! operations leads from one set of contents to another. A law that is stated here holds
//! of every device.

use vstd::prelude::*;

use crate::device::{CacheKind, KvForm, KvSide, Op, Routing, StateQuant};
use crate::float::F32;
use crate::quant::{DType, EmbeddingFormat};

verus! {

/// How positions rotate a head.
pub enum Rotation {
    Plain { theta: F32 },
    Interleaved { n_rot: int, theta: F32 },
    Halved { pairs: int, theta: F32 },
}

/// What attention over a cache depends on, besides contents.
pub struct Attention {
    pub form: KvForm,
    pub heads: int,
    pub kv_heads: int,
    pub dim: int,
    pub max_seq: int,
    pub window: int,
    pub capacity: int,
}

/// One side of a cache: what stands at each position.
pub type Side<E> = Map<int, Seq<E>>;

/// What linear attention takes besides its state.
pub struct DeltaInput<E> {
    pub quant: StateQuant,
    pub heads: int,
    pub dim: int,
    pub q: Seq<E>,
    pub k: Seq<E>,
    pub v: Seq<E>,
    pub alpha: Seq<E>,
    pub beta: Seq<E>,
}

/// How routed rows find their experts, as contents.
pub enum Routed<E> {
    Indexed { indices: Seq<E> },
    Bucketed { offsets: Seq<E>, list: Seq<E> },
}

/// What the kernels of a device compute. Where a kernel gives a vector, its last argument
/// is the place of the element that it gives.
#[verifier::reject_recursive_types(W)]
#[verifier::reject_recursive_types(E)]
pub struct Kernels<W, E> {
    pub zero: E,
    pub junk: E,
    pub embed: spec_fn(EmbeddingFormat, u32, int) -> E,
    pub norm: spec_fn(W, F32, Seq<E>, int) -> E,
    pub layer_norm: spec_fn(W, W, F32, Seq<E>, int) -> E,
    pub times: spec_fn(W, Seq<E>, int) -> E,
    pub times_f32: spec_fn(W, Seq<E>, int) -> E,
    pub times_hfq4: spec_fn(W, Seq<E>, int) -> E,
    pub times_f16: spec_fn(W, Seq<E>, int) -> E,
    pub rotate: spec_fn(Seq<E>, int) -> E,
    pub weight: spec_fn(W, int) -> E,
    pub plus: spec_fn(E, E) -> E,
    pub mul: spec_fn(E, E) -> E,
    pub silu: spec_fn(E) -> E,
    pub gelu: spec_fn(E) -> E,
    pub sigmoid: spec_fn(E) -> E,
    pub scale: spec_fn(F32, E) -> E,
    pub softcap: spec_fn(F32, E) -> E,
    pub alpha_gate: spec_fn(W, W, E, int) -> E,
    pub conv: spec_fn(W, Seq<E>, Seq<E>, int) -> E,
    pub conv_state: spec_fn(W, Seq<E>, Seq<E>) -> Seq<E>,
    pub l2: spec_fn(F32, Seq<E>, int) -> E,
    pub delta: spec_fn(DeltaInput<E>, Seq<E>, int) -> E,
    pub delta_state: spec_fn(DeltaInput<E>, Seq<E>) -> Seq<E>,
    pub gated_norm: spec_fn(W, F32, Seq<E>, Seq<E>, int) -> E,
    pub rope: spec_fn(Rotation, int, Seq<E>, int) -> E,
    pub encode: spec_fn(KvForm, KvSide, int, int, Seq<E>) -> Seq<E>,
    pub attend: spec_fn(Attention, int, Seq<E>, Side<E>, Side<E>, int) -> E,
    pub cross: spec_fn(int, int, int, Seq<E>, Seq<E>, Seq<E>, int) -> E,
    pub vit: spec_fn(int, int, int, Seq<E>, int) -> E,
    pub top_index: spec_fn(Seq<E>, int) -> E,
    pub top_weight: spec_fn(Seq<E>, int) -> E,
    pub offsets: spec_fn(int, int, Seq<E>, int) -> E,
    pub list: spec_fn(int, int, Seq<E>, int) -> E,
    pub expert_gate: spec_fn(W, Routed<E>, int, Seq<E>, int) -> E,
    pub expert_up: spec_fn(W, Routed<E>, int, Seq<E>, int) -> E,
    pub expert_down: spec_fn(W, DType, W, Routed<E>, Seq<E>, int, int, Seq<E>, int) -> E,
}

/// The contents at one moment.
#[verifier::reject_recursive_types(B)]
#[verifier::reject_recursive_types(E)]
pub struct Machine<B, E> {
    pub bufs: Map<B, Seq<E>>,
    /// What the host hands over for a buffer.
    pub host: spec_fn(B) -> Seq<E>,
    /// What the host hands over as positions.
    pub host_positions: spec_fn(B) -> Seq<int>,
    /// What the host has been handed.
    pub out: Seq<Seq<E>>,
    /// The position that was set.
    pub pos: int,
    pub positions: Map<B, Seq<int>>,
    pub keys: Map<(CacheKind, usize), Side<E>>,
    pub values: Map<(CacheKind, usize), Side<E>>,
    pub conv: Map<usize, Seq<E>>,
    pub states: Map<usize, Seq<E>>,
}

// Vectors.

/// A buffer whose front is overwritten.
pub open spec fn front<E>(buf: Seq<E>, v: Seq<E>) -> Seq<E> {
    Seq::new(
        buf.len(),
        |j: int|
            if j < v.len() {
                v[j]
            } else {
                buf[j]
            },
    )
}

/// A buffer into which `n` elements of another are copied.
pub open spec fn pasted<E>(dst: Seq<E>, at: int, src: Seq<E>, from: int, n: int) -> Seq<E> {
    Seq::new(
        dst.len(),
        |j: int|
            if at <= j < at + n {
                src[j - at + from]
            } else {
                dst[j]
            },
    )
}

/// `n` elements from `at` on.
pub open spec fn slice<E>(x: Seq<E>, at: int, n: int) -> Seq<E> {
    Seq::new(n as nat, |j: int| x[at + j])
}

pub open spec fn embedded<W, E>(
    k: Kernels<W, E>,
    format: EmbeddingFormat,
    token: u32,
    dim: int,
) -> Seq<E> {
    Seq::new(dim as nat, |j: int| (k.embed)(format, token, j))
}

/// A vector under a norm.
pub open spec fn normed<W, E>(k: Kernels<W, E>, w: W, eps: F32, x: Seq<E>) -> Seq<E> {
    Seq::new(x.len(), |j: int| (k.norm)(w, eps, x, j))
}

/// `rows` vectors of `n`, each under a norm.
pub open spec fn normed_rows<W, E>(
    k: Kernels<W, E>,
    w: W,
    eps: F32,
    rows: int,
    n: int,
    x: Seq<E>,
) -> Seq<E> {
    Seq::new((rows * n) as nat, |j: int| (k.norm)(w, eps, slice(x, (j / n) * n, n), j % n))
}

pub open spec fn layer_normed<W, E>(
    k: Kernels<W, E>,
    w: W,
    b: W,
    eps: F32,
    rows: int,
    n: int,
    x: Seq<E>,
) -> Seq<E> {
    Seq::new(
        (rows * n) as nat,
        |j: int| (k.layer_norm)(w, b, eps, slice(x, (j / n) * n, n), j % n),
    )
}

/// `rows` vectors of `n`, each times a matrix of `m` rows, where `f` gives an element of
/// a product.
pub open spec fn product_rows<W, E>(
    f: spec_fn(W, Seq<E>, int) -> E,
    w: W,
    rows: int,
    m: int,
    n: int,
    x: Seq<E>,
) -> Seq<E> {
    Seq::new((rows * m) as nat, |j: int| f(w, slice(x, (j / m) * n, n), j % m))
}

/// A vector of `n` times a matrix of `m` rows.
pub open spec fn times<W, E>(k: Kernels<W, E>, w: W, m: int, n: int, x: Seq<E>) -> Seq<E> {
    Seq::new(m as nat, |j: int| (k.times)(w, slice(x, 0, n), j))
}

/// Two vectors added up.
pub open spec fn added<W, E>(k: Kernels<W, E>, x: Seq<E>, y: Seq<E>) -> Seq<E> {
    Seq::new(x.len(), |j: int| (k.plus)(x[j], y[j]))
}

/// Two vectors multiplied, element by element.
pub open spec fn multiplied<W, E>(k: Kernels<W, E>, x: Seq<E>, y: Seq<E>) -> Seq<E> {
    Seq::new(x.len(), |j: int| (k.mul)(x[j], y[j]))
}

/// A vector under a function of its elements.
pub open spec fn mapped<E>(f: spec_fn(E) -> E, x: Seq<E>) -> Seq<E> {
    Seq::new(x.len(), |j: int| f(x[j]))
}

pub open spec fn scaled<W, E>(k: Kernels<W, E>, by: F32, x: Seq<E>) -> Seq<E> {
    Seq::new(x.len(), |j: int| (k.scale)(by, x[j]))
}

/// Heads of `dim`, each rotated by a position.
pub open spec fn roped<W, E>(
    k: Kernels<W, E>,
    how: Rotation,
    pos: int,
    heads: int,
    dim: int,
    x: Seq<E>,
) -> Seq<E> {
    Seq::new(
        (heads * dim) as nat,
        |j: int| (k.rope)(how, pos, slice(x, (j / dim) * dim, dim), j % dim),
    )
}

/// Rows of heads of `dim`, each row rotated by a position of its own.
pub open spec fn roped_rows<W, E>(
    k: Kernels<W, E>,
    how: Rotation,
    positions: Seq<int>,
    rows: int,
    heads: int,
    dim: int,
    x: Seq<E>,
) -> Seq<E> {
    Seq::new(
        (rows * heads * dim) as nat,
        |j: int|
            (k.rope)(
                how,
                positions[j / (heads * dim)],
                slice(x, (j / dim) * dim, dim),
                j % dim,
            ),
    )
}

/// Where a cache keeps a position; a `capacity` of zero means no ring.
pub open spec fn cache_slot(pos: int, capacity: int) -> int {
    if capacity > 0 {
        pos % capacity
    } else {
        pos
    }
}

/// One side of a cache with a row at a position.
pub open spec fn stored<W, E>(
    k: Kernels<W, E>,
    form: KvForm,
    side: KvSide,
    heads: int,
    dim: int,
    x: Seq<E>,
    at: int,
    before: Side<E>,
) -> Side<E> {
    before.insert(at, (k.encode)(form, side, heads, dim, slice(x, 0, heads * dim)))
}

/// One side of a cache with the first `n` rows at positions of their own.
pub open spec fn stored_rows<W, E>(
    k: Kernels<W, E>,
    form: KvForm,
    side: KvSide,
    heads: int,
    dim: int,
    x: Seq<E>,
    positions: Seq<int>,
    capacity: int,
    n: nat,
    before: Side<E>,
) -> Side<E>
    decreases n,
{
    if n == 0 {
        before
    } else {
        let t = n - 1;
        stored(
            k,
            form,
            side,
            heads,
            dim,
            slice(x, t * (heads * dim), heads * dim),
            cache_slot(positions[t], capacity),
            stored_rows(k, form, side, heads, dim, x, positions, capacity, t as nat, before),
        )
    }
}

/// What attention gives at a position.
pub open spec fn attended<W, E>(
    k: Kernels<W, E>,
    how: Attention,
    seq_len: int,
    q: Seq<E>,
    keys: Side<E>,
    values: Side<E>,
) -> Seq<E> {
    Seq::new(
        (how.heads * how.dim) as nat,
        |j: int| (k.attend)(how, seq_len, slice(q, 0, how.heads * how.dim), keys, values, j),
    )
}

/// What attention gives for rows of queries, each up to a position of its own. Beyond
/// `max_ctx` positions it gives nothing of use.
pub open spec fn attended_rows<W, E>(
    k: Kernels<W, E>,
    how: Attention,
    positions: Seq<int>,
    max_ctx: int,
    rows: int,
    q: Seq<E>,
    keys: Side<E>,
    values: Side<E>,
) -> Seq<E> {
    let n = how.heads * how.dim;
    Seq::new(
        (rows * n) as nat,
        |j: int|
            if positions[j / n] < max_ctx {
                (k.attend)(how, positions[j / n] + 1, slice(q, (j / n) * n, n), keys, values, j % n)
            } else {
                k.junk
            },
    )
}

/// How routed rows find their experts, as contents.
pub open spec fn routed<B, E>(routing: Routing<B>, bufs: Map<B, Seq<E>>) -> Routed<E> {
    match routing {
        Routing::Indexed { indices } => Routed::Indexed { indices: bufs[indices] },
        Routing::Bucketed { offsets, list } => Routed::Bucketed {
            offsets: bufs[offsets],
            list: bufs[list],
        },
    }
}

/// A row of `rows` that finds its experts by indices has its own of them.
pub open spec fn routed_row<E>(r: Routed<E>, t: int, top_k: int) -> Routed<E> {
    match r {
        Routed::Indexed { indices } => Routed::Indexed {
            indices: slice(indices, t * top_k, top_k),
        },
        _ => r,
    }
}

// Steps.

/// Contents with the front of a buffer overwritten.
pub open spec fn put<B, E>(m: Machine<B, E>, b: B, v: Seq<E>) -> Machine<B, E> {
    Machine { bufs: m.bufs.insert(b, front(m.bufs[b], v)), ..m }
}

/// Contents with a buffer replaced.
pub open spec fn set<B, E>(m: Machine<B, E>, b: B, v: Seq<E>) -> Machine<B, E> {
    Machine { bufs: m.bufs.insert(b, v), ..m }
}

pub open spec fn put_ropes<B, W, E>(
    k: Kernels<W, E>,
    m: Machine<B, E>,
    how: Rotation,
    pos: int,
    q: B,
    q_heads: int,
    key: B,
    k_heads: int,
    dim: int,
) -> Machine<B, E> {
    let a = put(m, q, roped(k, how, pos, q_heads, dim, m.bufs[q]));
    put(a, key, roped(k, how, pos, k_heads, dim, a.bufs[key]))
}

pub open spec fn store_side<B, W, E>(
    k: Kernels<W, E>,
    m: Machine<B, E>,
    at: (CacheKind, usize),
    form: KvForm,
    side: KvSide,
    heads: int,
    dim: int,
    src: B,
    slot: int,
) -> Machine<B, E> {
    match side {
        KvSide::Keys => Machine {
            keys: m.keys.insert(
                at,
                stored(k, form, side, heads, dim, m.bufs[src], slot, m.keys[at]),
            ),
            ..m
        },
        KvSide::Values => Machine {
            values: m.values.insert(
                at,
                stored(k, form, side, heads, dim, m.bufs[src], slot, m.values[at]),
            ),
            ..m
        },
    }
}

/// What one operation does.
pub open spec fn step<B, W, E>(k: Kernels<W, E>, m: Machine<B, E>, op: Op<B, W>) -> Machine<B, E> {
    let at = |b: B| m.bufs[b];
    match op {
        Op::Alloc { buf, elems } => set(m, buf, Seq::new(elems as nat, |j: int| k.junk)),
        Op::AllocBytes { buf, bytes } => set(m, buf, Seq::new((bytes / 4) as nat, |j: int| k.junk)),
        Op::Free { buf } => set(m, buf, Seq::empty()),
        Op::FreeWeight { .. } => m,
        Op::Copy { dst, dst_off, src, src_off, bytes } => set(
            m,
            dst,
            pasted(
                at(dst),
                dst_off as int / 4,
                at(src),
                src_off as int / 4,
                bytes as int / 4,
            ),
        ),
        Op::Zero { buf, bytes } => put(m, buf, Seq::new((bytes / 4) as nat, |j: int| k.zero)),
        Op::Upload { buf, elems } => Machine {
            positions: m.positions.insert(buf, (m.host_positions)(buf)),
            ..put(m, buf, slice((m.host)(buf), 0, elems as int))
        },
        Op::Download { buf } => Machine { out: m.out.push(at(buf)), ..m },
        Op::SetPos { pos, .. } => Machine { pos: pos as int, ..m },
        Op::SetPositions { buf, start, n } => Machine {
            positions: m.positions.insert(buf, Seq::new(n as nat, |t: int| start + t)),
            ..m
        },
        Op::Embed { format, token, out, dim } => put(
            m,
            out,
            embedded(k, format, token, dim as int),
        ),
        Op::RmsNorm { x, w, out, eps } => put(m, out, normed(k, w, eps, at(x))),
        Op::RmsNormRows { x, w, out, rows, n, eps } => put(
            m,
            out,
            normed_rows(k, w, eps, rows as int, n as int, at(x)),
        ),
        Op::LayerNormRows { x, w, b, out, rows, n, eps } => put(
            m,
            out,
            layer_normed(k, w, b, eps, rows as int, n as int, at(x)),
        ),
        Op::Gemv { w, x, y, m: r, k: n } => put(m, y, times(k, w, r as int, n as int, at(x))),
        Op::Gemm { w, x, y, m: r, k: n, rows } => put(
            m,
            y,
            product_rows(k.times, w, rows as int, r as int, n as int, at(x)),
        ),
        Op::GemmF32 { w, x, y, m: r, k: n, rows } => put(
            m,
            y,
            product_rows(k.times_f32, w, rows as int, r as int, n as int, at(x)),
        ),
        Op::GemmHfq4 { w, x, y, m: r, k: n, rows } => put(
            m,
            y,
            product_rows(k.times_hfq4, w, rows as int, r as int, n as int, at(x)),
        ),
        Op::GemmF16 { w, x, y, m: r, k: n, rows } => put(
            m,
            y,
            transposed(
                product_rows(k.times_f16, w, rows as int, r as int, n as int, at(x)),
                rows as int,
                r as int,
            ),
        ),
        Op::Transpose { x, out, rows, cols } => put(
            m,
            out,
            transposed(at(x), rows as int, cols as int),
        ),
        Op::BiasAdd { x, b, rows, n } => put(m, x, biased(k, b, rows as int, n as int, at(x))),
        Op::Rotate { x, out, k: n, rows } => put(
            m,
            out,
            rotated_rows(k, rows as int, n as int, at(x)),
        ),
        Op::Sigmoid { x } => set(m, x, mapped(k.sigmoid, at(x))),
        Op::AlphaGate { x, dt_bias, a_log, n } => put(
            m,
            x,
            alpha_gated(k, dt_bias, a_log, n as int, at(x)),
        ),
        Op::ConvSilu { x, w, out, state, channels } => Machine {
            conv: m.conv.insert(
                state,
                (k.conv_state)(w, m.conv[state], slice(at(x), 0, channels as int)),
            ),
            ..put(m, out, convolved(k, w, m.conv[state], channels as int, at(x)))
        },
        Op::L2Norm { x, heads, dim, eps } => put(
            m,
            x,
            l2_normed(k, eps, heads as int, dim as int, at(x)),
        ),
        Op::Scale { x, by } => set(m, x, scaled(k, by, at(x))),
        Op::DeltaStep { quant, q, k: key, v, alpha, beta, out, state, heads, dim } => {
            let input = DeltaInput {
                quant,
                heads: heads as int,
                dim: dim as int,
                q: slice(at(q), 0, heads * dim),
                k: slice(at(key), 0, heads * dim),
                v: slice(at(v), 0, heads * dim),
                alpha: slice(at(alpha), 0, heads as int),
                beta: slice(at(beta), 0, heads as int),
            };
            Machine {
                states: m.states.insert(state, (k.delta_state)(input, m.states[state])),
                ..put(m, out, delta_out(k, input, m.states[state]))
            }
        },
        Op::GatedNorm { x, z, w, out, heads, dim, eps } => put(
            m,
            out,
            gated(k, w, eps, heads as int, dim as int, at(x), at(z)),
        ),
        Op::AddTo { x, y } => set(m, x, added(k, at(x), at(y))),
        Op::AddWeight { x, w } => set(m, x, weight_added(k, w, at(x))),
        Op::ScaledAddTo { x, y, by } => set(m, x, added(k, at(x), scaled(k, by, at(y)))),
        Op::Add { a, b, out } => put(m, out, added(k, at(a), at(b))),
        Op::Mul { a, b, out } => put(m, out, multiplied(k, at(a), at(b))),
        Op::SiluMul { a, b, out } => put(m, out, multiplied(k, mapped(k.silu, at(a)), at(b))),
        Op::GeluTanh { x, out, n } => put(m, out, mapped(k.gelu, slice(at(x), 0, n as int))),
        Op::Rope { q, k: key, q_heads, k_heads, dim, theta } => put_ropes(
            k,
            m,
            Rotation::Plain { theta },
            m.pos,
            q,
            q_heads as int,
            key,
            k_heads as int,
            dim as int,
        ),
        Op::RopeInterleaved { q, k: key, pos, q_heads, k_heads, dim, n_rot, theta } => put_ropes(
            k,
            m,
            Rotation::Interleaved { n_rot: n_rot as int, theta },
            pos as int,
            q,
            q_heads as int,
            key,
            k_heads as int,
            dim as int,
        ),
        Op::RopeHalved { q, k: key, q_heads, k_heads, dim, pairs, theta } => put_ropes(
            k,
            m,
            Rotation::Halved { pairs: pairs as int, theta },
            m.pos,
            q,
            q_heads as int,
            key,
            k_heads as int,
            dim as int,
        ),
        Op::RopeRows { q, k: key, positions, q_heads, k_heads, dim, theta, rows } => {
            let how = Rotation::Plain { theta };
            let p = m.positions[positions];
            let a = put(
                m,
                q,
                roped_rows(k, how, p, rows as int, q_heads as int, dim as int, at(q)),
            );
            put(
                a,
                key,
                roped_rows(k, how, p, rows as int, k_heads as int, dim as int, a.bufs[key]),
            )
        },
        Op::KvStore { cache, form, side, layer, src, heads, dim } => store_side(
            k,
            m,
            (cache, layer),
            form,
            side,
            heads as int,
            dim as int,
            src,
            m.pos,
        ),
        Op::KvStorePair { cache, form, layer, k: key, v, heads, dim, capacity } => {
            let slot = cache_slot(m.pos, capacity as int);
            let a = store_side(
                k,
                m,
                (cache, layer),
                form,
                KvSide::Keys,
                heads as int,
                dim as int,
                key,
                slot,
            );
            store_side(
                k,
                a,
                (cache, layer),
                form,
                KvSide::Values,
                heads as int,
                dim as int,
                v,
                slot,
            )
        },
        Op::Attend {
            cache,
            form,
            layer,
            q,
            out,
            seq_len,
            heads,
            kv_heads,
            dim,
            max_seq,
            window,
            capacity,
        } => put(
            m,
            out,
            attended(
                k,
                Attention {
                    form,
                    heads: heads as int,
                    kv_heads: kv_heads as int,
                    dim: dim as int,
                    max_seq: max_seq as int,
                    window: window as int,
                    capacity: capacity as int,
                },
                seq_len as int,
                at(q),
                m.keys[(cache, layer)],
                m.values[(cache, layer)],
            ),
        ),
        Op::KvStoreRows { cache, form, layer, k: key, v, positions, heads, dim, rows, capacity } => {
            let at = (cache, layer);
            let p = m.positions[positions];
            Machine {
                keys: m.keys.insert(
                    at,
                    stored_rows(
                        k,
                        form,
                        KvSide::Keys,
                        heads as int,
                        dim as int,
                        m.bufs[key],
                        p,
                        capacity as int,
                        rows as nat,
                        m.keys[at],
                    ),
                ),
                values: m.values.insert(
                    at,
                    stored_rows(
                        k,
                        form,
                        KvSide::Values,
                        heads as int,
                        dim as int,
                        m.bufs[v],
                        p,
                        capacity as int,
                        rows as nat,
                        m.values[at],
                    ),
                ),
                ..m
            }
        },
        Op::AttendRows {
            cache,
            form,
            layer,
            q,
            out,
            positions,
            heads,
            kv_heads,
            dim,
            max_seq,
            max_ctx,
            rows,
            window,
            capacity,
        } => put(
            m,
            out,
            attended_rows(
                k,
                Attention {
                    form,
                    heads: heads as int,
                    kv_heads: kv_heads as int,
                    dim: dim as int,
                    max_seq: max_seq as int,
                    window: window as int,
                    capacity: capacity as int,
                },
                m.positions[positions],
                max_ctx as int,
                rows as int,
                at(q),
                m.keys[(cache, layer)],
                m.values[(cache, layer)],
            ),
        ),
        Op::CrossAttend { q, k: key, v, out, rows, keys, heads, kv_heads, dim } => put(
            m,
            out,
            cross_attended(
                k,
                rows as int,
                keys as int,
                heads as int,
                kv_heads as int,
                dim as int,
                at(q),
                at(key),
                at(v),
            ),
        ),
        Op::VitAttend { qkv, out, n, hidden, heads, dim } => put(
            m,
            out,
            vit_attended(k, n as int, hidden as int, heads as int, dim as int, at(qkv)),
        ),
        Op::Softcap { x, n, cap } => put(
            m,
            x,
            mapped(|e: E| (k.softcap)(cap, e), slice(at(x), 0, n as int)),
        ),
        Op::RouteTop8 { logits, indices, weights, experts, rows } => {
            let a = put(
                m,
                indices,
                chosen_rows(k.top_index, rows as int, experts as int, at(logits)),
            );
            put(a, weights, chosen_rows(k.top_weight, rows as int, experts as int, at(logits)))
        },
        Op::RouteBuckets { indices, offsets, list, rows, top_k, experts } => {
            let n = rows * top_k;
            let x = slice(at(indices), 0, n);
            let a = put(
                m,
                offsets,
                Seq::new(
                    (experts + 1) as nat,
                    |j: int| (k.offsets)(top_k as int, experts as int, x, j),
                ),
            );
            put(a, list, Seq::new(n as nat, |j: int| (k.list)(top_k as int, experts as int, x, j)))
        },
        Op::ExpertsGateUp { experts, routing, x, gate, up, m: r, k: n, top_k, rows } => {
            let by = routed(routing, m.bufs);
            let half = r as int / 2;
            let a = put(
                m,
                gate,
                expert_rows(
                    k.expert_gate,
                    experts,
                    by,
                    rows as int,
                    top_k as int,
                    half,
                    n as int,
                    at(x),
                ),
            );
            put(
                a,
                up,
                expert_rows(
                    k.expert_up,
                    experts,
                    by,
                    rows as int,
                    top_k as int,
                    half,
                    n as int,
                    at(x),
                ),
            )
        },
        Op::ExpertsDown { experts, dtype, scale, routing, weights, x, out, m: r, k: n, top_k, rows } => put(
            m,
            out,
            added(
                k,
                slice(at(out), 0, rows * r),
                expert_sums(
                    k,
                    experts,
                    dtype,
                    scale,
                    routed(routing, m.bufs),
                    rows as int,
                    top_k as int,
                    r as int,
                    n as int,
                    at(weights),
                    at(x),
                ),
            ),
        ),
        Op::RouteOnHost { .. } => m,
        Op::Sync => m,
    }
}

/// A vector under the rotation of rotated weights, row by row.
pub open spec fn rotated_rows<W, E>(k: Kernels<W, E>, rows: int, n: int, x: Seq<E>) -> Seq<E> {
    Seq::new((rows * n) as nat, |j: int| (k.rotate)(slice(x, (j / n) * n, n), j % n))
}

/// A matrix of `rows` by `cols`, turned.
pub open spec fn transposed<E>(x: Seq<E>, rows: int, cols: int) -> Seq<E> {
    Seq::new((rows * cols) as nat, |j: int| x[(j % rows) * cols + j / rows])
}

/// Rows of `n` with a bias added to each.
pub open spec fn biased<W, E>(k: Kernels<W, E>, b: W, rows: int, n: int, x: Seq<E>) -> Seq<E> {
    Seq::new((rows * n) as nat, |j: int| (k.plus)(x[j], (k.weight)(b, j % n)))
}

/// A vector plus a weight.
pub open spec fn weight_added<W, E>(k: Kernels<W, E>, w: W, x: Seq<E>) -> Seq<E> {
    Seq::new(x.len(), |j: int| (k.plus)(x[j], (k.weight)(w, j)))
}

/// The decay of each head.
pub open spec fn alpha_gated<W, E>(
    k: Kernels<W,
    E>,
    dt_bias: W,
    a_log: W,
    n: int,
    x: Seq<E>,
) -> Seq<
    E,
> {
    Seq::new(n as nat, |j: int| (k.alpha_gate)(dt_bias, a_log, x[j], j))
}

pub open spec fn convolved<W, E>(
    k: Kernels<W, E>,
    w: W,
    state: Seq<E>,
    channels: int,
    x: Seq<E>,
) -> Seq<E> {
    Seq::new(channels as nat, |j: int| (k.conv)(w, state, slice(x, 0, channels), j))
}

pub open spec fn l2_normed<W, E>(
    k: Kernels<W,
    E>,
    eps: F32,
    heads: int,
    dim: int,
    x: Seq<E>,
) -> Seq<
    E,
> {
    Seq::new((heads * dim) as nat, |j: int| (k.l2)(eps, slice(x, (j / dim) * dim, dim), j % dim))
}

pub open spec fn delta_out<W, E>(k: Kernels<W, E>, input: DeltaInput<E>, state: Seq<E>) -> Seq<E> {
    Seq::new((input.heads * input.dim) as nat, |j: int| (k.delta)(input, state, j))
}

pub open spec fn gated<W, E>(
    k: Kernels<W, E>,
    w: W,
    eps: F32,
    heads: int,
    dim: int,
    x: Seq<E>,
    z: Seq<E>,
) -> Seq<E> {
    Seq::new(
        (heads * dim) as nat,
        |j: int|
            (k.gated_norm)(
                w,
                eps,
                slice(x, (j / dim) * dim, dim),
                slice(z, (j / dim) * dim, dim),
                j % dim,
            ),
    )
}

pub open spec fn cross_attended<W, E>(
    k: Kernels<W, E>,
    rows: int,
    keys: int,
    heads: int,
    kv_heads: int,
    dim: int,
    q: Seq<E>,
    key: Seq<E>,
    v: Seq<E>,
) -> Seq<E> {
    Seq::new(
        (rows * heads * dim) as nat,
        |j: int|
            (k.cross)(
                heads,
                kv_heads,
                dim,
                slice(q, (j / (heads * dim)) * (heads * dim), heads * dim),
                slice(key, 0, keys * kv_heads * dim),
                slice(v, 0, keys * kv_heads * dim),
                j % (heads * dim),
            ),
    )
}

/// Self-attention of `n` image patches, from their queries, keys and values.
pub open spec fn vit_attended<W, E>(
    k: Kernels<W, E>,
    n: int,
    hidden: int,
    heads: int,
    dim: int,
    qkv: Seq<E>,
) -> Seq<E> {
    Seq::new(
        (n * hidden) as nat,
        |j: int| (k.vit)(n, heads, dim, slice(qkv, 0, n * (3 * hidden)), j),
    )
}

/// The eight choices of each row.
pub open spec fn chosen_rows<E>(f: spec_fn(Seq<E>, int) -> E, rows: int, n: int, x: Seq<E>) -> Seq<
    E,
> {
    Seq::new((rows * 8) as nat, |j: int| f(slice(x, (j / 8) * n, n), j % 8))
}

/// What the routed experts make of each row.
pub open spec fn expert_rows<W, E>(
    f: spec_fn(W, Routed<E>, int, Seq<E>, int) -> E,
    w: W,
    by: Routed<E>,
    rows: int,
    top_k: int,
    m: int,
    n: int,
    x: Seq<E>,
) -> Seq<E> {
    Seq::new(
        (rows * top_k * m) as nat,
        |j: int|
            f(
                w,
                routed_row(by, j / (top_k * m), top_k),
                (j / m) % top_k,
                slice(x, (j / (top_k * m)) * n, n),
                j % m,
            ),
    )
}

/// What the routed experts give each row, added up under their weights.
pub open spec fn expert_sums<W, E>(
    k: Kernels<W, E>,
    w: W,
    dtype: DType,
    scale: W,
    by: Routed<E>,
    rows: int,
    top_k: int,
    m: int,
    n: int,
    weights: Seq<E>,
    x: Seq<E>,
) -> Seq<E> {
    Seq::new(
        (rows * m) as nat,
        |j: int|
            (k.expert_down)(
                w,
                dtype,
                scale,
                routed_row(by, j / m, top_k),
                slice(weights, (j / m) * top_k, top_k),
                top_k,
                n,
                slice(x, (j / m) * (top_k * n), top_k * n),
                j % m,
            ),
    )
}

/// The contents after the first `n` operations.
pub open spec fn run<B, W, E>(
    k: Kernels<W, E>,
    ops: Seq<Op<B, W>>,
    n: nat,
    m: Machine<B, E>,
) -> Machine<B, E>
    decreases n,
{
    if n == 0 {
        m
    } else {
        step(k, run(k, ops, (n - 1) as nat, m), ops[n - 1])
    }
}

/// The contents after a list of operations.
pub open spec fn after<B, W, E>(k: Kernels<W, E>, ops: Seq<Op<B, W>>, m: Machine<B, E>) -> Machine<
    B,
    E,
> {
    run(k, ops, ops.len(), m)
}

proof fn lemma_run_prefix<B, W, E>(
    k: Kernels<W, E>,
    a: Seq<Op<B, W>>,
    b: Seq<Op<B, W>>,
    n: nat,
    m: Machine<B, E>,
)
    requires
        n <= a.len(),
        n <= b.len(),
        forall|i: int| 0 <= i < n ==> a[i] == #[trigger] b[i],
    ensures
        run(k, a, n, m) == run(k, b, n, m),
    decreases n,
{
    if n > 0 {
        lemma_run_prefix(k, a, b, (n - 1) as nat, m);
        assert(a[n - 1] == b[n - 1]);
    }
}

proof fn lemma_run_concat<B, W, E>(
    k: Kernels<W, E>,
    a: Seq<Op<B, W>>,
    b: Seq<Op<B, W>>,
    n: nat,
    m: Machine<B, E>,
)
    requires
        n <= b.len(),
    ensures
        run(k, a + b, a.len() + n, m) == run(k, b, n, after(k, a, m)),
    decreases n,
{
    if n == 0 {
        lemma_run_prefix(k, a + b, a, a.len(), m);
    } else {
        lemma_run_concat(k, a, b, (n - 1) as nat, m);
        assert((a + b)[a.len() + n - 1] == b[n - 1]);
    }
}

/// One list after the other.
pub proof fn lemma_after_concat<B, W, E>(
    k: Kernels<W, E>,
    a: Seq<Op<B, W>>,
    b: Seq<Op<B, W>>,
    m: Machine<B, E>,
)
    ensures
        after(k, a + b, m) == after(k, b, after(k, a, m)),
{
    lemma_run_concat(k, a, b, b.len(), m);
}

pub proof fn lemma_after_empty<B, W, E>(k: Kernels<W, E>, m: Machine<B, E>)
    ensures
        after(k, Seq::<Op<B, W>>::empty(), m) == m,
{
}

/// A list and one operation more.
pub proof fn lemma_after_push<B, W, E>(
    k: Kernels<W, E>,
    a: Seq<Op<B, W>>,
    op: Op<B, W>,
    m: Machine<B, E>,
)
    ensures
        after(k, a.push(op), m) == step(k, after(k, a, m), op),
{
    lemma_run_prefix(k, a.push(op), a, a.len(), m);
}

/// A buffer that is overwritten whole.
pub proof fn lemma_put<B, E>(m: Machine<B, E>, b: B, v: Seq<E>)
    requires
        v.len() == m.bufs[b].len(),
    ensures
        put(m, b, v) == set(m, b, v),
{
    assert(front(m.bufs[b], v) =~= v);
}

/// A whole vector.
pub proof fn lemma_slice_all<E>(x: Seq<E>, n: int)
    requires
        n == x.len(),
    ensures
        slice(x, 0, n) == x,
{
    assert(slice(x, 0, n) =~= x);
}

/// A copy that fills a buffer.
pub proof fn lemma_pasted<E>(dst: Seq<E>, src: Seq<E>, from: int, n: int)
    requires
        n == dst.len(),
    ensures
        pasted(dst, 0, src, from, n) == slice(src, from, n),
{
    assert(pasted(dst, 0, src, from, n) =~= slice(src, from, n));
}

/// Two moments that differ in buffers at most.
pub open spec fn alike<B, E>(a: Machine<B, E>, b: Machine<B, E>) -> bool {
    &&& a.host == b.host
    &&& a.host_positions == b.host_positions
    &&& a.out == b.out
    &&& a.pos == b.pos
    &&& a.positions == b.positions
    &&& a.keys == b.keys
    &&& a.values == b.values
    &&& a.conv == b.conv
    &&& a.states == b.states
}

/// A buffer whose first `n` parts of `d` elements are parts of another: part `h` is the
/// other's part `pick(h)`.
pub open spec fn gathered<E>(
    buf: Seq<E>,
    src: Seq<E>,
    d: int,
    n: int,
    pick: spec_fn(int) -> int,
) -> Seq<E> {
    Seq::new(
        buf.len(),
        |j: int|
            if j < n * d {
                src[pick(j / d) * d + j % d]
            } else {
                buf[j]
            },
    )
}

/// One part more.
pub proof fn lemma_gathered<E>(
    buf: Seq<E>,
    src: Seq<E>,
    d: int,
    n: int,
    pick: spec_fn(int) -> int,
)
    requires
        0 <= n,
        0 <= d,
    ensures
        pasted(gathered(buf, src, d, n, pick), n * d, src, pick(n) * d, d) == gathered(
            buf,
            src,
            d,
            n + 1,
            pick,
        ),
{
    let a = pasted(gathered(buf, src, d, n, pick), n * d, src, pick(n) * d, d);
    let b = gathered(buf, src, d, n + 1, pick);
    assert((n + 1) * d == n * d + d) by (nonlinear_arith);
    assert forall|j: int| 0 <= j < buf.len() implies a[j] == b[j] by {
        if n * d <= j < n * d + d {
            vstd::arithmetic::div_mod::lemma_fundamental_div_mod_converse(j, d, n, j - n * d);
        }
    }
    assert(a =~= b);
}

pub proof fn lemma_gathered_none<E>(buf: Seq<E>, src: Seq<E>, d: int, pick: spec_fn(int) -> int)
    ensures
        gathered(buf, src, d, 0, pick) == buf,
{
    assert(0 * d == 0);
    assert(gathered(buf, src, d, 0, pick) =~= buf);
}

/// A list that hands nothing to the host.
pub open spec fn silent<B, W>(ops: Seq<Op<B, W>>) -> bool {
    forall|i: int| 0 <= i < ops.len() ==> !((#[trigger] ops[i]) is Download)
}

pub proof fn lemma_silent<B, W, E>(
    k: Kernels<W, E>,
    ops: Seq<Op<B, W>>,
    n: nat,
    m: Machine<B, E>,
)
    requires
        silent(ops),
        n <= ops.len(),
    ensures
        run(k, ops, n, m).out == m.out,
    decreases n,
{
    if n > 0 {
        lemma_silent(k, ops, (n - 1) as nat, m);
        assert(!(ops[n - 1] is Download));
    }
}

// Parts of buffers.

/// The first `n` elements of a buffer.
pub open spec fn part<B, E>(m: Machine<B, E>, b: B, n: int) -> Seq<E> {
    slice(m.bufs[b], 0, n)
}

/// No buffer changes its size.
pub open spec fn same_sizes<B, E>(a: Machine<B, E>, b: Machine<B, E>) -> bool {
    forall|x: B| (#[trigger] b.bufs[x]).len() == a.bufs[x].len()
}

pub proof fn lemma_front_part<E>(buf: Seq<E>, v: Seq<E>)
    requires
        v.len() <= buf.len(),
    ensures
        slice(front(buf, v), 0, v.len() as int) == v,
{
    assert(slice(front(buf, v), 0, v.len() as int) =~= v);
}

pub proof fn lemma_row<E>(x: Seq<E>, n: int, at: int, len: int)
    requires
        0 <= at,
        0 <= len,
        at + len <= n,
    ensures
        slice(slice(x, 0, n), at, len) == slice(x, at, len),
{
    assert(slice(slice(x, 0, n), at, len) =~= slice(x, at, len));
}

/// Row `j / m` of `rows` rows of `n` lies inside them.
pub proof fn lemma_row_inside(j: int, rows: int, m: int, n: int)
    requires
        0 <= j < rows * m,
        0 <= rows,
        0 <= m,
        0 <= n,
    ensures
        m > 0,
        0 <= j / m < rows,
        0 <= j % m < m,
        0 <= (j / m) * n,
        (j / m) * n + n <= rows * n,
{
    assert(m > 0) by (nonlinear_arith)
        requires
            0 <= j < rows * m,
            0 <= m,
    ;
    let t = j / m;
    vstd::arithmetic::div_mod::lemma_fundamental_div_mod(j, m);
    vstd::arithmetic::div_mod::lemma_mod_bound(j, m);
    assert(0 <= t < rows) by (nonlinear_arith)
        requires
            j == m * t + j % m,
            0 <= j % m < m,
            0 <= j < rows * m,
    ;
    assert(0 <= t * n && t * n + n <= rows * n) by (nonlinear_arith)
        requires
            0 <= t < rows,
            0 <= n,
    ;
}

/// A product reads the rows that it takes.
pub proof fn lemma_product_part<W, E>(
    f: spec_fn(W, Seq<E>, int) -> E,
    w: W,
    rows: int,
    m: int,
    n: int,
    x: Seq<E>,
)
    requires
        0 <= rows,
        0 <= m,
        0 <= n,
    ensures
        product_rows(f, w, rows, m, n, x) == product_rows(f, w, rows, m, n, slice(x, 0, rows * n)),
        product_rows(f, w, rows, m, n, x).len() == rows * m,
{
    let y = slice(x, 0, rows * n);
    assert(0 <= rows * m) by (nonlinear_arith)
        requires
            0 <= rows,
            0 <= m,
    ;
    assert forall|j: int| 0 <= j < rows * m implies product_rows(f, w, rows, m, n, x)[j]
        == product_rows(f, w, rows, m, n, y)[j] by {
        lemma_row_inside(j, rows, m, n);
        lemma_row(x, rows * n, (j / m) * n, n);
    }
    assert(product_rows(f, w, rows, m, n, x) =~= product_rows(f, w, rows, m, n, y));
}

/// A norm reads the rows that it takes.
pub proof fn lemma_norm_part<W, E>(k: Kernels<W, E>, w: W, eps: F32, rows: int, n: int, x: Seq<E>)
    requires
        0 <= rows,
        0 <= n,
    ensures
        normed_rows(
            k,
            w,
            eps,
            rows,
            n,
            x,
        ) == normed_rows(k, w, eps, rows, n, slice(x, 0, rows * n)),
        normed_rows(k, w, eps, rows, n, x).len() == rows * n,
{
    let y = slice(x, 0, rows * n);
    assert(0 <= rows * n) by (nonlinear_arith)
        requires
            0 <= rows,
            0 <= n,
    ;
    assert forall|j: int| 0 <= j < rows * n implies normed_rows(k, w, eps, rows, n, x)[j]
        == normed_rows(k, w, eps, rows, n, y)[j] by {
        lemma_row_inside(j, rows, n, n);
        lemma_row(x, rows * n, (j / n) * n, n);
    }
    assert(normed_rows(k, w, eps, rows, n, x) =~= normed_rows(k, w, eps, rows, n, y));
}

pub proof fn lemma_rotate_part<W, E>(k: Kernels<W, E>, rows: int, n: int, x: Seq<E>)
    requires
        0 <= rows,
        0 <= n,
    ensures
        rotated_rows(k, rows, n, x) == rotated_rows(k, rows, n, slice(x, 0, rows * n)),
        rotated_rows(k, rows, n, x).len() == rows * n,
{
    let y = slice(x, 0, rows * n);
    assert(0 <= rows * n) by (nonlinear_arith)
        requires
            0 <= rows,
            0 <= n,
    ;
    assert forall|j: int| 0 <= j < rows * n implies rotated_rows(k, rows, n, x)[j]
        == rotated_rows(k, rows, n, y)[j] by {
        lemma_row_inside(j, rows, n, n);
        lemma_row(x, rows * n, (j / n) * n, n);
    }
    assert(rotated_rows(k, rows, n, x) =~= rotated_rows(k, rows, n, y));
}

/// A rotation by positions reads the rows that it takes.
pub proof fn lemma_rope_part<W, E>(
    k: Kernels<W, E>,
    how: Rotation,
    positions: Seq<int>,
    rows: int,
    heads: int,
    dim: int,
    x: Seq<E>,
)
    requires
        0 <= rows,
        0 <= heads,
        0 <= dim,
    ensures
        roped_rows(k, how, positions, rows, heads, dim, x) == roped_rows(
            k,
            how,
            positions,
            rows,
            heads,
            dim,
            slice(x, 0, rows * heads * dim),
        ),
        roped_rows(k, how, positions, rows, heads, dim, x).len() == rows * heads * dim,
{
    let n = rows * heads * dim;
    let y = slice(x, 0, n);
    assert(0 <= rows * heads && 0 <= n) by (nonlinear_arith)
        requires
            0 <= rows,
            0 <= heads,
            0 <= dim,
            n == rows * heads * dim,
    ;
    let a = roped_rows(k, how, positions, rows, heads, dim, x);
    let b = roped_rows(k, how, positions, rows, heads, dim, y);
    assert forall|j: int| 0 <= j < n implies a[j] == b[j] by {
        lemma_row_inside(j, rows * heads, dim, dim);
        lemma_row(x, n, (j / dim) * dim, dim);
    }
    assert(a =~= b);
}

/// Attention of a block reads the rows that it takes.
pub proof fn lemma_cross_part<W, E>(
    k: Kernels<W, E>,
    rows: int,
    keys: int,
    heads: int,
    kv_heads: int,
    dim: int,
    q: Seq<E>,
    key: Seq<E>,
    v: Seq<E>,
)
    requires
        0 <= rows,
        0 <= heads,
        0 <= dim,
        0 <= keys,
        0 <= kv_heads,
    ensures
        cross_attended(k, rows, keys, heads, kv_heads, dim, q, key, v) == cross_attended(
            k,
            rows,
            keys,
            heads,
            kv_heads,
            dim,
            slice(q, 0, rows * heads * dim),
            slice(key, 0, keys * kv_heads * dim),
            slice(v, 0, keys * kv_heads * dim),
        ),
        cross_attended(k, rows, keys, heads, kv_heads, dim, q, key, v).len() == rows * heads * dim,
{
    let w = heads * dim;
    let n = rows * heads * dim;
    let kn = keys * kv_heads * dim;
    assert(n == rows * w && 0 <= w && 0 <= n && 0 <= keys * kv_heads && 0 <= kn)
        by (nonlinear_arith)
        requires
            0 <= rows,
            0 <= heads,
            0 <= dim,
            0 <= keys,
            0 <= kv_heads,
            w == heads * dim,
            n == rows * heads * dim,
            kn == keys * kv_heads * dim,
    ;
    let q2 = slice(q, 0, n);
    let k2 = slice(key, 0, kn);
    let v2 = slice(v, 0, kn);
    lemma_row(key, kn, 0, kn);
    lemma_row(v, kn, 0, kn);
    let a = cross_attended(k, rows, keys, heads, kv_heads, dim, q, key, v);
    let b = cross_attended(k, rows, keys, heads, kv_heads, dim, q2, k2, v2);
    assert forall|j: int| 0 <= j < n implies a[j] == b[j] by {
        lemma_row_inside(j, rows, w, w);
        lemma_row(q, n, (j / w) * w, w);
    }
    assert(a =~= b);
}

/// Parts of sums and products of vectors.
pub proof fn lemma_added_part<W, E>(k: Kernels<W, E>, x: Seq<E>, y: Seq<E>, n: int)
    requires
        0 <= n <= x.len(),
    ensures
        slice(added(k, x, y), 0, n) == added(k, slice(x, 0, n), slice(y, 0, n)),
        slice(multiplied(k, x, y), 0, n) == multiplied(k, slice(x, 0, n), slice(y, 0, n)),
        slice(multiplied(k, mapped(k.silu, x), y), 0, n) == multiplied(
            k,
            mapped(k.silu, slice(x, 0, n)),
            slice(y, 0, n),
        ),
{
    assert(slice(added(k, x, y), 0, n) =~= added(k, slice(x, 0, n), slice(y, 0, n)));
    assert(slice(multiplied(k, x, y), 0, n) =~= multiplied(k, slice(x, 0, n), slice(y, 0, n)));
    assert(slice(multiplied(k, mapped(k.silu, x), y), 0, n) =~= multiplied(
        k,
        mapped(k.silu, slice(x, 0, n)),
        slice(y, 0, n),
    ));
}

/// The front of a longer vector, written into a buffer.
pub proof fn lemma_front_of<E>(buf: Seq<E>, v: Seq<E>, n: int)
    requires
        0 <= n <= v.len(),
        n <= buf.len(),
    ensures
        slice(front(buf, v), 0, n) == slice(v, 0, n),
{
    assert(slice(front(buf, v), 0, n) =~= slice(v, 0, n));
}

// Half-precision products.

/// `rows` vectors of `n` times a half-precision matrix of `m` rows.
pub open spec fn half_product<W, E>(
    k: Kernels<W,
    E>,
    w: W,
    rows: int,
    m: int,
    n: int,
    x: Seq<E>,
) -> Seq<
    E,
> {
    product_rows(k.times_f16, w, rows, m, n, x)
}

/// The same, with a bias added to each row.
pub open spec fn linear<W, E>(
    k: Kernels<W, E>,
    w: W,
    bias: W,
    rows: int,
    m: int,
    n: int,
    x: Seq<E>,
) -> Seq<E> {
    biased(k, bias, rows, m, half_product(k, w, rows, m, n, x))
}

/// Turned twice, a matrix is as it was.
pub proof fn lemma_transposed_twice<E>(x: Seq<E>, rows: int, cols: int)
    requires
        x.len() == rows * cols,
        0 <= rows,
        0 <= cols,
    ensures
        transposed(transposed(x, rows, cols), cols, rows) == x,
{
    let t = transposed(x, rows, cols);
    let u = transposed(t, cols, rows);
    assert(rows * cols == cols * rows) by (nonlinear_arith);
    assert forall|j: int| 0 <= j < x.len() implies u[j] == x[j] by {
        lemma_row_inside(j, rows, cols, cols);
        vstd::arithmetic::div_mod::lemma_fundamental_div_mod(j, cols);
        let r = j / cols;
        let c = j % cols;
        let i = c * rows + r;
        assert(0 <= i < cols * rows) by (nonlinear_arith)
            requires
                0 <= c < cols,
                0 <= r < rows,
                i == c * rows + r,
        ;
        vstd::arithmetic::div_mod::lemma_fundamental_div_mod_converse(i, rows, c, r);
        assert(u[j] == t[i]);
        assert(t[i] == x[r * cols + c]);
        assert(r * cols + c == j) by (nonlinear_arith)
            requires
                j == cols * r + c,
        ;
    }
    assert(u =~= x);
}

// What reads the front of a buffer.

pub proof fn lemma_times_part<W, E>(k: Kernels<W, E>, w: W, m: int, n: int, x: Seq<E>)
    requires
        0 <= n,
    ensures
        times(k, w, m, n, x) == times(k, w, m, n, slice(x, 0, n)),
{
    lemma_row(x, n, 0, n);
    assert(times(k, w, m, n, x) =~= times(k, w, m, n, slice(x, 0, n)));
}

pub proof fn lemma_roped_part<W, E>(
    k: Kernels<W, E>,
    how: Rotation,
    pos: int,
    heads: int,
    dim: int,
    x: Seq<E>,
)
    requires
        0 <= heads,
        0 <= dim,
    ensures
        roped(k, how, pos, heads, dim, x) == roped(
            k,
            how,
            pos,
            heads,
            dim,
            slice(x, 0, heads * dim),
        ),
        roped(k, how, pos, heads, dim, x).len() == heads * dim,
{
    let n = heads * dim;
    let y = slice(x, 0, n);
    assert(0 <= n) by (nonlinear_arith)
        requires
            n == heads * dim,
            0 <= heads,
            0 <= dim,
    ;
    let a = roped(k, how, pos, heads, dim, x);
    let b = roped(k, how, pos, heads, dim, y);
    assert forall|j: int| 0 <= j < n implies a[j] == b[j] by {
        lemma_row_inside(j, heads, dim, dim);
        lemma_row(x, n, (j / dim) * dim, dim);
    }
    assert(a =~= b);
}

pub proof fn lemma_scaled_part<W, E>(k: Kernels<W, E>, by: F32, x: Seq<E>, at: int, n: int)
    requires
        0 <= at,
        0 <= n,
        at + n <= x.len(),
    ensures
        slice(scaled(k, by, x), at, n) == scaled(k, by, slice(x, at, n)),
{
    assert(slice(scaled(k, by, x), at, n) =~= scaled(k, by, slice(x, at, n)));
}

pub proof fn lemma_stored_part<W, E>(
    k: Kernels<W, E>,
    form: KvForm,
    side: KvSide,
    heads: int,
    dim: int,
    x: Seq<E>,
    at: int,
    before: Side<E>,
)
    requires
        0 <= heads * dim,
    ensures
        stored(k, form, side, heads, dim, x, at, before) == stored(
            k,
            form,
            side,
            heads,
            dim,
            slice(x, 0, heads * dim),
            at,
            before,
        ),
{
    lemma_row(x, heads * dim, 0, heads * dim);
}

pub proof fn lemma_attended_part<W, E>(
    k: Kernels<W, E>,
    how: Attention,
    seq_len: int,
    q: Seq<E>,
    keys: Side<E>,
    values: Side<E>,
)
    requires
        0 <= how.heads * how.dim,
    ensures
        attended(k, how, seq_len, q, keys, values) == attended(
            k,
            how,
            seq_len,
            slice(q, 0, how.heads * how.dim),
            keys,
            values,
        ),
        attended(k, how, seq_len, q, keys, values).len() == how.heads * how.dim,
{
    let n = how.heads * how.dim;
    lemma_row(q, n, 0, n);
    assert(attended(k, how, seq_len, q, keys, values) =~= attended(
        k,
        how,
        seq_len,
        slice(q, 0, n),
        keys,
        values,
    ));
}

} // verus!
