//! What operations on rows do to each row.

use vstd::prelude::*;

use crate::float::F32;
use crate::meaning::{Attention, Kernels, Rotation, Routed, Side};
use crate::quant::DType;

verus! {

/// Row `t` of rows of `n`.
pub open spec fn row<E>(x: Seq<E>, t: int, n: int) -> Seq<E> {
    crate::meaning::slice(x, t * n, n)
}

/// Element `j` of row `t` lies inside `rows` rows of `n`.
pub proof fn lemma_inside(t: int, j: int, rows: int, n: int)
    requires
        0 <= t < rows,
        0 <= j < n,
    ensures
        0 <= t * n,
        0 <= t * n + j < rows * n,
        (t * n + j) / n == t,
        (t * n + j) % n == j,
{
    assert(0 <= t * n && t * n + n <= rows * n) by (nonlinear_arith)
        requires
            0 <= t < rows,
            0 <= n,
    ;
    vstd::arithmetic::div_mod::lemma_fundamental_div_mod_converse(t * n + j, n, t, j);
}

/// A row lies inside the rows.
pub proof fn lemma_fits(t: int, rows: int, n: int)
    requires
        0 <= t < rows,
        0 <= n,
    ensures
        0 <= t * n,
        t * n + n <= rows * n,
        0 <= rows * n,
{
    assert(0 <= t * n && t * n + n <= rows * n && 0 <= rows * n) by (nonlinear_arith)
        requires
            0 <= t < rows,
            0 <= n,
    ;
}

/// A row of what was written to the front of a buffer.
pub proof fn lemma_front_row<E>(buf: Seq<E>, v: Seq<E>, t: int, rows: int, n: int)
    requires
        0 <= t < rows,
        0 <= n,
        rows * n <= v.len() <= buf.len(),
    ensures
        row(crate::meaning::front(buf, v), t, n) == row(v, t, n),
{
    lemma_fits(t, rows, n);
    assert(row(crate::meaning::front(buf, v), t, n) =~= row(v, t, n));
}

/// A row of a copy from the front to the front.
pub proof fn lemma_pasted_row<E>(dst: Seq<E>, src: Seq<E>, t: int, rows: int, n: int)
    requires
        0 <= t < rows,
        0 <= n,
        rows * n <= dst.len(),
    ensures
        row(crate::meaning::pasted(dst, 0, src, 0, rows * n), t, n) == row(src, t, n),
{
    lemma_fits(t, rows, n);
    assert(row(crate::meaning::pasted(dst, 0, src, 0, rows * n), t, n) =~= row(src, t, n));
}

/// A row of what is done element by element.
pub proof fn lemma_elements_row<W, E>(
    k: Kernels<W, E>,
    by: F32,
    f: spec_fn(E) -> E,
    x: Seq<E>,
    y: Seq<E>,
    t: int,
    rows: int,
    n: int,
)
    requires
        0 <= t < rows,
        0 <= n,
        rows * n <= x.len(),
    ensures
        row(crate::meaning::added(k, x, y), t, n) == crate::meaning::added(
            k,
            row(x, t, n),
            row(y, t, n),
        ),
        row(crate::meaning::multiplied(k, x, y), t, n) == crate::meaning::multiplied(
            k,
            row(x, t, n),
            row(y, t, n),
        ),
        row(crate::meaning::mapped(f, crate::meaning::slice(x, 0, rows * n)), t, n)
            == crate::meaning::mapped(f, row(x, t, n)),
        row(crate::meaning::scaled(k, by, x), t, n) == crate::meaning::scaled(
            k,
            by,
            row(x, t, n),
        ),
{
    lemma_fits(t, rows, n);
    assert(row(crate::meaning::added(k, x, y), t, n) =~= crate::meaning::added(
        k,
        row(x, t, n),
        row(y, t, n),
    ));
    assert(row(crate::meaning::multiplied(k, x, y), t, n) =~= crate::meaning::multiplied(
        k,
        row(x, t, n),
        row(y, t, n),
    ));
    assert(row(crate::meaning::mapped(f, crate::meaning::slice(x, 0, rows * n)), t, n)
        =~= crate::meaning::mapped(f, row(x, t, n)));
    assert(row(crate::meaning::scaled(k, by, x), t, n) =~= crate::meaning::scaled(
        k,
        by,
        row(x, t, n),
    ));
}

/// Where part `j / n` of row `t` stands, when a row has `r` parts of `n`.
pub proof fn lemma_part_of_row(t: int, j: int, rows: int, r: int, n: int)
    requires
        0 <= t < rows,
        0 <= j < r * n,
        0 <= r,
        0 <= n,
    ensures
        n > 0,
        0 <= t * (r * n) + j < (rows * r) * n,
        (t * (r * n) + j) / n == t * r + j / n,
        (t * (r * n) + j) % n == j % n,
        (t * r + j / n) * n == t * (r * n) + (j / n) * n,
        0 <= (j / n) * n,
        (j / n) * n + n <= r * n,
        (t * (r * n) + j) / (r * n) == t,
{
    crate::meaning::lemma_row_inside(j, r, n, n);
    lemma_inside(t, j, rows, r * n);
    vstd::arithmetic::div_mod::lemma_fundamental_div_mod(j, n);
    let q = j / n;
    assert(t * (r * n) + j == (t * r + q) * n + j % n) by (nonlinear_arith)
        requires
            j == n * q + j % n,
    ;
    assert((rows * r) * n == rows * (r * n)) by (nonlinear_arith);
    assert((t * r + q) * n == t * (r * n) + q * n) by (nonlinear_arith);
    vstd::arithmetic::div_mod::lemma_fundamental_div_mod_converse(
        t * (r * n) + j,
        n,
        t * r + q,
        j % n,
    );
}

/// Rows of parts under a norm: each row's parts are.
pub proof fn lemma_norm_row<W, E>(
    k: Kernels<W, E>,
    w: W,
    eps: F32,
    t: int,
    rows: int,
    r: int,
    n: int,
    x: Seq<E>,
)
    requires
        0 <= t < rows,
        0 <= r,
        0 <= n,
    ensures
        row(crate::meaning::normed_rows(k, w, eps, rows * r, n, x), t, r * n)
            == crate::meaning::normed_rows(k, w, eps, r, n, row(x, t, r * n)),
{
    let a = row(crate::meaning::normed_rows(k, w, eps, rows * r, n, x), t, r * n);
    let b = crate::meaning::normed_rows(k, w, eps, r, n, row(x, t, r * n));
    assert forall|j: int| 0 <= j < r * n implies a[j] == b[j] by {
        lemma_part_of_row(t, j, rows, r, n);
        assert(crate::meaning::slice(x, (t * r + j / n) * n, n) =~= crate::meaning::slice(
            row(x, t, r * n),
            (j / n) * n,
            n,
        ));
    }
    assert(a =~= b);
}

/// Rows under a norm: each row is.
pub proof fn lemma_norm_whole_row<W, E>(
    k: Kernels<W, E>,
    w: W,
    eps: F32,
    t: int,
    rows: int,
    n: int,
    x: Seq<E>,
)
    requires
        0 <= t < rows,
        0 <= n,
    ensures
        row(crate::meaning::normed_rows(k, w, eps, rows, n, x), t, n) == crate::meaning::normed(
            k,
            w,
            eps,
            row(x, t, n),
        ),
{
    let a = row(crate::meaning::normed_rows(k, w, eps, rows, n, x), t, n);
    let b = crate::meaning::normed(k, w, eps, row(x, t, n));
    assert forall|j: int| 0 <= j < n implies a[j] == b[j] by {
        lemma_inside(t, j, rows, n);
    }
    assert(a =~= b);
}

/// Rows times a matrix: each row is.
pub proof fn lemma_product_row<W, E>(
    k: Kernels<W, E>,
    w: W,
    t: int,
    rows: int,
    m: int,
    n: int,
    x: Seq<E>,
)
    requires
        0 <= t < rows,
        0 <= m,
        0 <= n,
    ensures
        row(crate::meaning::product_rows(k.times, w, rows, m, n, x), t, m) == crate::meaning::times(
            k,
            w,
            m,
            n,
            row(x, t, n),
        ),
{
    let a = row(crate::meaning::product_rows(k.times, w, rows, m, n, x), t, m);
    let b = crate::meaning::times(k, w, m, n, row(x, t, n));
    assert(crate::meaning::slice(row(x, t, n), 0, n) =~= row(x, t, n));
    assert forall|j: int| 0 <= j < m implies a[j] == b[j] by {
        lemma_inside(t, j, rows, m);
    }
    assert(a =~= b);
}

/// Rows rotated by positions: each is by its own.
pub proof fn lemma_roped_row<W, E>(
    k: Kernels<W, E>,
    how: Rotation,
    p: Seq<int>,
    t: int,
    rows: int,
    heads: int,
    dim: int,
    x: Seq<E>,
)
    requires
        0 <= t < rows,
        0 <= heads,
        0 <= dim,
    ensures
        row(crate::meaning::roped_rows(k, how, p, rows, heads, dim, x), t, heads * dim)
            == crate::meaning::roped(k, how, p[t], heads, dim, row(x, t, heads * dim)),
{
    let n = heads * dim;
    let a = row(crate::meaning::roped_rows(k, how, p, rows, heads, dim, x), t, n);
    let b = crate::meaning::roped(k, how, p[t], heads, dim, row(x, t, n));
    assert forall|j: int| 0 <= j < n implies a[j] == b[j] by {
        lemma_part_of_row(t, j, rows, heads, dim);
        assert(crate::meaning::slice(x, (t * heads + j / dim) * dim, dim)
            =~= crate::meaning::slice(row(x, t, n), (j / dim) * dim, dim));
    }
    assert(a =~= b);
}

/// Rows of queries: each attends up to its own position.
pub proof fn lemma_attended_row<W, E>(
    k: Kernels<W, E>,
    how: Attention,
    p: Seq<int>,
    max_ctx: int,
    t: int,
    rows: int,
    q: Seq<E>,
    keys: Side<E>,
    values: Side<E>,
)
    requires
        0 <= t < rows,
        0 <= how.heads * how.dim,
        p[t] < max_ctx,
    ensures
        row(
            crate::meaning::attended_rows(k, how, p, max_ctx, rows, q, keys, values),
            t,
            how.heads * how.dim,
        ) == crate::meaning::attended(
            k,
            how,
            p[t] + 1,
            row(q, t, how.heads * how.dim),
            keys,
            values,
        ),
{
    let n = how.heads * how.dim;
    let a = row(
        crate::meaning::attended_rows(k, how, p, max_ctx, rows, q, keys, values),
        t,
        n,
    );
    let b = crate::meaning::attended(k, how, p[t] + 1, row(q, t, n), keys, values);
    assert(crate::meaning::slice(row(q, t, n), 0, n) =~= row(q, t, n));
    assert forall|j: int| 0 <= j < n implies a[j] == b[j] by {
        lemma_inside(t, j, rows, n);
    }
    assert(a =~= b);
}

/// The eight choices of a row.
pub proof fn lemma_chosen_row<E>(f: spec_fn(Seq<E>, int) -> E, t: int, rows: int, n: int, x: Seq<E>)
    requires
        0 <= t < rows,
        0 <= n,
    ensures
        row(crate::meaning::chosen_rows(f, rows, n, x), t, 8) == crate::meaning::chosen_rows(
            f,
            1,
            n,
            row(x, t, n),
        ),
{
    let a = row(crate::meaning::chosen_rows(f, rows, n, x), t, 8);
    let b = crate::meaning::chosen_rows(f, 1, n, row(x, t, n));
    assert(crate::meaning::slice(row(x, t, n), 0 * n, n) =~= row(x, t, n));
    assert forall|j: int| 0 <= j < 8 implies a[j] == b[j] by {
        lemma_inside(t, j, rows, 8);
    }
    assert(a =~= b);
}

pub proof fn lemma_rotated_row<W, E>(k: Kernels<W, E>, t: int, rows: int, n: int, x: Seq<E>)
    requires
        0 <= t < rows,
        0 <= n,
    ensures
        row(crate::meaning::rotated_rows(k, rows, n, x), t, n) == crate::meaning::rotated_rows(
            k,
            1,
            n,
            row(x, t, n),
        ),
{
    let a = row(crate::meaning::rotated_rows(k, rows, n, x), t, n);
    let b = crate::meaning::rotated_rows(k, 1, n, row(x, t, n));
    assert(crate::meaning::slice(row(x, t, n), 0 * n, n) =~= row(x, t, n));
    assert forall|j: int| 0 <= j < n implies a[j] == b[j] by {
        lemma_inside(t, j, rows, n);
        lemma_inside(0, j, 1, n);
    }
    assert(a =~= b);
}

/// What the experts of a row make of it.
pub proof fn lemma_expert_row<W, E>(
    f: spec_fn(W, Routed<E>, int, Seq<E>, int) -> E,
    w: W,
    indices: Seq<E>,
    t: int,
    rows: int,
    top: int,
    m: int,
    n: int,
    x: Seq<E>,
)
    requires
        0 <= t < rows,
        0 <= top,
        0 <= m,
        0 <= n,
    ensures
        row(
            crate::meaning::expert_rows(
                f,
                w,
                Routed::Indexed { indices },
                rows,
                top,
                m,
                n,
                x,
            ),
            t,
            top * m,
        ) == crate::meaning::expert_rows(
            f,
            w,
            Routed::Indexed { indices: row(indices, t, top) },
            1,
            top,
            m,
            n,
            row(x, t, n),
        ),
{
    let a = row(
        crate::meaning::expert_rows(f, w, Routed::Indexed { indices }, rows, top, m, n, x),
        t,
        top * m,
    );
    let own = row(indices, t, top);
    let b = crate::meaning::expert_rows(
        f,
        w,
        Routed::Indexed { indices: own },
        1,
        top,
        m,
        n,
        row(x, t, n),
    );
    assert(crate::meaning::slice(row(x, t, n), 0 * n, n) =~= row(x, t, n));
    assert(crate::meaning::slice(own, 0 * top, top) =~= own);
    assert(1 * top * m == top * m) by (nonlinear_arith);
    assert forall|j: int| 0 <= j < top * m implies a[j] == b[j] by {
        lemma_part_of_row(t, j, rows, top, m);
        lemma_part_of_row(0, j, 1, top, m);
        crate::meaning::lemma_row_inside(j, top, m, m);
        let q = j / m;
        vstd::arithmetic::div_mod::lemma_fundamental_div_mod_converse(t * top + q, top, t, q);
        vstd::arithmetic::div_mod::lemma_fundamental_div_mod_converse(q, top, 0, q);
    }
    assert(a =~= b);
}

/// What the experts of a row give, added up.
pub proof fn lemma_sums_row<W, E>(
    k: Kernels<W, E>,
    w: W,
    dtype: DType,
    scale: W,
    indices: Seq<E>,
    t: int,
    rows: int,
    top: int,
    m: int,
    n: int,
    weights: Seq<E>,
    x: Seq<E>,
)
    requires
        0 <= t < rows,
        0 <= top,
        0 <= m,
        0 <= n,
    ensures
        row(
            crate::meaning::expert_sums(
                k,
                w,
                dtype,
                scale,
                Routed::Indexed { indices },
                rows,
                top,
                m,
                n,
                weights,
                x,
            ),
            t,
            m,
        ) == crate::meaning::expert_sums(
            k,
            w,
            dtype,
            scale,
            Routed::Indexed { indices: row(indices, t, top) },
            1,
            top,
            m,
            n,
            row(weights, t, top),
            row(x, t, top * n),
        ),
{
    let a = row(
        crate::meaning::expert_sums(
            k,
            w,
            dtype,
            scale,
            Routed::Indexed { indices },
            rows,
            top,
            m,
            n,
            weights,
            x,
        ),
        t,
        m,
    );
    let own = row(indices, t, top);
    let b = crate::meaning::expert_sums(
        k,
        w,
        dtype,
        scale,
        Routed::Indexed { indices: own },
        1,
        top,
        m,
        n,
        row(weights, t, top),
        row(x, t, top * n),
    );
    assert(crate::meaning::slice(own, 0 * top, top) =~= own);
    assert(crate::meaning::slice(row(weights, t, top), 0 * top, top) =~= row(weights, t, top));
    assert(crate::meaning::slice(row(x, t, top * n), 0 * (top * n), top * n) =~= row(
        x,
        t,
        top * n,
    ));
    assert forall|j: int| 0 <= j < m implies a[j] == b[j] by {
        lemma_inside(t, j, rows, m);
        lemma_inside(0, j, 1, m);
    }
    assert(a =~= b);
}

} // verus!
