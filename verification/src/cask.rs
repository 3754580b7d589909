//! Core-aware selective compression of a key/value cache.
//!
//! When the cache outgrows its budget, the best-scored tokens stay as they are
//! (the core), and the next ones are folded, `m` at a time, into one row each.
//! Rows are Q8: per 32 elements a half-precision scale and 32 signed bytes.

use vstd::prelude::*;

use crate::float::{f16_to_f32, f32_to_f16, F32};

verus! {

/// Elements per Q8 block.
pub const Q8_BLOCK: usize = 32;

/// Bytes per Q8 block: a two-byte scale and one byte per element.
pub const Q8_BLOCK_BYTES: usize = 34;

/// Bytes of one cache row.
pub open spec fn row_len(n_kv: int, head_dim: int) -> int {
    n_kv * (head_dim / 32) * 34
}

/// A byte read as a two's complement number.
pub open spec fn signed_byte(b: u8) -> int {
    if b < 128 {
        b as int
    } else {
        b - 256
    }
}

/// Element `j` of a row lies in a whole block of its head.
pub open spec fn in_block(head_dim: int, j: int) -> bool {
    (j % head_dim) / 32 < head_dim / 32
}

/// Where the block of element `j` starts in its row.
pub open spec fn block_start(head_dim: int, j: int) -> int {
    ((j / head_dim) * (head_dim / 32) + (j % head_dim) / 32) * 34
}

/// Element `j` of a Q8 row: its block's scale times its byte.
pub open spec fn q8_element(row: Seq<u8>, head_dim: int, j: int) -> F32 {
    let at = block_start(head_dim, j);
    let scale = crate::float::of_half((row[at] + 256 * row[at + 1]) as u16);
    crate::float::product(
        scale,
        crate::float::of_int(signed_byte(row[at + 2 + (j % head_dim) % 32])),
    )
}

proof fn lemma_element_place(head_dim: int, h: int, r: int)
    requires
        head_dim > 0,
        0 <= h,
        0 <= r < head_dim,
    ensures
        (h * head_dim + r) / head_dim == h,
        (h * head_dim + r) % head_dim == r,
{
    vstd::arithmetic::div_mod::lemma_fundamental_div_mod_converse(h * head_dim + r, head_dim, h, r);
}

/// The start of block `b` of head `h`, and its end, lie inside the row.
proof fn lemma_block_inside(n_kv: int, n_blocks: int, h: int, b: int)
    requires
        0 <= h < n_kv,
        0 <= b < n_blocks,
    ensures
        0 <= (h * n_blocks + b) * 34,
        (h * n_blocks + b) * 34 + 34 <= n_kv * n_blocks * 34,
        h * n_blocks + b < n_kv * n_blocks,
        h * n_blocks >= 0,
{
    assert(h * n_blocks + b < n_kv * n_blocks && h * n_blocks >= 0) by (nonlinear_arith)
        requires
            0 <= h < n_kv,
            0 <= b < n_blocks,
    ;
}

/// Dequantizes one Q8 row into the front of `out`. Elements past the last whole
/// block of a head, and those beyond the row, keep what they were.
pub fn dequant_q8_row(row: &[u8], out: &mut Vec<F32>, n_kv: usize, head_dim: usize)
    requires
        old(out)@.len() >= n_kv * head_dim,
        row_len(n_kv as int, head_dim as int) <= row@.len(),
    ensures
        final(out)@.len() == old(out)@.len(),
        forall|j: int|
            0 <= j < final(out)@.len() ==> #[trigger] final(out)@[j] == (if j < n_kv * head_dim
                && in_block(head_dim as int, j) {
                q8_element(row@, head_dim as int, j)
            } else {
                old(out)@[j]
            }),
{
    let n_blocks: usize = head_dim / 32;
    let avail: usize = row.len();
    let total: usize = out.len();
    let ghost before = out@;
    let ghost hd = head_dim as int;
    let mut h: usize = 0;
    while h < n_kv
        invariant
            h <= n_kv,
            n_blocks == head_dim / 32,
            hd == head_dim,
            out@.len() == total,
            total >= n_kv * head_dim,
            before.len() == out@.len(),
            n_kv * n_blocks * 34 <= avail,
            avail == row@.len(),
            forall|j: int|
                0 <= j < h * head_dim ==> #[trigger] out@[j] == (if in_block(hd, j) {
                    q8_element(row@, hd, j)
                } else {
                    before[j]
                }),
            forall|j: int| h * head_dim <= j < out@.len() ==> #[trigger] out@[j] == before[j],
        decreases n_kv - h,
    {
        let mut b: usize = 0;
        proof {
            assert(h * head_dim + head_dim <= n_kv * head_dim && h * head_dim >= 0)
                by (nonlinear_arith)
                requires
                    0 <= h < n_kv,
                    head_dim >= 0,
            ;
        }
        while b < n_blocks
            invariant
                h < n_kv,
                b <= n_blocks,
                n_blocks == head_dim / 32,
                hd == head_dim,
                out@.len() == total,
            total >= n_kv * head_dim,
                before.len() == out@.len(),
                n_kv * n_blocks * 34 <= avail,
            avail == row@.len(),
                0 <= h * head_dim,
                h * head_dim + head_dim <= n_kv * head_dim,
                forall|j: int|
                    0 <= j < h * head_dim + b * 32 ==> #[trigger] out@[j] == (if in_block(hd, j) {
                        q8_element(row@, hd, j)
                    } else {
                        before[j]
                    }),
                forall|j: int|
                    h * head_dim + b * 32 <= j < out@.len() ==> #[trigger] out@[j] == before[j],
            decreases n_blocks - b,
        {
            proof {
                lemma_block_inside(n_kv as int, n_blocks as int, h as int, b as int);
            }
            let at: usize = (h * n_blocks + b) * 34;
            let scale: F32 = f16_to_f32(row[at] as u16 + 256 * row[at + 1] as u16);
            let base: usize = h * head_dim + b * 32;
            let mut q: usize = 0;
            while q < 32
                invariant
                    q <= 32,
                    h < n_kv,
                    b < n_blocks,
                    n_blocks == head_dim / 32,
                    hd == head_dim,
                    out@.len() == total,
            total >= n_kv * head_dim,
                    before.len() == out@.len(),
                    n_kv * n_blocks * 34 <= avail,
            avail == row@.len(),
                    at == (h * n_blocks + b) * 34,
                    at + 34 <= avail,
                    base == h * head_dim + b * 32,
                    0 <= h * head_dim,
                    base + 32 <= h * head_dim + head_dim <= total,
                    scale == crate::float::of_half(
                        (row@[at as int] + 256 * row@[at + 1]) as u16,
                    ),
                    forall|j: int|
                        0 <= j < base + q ==> #[trigger] out@[j] == (if in_block(hd, j) {
                            q8_element(row@, hd, j)
                        } else {
                            before[j]
                        }),
                    forall|j: int| base + q <= j < out@.len() ==> #[trigger] out@[j] == before[j],
                decreases 32 - q,
            {
                let byte: u8 = row[at + 2 + q];
                let v: i64 = if byte < 128 {
                    byte as i64
                } else {
                    byte as i64 - 256
                };
                let x: F32 = scale.times(F32::from_i64(v));
                proof {
                    let j = base + q;
                    lemma_element_place(hd, h as int, b * 32 + q);
                    assert(j == h * hd + (b * 32 + q));
                    assert((b * 32 + q) / 32 == b && (b * 32 + q) % 32 == q);
                    assert(x == q8_element(row@, hd, j));
                    assert(in_block(hd, j));
                }
                out.set(base + q, x);
                q = q + 1;
            }
            b = b + 1;
        }
        proof {
            assert((h + 1) * head_dim == h * head_dim + head_dim) by (nonlinear_arith);
            assert forall|j: int|
                h * head_dim + n_blocks * 32 <= j < (h + 1) * head_dim implies !(#[trigger] in_block(
                hd,
                j,
            )) by {
                let r = j - h * head_dim;
                lemma_element_place(hd, h as int, r);
                assert(r / 32 >= n_blocks);
            }
        }
        h = h + 1;
    }
}

/// The row of token `pos` in a cache of rows of `len` bytes.
pub open spec fn cache_row(all: Seq<u8>, pos: int, len: int) -> Seq<u8> {
    all.subrange(pos * len, (pos + 1) * len)
}

/// A whole row, dequantized; elements outside any block are zero.
pub open spec fn row_features(row: Seq<u8>, n_kv: int, head_dim: int) -> Seq<F32> {
    Seq::new(
        (n_kv * head_dim) as nat,
        |j: int|
            if in_block(head_dim, j) {
                q8_element(row, head_dim, j)
            } else {
                F32 { bits: 0 }
            },
    )
}

/// The dequantized rows of the tokens `at`.
pub open spec fn features(all: Seq<u8>, at: Seq<u32>, n_kv: int, head_dim: int) -> Seq<Seq<F32>> {
    Seq::new(
        at.len(),
        |i: int|
            row_features(
                cache_row(all, at[i] as int, row_len(n_kv, head_dim)),
                n_kv,
                head_dim,
            ),
    )
}

/// The squared distance of two rows over their first `n` elements, added up in
/// order from the neutral element, negative zero.
pub open spec fn distance(a: Seq<F32>, b: Seq<F32>, n: nat) -> F32
    decreases n,
{
    if n == 0 {
        F32 { bits: crate::float::SIGN }
    } else {
        let d = crate::float::difference(a[n - 1], b[n - 1]);
        crate::float::sum(distance(a, b, (n - 1) as nat), crate::float::product(d, d))
    }
}

/// The distances of every row from row `a`.
pub open spec fn distances(feats: Seq<Seq<F32>>, a: int) -> Seq<F32> {
    Seq::new(feats.len(), |j: int| distance(feats[a], feats[j], feats[a].len()))
}

/// Of the first `n` places, the free one at the smallest distance, the first of
/// equals; -1 where none is free.
pub open spec fn closest(dist: Seq<F32>, used: Seq<bool>, n: nat) -> int
    decreases n,
{
    if n == 0 {
        -1
    } else {
        let c = closest(dist, used, (n - 1) as nat);
        if !used[n - 1] && (c < 0 || dist[n - 1].below(dist[c])) {
            n - 1
        } else {
            c
        }
    }
}

/// Up to `k` free places, each the closest of those still free.
pub open spec fn gather(dist: Seq<F32>, used: Seq<bool>, k: nat) -> Seq<usize>
    decreases k,
{
    let c = closest(dist, used, used.len());
    if k == 0 || c < 0 {
        Seq::empty()
    } else {
        seq![c as usize] + gather(dist, used.update(c, true), (k - 1) as nat)
    }
}

/// `used` with the places in `picks` taken.
pub open spec fn taken(used: Seq<bool>, picks: Seq<usize>) -> Seq<bool> {
    Seq::new(used.len(), |i: int| used[i] || picks.contains(i as usize))
}

/// The state of the grouping once the first `n` anchors have been tried: which
/// places are taken, and the groups so far.
pub open spec fn grouping(feats: Seq<Seq<F32>>, m: nat, n: nat) -> (Seq<bool>, Seq<Seq<usize>>)
    decreases n,
{
    if n == 0 {
        (Seq::new(feats.len(), |i: int| false), Seq::empty())
    } else {
        let (used, groups) = grouping(feats, m, (n - 1) as nat);
        if used[n - 1] || groups.len() == feats.len() / m {
            (used, groups)
        } else {
            let first = used.update(n - 1, true);
            let picks = gather(distances(feats, n - 1), first, (m - 1) as nat);
            let group = seq![(n - 1) as usize] + picks;
            (
                taken(first, picks),
                if group.len() == m {
                    groups.push(group)
                } else {
                    groups
                },
            )
        }
    }
}

/// The groups of all the rows: anchors in order, each with its nearest free
/// neighbours.
pub open spec fn groups_of(feats: Seq<Seq<F32>>, m: nat) -> Seq<Seq<usize>> {
    grouping(feats, m, feats.len()).1
}

pub open spec fn group_views(groups: Seq<Vec<usize>>) -> Seq<Seq<usize>> {
    Seq::new(groups.len(), |i: int| groups[i]@)
}

proof fn lemma_closest(dist: Seq<F32>, used: Seq<bool>, n: nat)
    requires
        n <= used.len(),
    ensures
        -1 <= closest(dist, used, n) < n,
        closest(dist, used, n) >= 0 ==> !used[closest(dist, used, n)],
        closest(dist, used, n) < 0 ==> forall|j: int| 0 <= j < n ==> used[j],
    decreases n,
{
    if n > 0 {
        lemma_closest(dist, used, (n - 1) as nat);
    }
}

/// Where every distance is a number, the closest place is free, no free place is
/// closer, and earlier free places are farther.
pub proof fn lemma_closest_is_nearest(dist: Seq<F32>, used: Seq<bool>, n: nat, j: int)
    requires
        0 <= j < n <= used.len(),
        n <= dist.len(),
        !used[j],
        forall|i: int| 0 <= i < n ==> !(#[trigger] dist[i]).nan(),
    ensures
        ({
            let c = closest(dist, used, n);
            &&& 0 <= c < n
            &&& !used[c]
            &&& !dist[j].below(dist[c])
            &&& j < c ==> dist[c].below(dist[j])
        }),
    decreases n,
{
    lemma_closest(dist, used, n);
    lemma_closest(dist, used, (n - 1) as nat);
    let c = closest(dist, used, (n - 1) as nat);
    if j < n - 1 {
        lemma_closest_is_nearest(dist, used, (n - 1) as nat, j);
    }
}

/// The free place that is closest, if any is free.
fn closest_free(dist: &Vec<F32>, used: &Vec<bool>) -> (r: Option<usize>)
    requires
        dist@.len() == used@.len(),
    ensures
        match r {
            Some(c) => c == closest(dist@, used@, used@.len()),
            None => closest(dist@, used@, used@.len()) < 0,
        },
{
    let n: usize = used.len();
    let mut best: Option<usize> = None;
    let mut i: usize = 0;
    while i < n
        invariant
            i <= n,
            n == used@.len(),
            dist@.len() == n,
            match best {
                Some(c) => c == closest(dist@, used@, i as nat) && c < i,
                None => closest(dist@, used@, i as nat) < 0,
            },
        decreases n - i,
    {
        if !used[i] {
            let better: bool = match best {
                Some(c) => dist[i].lt(dist[c]),
                None => true,
            };
            if better {
                best = Some(i);
            }
        }
        i = i + 1;
    }
    best
}

/// The squared distance of two rows.
fn squared_distance(a: &Vec<F32>, b: &Vec<F32>) -> (r: F32)
    requires
        a@.len() == b@.len(),
    ensures
        r == distance(a@, b@, a@.len()),
{
    let mut acc: F32 = F32::zero().neg();
    let mut i: usize = 0;
    while i < a.len()
        invariant
            i <= a@.len(),
            a@.len() == b@.len(),
            acc == distance(a@, b@, i as nat),
        decreases a@.len() - i,
    {
        let d: F32 = a[i].minus(b[i]);
        acc = acc.plus(d.times(d));
        i = i + 1;
    }
    acc
}

/// A vector of `n` zeros.
pub fn zeros(n: usize) -> (v: Vec<F32>)
    ensures
        v@ == Seq::new(n as nat, |i: int| F32 { bits: 0 }),
{
    let mut v: Vec<F32> = Vec::with_capacity(n);
    let mut i: usize = 0;
    while i < n
        invariant
            i <= n,
            v@.len() == i,
            forall|k: int| 0 <= k < i ==> #[trigger] v@[k] == (F32 { bits: 0 }),
        decreases n - i,
    {
        v.push(F32::zero());
        i = i + 1;
    }
    v
}

/// A copy of the bytes of row `pos`.
fn copy_row(all: &[u8], pos: usize, len: usize) -> (row: Vec<u8>)
    requires
        (pos + 1) * len <= all@.len(),
    ensures
        row@ == cache_row(all@, pos as int, len as int),
{
    let avail: usize = all.len();
    let mut row: Vec<u8> = Vec::with_capacity(len);
    let mut i: usize = 0;
    proof {
        assert((pos + 1) * len == pos * len + len && pos * len >= 0) by (nonlinear_arith)
            requires
                pos >= 0,
                len >= 0,
        ;
    }
    let base: usize = pos * len;
    while i < len
        invariant
            i <= len,
            base == pos * len,
            base + len <= avail,
            avail == all@.len(),
            row@.len() == i,
            forall|k: int| 0 <= k < i ==> #[trigger] row@[k] == all@[base + k],
        decreases len - i,
    {
        row.push(all[base + i]);
        i = i + 1;
    }
    proof {
        assert((pos + 1) * len == pos * len + len) by (nonlinear_arith);
        assert(row@ =~= cache_row(all@, pos as int, len as int));
    }
    row
}

/// One row of the cache, dequantized.
fn dequant_at(all: &[u8], pos: usize, n_kv: usize, head_dim: usize) -> (f: Vec<F32>)
    requires
        n_kv * head_dim <= usize::MAX,
        row_len(n_kv as int, head_dim as int) <= usize::MAX,
        (pos + 1) * row_len(n_kv as int, head_dim as int) <= all@.len(),
    ensures
        f@ == row_features(
            cache_row(all@, pos as int, row_len(n_kv as int, head_dim as int)),
            n_kv as int,
            head_dim as int,
        ),
{
    proof {
        let a = n_kv * (head_dim as int / 32);
        assert(0 <= a <= a * 34) by (nonlinear_arith)
            requires
                a == n_kv * (head_dim as int / 32),
                n_kv >= 0,
                head_dim as int / 32 >= 0,
        ;
    }
    let row: Vec<u8> = copy_row(all, pos, n_kv * (head_dim / 32) * 34);
    let mut f: Vec<F32> = zeros(n_kv * head_dim);
    proof {
        let l = row_len(n_kv as int, head_dim as int);
        assert((pos + 1) * l == pos * l + l) by (nonlinear_arith);
    }
    dequant_q8_row(&row, &mut f, n_kv, head_dim);
    proof {
        assert(f@ =~= row_features(row@, n_kv as int, head_dim as int));
    }
    f
}

/// Greedy nearest-neighbour grouping of the tokens `scratch_idx`, in the order
/// given: each token not yet in a group becomes an anchor and takes the `m - 1`
/// free tokens whose dequantized keys are closest. Groups hold places in
/// `scratch_idx`.
pub fn greedy_group_by_l2(
    k_all: &[u8],
    scratch_idx: &[u32],
    n_kv: usize,
    head_dim: usize,
    m: usize,
) -> (groups: Vec<Vec<usize>>)
    requires
        m >= 1,
        n_kv * head_dim <= usize::MAX,
        row_len(n_kv as int, head_dim as int) <= usize::MAX,
        forall|i: int|
            0 <= i < scratch_idx@.len() ==> (#[trigger] scratch_idx@[i] + 1) * row_len(
                n_kv as int,
                head_dim as int,
            ) <= k_all@.len(),
    ensures
        group_views(groups@) == groups_of(
            features(k_all@, scratch_idx@, n_kv as int, head_dim as int),
            m as nat,
        ),
{
    let n: usize = scratch_idx.len();
    let ghost target = features(k_all@, scratch_idx@, n_kv as int, head_dim as int);
    let mut feats: Vec<Vec<F32>> = Vec::with_capacity(n);
    let mut i: usize = 0;
    while i < n
        invariant
            i <= n,
            n == scratch_idx@.len(),
            n_kv * head_dim <= usize::MAX,
            row_len(n_kv as int, head_dim as int) <= usize::MAX,
            forall|i: int|
                0 <= i < scratch_idx@.len() ==> (#[trigger] scratch_idx@[i] + 1) * row_len(
                    n_kv as int,
                    head_dim as int,
                ) <= k_all@.len(),
            target == features(k_all@, scratch_idx@, n_kv as int, head_dim as int),
            feats@.len() == i,
            forall|k: int| 0 <= k < i ==> (#[trigger] feats@[k])@ == target[k],
        decreases n - i,
    {
        let f: Vec<F32> = dequant_at(k_all, scratch_idx[i] as usize, n_kv, head_dim);
        feats.push(f);
        i = i + 1;
    }

    let mut used: Vec<bool> = Vec::with_capacity(n);
    i = 0;
    while i < n
        invariant
            i <= n,
            used@.len() == i,
            forall|k: int| 0 <= k < i ==> !(#[trigger] used@[k]),
        decreases n - i,
    {
        used.push(false);
        i = i + 1;
    }
    let n_groups: usize = n / m;
    let mut groups: Vec<Vec<usize>> = Vec::with_capacity(n_groups);
    proof {
        assert(used@ =~= grouping(target, m as nat, 0).0);
        assert(group_views(groups@) =~= grouping(target, m as nat, 0).1);
    }
    let mut anchor: usize = 0;
    while anchor < n
        invariant
            anchor <= n,
            m >= 1,
            n_groups == n / m,
            target.len() == n,
            feats@.len() == n,
            forall|k: int| 0 <= k < n ==> (#[trigger] feats@[k])@ == target[k],
            forall|k: int| 0 <= k < n ==> (#[trigger] target[k]).len() == n_kv * head_dim,
            used@ == grouping(target, m as nat, anchor as nat).0,
            used@.len() == n,
            group_views(groups@) == grouping(target, m as nat, anchor as nat).1,
        decreases n - anchor,
    {
        if !used[anchor] && groups.len() != n_groups {
            used.set(anchor, true);
            let ghost first = used@;
            let ghost dists = distances(target, anchor as int);
            let mut dist: Vec<F32> = Vec::with_capacity(n);
            let mut j: usize = 0;
            while j < n
                invariant
                    j <= n,
                    anchor < n,
                    target.len() == n,
                    feats@.len() == n,
                    forall|k: int| 0 <= k < n ==> (#[trigger] feats@[k])@ == target[k],
                    forall|k: int|
                        0 <= k < n ==> (#[trigger] target[k]).len() == n_kv * head_dim,
                    dists == distances(target, anchor as int),
                    dist@.len() == j,
                    forall|k: int| 0 <= k < j ==> #[trigger] dist@[k] == dists[k],
                decreases n - j,
            {
                assert(feats@[anchor as int]@ == target[anchor as int]);
                assert(feats@[j as int]@ == target[j as int]);
                dist.push(squared_distance(&feats[anchor], &feats[j]));
                j = j + 1;
            }
            assert(dist@ =~= dists);
            let group: Vec<usize> = pick_group(&dist, &mut used, anchor, m);
            if group.len() == m {
                let ghost g = group@;
                let ghost old_views = group_views(groups@);
                groups.push(group);
                assert(group_views(groups@) =~= old_views.push(g));
            }
        }
        anchor = anchor + 1;
    }
    groups
}

/// The group of `anchor`: itself and the `m - 1` closest free places, which are
/// then taken.
fn pick_group(dist: &Vec<F32>, used: &mut Vec<bool>, anchor: usize, m: usize) -> (group: Vec<usize>)
    requires
        m >= 1,
        dist@.len() == old(used)@.len(),
    ensures
        group@ == seq![anchor] + gather(dist@, old(used)@, (m - 1) as nat),
        final(used)@ == taken(old(used)@, gather(dist@, old(used)@, (m - 1) as nat)),
{
    let total: usize = used.len();
    let ghost start = used@;
    let ghost whole = gather(dist@, start, (m - 1) as nat);
    let mut group: Vec<usize> = Vec::with_capacity(m);
    group.push(anchor);
    let mut left: usize = m - 1;
    assert(whole =~= Seq::<usize>::empty() + whole);
    assert(group@.subrange(1, 1) =~= Seq::<usize>::empty());
    while left > 0
        invariant_except_break
            dist@.len() == used@.len(),
            used@.len() == start.len(),
            start.len() == total,
            group@.len() >= 1,
            group@[0] == anchor,
            whole == group@.subrange(1, group@.len() as int) + gather(dist@, used@, left as nat),
            used@ =~= taken(start, group@.subrange(1, group@.len() as int)),
        ensures
            group@ == seq![anchor] + whole,
            used@ == taken(start, whole),
        decreases left,
    {
        let ghost so_far = group@.subrange(1, group@.len() as int);
        proof {
            lemma_closest(dist@, used@, used@.len());
        }
        match closest_free(dist, used) {
            None => {
                proof {
                    assert(whole =~= so_far);
                    assert(group@ =~= seq![anchor] + whole);
                }
                break;
            },
            Some(c) => {
                let ghost u = used@;
                used.set(c, true);
                group.push(c);
                left = left - 1;
                proof {
                    assert(group@.subrange(1, group@.len() as int) =~= so_far.push(c));
                    assert(so_far + (seq![c] + gather(dist@, u.update(c as int, true), left as nat))
                        =~= so_far.push(c) + gather(dist@, u.update(c as int, true), left as nat));
                    assert forall|i: int| 0 <= i < start.len() implies #[trigger] used@[i] == taken(
                        start,
                        so_far.push(c),
                    )[i] by {
                        lemma_contains_push(so_far, c, i as usize);
                    }
                    if left == 0 {
                        assert(gather(dist@, used@, 0) =~= Seq::<usize>::empty());
                        assert(whole =~= so_far.push(c));
                        assert(group@ =~= seq![anchor] + whole);
                    }
                }
            },
        }
    }
    proof {
        if m == 1 {
            assert(whole =~= Seq::<usize>::empty());
        }
    }
    group
}

proof fn lemma_contains_push(s: Seq<usize>, c: usize, x: usize)
    ensures
        s.push(c).contains(x) <==> s.contains(x) || x == c,
{
    if s.contains(x) {
        let i = choose|i: int| 0 <= i < s.len() && s[i] == x;
        assert(s.push(c)[i] == x);
    }
    if x == c {
        assert(s.push(c)[s.len() as int] == x);
    }
    if s.push(c).contains(x) {
        let i = choose|i: int| 0 <= i < s.push(c).len() && s.push(c)[i] == x;
        if i < s.len() {
            assert(s[i] == x);
        }
    }
}

// What a grouping is.

/// How many places are taken.
spec fn count_used(used: Seq<bool>) -> nat
    decreases used.len(),
{
    if used.len() == 0 {
        0
    } else {
        count_used(used.drop_last()) + (if used.last() {
            1nat
        } else {
            0nat
        })
    }
}

proof fn lemma_count_bound(used: Seq<bool>)
    ensures
        count_used(used) <= used.len(),
        (forall|i: int| 0 <= i < used.len() ==> used[i]) ==> count_used(used) == used.len(),
        (forall|i: int| 0 <= i < used.len() ==> !used[i]) ==> count_used(used) == 0,
    decreases used.len(),
{
    if used.len() > 0 {
        lemma_count_bound(used.drop_last());
    }
}

proof fn lemma_count_update(used: Seq<bool>, c: int)
    requires
        0 <= c < used.len(),
        !used[c],
    ensures
        count_used(used.update(c, true)) == count_used(used) + 1,
    decreases used.len(),
{
    let after = used.update(c, true);
    if c == used.len() - 1 {
        assert(after.drop_last() =~= used.drop_last());
    } else {
        lemma_count_update(used.drop_last(), c);
        assert(after.drop_last() =~= used.drop_last().update(c, true));
    }
}

proof fn lemma_gather(dist: Seq<F32>, used: Seq<bool>, k: nat)
    requires
        used.len() <= usize::MAX,
    ensures
        ({
            let picks = gather(dist, used, k);
            &&& picks.len() <= k
            &&& picks.no_duplicates()
            &&& forall|i: int|
                0 <= i < picks.len() ==> (#[trigger] picks[i]) < used.len() && !used[picks[i] as int]
            &&& count_used(taken(used, picks)) == count_used(used) + picks.len()
            &&& picks.len() < k ==> count_used(used) + picks.len() == used.len()
        }),
    decreases k,
{
    let picks = gather(dist, used, k);
    let c = closest(dist, used, used.len());
    lemma_closest(dist, used, used.len());
    lemma_count_bound(used);
    if k == 0 || c < 0 {
        assert(taken(used, picks) =~= used);
    } else {
        let next = used.update(c, true);
        let rest = gather(dist, next, (k - 1) as nat);
        lemma_gather(dist, next, (k - 1) as nat);
        lemma_count_update(used, c);
        assert(picks[0] == c as usize);
        assert forall|i: int| 0 <= i < picks.len() implies (#[trigger] picks[i]) < used.len()
            && !used[picks[i] as int] && (i > 0 ==> picks[i] != c) by {
            if i > 0 {
                assert(picks[i] == rest[i - 1]);
            }
        }
        assert forall|i: int, j: int| 0 <= i < j < picks.len() implies picks[i] != picks[j] by {
            assert(picks[j] == rest[j - 1]);
            if i > 0 {
                assert(picks[i] == rest[i - 1]);
            }
        }
        assert forall|i: int| 0 <= i < used.len() implies #[trigger] taken(used, picks)[i] == taken(
            next,
            rest,
        )[i] by {
            let x = i as usize;
            if picks.contains(x) {
                let p = choose|p: int| 0 <= p < picks.len() && picks[p] == x;
                if p > 0 {
                    assert(rest[p - 1] == x);
                }
            }
            if rest.contains(x) {
                let p = choose|p: int| 0 <= p < rest.len() && rest[p] == x;
                assert(picks[p + 1] == x);
            }
            if i == c {
                assert(picks[0] == x);
            }
        }
        assert(taken(used, picks) =~= taken(next, rest));
    }
}

/// Every place stands in at most one group, and once.
pub open spec fn disjoint(groups: Seq<Seq<usize>>) -> bool {
    forall|a: int, i: int, b: int, j: int|
        #![trigger groups[a][i], groups[b][j]]
        0 <= a < groups.len() && 0 <= i < groups[a].len() && 0 <= b < groups.len() && 0 <= j
            < groups[b].len() && groups[a][i] == groups[b][j] ==> a == b && i == j
}

proof fn lemma_grouping(feats: Seq<Seq<F32>>, m: nat, n: nat)
    requires
        m >= 1,
        n <= feats.len() <= usize::MAX,
    ensures
        ({
            let (used, groups) = grouping(feats, m, n);
            &&& used.len() == feats.len()
            &&& groups.len() <= feats.len() / m
            &&& forall|a: int| 0 <= a < groups.len() ==> (#[trigger] groups[a]).len() == m
            &&& forall|a: int, i: int|
                #![trigger groups[a][i]]
                0 <= a < groups.len() && 0 <= i < m ==> groups[a][i] < feats.len()
                    && used[groups[a][i] as int]
            &&& disjoint(groups)
            &&& count_used(used) == m * groups.len()
            &&& forall|a: int| 0 <= a < n ==> used[a] || groups.len() == feats.len() / m
        }),
    decreases n,
{
    let size = feats.len();
    if n == 0 {
        lemma_count_bound(grouping(feats, m, n).0);
        assert(m * 0 == 0);
        vstd::arithmetic::div_mod::lemma_div_pos_is_pos(size as int, m as int);
    } else {
        lemma_grouping(feats, m, (n - 1) as nat);
        let (used, groups) = grouping(feats, m, (n - 1) as nat);
        let (used2, groups2) = grouping(feats, m, n);
        if used[n - 1] || groups.len() == size / m {
        } else {
            let a0 = (n - 1) as usize;
            let first = used.update(n - 1, true);
            let dist = distances(feats, n - 1);
            let picks = gather(dist, first, (m - 1) as nat);
            let group = seq![a0] + picks;
            lemma_count_update(used, n - 1);
            lemma_gather(dist, first, (m - 1) as nat);
            lemma_count_bound(used2);
            // There is room for a whole group.
            let q = size as int / m as int;
            let g = groups.len() as int;
            vstd::arithmetic::div_mod::lemma_fundamental_div_mod(size as int, m as int);
            assert(m * g + m <= size) by (nonlinear_arith)
                requires
                    g + 1 <= q,
                    size as int == m * q + size as int % m as int,
                    size as int % m as int >= 0,
                    m >= 1,
            ;
            assert(picks.len() == m - 1);
            assert(group.len() == m);
            assert(m * (g + 1) == m * g + m) by (nonlinear_arith);
            assert(groups2 == groups.push(group));
            assert forall|i: int| 0 <= i < m implies (#[trigger] group[i]) < size
                && !used[group[i] as int] && used2[group[i] as int] by {
                if i > 0 {
                    assert(group[i] == picks[i - 1]);
                    assert(!first[picks[i - 1] as int]);
                    assert(picks.contains(group[i]));
                }
            }
            assert forall|i: int, j: int| 0 <= i < j < m implies group[i] != group[j] by {
                assert(group[j] == picks[j - 1]);
                if i > 0 {
                    assert(group[i] == picks[i - 1]);
                } else {
                    assert(!first[picks[j - 1] as int]);
                }
            }
            assert forall|a: int, i: int|
                #![trigger groups2[a][i]]
                0 <= a < groups2.len() && 0 <= i < m implies groups2[a][i] < size
                && used2[groups2[a][i] as int] by {
                if a < groups.len() {
                    assert(groups2[a] == groups[a]);
                    assert(used[groups[a][i] as int]);
                } else {
                    assert(groups2[a] == group);
                }
            }
            assert forall|a: int, i: int, b: int, j: int|
                #![trigger groups2[a][i], groups2[b][j]]
                0 <= a < groups2.len() && 0 <= i < groups2[a].len() && 0 <= b < groups2.len() && 0
                    <= j < groups2[b].len() && groups2[a][i] == groups2[b][j] implies a == b && i
                == j by {
                let last = groups.len() as int;
                assert(groups2[last] == group);
                if a < last {
                    assert(groups2[a] == groups[a]);
                    assert(used[groups[a][i] as int]);
                }
                if b < last {
                    assert(groups2[b] == groups[b]);
                    assert(used[groups[b][j] as int]);
                }
                if a < last && b < last {
                    assert(groups[a][i] == groups[b][j]);
                }
            }
        }
    }
}

/// Grouping `n` tokens by `m` gives `n / m` groups of `m` tokens each, and no
/// token stands in two of them.
pub proof fn law_groups_are_full_and_disjoint(feats: Seq<Seq<F32>>, m: nat)
    requires
        m >= 1,
        feats.len() <= usize::MAX,
    ensures
        groups_of(feats, m).len() == feats.len() / m,
        forall|a: int|
            0 <= a < groups_of(feats, m).len() ==> (#[trigger] groups_of(feats, m)[a]).len() == m,
        forall|a: int, i: int|
            #![trigger groups_of(feats, m)[a][i]]
            0 <= a < groups_of(feats, m).len() && 0 <= i < m ==> groups_of(feats, m)[a][i]
                < feats.len(),
        disjoint(groups_of(feats, m)),
{
    lemma_grouping(feats, m, feats.len());
    let (used, groups) = grouping(feats, m, feats.len());
    if groups.len() < feats.len() / m {
        lemma_count_bound(used);
        let g = groups.len() as int;
        assert(feats.len() as int / m as int == g) by {
            vstd::arithmetic::div_mod::lemma_fundamental_div_mod_converse(
                feats.len() as int,
                m as int,
                g,
                0,
            );
            assert(g * m == m * g) by (nonlinear_arith);
        }
    }
}

// Folding rows.

/// 127 as a single.
pub const ONE_TWENTY_SEVEN: u32 = 0x42FE_0000;

/// 1e-10 as a single: scales up to here count as zero.
pub const TINY_SCALE: u32 = 0x2EDB_E6FF;

/// 1 as a single.
pub const ONE: u32 = 0x3F80_0000;

/// Element `j` of the weighted sum of the first `n` rows.
pub open spec fn weighted(feats: Seq<Seq<F32>>, weights: Seq<F32>, n: nat, j: int) -> F32
    decreases n,
{
    if n == 0 {
        F32 { bits: 0 }
    } else {
        crate::float::sum(
            weighted(feats, weights, (n - 1) as nat, j),
            crate::float::product(weights[n - 1], feats[n - 1][j]),
        )
    }
}

/// The largest size among the `n` elements of `vals` from `at`.
pub open spec fn peak(vals: Seq<F32>, at: int, n: nat) -> F32
    decreases n,
{
    if n == 0 {
        F32 { bits: 0 }
    } else {
        crate::float::larger(
            peak(vals, at, (n - 1) as nat),
            crate::float::signed(false, vals[at + n - 1].word()),
        )
    }
}

/// The scale of a block: its peak falls on 127.
pub open spec fn block_scale(vals: Seq<F32>, at: int) -> F32 {
    crate::float::quotient(peak(vals, at, 32), F32 { bits: ONE_TWENTY_SEVEN })
}

/// The factor from values to quantized values.
pub open spec fn block_inverse(scale: F32) -> F32 {
    if (F32 { bits: TINY_SCALE }).below(scale) {
        crate::float::quotient(F32 { bits: ONE }, scale)
    } else {
        F32 { bits: 0 }
    }
}

pub open spec fn byte_of(q: int) -> u8 {
    (if q < 0 {
        q + 256
    } else {
        q
    }) as u8
}

/// Byte `k` of the Q8 block of the 32 elements from `at`.
pub open spec fn block_byte(vals: Seq<F32>, at: int, k: int) -> u8 {
    let scale = block_scale(vals, at);
    let half = crate::float::to_half(scale);
    if k == 0 {
        (half % 256) as u8
    } else if k == 1 {
        (half / 256) as u8
    } else {
        byte_of(
            crate::float::round_q8(
                crate::float::product(vals[at + k - 2], block_inverse(scale)),
            ),
        )
    }
}

/// A row quantized block by block.
pub open spec fn encoded_row(vals: Seq<F32>, n_kv: int, head_dim: int) -> Seq<u8> {
    let n_blocks = head_dim / 32;
    Seq::new(
        row_len(n_kv, head_dim) as nat,
        |i: int|
            block_byte(
                vals,
                ((i / 34) / n_blocks) * head_dim + ((i / 34) % n_blocks) * 32,
                i % 34,
            ),
    )
}

/// The weighted average of cache rows, quantized again.
pub open spec fn merged_row(
    all: Seq<u8>,
    positions: Seq<u32>,
    weights: Seq<F32>,
    n_kv: int,
    head_dim: int,
) -> Seq<u8> {
    let feats = features(all, positions, n_kv, head_dim);
    encoded_row(
        Seq::new(
            (n_kv * head_dim) as nat,
            |j: int| weighted(feats, weights, positions.len(), j),
        ),
        n_kv,
        head_dim,
    )
}

/// The largest size among 32 elements.
fn block_peak(vals: &Vec<F32>, at: usize) -> (r: F32)
    requires
        at + 32 <= vals@.len(),
    ensures
        r == peak(vals@, at as int, 32),
{
    let total: usize = vals.len();
    let mut r: F32 = F32::zero();
    let mut i: usize = 0;
    while i < 32
        invariant
            i <= 32,
            at + 32 <= total,
            total == vals@.len(),
            r == peak(vals@, at as int, i as nat),
        decreases 32 - i,
    {
        r = r.max(vals[at + i].abs());
        i = i + 1;
    }
    r
}

fn to_byte(q: i8) -> (b: u8)
    ensures
        b == byte_of(q as int),
{
    if q < 0 {
        (q as i16 + 256) as u8
    } else {
        q as u8
    }
}

/// Quantizes a row: per block, a scale that puts the peak on 127, and rounded
/// multiples of it.
pub fn quantize_q8_row(vals: &Vec<F32>, n_kv: usize, head_dim: usize) -> (out: Vec<u8>)
    requires
        vals@.len() == n_kv * head_dim,
        row_len(n_kv as int, head_dim as int) <= usize::MAX,
    ensures
        out@ == encoded_row(vals@, n_kv as int, head_dim as int),
{
    let total: usize = vals.len();
    let n_blocks: usize = head_dim / 32;
    let mut out: Vec<u8> = Vec::new();
    let mut h: usize = 0;
    let ghost whole = encoded_row(vals@, n_kv as int, head_dim as int);
    while h < n_kv
        invariant
            h <= n_kv,
            n_blocks == head_dim / 32,
            vals@.len() == total,
            total == n_kv * head_dim,
            whole == encoded_row(vals@, n_kv as int, head_dim as int),
            whole.len() == n_kv * n_blocks * 34,
            out@.len() == (h * n_blocks) * 34,
            forall|i: int| 0 <= i < out@.len() ==> #[trigger] out@[i] == whole[i],
        decreases n_kv - h,
    {
        let mut b: usize = 0;
        proof {
            assert(h * head_dim + head_dim <= n_kv * head_dim && h * head_dim >= 0)
                by (nonlinear_arith)
                requires
                    0 <= h < n_kv,
                    head_dim >= 0,
            ;
        }
        while b < n_blocks
            invariant
                h < n_kv,
                b <= n_blocks,
                n_blocks == head_dim / 32,
                vals@.len() == total,
                total == n_kv * head_dim,
                0 <= h * head_dim,
                h * head_dim + head_dim <= total,
                whole == encoded_row(vals@, n_kv as int, head_dim as int),
                whole.len() == n_kv * n_blocks * 34,
                out@.len() == (h * n_blocks + b) * 34,
                forall|i: int| 0 <= i < out@.len() ==> #[trigger] out@[i] == whole[i],
            decreases n_blocks - b,
        {
            let at: usize = h * head_dim + b * 32;
            let ghost start = out@.len() as int;
            proof {
                lemma_block_inside(n_kv as int, n_blocks as int, h as int, b as int);
                assert forall|k: int| 0 <= k < 34 implies #[trigger] whole[start + k] == block_byte(
                    vals@,
                    at as int,
                    k,
                ) by {
                    let t = h * n_blocks + b;
                    assert(start + k == t * 34 + k);
                    assert((start + k) / 34 == t && (start + k) % 34 == k);
                    lemma_element_place(n_blocks as int, h as int, b as int);
                }
            }
            let scale: F32 = block_peak(vals, at).over(F32 { bits: ONE_TWENTY_SEVEN });
            let inv_scale: F32 = if (F32 { bits: TINY_SCALE }).lt(scale) {
                (F32 { bits: ONE }).over(scale)
            } else {
                F32::zero()
            };
            let s16: u16 = f32_to_f16(scale);
            assert(whole[start + 0] == block_byte(vals@, at as int, 0));
            assert(whole[start + 1] == block_byte(vals@, at as int, 1));
            out.push((s16 % 256) as u8);
            out.push((s16 / 256) as u8);
            let mut q: usize = 0;
            while q < 32
                invariant
                    q <= 32,
                    at + 32 <= total,
                    total == vals@.len(),
                    scale == block_scale(vals@, at as int),
                    inv_scale == block_inverse(scale),
                    start + 34 <= whole.len(),
                    forall|k: int|
                        0 <= k < 34 ==> #[trigger] whole[start + k] == block_byte(
                            vals@,
                            at as int,
                            k,
                        ),
                    out@.len() == start + 2 + q,
                    forall|i: int| 0 <= i < out@.len() ==> #[trigger] out@[i] == whole[i],
                decreases 32 - q,
            {
                let v: i8 = vals[at + q].times(inv_scale).round_to_q8();
                proof {
                    let k = 2 + q;
                    assert(whole[start + k] == block_byte(vals@, at as int, k));
                }
                out.push(to_byte(v));
                q = q + 1;
            }
            proof {
                assert((h * n_blocks + b) * 34 + 34 == (h * n_blocks + (b + 1)) * 34);
            }
            b = b + 1;
        }
        proof {
            assert((h + 1) * n_blocks == h * n_blocks + n_blocks) by (nonlinear_arith);
        }
        h = h + 1;
    }
    assert(out@ =~= whole);
    out
}

/// The weighted average of the rows at `positions`, quantized again.
pub fn weighted_avg_q8(
    all_rows: &[u8],
    positions: &[u32],
    weights: &[F32],
    n_kv: usize,
    head_dim: usize,
) -> (out: Vec<u8>)
    requires
        positions@.len() == weights@.len(),
        n_kv * head_dim <= usize::MAX,
        row_len(n_kv as int, head_dim as int) <= usize::MAX,
        forall|i: int|
            0 <= i < positions@.len() ==> (#[trigger] positions@[i] + 1) * row_len(
                n_kv as int,
                head_dim as int,
            ) <= all_rows@.len(),
    ensures
        out@ == merged_row(all_rows@, positions@, weights@, n_kv as int, head_dim as int),
{
    let dim: usize = n_kv * head_dim;
    let ghost feats = features(all_rows@, positions@, n_kv as int, head_dim as int);
    let mut acc: Vec<F32> = zeros(dim);
    let mut i: usize = 0;
    while i < positions.len()
        invariant
            i <= positions@.len(),
            positions@.len() == weights@.len(),
            dim == n_kv * head_dim,
            row_len(n_kv as int, head_dim as int) <= usize::MAX,
            forall|i: int|
                0 <= i < positions@.len() ==> (#[trigger] positions@[i] + 1) * row_len(
                    n_kv as int,
                    head_dim as int,
                ) <= all_rows@.len(),
            feats == features(all_rows@, positions@, n_kv as int, head_dim as int),
            acc@.len() == dim,
            forall|j: int|
                0 <= j < dim ==> #[trigger] acc@[j] == weighted(feats, weights@, i as nat, j),
        decreases positions@.len() - i,
    {
        let w: F32 = weights[i];
        let deq: Vec<F32> = dequant_at(all_rows, positions[i] as usize, n_kv, head_dim);
        assert(deq@ == feats[i as int]);
        let mut j: usize = 0;
        while j < dim
            invariant
                j <= dim,
                i < positions@.len(),
                positions@.len() == weights@.len(),
                w == weights@[i as int],
                deq@ == feats[i as int],
                deq@.len() == dim,
                acc@.len() == dim,
                forall|k: int|
                    0 <= k < j ==> #[trigger] acc@[k] == weighted(
                        feats,
                        weights@,
                        (i + 1) as nat,
                        k,
                    ),
                forall|k: int|
                    j <= k < dim ==> #[trigger] acc@[k] == weighted(feats, weights@, i as nat, k),
            decreases dim - j,
        {
            let x: F32 = acc[j].plus(w.times(deq[j]));
            acc.set(j, x);
            j = j + 1;
        }
        i = i + 1;
    }
    proof {
        assert(acc@ =~= Seq::new(
            (n_kv * head_dim) as nat,
            |j: int| weighted(feats, weights@, positions@.len(), j),
        ));
    }
    quantize_q8_row(&acc, n_kv, head_dim)
}

// Scores.

/// 1e-6 as a single: the least standard deviation.
pub const LEAST_DEVIATION: u32 = 0x3586_37BD;

/// Negative infinity.
pub const NEG_INFINITY: u32 = 0xFF80_0000;

/// The sum of the first `n` elements, in order from negative zero.
pub open spec fn total(vals: Seq<F32>, n: nat) -> F32
    decreases n,
{
    if n == 0 {
        F32 { bits: crate::float::SIGN }
    } else {
        crate::float::sum(total(vals, (n - 1) as nat), vals[n - 1])
    }
}

/// The deviations of a row from `mean`, squared.
pub open spec fn squared_deviations(row: Seq<F32>, mean: F32) -> Seq<F32> {
    Seq::new(
        row.len(),
        |i: int|
            crate::float::product(
                crate::float::difference(row[i], mean),
                crate::float::difference(row[i], mean),
            ),
    )
}

pub open spec fn mean_of(row: Seq<F32>) -> F32 {
    crate::float::quotient(total(row, row.len()), crate::float::of_nat(row.len()))
}

/// The standard deviation of a row, kept off zero.
pub open spec fn deviation_of(row: Seq<F32>) -> F32 {
    let squares = squared_deviations(row, mean_of(row));
    crate::float::larger(
        crate::float::square_root(mean_of(squares)),
        F32 { bits: LEAST_DEVIATION },
    )
}

/// How many deviations element `p` of a row lies above its mean.
pub open spec fn z_score(row: Seq<F32>, p: int) -> F32 {
    crate::float::quotient(
        crate::float::difference(row[p], mean_of(row)),
        deviation_of(row),
    )
}

/// The best standing of position `p` over the first `heads` heads.
pub open spec fn best_score(scores: Seq<F32>, seq_len: int, heads: nat, p: int) -> F32
    decreases heads,
{
    if heads == 0 {
        F32 { bits: NEG_INFINITY }
    } else {
        let prev = best_score(scores, seq_len, (heads - 1) as nat, p);
        let z = z_score(scores.subrange((heads - 1) * seq_len, heads * seq_len), p);
        if prev.below(z) {
            z
        } else {
            prev
        }
    }
}

fn mean(vals: &Vec<F32>) -> (r: F32)
    ensures
        r == mean_of(vals@),
{
    let mut acc: F32 = F32::zero().neg();
    let mut i: usize = 0;
    while i < vals.len()
        invariant
            i <= vals@.len(),
            acc == total(vals@, i as nat),
        decreases vals@.len() - i,
    {
        acc = acc.plus(vals[i]);
        i = i + 1;
    }
    acc.over(F32::from_u64(vals.len() as u64))
}

/// Per head, how far each position stands above the head's mean; then, per
/// position, the best head.
pub fn aggregate_scores(scores: &[F32], n_heads: usize, seq_len: usize) -> (agg: Vec<F32>)
    requires
        n_heads * seq_len <= scores@.len(),
    ensures
        agg@ == Seq::new(
            seq_len as nat,
            |p: int| best_score(scores@, seq_len as int, n_heads as nat, p),
        ),
{
    let avail: usize = scores.len();
    let mut agg: Vec<F32> = Vec::with_capacity(seq_len);
    let mut p: usize = 0;
    while p < seq_len
        invariant
            p <= seq_len,
            agg@.len() == p,
            forall|k: int| 0 <= k < p ==> #[trigger] agg@[k] == (F32 { bits: NEG_INFINITY }),
        decreases seq_len - p,
    {
        agg.push(F32 { bits: NEG_INFINITY });
        p = p + 1;
    }
    let mut h: usize = 0;
    while h < n_heads
        invariant
            h <= n_heads,
            avail == scores@.len(),
            n_heads * seq_len <= avail,
            agg@.len() == seq_len,
            forall|k: int|
                0 <= k < seq_len ==> #[trigger] agg@[k] == best_score(
                    scores@,
                    seq_len as int,
                    h as nat,
                    k,
                ),
        decreases n_heads - h,
    {
        proof {
            assert((h + 1) * seq_len == h * seq_len + seq_len && (h + 1) * seq_len <= n_heads
                * seq_len && h * seq_len >= 0) by (nonlinear_arith)
                requires
                    0 <= h < n_heads,
                    seq_len >= 0,
            ;
        }
        let base: usize = h * seq_len;
        let ghost part = scores@.subrange(h * seq_len, (h + 1) * seq_len);
        let mut row: Vec<F32> = Vec::with_capacity(seq_len);
        let mut i: usize = 0;
        while i < seq_len
            invariant
                i <= seq_len,
                base + seq_len <= avail,
                avail == scores@.len(),
                part == scores@.subrange(base as int, base + seq_len),
                row@.len() == i,
                forall|k: int| 0 <= k < i ==> #[trigger] row@[k] == part[k],
            decreases seq_len - i,
        {
            row.push(scores[base + i]);
            i = i + 1;
        }
        assert(row@ =~= part);
        let m: F32 = mean(&row);
        let mut squares: Vec<F32> = Vec::with_capacity(seq_len);
        i = 0;
        while i < seq_len
            invariant
                i <= seq_len,
                row@.len() == seq_len,
                squares@.len() == i,
                forall|k: int|
                    0 <= k < i ==> #[trigger] squares@[k] == squared_deviations(row@, m)[k],
            decreases seq_len - i,
        {
            let d: F32 = row[i].minus(m);
            squares.push(d.times(d));
            i = i + 1;
        }
        assert(squares@ =~= squared_deviations(row@, m));
        let dev: F32 = mean(&squares).sqrt().max(F32 { bits: LEAST_DEVIATION });
        i = 0;
        while i < seq_len
            invariant
                i <= seq_len,
                row@.len() == seq_len,
                row@ == part,
                part == scores@.subrange(h * seq_len, (h + 1) * seq_len),
                m == mean_of(row@),
                dev == deviation_of(row@),
                agg@.len() == seq_len,
                forall|k: int|
                    0 <= k < i ==> #[trigger] agg@[k] == best_score(
                        scores@,
                        seq_len as int,
                        (h + 1) as nat,
                        k,
                    ),
                forall|k: int|
                    i <= k < seq_len ==> #[trigger] agg@[k] == best_score(
                        scores@,
                        seq_len as int,
                        h as nat,
                        k,
                    ),
            decreases seq_len - i,
        {
            let z: F32 = row[i].minus(m).over(dev);
            if agg[i].lt(z) {
                agg.set(i, z);
            }
            i = i + 1;
        }
        h = h + 1;
    }
    assert(agg@ =~= Seq::new(
        seq_len as nat,
        |p: int| best_score(scores@, seq_len as int, n_heads as nat, p),
    ));
    agg
}

/// The largest of the first `n` values, from negative infinity.
pub open spec fn highest(vals: Seq<F32>, n: nat) -> F32
    decreases n,
{
    if n == 0 {
        F32 { bits: NEG_INFINITY }
    } else {
        crate::float::larger(highest(vals, (n - 1) as nat), vals[n - 1])
    }
}

/// The largest of some values; negative infinity where there is none.
pub fn highest_of(xs: &[F32]) -> (top: F32)
    ensures
        top == highest(xs@, xs@.len()),
{
    let mut top: F32 = F32 { bits: NEG_INFINITY };
    let mut i: usize = 0;
    while i < xs.len()
        invariant
            i <= xs@.len(),
            top == highest(xs@, i as nat),
        decreases xs@.len() - i,
    {
        top = top.max(xs[i]);
        i = i + 1;
    }
    top
}

/// The exponents of a softmax: each value less the largest.
pub fn softmax_exponents(xs: &[F32]) -> (r: Vec<F32>)
    ensures
        r@ == Seq::new(
            xs@.len(),
            |i: int| crate::float::difference(xs@[i], highest(xs@, xs@.len())),
        ),
{
    let top: F32 = highest_of(xs);
    let mut r: Vec<F32> = Vec::with_capacity(xs.len());
    let mut i: usize = 0;
    while i < xs.len()
        invariant
            i <= xs@.len(),
            top == highest(xs@, xs@.len()),
            r@.len() == i,
            forall|k: int| 0 <= k < i ==> #[trigger] r@[k] == crate::float::difference(xs@[k], top),
        decreases xs@.len() - i,
    {
        r.push(xs[i].minus(top));
        i = i + 1;
    }
    assert(r@ =~= Seq::new(
        xs@.len(),
        |i: int| crate::float::difference(xs@[i], highest(xs@, xs@.len())),
    ));
    r
}

/// The weights of a softmax from the exponentials of its exponents: each divided
/// by their sum.
pub fn softmax_weights(exps: &[F32]) -> (r: Vec<F32>)
    ensures
        r@ == Seq::new(
            exps@.len(),
            |i: int| crate::float::quotient(exps@[i], total(exps@, exps@.len())),
        ),
{
    let mut acc: F32 = F32::zero().neg();
    let mut i: usize = 0;
    while i < exps.len()
        invariant
            i <= exps@.len(),
            acc == total(exps@, i as nat),
        decreases exps@.len() - i,
    {
        acc = acc.plus(exps[i]);
        i = i + 1;
    }
    let mut r: Vec<F32> = Vec::with_capacity(exps.len());
    i = 0;
    while i < exps.len()
        invariant
            i <= exps@.len(),
            acc == total(exps@, exps@.len()),
            r@.len() == i,
            forall|k: int| 0 <= k < i ==> #[trigger] r@[k] == crate::float::quotient(exps@[k], acc),
        decreases exps@.len() - i,
    {
        r.push(exps[i].over(acc));
        i = i + 1;
    }
    assert(r@ =~= Seq::new(
        exps@.len(),
        |i: int| crate::float::quotient(exps@[i], total(exps@, exps@.len())),
    ));
    r
}

} // verus!
