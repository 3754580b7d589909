//! Token sampling: a small random generator, filters and the draw itself.

use vstd::prelude::*;

use crate::float::F32;
use crate::order::rank_descending;

verus! {

/// Stand-in state for a zero seed: the 64-bit golden ratio.
pub const GOLDEN_GAMMA: u64 = 0x9E37_79B9_7F4A_7C15;

/// The multiplier that scrambles the state into an output.
pub const SCRAMBLE: u64 = 0x2545_F491_4F6C_DD1D;

/// One round of the 12/25/27 xorshift map.
pub open spec fn xorshift_step(s: u64) -> u64 {
    let a = s ^ (s >> 12);
    let b = a ^ (a << 25);
    b ^ (b >> 27)
}

/// An xorshift64* generator: reproducible from its seed.
pub struct Xorshift {
    s: u64,
}

impl Xorshift {
    /// The word that the generator holds.
    pub closed spec fn state(self) -> u64 {
        self.s
    }

    #[verifier::type_invariant]
    spec fn nonzero(self) -> bool {
        self.s != 0
    }

    /// Starts from `seed`; zero, the fixed point of the map, is replaced.
    pub fn new(seed: u64) -> (r: Self)
        ensures
            r.state() == (if seed == 0 {
                GOLDEN_GAMMA
            } else {
                seed
            }),
    {
        Xorshift { s: if seed == 0 { GOLDEN_GAMMA } else { seed } }
    }

    /// Advances the state and returns its scrambled form.
    pub fn next_u64(&mut self) -> (r: u64)
        ensures
            final(self).state() == xorshift_step(old(self).state()),
            r == (final(self).state() * SCRAMBLE) % 0x1_0000_0000_0000_0000,
    {
        proof {
            use_type_invariant(&*self);
        }
        let s: u64 = self.s;
        let a: u64 = s ^ (s >> 12);
        let b: u64 = a ^ (a << 25);
        let c: u64 = b ^ (b >> 27);
        assert(s != 0 ==> (s ^ (s >> 12)) != 0) by (bit_vector);
        assert(a != 0 ==> (a ^ (a << 25)) != 0) by (bit_vector);
        assert(b != 0 ==> (b ^ (b >> 27)) != 0) by (bit_vector);
        self.s = c;
        c.wrapping_mul(SCRAMBLE)
    }
}

/// 2^24 as a single.
pub const TWO_24: u32 = 0x4B80_0000;

/// A word's top 24 bits as a fraction of 2^24.
pub open spec fn unit_fraction(x: u64) -> F32 {
    crate::float::quotient(
        crate::float::of_nat((x / 0x100_0000_0000) as nat),
        F32 { bits: TWO_24 },
    )
}

/// A unit fraction lies from 0 up to, but not, 1.
pub proof fn law_unit_fraction_range(x: u64)
    ensures
        ({
            let r = unit_fraction(x);
            &&& r.finite()
            &&& 0 <= r.units()
            &&& r.below(F32 { bits: crate::cask::ONE })
        }),
{
    let n = (x / 0x100_0000_0000) as nat;
    let u = crate::float::exp2(149);
    crate::float::lemma_exp2_values();
    crate::float::lemma_exp2_pos(149);
    crate::float::lemma_exp2_pos(125);
    crate::float::law_small_integers_are_exact(n);
    // The divisor, and the largest single below 1.
    let b = crate::float::BINADE as nat;
    let d: nat = TWO_24 as nat;
    let top: nat = 0x3F7F_FFFF;
    let y = crate::float::exp2(125);
    crate::float::lemma_exp2_adds(23, 150);
    crate::float::lemma_exp2_adds(24, 149);
    crate::float::lemma_exp2_adds(24, 125);
    assert(d / b == 151 && d % b == 0);
    assert(top / b == 126 && top % b == 0x7F_FFFF);
    let den = crate::float::magnitude(d);
    assert(den == crate::float::exp2(24) * u);
    assert(u == crate::float::exp2(24) * y);
    assert(crate::float::magnitude(top) == 0xFF_FFFF * y);
    let a = crate::float::of_nat(n);
    let num = crate::float::magnitude(a.word()) * u;
    assert(num <= crate::float::magnitude(top) * den) by (nonlinear_arith)
        requires
            num == (n * u) * u,
            n <= 0xFF_FFFF,
            crate::float::magnitude(top) == 0xFF_FFFF * y,
            den == crate::float::exp2(24) * u,
            u == crate::float::exp2(24) * y,
            u > 0,
    ;
    assert(den > 0) by (nonlinear_arith)
        requires
            den == crate::float::exp2(24) * u,
            crate::float::exp2(24) == 0x100_0000,
            u > 0,
    ;
    crate::float::lemma_nearest_at_most(num, den, top);
    crate::float::lemma_magnitude_monotone(unit_fraction(x).word(), crate::cask::ONE as nat);
}

impl Xorshift {
    /// A number from 0 up to, but not, 1, from the top bits of the next word.
    pub fn next_f32(&mut self) -> (r: F32)
        ensures
            final(self).state() == xorshift_step(old(self).state()),
            r == unit_fraction(
                ((final(self).state() * SCRAMBLE) % 0x1_0000_0000_0000_0000) as u64,
            ),
    {
        let x: u64 = self.next_u64();
        F32::from_u64(x / 0x100_0000_0000).over(F32 { bits: TWO_24 })
    }
}

/// Of the first `n` places of `idx`, the one whose logit is largest, the last of
/// equals.
pub open spec fn last_max(logits: Seq<F32>, idx: Seq<usize>, n: nat) -> int
    decreases n,
{
    if n <= 1 {
        0
    } else {
        let c = last_max(logits, idx, (n - 1) as nat);
        if logits[idx[n - 1] as int].below(logits[idx[c] as int]) {
            c
        } else {
            n - 1
        }
    }
}

/// The places 0, 1, 2 and so on.
pub open spec fn all_places(n: nat) -> Seq<usize> {
    Seq::new(n, |i: int| i as usize)
}

/// The logits at some places.
pub open spec fn picked(logits: Seq<F32>, idx: Seq<usize>) -> Seq<F32> {
    Seq::new(idx.len(), |i: int| logits[idx[i] as int])
}

/// How many tokens a top-k filter leaves; 0 or too many means no filter.
pub open spec fn kept_count(n: nat, top_k: int) -> nat {
    if top_k <= 0 || top_k >= n {
        n
    } else {
        top_k as nat
    }
}

/// `idx` are the places that a top-k filter leaves: all of them in order, or the
/// `k` best.
pub open spec fn is_top_k(logits: Seq<F32>, top_k: int, idx: Seq<usize>) -> bool {
    let k = kept_count(logits.len(), top_k);
    if k == logits.len() {
        idx == all_places(k)
    } else {
        exists|order: Seq<usize>|
            #[trigger] crate::order::ranked(logits, order) && idx == order.subrange(0, k as int)
    }
}

/// The exponent of each kept token: its logit less the largest, over the
/// temperature.
pub open spec fn exponents(logits: Seq<F32>, idx: Seq<usize>, temp: F32) -> Seq<F32> {
    let kept = picked(logits, idx);
    Seq::new(
        idx.len(),
        |i: int|
            crate::float::quotient(
                crate::float::difference(
                    kept[i],
                    crate::cask::highest(kept, kept.len()),
                ),
                temp,
            ),
    )
}

/// What sampling does first.
pub enum SampleStep {
    /// Greedy: this token.
    Token(u32),
    /// Draw among the tokens `idx` by the exponentials of `exponents`.
    Weigh { idx: Vec<usize>, exponents: Vec<F32> },
}

/// The place of the largest logit among `idx`, the last of equals.
fn last_max_of(logits: &[F32], idx: &Vec<usize>) -> (c: usize)
    requires
        idx@.len() > 0,
        forall|i: int| 0 <= i < idx@.len() ==> (#[trigger] idx@[i]) < logits@.len(),
    ensures
        c == last_max(logits@, idx@, idx@.len()),
        c < idx@.len(),
{
    let mut c: usize = 0;
    let mut i: usize = 1;
    while i < idx.len()
        invariant
            1 <= i <= idx@.len(),
            c < i,
            forall|i: int| 0 <= i < idx@.len() ==> (#[trigger] idx@[i]) < logits@.len(),
            c == last_max(logits@, idx@, i as nat),
        decreases idx@.len() - i,
    {
        if !logits[idx[i]].lt(logits[idx[c]]) {
            c = i;
        }
        i = i + 1;
    }
    c
}

fn places(n: usize) -> (idx: Vec<usize>)
    ensures
        idx@ == all_places(n as nat),
{
    let mut idx: Vec<usize> = Vec::with_capacity(n);
    let mut i: usize = 0;
    while i < n
        invariant
            i <= n,
            idx@.len() == i,
            forall|k: int| 0 <= k < i ==> #[trigger] idx@[k] == k,
        decreases n - i,
    {
        idx.push(i);
        i = i + 1;
    }
    assert(idx@ =~= all_places(n as nat));
    idx
}

/// Starts to sample a token. Temperature zero or below is greedy: the largest
/// logit, the last of equals. Otherwise keeps the `top_k` best tokens (0, or as
/// many as there are: all) and gives the exponents of their weights.
pub fn sample_candidates(logits: &[F32], temp: F32, top_k: usize) -> (step: SampleStep)
    requires
        logits@.len() <= u32::MAX,
        logits@.len() != 1 ==> forall|i: int| 0 <= i < logits@.len() ==> !(#[trigger] logits@[i]).nan(),
        temp.below(F32 { bits: 0 }) || temp.same(F32 { bits: 0 }) ==> logits@.len() > 0,
    ensures
        match step {
            SampleStep::Token(t) => {
                &&& temp.below(F32 { bits: 0 }) || temp.same(F32 { bits: 0 })
                &&& t == last_max(logits@, all_places(logits@.len()), logits@.len())
            },
            SampleStep::Weigh { idx, exponents: e } => {
                &&& !(temp.below(F32 { bits: 0 }) || temp.same(F32 { bits: 0 }))
                &&& is_top_k(logits@, top_k as int, idx@)
                &&& forall|i: int| 0 <= i < idx@.len() ==> (#[trigger] idx@[i]) < logits@.len()
                &&& e@ == exponents(logits@, idx@, temp)
            },
        },
{
    let n: usize = logits.len();
    if temp.le(F32::zero()) {
        let all: Vec<usize> = places(n);
        return SampleStep::Token(last_max_of(logits, &all) as u32);
    }
    let idx: Vec<usize> = if top_k == 0 || top_k >= n {
        places(n)
    } else {
        let mut order: Vec<usize> = rank_descending(logits);
        let ghost whole = order@;
        order.truncate(top_k);
        assert(order@ =~= whole.subrange(0, top_k as int));
        order
    };
    let mut kept: Vec<F32> = Vec::with_capacity(idx.len());
    let mut i: usize = 0;
    while i < idx.len()
        invariant
            i <= idx@.len(),
            forall|k: int| 0 <= k < idx@.len() ==> (#[trigger] idx@[k]) < logits@.len(),
            kept@.len() == i,
            forall|k: int| 0 <= k < i ==> #[trigger] kept@[k] == logits@[idx@[k] as int],
        decreases idx@.len() - i,
    {
        kept.push(logits[idx[i]]);
        i = i + 1;
    }
    assert(kept@ =~= picked(logits@, idx@));
    let top: F32 = crate::cask::highest_of(&kept);
    let mut exps: Vec<F32> = Vec::with_capacity(idx.len());
    i = 0;
    while i < kept.len()
        invariant
            i <= kept@.len(),
            kept@ == picked(logits@, idx@),
            top == crate::cask::highest(kept@, kept@.len()),
            exps@.len() == i,
            forall|k: int|
                0 <= k < i ==> #[trigger] exps@[k] == exponents(logits@, idx@, temp)[k],
        decreases kept@.len() - i,
    {
        exps.push(kept[i].minus(top).over(temp));
        i = i + 1;
    }
    assert(exps@ =~= exponents(logits@, idx@, temp));
    SampleStep::Weigh { idx, exponents: exps }
}

/// A usable sum of weights: positive and finite.
pub open spec fn usable(sum: F32) -> bool {
    sum.finite() && (F32 { bits: 0 }).below(sum)
}

/// Weights divided by `sum`.
pub open spec fn scaled(w: Seq<F32>, sum: F32) -> Seq<F32> {
    Seq::new(w.len(), |i: int| crate::float::quotient(w[i], sum))
}

/// The sum of the `n` heaviest weights, in ranked order from zero.
pub open spec fn mass(w: Seq<F32>, order: Seq<usize>, n: nat) -> F32
    decreases n,
{
    if n == 0 {
        F32 { bits: 0 }
    } else {
        crate::float::sum(mass(w, order, (n - 1) as nat), w[order[n - 1] as int])
    }
}

/// The nucleus reaches `top_p` with its first `n` tokens.
pub open spec fn reaches(w: Seq<F32>, order: Seq<usize>, top_p: F32, n: nat) -> bool {
    top_p.below(mass(w, order, n)) || top_p.same(mass(w, order, n))
}

/// The size of the nucleus: the fewest tokens that reach `top_p`, or all.
pub open spec fn is_cutoff(w: Seq<F32>, order: Seq<usize>, top_p: F32, c: nat) -> bool {
    &&& c <= w.len()
    &&& forall|n: nat| 1 <= n < c ==> !#[trigger] reaches(w, order, top_p, n)
    &&& c == 0 ==> w.len() == 0
    &&& c < w.len() ==> reaches(w, order, top_p, c)
}

/// Place `j` is among the first `c` of `order`.
pub open spec fn in_nucleus(order: Seq<usize>, c: nat, j: int) -> bool {
    exists|i: int| 0 <= i < c && #[trigger] order[i] == j
}

/// The places, in order, that lie in the nucleus, among the first `n`.
pub open spec fn nucleus(order: Seq<usize>, c: nat, n: nat) -> Seq<int>
    decreases n,
{
    if n == 0 {
        Seq::empty()
    } else {
        let before = nucleus(order, c, (n - 1) as nat);
        if in_nucleus(order, c, n - 1) {
            before.push(n - 1)
        } else {
            before
        }
    }
}

pub open spec fn chosen_w(w: Seq<F32>, places: Seq<int>) -> Seq<F32> {
    Seq::new(places.len(), |i: int| w[places[i]])
}

pub open spec fn chosen_idx(idx: Seq<usize>, places: Seq<int>) -> Seq<usize> {
    Seq::new(places.len(), |i: int| idx[places[i]])
}

/// The sum of the first `n` weights, from zero.
pub open spec fn cumulative(w: Seq<F32>, n: nat) -> F32
    decreases n,
{
    if n == 0 {
        F32 { bits: 0 }
    } else {
        crate::float::sum(cumulative(w, (n - 1) as nat), w[n - 1])
    }
}

/// `r` falls on place `j` or before it.
pub open spec fn covers(w: Seq<F32>, r: F32, j: int) -> bool {
    r.below(cumulative(w, (j + 1) as nat)) || r.same(cumulative(w, (j + 1) as nat))
}

/// The token that `r` falls on: the first whose cumulative weight reaches it, or
/// the last.
pub open spec fn is_draw(idx: Seq<usize>, w: Seq<F32>, r: F32, token: u32) -> bool {
    exists|j: int|
        {
            &&& 0 <= j < idx.len()
            &&& token == #[trigger] idx[j] as u32
            &&& forall|i: int| 0 <= i < j ==> !#[trigger] covers(w, r, i)
            &&& j < idx.len() - 1 ==> covers(w, r, j)
        }
}

/// A nucleus filter is asked for.
pub open spec fn filters(top_p: F32) -> bool {
    (F32 { bits: 0 }).below(top_p) && top_p.below(F32 { bits: crate::cask::ONE })
}

/// What is drawn from once the nucleus filter has been applied to the weights
/// `w`: the tokens in the nucleus, weighed anew, or all where that fails.
pub open spec fn after_filter(
    idx: Seq<usize>,
    w: Seq<F32>,
    top_p: F32,
    new_idx: Seq<usize>,
    new_w: Seq<F32>,
) -> bool {
    if filters(top_p) {
        exists|order: Seq<usize>, c: nat|
            {
                let kept = nucleus(order, c, w.len());
                let part = chosen_w(w, kept);
                let sum = crate::cask::total(part, part.len());
                &&& #[trigger] crate::order::ranked(w, order)
                &&& #[trigger] is_cutoff(w, order, top_p, c)
                &&& if usable(sum) {
                    new_idx == chosen_idx(idx, kept) && new_w == scaled(part, sum)
                } else {
                    new_idx == idx && new_w == w
                }
            }
    } else {
        new_idx == idx && new_w == w
    }
}

proof fn lemma_nucleus_places(order: Seq<usize>, c: nat, n: nat)
    ensures
        forall|i: int|
            0 <= i < nucleus(order, c, n).len() ==> 0 <= #[trigger] nucleus(order, c, n)[i] < n,
    decreases n,
{
    if n > 0 {
        let before = nucleus(order, c, (n - 1) as nat);
        lemma_nucleus_places(order, c, (n - 1) as nat);
        assert forall|i: int| 0 <= i < nucleus(order, c, n).len() implies 0
            <= #[trigger] nucleus(order, c, n)[i] < n by {
            if i < before.len() {
                assert(nucleus(order, c, n)[i] == before[i]);
            }
        }
    }
}

/// A drawn token is one of the candidates.
pub proof fn law_draw_is_a_candidate(
    idx: Seq<usize>,
    w: Seq<F32>,
    top_p: F32,
    new_idx: Seq<usize>,
    new_w: Seq<F32>,
    r: F32,
    token: u32,
)
    requires
        idx.len() == w.len(),
        forall|i: int| 0 <= i < idx.len() ==> #[trigger] idx[i] <= u32::MAX,
        after_filter(idx, w, top_p, new_idx, new_w),
        is_draw(new_idx, new_w, r, token),
    ensures
        idx.contains(token as usize),
{
    let j = choose|j: int|
        {
            &&& 0 <= j < new_idx.len()
            &&& token == #[trigger] new_idx[j] as u32
            &&& forall|i: int| 0 <= i < j ==> !#[trigger] covers(new_w, r, i)
            &&& j < new_idx.len() - 1 ==> covers(new_w, r, j)
        };
    if new_idx == idx {
        assert(idx[j] == token as usize);
    } else {
        let (order, c) = choose|order: Seq<usize>, c: nat|
            {
                let kept = nucleus(order, c, w.len());
                let part = chosen_w(w, kept);
                let sum = crate::cask::total(part, part.len());
                &&& #[trigger] crate::order::ranked(w, order)
                &&& #[trigger] is_cutoff(w, order, top_p, c)
                &&& if usable(sum) {
                    new_idx == chosen_idx(idx, kept) && new_w == scaled(part, sum)
                } else {
                    new_idx == idx && new_w == w
                }
            };
        let kept = nucleus(order, c, w.len());
        lemma_nucleus_places(order, c, w.len());
        assert(new_idx[j] == idx[kept[j]]);
        assert(idx[kept[j]] == token as usize);
    }
}

/// The sum of some weights, in order from negative zero.
fn sum_of(w: &Vec<F32>) -> (r: F32)
    ensures
        r == crate::cask::total(w@, w@.len()),
{
    let mut acc: F32 = F32::zero().neg();
    let mut i: usize = 0;
    while i < w.len()
        invariant
            i <= w@.len(),
            acc == crate::cask::total(w@, i as nat),
        decreases w@.len() - i,
    {
        acc = acc.plus(w[i]);
        i = i + 1;
    }
    acc
}

fn scale_down(w: &Vec<F32>, sum: F32) -> (r: Vec<F32>)
    ensures
        r@ == scaled(w@, sum),
{
    let mut r: Vec<F32> = Vec::with_capacity(w.len());
    let mut i: usize = 0;
    while i < w.len()
        invariant
            i <= w@.len(),
            r@.len() == i,
            forall|k: int| 0 <= k < i ==> #[trigger] r@[k] == crate::float::quotient(w@[k], sum),
        decreases w@.len() - i,
    {
        r.push(w[i].over(sum));
        i = i + 1;
    }
    assert(r@ =~= scaled(w@, sum));
    r
}

/// The size of the nucleus.
fn cutoff_of(w: &Vec<F32>, order: &Vec<usize>, top_p: F32) -> (c: usize)
    requires
        order@.len() == w@.len(),
        forall|i: int| 0 <= i < order@.len() ==> (#[trigger] order@[i]) < w@.len(),
    ensures
        is_cutoff(w@, order@, top_p, c as nat),
{
    let mut cum: F32 = F32::zero();
    let mut rank: usize = 0;
    while rank < order.len()
        invariant
            rank <= order@.len(),
            order@.len() == w@.len(),
            forall|i: int| 0 <= i < order@.len() ==> (#[trigger] order@[i]) < w@.len(),
            cum == mass(w@, order@, rank as nat),
            forall|n: nat| 1 <= n <= rank ==> !#[trigger] reaches(w@, order@, top_p, n),
        decreases order@.len() - rank,
    {
        cum = cum.plus(w[order[rank]]);
        if top_p.le(cum) {
            assert(reaches(w@, order@, top_p, (rank + 1) as nat));
            return rank + 1;
        }
        assert(!reaches(w@, order@, top_p, (rank + 1) as nat));
        rank = rank + 1;
    }
    order.len()
}

/// Marks the places in the nucleus.
fn nucleus_marks(order: &Vec<usize>, c: usize) -> (marks: Vec<bool>)
    requires
        c <= order@.len(),
        forall|i: int| 0 <= i < order@.len() ==> (#[trigger] order@[i]) < order@.len(),
    ensures
        marks@.len() == order@.len(),
        forall|j: int|
            0 <= j < marks@.len() ==> #[trigger] marks@[j] == in_nucleus(order@, c as nat, j),
{
    let n: usize = order.len();
    let mut marks: Vec<bool> = Vec::with_capacity(n);
    let mut i: usize = 0;
    while i < n
        invariant
            i <= n,
            marks@.len() == i,
            forall|k: int| 0 <= k < i ==> !(#[trigger] marks@[k]),
        decreases n - i,
    {
        marks.push(false);
        i = i + 1;
    }
    i = 0;
    while i < c
        invariant
            i <= c <= n,
            n == order@.len(),
            marks@.len() == n,
            forall|i: int| 0 <= i < order@.len() ==> (#[trigger] order@[i]) < order@.len(),
            forall|j: int|
                0 <= j < n ==> #[trigger] marks@[j] == in_nucleus(order@, i as nat, j),
        decreases c - i,
    {
        let ghost before = marks@;
        marks.set(order[i], true);
        proof {
            assert forall|j: int| 0 <= j < n implies #[trigger] marks@[j] == in_nucleus(
                order@,
                (i + 1) as nat,
                j,
            ) by {
                assert(before[j] == in_nucleus(order@, i as nat, j));
                if in_nucleus(order@, i as nat, j) {
                    let k = choose|k: int| 0 <= k < i && #[trigger] order@[k] == j;
                    assert(order@[k] == j && k < i + 1);
                }
                if j == order@[i as int] {
                    assert(in_nucleus(order@, (i + 1) as nat, j));
                }
                if in_nucleus(order@, (i + 1) as nat, j) && j != order@[i as int] {
                    let k = choose|k: int| 0 <= k < i + 1 && #[trigger] order@[k] == j;
                    assert(k < i && order@[k] == j);
                }
            }
        }
        i = i + 1;
    }
    marks
}

/// The place that `r` falls on.
fn draw(idx: &Vec<usize>, w: &Vec<F32>, r: F32) -> (token: u32)
    requires
        idx@.len() == w@.len(),
        idx@.len() > 0,
    ensures
        is_draw(idx@, w@, r, token),
{
    let mut acc: F32 = F32::zero();
    let mut j: usize = 0;
    while j < w.len()
        invariant
            j <= w@.len(),
            idx@.len() == w@.len(),
            acc == cumulative(w@, j as nat),
            forall|i: int| 0 <= i < j ==> !#[trigger] covers(w@, r, i),
        decreases w@.len() - j,
    {
        acc = acc.plus(w[j]);
        if r.le(acc) {
            assert(covers(w@, r, j as int));
            assert(idx@[j as int] as u32 == idx@[j as int] as u32);
            return idx[j] as u32;
        }
        assert(!covers(w@, r, j as int));
        j = j + 1;
    }
    let last: usize = idx.len() - 1;
    assert(idx@[last as int] as u32 == idx@[last as int] as u32);
    idx[last] as u32
}

/// What a draw gives from the candidates `idx` and the exponentials `exps`: the token,
/// and the generator moved on from `before` to `after`. Where the exponentials do not
/// add up to something usable, the token is the largest logit, the last of equals, and
/// the generator stands still.
pub open spec fn sampled(
    logits: Seq<F32>,
    idx: Seq<usize>,
    exps: Seq<F32>,
    top_p: F32,
    before: u64,
    after: u64,
    token: u32,
) -> bool {
    let sum = crate::cask::total(exps, exps.len());
    if !usable(sum) {
        &&& after == before
        &&& token == (if idx.len() == 0 {
            0
        } else {
            idx[last_max(logits, idx, idx.len())] as int
        })
    } else {
        &&& after == xorshift_step(before)
        &&& exists|new_idx: Seq<usize>, new_w: Seq<F32>|
            {
                &&& #[trigger] after_filter(idx, scaled(exps, sum), top_p, new_idx, new_w)
                &&& is_draw(
                    new_idx,
                    new_w,
                    unit_fraction(((after * SCRAMBLE) % 0x1_0000_0000_0000_0000) as u64),
                    token,
                )
            }
    }
}

/// Draws a token by its weight. `idx` are the candidates and `exps` the
/// exponentials of their exponents. Where those do not add up to something
/// usable, the largest logit wins, the last of equals (0 where there is none),
/// and nothing is drawn. A `top_p` strictly between 0 and 1 keeps only the
/// heaviest tokens that together reach it.
pub fn sample_token(
    logits: &[F32],
    idx: Vec<usize>,
    exps: &Vec<F32>,
    top_p: F32,
    rng: &mut Xorshift,
) -> (token: u32)
    requires
        logits@.len() <= u32::MAX,
        idx@.len() == exps@.len(),
        forall|i: int| 0 <= i < idx@.len() ==> (#[trigger] idx@[i]) < logits@.len(),
    ensures
        sampled(logits@, idx@, exps@, top_p, old(rng).state(), final(rng).state(), token),
{
    let sum: F32 = sum_of(exps);
    if !sum.is_finite() || sum.le(F32::zero()) {
        if idx.len() == 0 {
            return 0;
        }
        return idx[last_max_of(logits, &idx)] as u32;
    }
    let weights: Vec<F32> = scale_down(exps, sum);
    let n: usize = weights.len();
    proof {
        if n == 0 {
            assert(sum.word() == 0);
            assert(exps@.len() == 0);
            assert(sum.units() == 0);
        }
    }
    if F32::zero().lt(top_p) && top_p.lt(F32 { bits: crate::cask::ONE }) {
        let order: Vec<usize> = rank_descending(&weights);
        let c: usize = cutoff_of(&weights, &order, top_p);
        let marks: Vec<bool> = nucleus_marks(&order, c);
        let mut new_idx: Vec<usize> = Vec::with_capacity(c);
        let mut new_w: Vec<F32> = Vec::with_capacity(c);
        let mut j: usize = 0;
        assert(chosen_idx(idx@, nucleus(order@, c as nat, 0)) =~= Seq::<usize>::empty());
        assert(chosen_w(weights@, nucleus(order@, c as nat, 0)) =~= Seq::<F32>::empty());
        while j < n
            invariant
                j <= n,
                n == weights@.len(),
                idx@.len() == n,
                marks@.len() == n,
                forall|k: int|
                    0 <= k < n ==> #[trigger] marks@[k] == in_nucleus(order@, c as nat, k),
                new_idx@ == chosen_idx(idx@, nucleus(order@, c as nat, j as nat)),
                new_w@ == chosen_w(weights@, nucleus(order@, c as nat, j as nat)),
            decreases n - j,
        {
            proof {
                let a = nucleus(order@, c as nat, j as nat);
                let b = nucleus(order@, c as nat, (j + 1) as nat);
                if marks@[j as int] {
                    assert(chosen_idx(idx@, b) =~= chosen_idx(idx@, a).push(idx@[j as int]));
                    assert(chosen_w(weights@, b) =~= chosen_w(weights@, a).push(
                        weights@[j as int],
                    ));
                }
            }
            if marks[j] {
                new_idx.push(idx[j]);
                new_w.push(weights[j]);
            }
            j = j + 1;
        }
        let new_sum: F32 = sum_of(&new_w);
        proof {
            assert(crate::order::ranked(weights@, order@));
            assert(is_cutoff(weights@, order@, top_p, c as nat));
        }
        if new_sum.is_finite() && F32::zero().lt(new_sum) {
            let w2: Vec<F32> = scale_down(&new_w, new_sum);
            proof {
                assert(after_filter(idx@, weights@, top_p, new_idx@, w2@));
                if new_idx@.len() == 0 {
                    assert(new_sum.units() == 0);
                }
            }
            let r: F32 = rng.next_f32();
            return draw(&new_idx, &w2, r);
        }
        assert(after_filter(idx@, weights@, top_p, idx@, weights@));
    }
    assert(after_filter(idx@, weights@, top_p, idx@, weights@));
    let r: F32 = rng.next_f32();
    draw(&idx, &weights, r)
}

} // verus!
