//! When and how a cache is compressed: slot counts, selection and reassembly.

use vstd::prelude::*;

use crate::cask::{greedy_group_by_l2, weighted_avg_q8};
use crate::float::F32;
use crate::order::{rank_descending, sort_by_key};

verus! {

/// What scoring and top-budget eviction are configured with.
pub struct EvictionCtx {
    /// Slots that remain after an eviction.
    pub budget: usize,
    /// How far the cache may outgrow the budget before an eviction.
    pub beta: usize,
    pub n_heads: usize,
    pub n_kv_heads: usize,
    pub head_dim: usize,
    pub n_rot: usize,
    pub rope_theta: F32,
    /// The layers that hold a cache.
    pub fa_layer_ids: Vec<usize>,
    /// Length of one layer's score centers in their buffer.
    pub centers_per_layer: usize,
    /// Evictions so far.
    pub eviction_count: usize,
}

/// Compression that folds the lower-scored part of what stays.
pub struct CaskCtx {
    pub base: EvictionCtx,
    /// Share of the budget kept for tokens that are never folded.
    pub core_frac: F32,
    /// Tokens per folded slot.
    pub fold_m: usize,
}

/// A share: a number from 0 to 1.
pub open spec fn is_share(x: F32) -> bool {
    !x.nan() && 0 <= x.units() <= (F32 { bits: crate::cask::ONE }).units()
}

/// How the slots of one eviction are laid out.
#[derive(Clone, Copy)]
pub struct FoldPlan {
    /// Slots that keep a token as it is.
    pub core_slots: usize,
    /// Slots that hold a folded group.
    pub merge_slots: usize,
    /// Tokens that go into the folded slots.
    pub merge_pool: usize,
    /// Bytes per row.
    pub row_bytes: usize,
    /// The absolute position that scores refer to.
    pub query_pos: F32,
}

/// What to do with a cache of a given size.
pub enum EvictStep {
    /// It still fits.
    Keep,
    /// Plain top-budget eviction: the rows are not Q8.
    TopBudget,
    /// Fold it as planned.
    Fold(FoldPlan),
}

/// How one layer's tokens are divided.
pub struct LayerSelection {
    /// Tokens that stay, best first.
    pub core_idx: Vec<u32>,
    /// Tokens to fold, best first.
    pub scratch_idx: Vec<u32>,
    /// The groups, as places in `scratch_idx`.
    pub groups: Vec<Vec<usize>>,
    /// Per group the scores of its tokens.
    pub raw_scores: Vec<Vec<F32>>,
}

/// Where a slot of the compressed cache comes from.
#[derive(Clone, Copy, PartialEq, Eq, Structural)]
pub enum SlotSrc {
    Core(usize),
    Merged(usize),
}

impl CaskCtx {
    pub open spec fn wf(self) -> bool {
        is_share(self.core_frac) && self.fold_m >= 2
    }

    /// Slots that the share asks to keep unfolded.
    pub open spec fn core_target(self) -> nat {
        crate::float::trunc_nat(
            crate::float::product(crate::float::of_nat(self.base.budget as nat), self.core_frac),
        )
    }

    /// Folded slots: as many as the share leaves and the surplus can fill.
    pub open spec fn merge_count(self, physical: int) -> int {
        let wanted = self.base.budget - self.core_target();
        let room = if physical > self.base.budget {
            (physical - self.base.budget) / (self.fold_m - 1)
        } else {
            0
        };
        if wanted < room {
            wanted
        } else {
            room
        }
    }

    pub open spec fn row_bytes(self) -> int {
        crate::cask::row_len(self.base.n_kv_heads as int, self.base.head_dim as int)
    }

    pub open spec fn is_plan(self, plan: FoldPlan, physical: int, offset: int) -> bool {
        &&& plan.merge_slots == self.merge_count(physical)
        &&& plan.core_slots == self.base.budget - plan.merge_slots
        &&& plan.merge_pool == plan.merge_slots * self.fold_m
        &&& plan.row_bytes == self.row_bytes()
        &&& plan.query_pos == crate::float::of_nat((physical + offset) as nat)
    }

    /// A policy over `base`; the share lies in [0, 1], a group has at least two
    /// tokens.
    pub fn new(base: EvictionCtx, core_frac: F32, fold_m: usize) -> (r: Self)
        requires
            is_share(core_frac),
            fold_m >= 2,
        ensures
            r.base == base,
            r.core_frac == core_frac,
            r.fold_m == fold_m,
            r.wf(),
    {
        CaskCtx { base, core_frac, fold_m }
    }

    /// Evictions so far.
    pub fn eviction_count(&self) -> (r: usize)
        ensures
            r == self.base.eviction_count,
    {
        self.base.eviction_count
    }

    /// Slots that the share asks to keep unfolded.
    pub fn target_core(&self) -> (r: u64)
        ensures
            r == self.core_target(),
    {
        F32::from_u64(self.base.budget as u64).times(self.core_frac).to_u64()
    }

    /// Decides what happens to a cache of `current_physical` tokens, of which
    /// `compact_offset` more were evicted before.
    pub fn maybe_evict(
        &self,
        current_physical: usize,
        compact_offset: usize,
        quant_q8: bool,
    ) -> (r: EvictStep)
        requires
            self.wf(),
            self.base.budget + self.base.beta <= usize::MAX,
            current_physical + compact_offset <= usize::MAX,
            self.core_target() <= self.base.budget,
            self.row_bytes() <= usize::MAX,
        ensures
            r is Keep <==> current_physical < self.base.budget + self.base.beta,
            r is TopBudget <==> current_physical >= self.base.budget + self.base.beta && !quant_q8,
            r matches EvictStep::Fold(plan) ==> self.is_plan(
                plan,
                current_physical as int,
                compact_offset as int,
            ),
    {
        let budget: usize = self.base.budget;
        if current_physical < budget + self.base.beta {
            return EvictStep::Keep;
        }
        if !quant_q8 {
            return EvictStep::TopBudget;
        }
        let target_merge: usize = budget - self.target_core() as usize;
        let ghost room = (current_physical - budget) / (self.fold_m - 1);
        let merge_slots: usize = if current_physical > budget {
            let max_by_input: usize = (current_physical - budget) / (self.fold_m - 1);
            if target_merge < max_by_input {
                target_merge
            } else {
                max_by_input
            }
        } else {
            0
        };
        let n_kv: usize = self.base.n_kv_heads;
        let n_blocks: usize = self.base.head_dim / 32;
        proof {
            law_plan_fits(*self, current_physical as int);
            let a = n_kv * n_blocks;
            assert(0 <= a <= a * 34) by (nonlinear_arith)
                requires
                    a == n_kv * n_blocks,
                    n_kv >= 0,
                    n_blocks >= 0,
            ;
        }
        EvictStep::Fold(
            FoldPlan {
                core_slots: budget - merge_slots,
                merge_slots,
                merge_pool: merge_slots * self.fold_m,
                row_bytes: n_kv * n_blocks * 34,
                query_pos: F32::from_u64((current_physical + compact_offset) as u64),
            },
        )
    }

    /// Where the score centers of the `fa_i`-th cached layer start.
    pub fn center_offset(&self, fa_i: usize) -> (r: usize)
        requires
            fa_i * self.base.centers_per_layer <= usize::MAX,
        ensures
            r == fa_i * self.base.centers_per_layer,
    {
        fa_i * self.base.centers_per_layer
    }

    /// Records an eviction: what was evicted moves into the offset, and the
    /// cache now holds the returned number of tokens.
    pub fn finish(&mut self, current_physical: usize, compact_offset: usize) -> (r: (usize, usize))
        requires
            old(self).base.budget <= current_physical,
            compact_offset + current_physical - old(self).base.budget <= usize::MAX,
            old(self).base.eviction_count < usize::MAX,
        ensures
            r.0 == compact_offset + current_physical - old(self).base.budget,
            r.1 == old(self).base.budget,
            final(self).base == (EvictionCtx {
                eviction_count: (old(self).base.eviction_count + 1) as usize,
                ..old(self).base
            }),
            final(self).core_frac == old(self).core_frac,
            final(self).fold_m == old(self).fold_m,
    {
        self.base.eviction_count = self.base.eviction_count + 1;
        (compact_offset + (current_physical - self.base.budget), self.base.budget)
    }
}

/// The slots of a plan add up to the budget, and the cache holds enough tokens
/// to fill them.
pub proof fn law_plan_fits(ctx: CaskCtx, physical: int)
    requires
        ctx.wf(),
        ctx.core_target() <= ctx.base.budget,
        physical >= ctx.base.budget,
    ensures
        0 <= ctx.merge_count(physical) <= ctx.base.budget,
        (ctx.base.budget - ctx.merge_count(physical)) + ctx.merge_count(physical) * ctx.fold_m
            <= physical,
{
    let b = ctx.base.budget as int;
    let m = ctx.fold_m as int;
    let s = ctx.merge_count(physical);
    if physical > b {
        let room = (physical - b) / (m - 1);
        vstd::arithmetic::div_mod::lemma_fundamental_div_mod(physical - b, m - 1);
        vstd::arithmetic::div_mod::lemma_div_pos_is_pos(physical - b, m - 1);
        assert((b - s) + s * m <= physical) by (nonlinear_arith)
            requires
                0 <= s <= room,
                (m - 1) * room + (physical - b) % (m - 1) == physical - b,
                (physical - b) % (m - 1) >= 0,
                m >= 2,
        ;
    } else {
        assert(s * m == 0) by (nonlinear_arith)
            requires
                s == 0,
        ;
    }
}

/// A share never asks for more than the budget, where the budget has at most 24 bits.
pub proof fn law_core_fits_budget(ctx: CaskCtx)
    requires
        ctx.wf(),
        ctx.base.budget <= 0x100_0000,
    ensures
        ctx.core_target() <= ctx.base.budget,
{
    let n = ctx.base.budget as nat;
    let u = crate::float::exp2(149);
    let a = crate::float::of_nat(n);
    let f = ctx.core_frac;
    crate::float::lemma_exp2_values();
    crate::float::lemma_exp2_pos(149);
    crate::float::law_small_integers_are_exact(n);
    crate::float::lemma_magnitude_of_one();
    let m = crate::float::magnitude(a.word());
    let g = crate::float::magnitude(f.word());
    if f.word() > crate::cask::ONE {
        crate::float::lemma_magnitude_monotone(crate::cask::ONE as nat, f.word());
    }
    assert(0 <= m * g <= m * u) by (nonlinear_arith)
        requires
            0 <= g <= u,
            m >= 0,
    ;
    crate::float::lemma_nearest_at_most(m * g, u, a.word());
    let p = crate::float::product(a, f);
    if p.word() < a.word() {
        crate::float::lemma_magnitude_monotone(p.word(), a.word());
    }
    vstd::arithmetic::div_mod::lemma_div_is_ordered(
        crate::float::magnitude(p.word()) as int,
        m as int,
        u as int,
    );
}

/// A share of one folds nothing, which is plain eviction: every slot keeps a token as
/// it is, where the budget has at most 24 bits.
pub proof fn law_full_core_folds_nothing(ctx: CaskCtx, physical: int)
    requires
        ctx.wf(),
        ctx.core_frac.bits == crate::cask::ONE,
        ctx.base.budget <= 0x100_0000,
        physical >= ctx.base.budget,
    ensures
        ctx.merge_count(physical) == 0,
{
    let n = ctx.base.budget as nat;
    crate::float::lemma_exp2_values();
    crate::float::law_small_integers_are_exact(n);
    crate::float::law_one_is_neutral(crate::float::of_nat(n));
    law_plan_fits(ctx, physical);
}

/// A share of zero keeps no slot for the core: where the surplus is large enough, every
/// slot is folded from a group.
pub proof fn law_empty_core_folds_all(ctx: CaskCtx, physical: int)
    requires
        ctx.wf(),
        ctx.core_frac.word() == 0,
        physical >= ctx.base.budget * ctx.fold_m,
    ensures
        ctx.core_target() == 0,
        ctx.merge_count(physical) == ctx.base.budget,
{
    let n = ctx.base.budget as int;
    let m = ctx.fold_m as int;
    let a = crate::float::of_nat(n as nat);
    crate::float::lemma_product_with_zero(a, ctx.core_frac);
    assert(physical - n >= n * (m - 1)) by (nonlinear_arith)
        requires
            physical >= n * m,
    ;
    assert(n * m >= 2 * n) by (nonlinear_arith)
        requires
            n >= 0,
            m >= 2,
    ;
    if physical > n {
        vstd::arithmetic::div_mod::lemma_div_is_ordered(n * (m - 1), physical - n, m - 1);
        vstd::arithmetic::div_mod::lemma_div_by_multiple(n, m - 1);
    }
}

/// The indices `order[from..to]` as token numbers.
pub open spec fn tokens(order: Seq<usize>, from: int, to: int) -> Seq<u32> {
    Seq::new((to - from) as nat, |i: int| order[from + i] as u32)
}

/// The scores of a group's tokens.
pub open spec fn group_scores(agg: Seq<F32>, scratch: Seq<u32>, group: Seq<usize>) -> Seq<F32> {
    Seq::new(group.len(), |i: int| agg[scratch[group[i] as int] as int])
}

/// The tokens of a group.
pub open spec fn group_tokens(scratch: Seq<u32>, group: Seq<usize>) -> Seq<u32> {
    Seq::new(group.len(), |i: int| scratch[group[i] as int])
}

fn take_tokens(order: &Vec<usize>, from: usize, to: usize) -> (r: Vec<u32>)
    requires
        from <= to <= order@.len(),
    ensures
        r@ == tokens(order@, from as int, to as int),
{
    let mut r: Vec<u32> = Vec::with_capacity(to - from);
    let mut i: usize = from;
    while i < to
        invariant
            from <= i <= to <= order@.len(),
            r@.len() == i - from,
            forall|k: int| 0 <= k < r@.len() ==> #[trigger] r@[k] == order@[from + k] as u32,
        decreases to - i,
    {
        r.push(order[i] as u32);
        i = i + 1;
    }
    assert(r@ =~= tokens(order@, from as int, to as int));
    r
}

impl LayerSelection {
    /// The selection is the one that the scores ask for: the best tokens stay,
    /// the next ones are grouped by the likeness of their keys.
    pub open spec fn follows(self, ctx: CaskCtx, plan: FoldPlan, agg: Seq<F32>, k_all: Seq<u8>) -> bool {
        &&& exists|order: Seq<usize>|
            {
                &&& #[trigger] crate::order::ranked(agg, order)
                &&& self.core_idx@ == tokens(order, 0, plan.core_slots as int)
                &&& self.scratch_idx@ == tokens(
                    order,
                    plan.core_slots as int,
                    plan.core_slots + plan.merge_pool,
                )
            }
        &&& crate::cask::group_views(self.groups@) == crate::cask::groups_of(
            crate::cask::features(
                k_all,
                self.scratch_idx@,
                ctx.base.n_kv_heads as int,
                ctx.base.head_dim as int,
            ),
            ctx.fold_m as nat,
        )
        &&& self.raw_scores@.len() == self.groups@.len()
        &&& forall|g: int|
            0 <= g < self.groups@.len() ==> (#[trigger] self.raw_scores@[g])@ == group_scores(
                agg,
                self.scratch_idx@,
                self.groups@[g]@,
            )
    }

    /// Every token number is below `physical`, and every group place is in range.
    pub open spec fn in_range(self, physical: int) -> bool {
        &&& forall|i: int| 0 <= i < self.core_idx@.len() ==> (#[trigger] self.core_idx@[i]) < physical
        &&& forall|i: int|
            0 <= i < self.scratch_idx@.len() ==> (#[trigger] self.scratch_idx@[i]) < physical
        &&& forall|g: int, i: int|
            #![trigger self.groups@[g]@[i]]
            0 <= g < self.groups@.len() && 0 <= i < self.groups@[g]@.len()
                ==> self.groups@[g]@[i] < self.scratch_idx@.len()
    }
}

proof fn lemma_rows_inside(pos: int, physical: int, len: int, avail: int)
    requires
        0 <= pos < physical,
        len >= 0,
        physical * len <= avail,
    ensures
        (pos + 1) * len <= avail,
{
    assert((pos + 1) * len <= physical * len) by (nonlinear_arith)
        requires
            pos + 1 <= physical,
            len >= 0,
    ;
}

proof fn lemma_row_len(n_kv: int, head_dim: int)
    requires
        n_kv >= 0,
        head_dim >= 0,
    ensures
        crate::cask::row_len(n_kv, head_dim) >= 0,
{
    let b = head_dim / 32;
    assert(n_kv * b * 34 >= 0) by (nonlinear_arith)
        requires
            n_kv >= 0,
            b >= 0,
    ;
}

impl CaskCtx {
    /// Divides one layer's tokens by their scores and groups those to fold.
    pub fn select_layer(&self, plan: &FoldPlan, agg: &[F32], k_all: &[u8]) -> (sel: LayerSelection)
        requires
            self.wf(),
            plan.core_slots + plan.merge_pool <= agg@.len(),
            plan.merge_pool == plan.merge_slots * self.fold_m,
            agg@.len() <= u32::MAX,
            self.base.n_kv_heads * self.base.head_dim <= usize::MAX,
            self.row_bytes() <= usize::MAX,
            agg@.len() * self.row_bytes() <= k_all@.len(),
        ensures
            sel.follows(*self, *plan, agg@, k_all@),
            sel.in_range(agg@.len() as int),
            sel.core_idx@.len() == plan.core_slots,
            sel.groups@.len() == plan.merge_slots,
            forall|g: int|
                0 <= g < sel.groups@.len() ==> (#[trigger] sel.groups@[g])@.len() == self.fold_m,
    {
        let order: Vec<usize> = rank_descending(agg);
        let core_idx: Vec<u32> = take_tokens(&order, 0, plan.core_slots);
        let scratch_idx: Vec<u32> = take_tokens(
            &order,
            plan.core_slots,
            plan.core_slots + plan.merge_pool,
        );
        let n_kv: usize = self.base.n_kv_heads;
        let head_dim: usize = self.base.head_dim;
        let ghost len = self.row_bytes();
        proof {
            lemma_row_len(n_kv as int, head_dim as int);
            assert forall|i: int| 0 <= i < scratch_idx@.len() implies (#[trigger] scratch_idx@[i]
                + 1) * len <= k_all@.len() by {
                assert(scratch_idx@[i] == order@[plan.core_slots + i] as u32);
                lemma_rows_inside(
                    scratch_idx@[i] as int,
                    agg@.len() as int,
                    len,
                    k_all@.len() as int,
                );
            }
        }
        let groups: Vec<Vec<usize>> = greedy_group_by_l2(
            k_all,
            &scratch_idx,
            n_kv,
            head_dim,
            self.fold_m,
        );
        let ghost feats = crate::cask::features(
            k_all@,
            scratch_idx@,
            n_kv as int,
            head_dim as int,
        );
        proof {
            crate::cask::law_groups_are_full_and_disjoint(feats, self.fold_m as nat);
            assert(feats.len() == plan.merge_slots * self.fold_m);
            vstd::arithmetic::div_mod::lemma_div_by_multiple(
                plan.merge_slots as int,
                self.fold_m as int,
            );
            let views = crate::cask::group_views(groups@);
            assert(views.len() == groups@.len());
            assert forall|g: int| 0 <= g < groups@.len() implies (#[trigger] groups@[g])@.len()
                == self.fold_m by {
                assert(views[g] == groups@[g]@);
            }
            assert forall|g: int, i: int|
                #![trigger groups@[g]@[i]]
                0 <= g < groups@.len() && 0 <= i < groups@[g]@.len() implies groups@[g]@[i]
                < scratch_idx@.len() by {
                assert(views[g] == groups@[g]@);
                assert(views[g][i] < feats.len());
            }
        }
        let mut raw_scores: Vec<Vec<F32>> = Vec::with_capacity(groups.len());
        let mut g: usize = 0;
        while g < groups.len()
            invariant
                g <= groups@.len(),
                forall|a: int, i: int|
                    #![trigger groups@[a]@[i]]
                    0 <= a < groups@.len() && 0 <= i < groups@[a]@.len() ==> groups@[a]@[i]
                        < scratch_idx@.len(),
                forall|i: int|
                    0 <= i < scratch_idx@.len() ==> (#[trigger] scratch_idx@[i]) < agg@.len(),
                raw_scores@.len() == g,
                forall|a: int|
                    0 <= a < g ==> (#[trigger] raw_scores@[a])@ == group_scores(
                        agg@,
                        scratch_idx@,
                        groups@[a]@,
                    ),
            decreases groups@.len() - g,
        {
            let mut raw: Vec<F32> = Vec::with_capacity(groups[g].len());
            let mut i: usize = 0;
            while i < groups[g].len()
                invariant
                    g < groups@.len(),
                    i <= groups@[g as int]@.len(),
                    forall|a: int, i: int|
                        #![trigger groups@[a]@[i]]
                        0 <= a < groups@.len() && 0 <= i < groups@[a]@.len() ==> groups@[a]@[i]
                            < scratch_idx@.len(),
                    forall|i: int|
                        0 <= i < scratch_idx@.len() ==> (#[trigger] scratch_idx@[i]) < agg@.len(),
                    raw@.len() == i,
                    forall|k: int|
                        0 <= k < i ==> #[trigger] raw@[k] == group_scores(
                            agg@,
                            scratch_idx@,
                            groups@[g as int]@,
                        )[k],
                decreases groups@[g as int]@.len() - i,
            {
                let place: usize = groups[g][i];
                assert(groups@[g as int]@[i as int] < scratch_idx@.len());
                raw.push(agg[scratch_idx[place] as usize]);
                i = i + 1;
            }
            assert(raw@ =~= group_scores(agg@, scratch_idx@, groups@[g as int]@));
            raw_scores.push(raw);
            g = g + 1;
        }
        LayerSelection { core_idx, scratch_idx, groups, raw_scores }
    }
}

/// The mean position of a group under its weights, added up in order over the
/// first `n` tokens.
pub open spec fn centroid(tokens: Seq<u32>, weights: Seq<F32>, n: nat) -> F32
    decreases n,
{
    if n == 0 {
        F32 { bits: crate::float::SIGN }
    } else {
        crate::float::sum(
            centroid(tokens, weights, (n - 1) as nat),
            crate::float::product(
                crate::float::of_nat(tokens[n - 1] as nat),
                weights[n - 1],
            ),
        )
    }
}

/// The position that a folded group stands for.
pub open spec fn merged_position(tokens: Seq<u32>, weights: Seq<F32>) -> u32 {
    crate::float::capped(
        crate::float::trunc_nat(centroid(tokens, weights, tokens.len())),
        u32::MAX as nat,
    ) as u32
}

/// The positions of all slots before they are put in order: the core tokens,
/// then the folded groups.
pub open spec fn slot_positions(core: Seq<u32>, merged: Seq<u32>) -> Seq<i64> {
    Seq::new(
        core.len() + merged.len(),
        |i: int|
            if i < core.len() {
                core[i] as i64
            } else {
                merged[i - core.len()] as i64
            },
    )
}

/// The slot that stands at place `x` before ordering.
pub open spec fn slot_at(cores: int, x: usize) -> SlotSrc {
    if x < cores {
        SlotSrc::Core(x)
    } else {
        SlotSrc::Merged((x - cores) as usize)
    }
}

/// The slots in temporal order: by position, ties by place.
pub open spec fn is_slot_order(core: Seq<u32>, merged: Seq<u32>, slots: Seq<SlotSrc>) -> bool {
    exists|order: Seq<usize>|
        {
            &&& #[trigger] crate::order::ordered(slot_positions(core, merged), order)
            &&& slots == Seq::new(order.len(), |i: int| slot_at(core.len() as int, order[i]))
        }
}

/// The row that a slot holds.
pub open spec fn slot_row(
    all: Seq<u8>,
    merged: Seq<Seq<u8>>,
    core: Seq<u32>,
    slot: SlotSrc,
    len: int,
) -> Seq<u8> {
    match slot {
        SlotSrc::Core(i) => crate::cask::cache_row(all, core[i as int] as int, len),
        SlotSrc::Merged(i) => merged[i as int],
    }
}

/// The rows of the slots, one after the other.
pub open spec fn slot_rows(
    all: Seq<u8>,
    merged: Seq<Seq<u8>>,
    core: Seq<u32>,
    slots: Seq<SlotSrc>,
    len: int,
) -> Seq<u8>
    decreases slots.len(),
{
    if slots.len() == 0 {
        Seq::empty()
    } else {
        slot_rows(all, merged, core, slots.drop_last(), len) + slot_row(
            all,
            merged,
            core,
            slots.last(),
            len,
        )
    }
}

/// As many whole rows as slots.
proof fn lemma_slot_rows_len(
    all: Seq<u8>,
    merged: Seq<Seq<u8>>,
    core: Seq<u32>,
    slots: Seq<SlotSrc>,
    len: int,
)
    requires
        len >= 0,
        forall|i: int| 0 <= i < core.len() ==> (#[trigger] core[i] + 1) * len <= all.len(),
        forall|i: int| 0 <= i < merged.len() ==> (#[trigger] merged[i]).len() == len,
        forall|i: int|
            0 <= i < slots.len() ==> match #[trigger] slots[i] {
                SlotSrc::Core(c) => c < core.len(),
                SlotSrc::Merged(g) => g < merged.len(),
            },
    ensures
        slot_rows(all, merged, core, slots, len).len() == slots.len() * len,
    decreases slots.len(),
{
    if slots.len() > 0 {
        lemma_slot_rows_len(all, merged, core, slots.drop_last(), len);
        let n = slots.len() as int;
        assert(n * len == (n - 1) * len + len) by (nonlinear_arith);
        match slots.last() {
            SlotSrc::Core(c) => {
                assert(slots[n - 1] == slots.last());
                let p = core[c as int] as int;
                assert((core[c as int] + 1) * len <= all.len());
                assert((p + 1) * len == p * len + len && p * len >= 0) by (nonlinear_arith)
                    requires
                        p >= 0,
                        len >= 0,
                ;
            },
            SlotSrc::Merged(g) => {
                assert(slots[n - 1] == slots.last());
            },
        }
    } else {
        assert(0 * len == 0);
    }
}

/// The slots in temporal order.
pub fn slot_order(core_idx: &Vec<u32>, merged_pos: &Vec<u32>) -> (slots: Vec<SlotSrc>)
    requires
        core_idx@.len() + merged_pos@.len() <= usize::MAX,
    ensures
        is_slot_order(core_idx@, merged_pos@, slots@),
        slots@.len() == core_idx@.len() + merged_pos@.len(),
        forall|i: int|
            0 <= i < slots@.len() ==> match #[trigger] slots@[i] {
                SlotSrc::Core(c) => c < core_idx@.len(),
                SlotSrc::Merged(g) => g < merged_pos@.len(),
            },
{
    let cores: usize = core_idx.len();
    let total: usize = cores + merged_pos.len();
    let mut keys: Vec<i64> = Vec::with_capacity(total);
    let ghost positions = slot_positions(core_idx@, merged_pos@);
    let mut i: usize = 0;
    while i < total
        invariant
            i <= total,
            cores == core_idx@.len(),
            total == cores + merged_pos@.len(),
            positions == slot_positions(core_idx@, merged_pos@),
            keys@.len() == i,
            forall|k: int| 0 <= k < i ==> #[trigger] keys@[k] == positions[k],
        decreases total - i,
    {
        if i < cores {
            keys.push(core_idx[i] as i64);
        } else {
            keys.push(merged_pos[i - cores] as i64);
        }
        i = i + 1;
    }
    assert(keys@ =~= positions);
    let order: Vec<usize> = sort_by_key(&keys);
    let mut slots: Vec<SlotSrc> = Vec::with_capacity(total);
    i = 0;
    while i < total
        invariant
            i <= total,
            cores == core_idx@.len(),
            total == cores + merged_pos@.len(),
            order@.len() == total,
            forall|k: int| 0 <= k < total ==> (#[trigger] order@[k]) < total,
            slots@.len() == i,
            forall|k: int| 0 <= k < i ==> #[trigger] slots@[k] == slot_at(cores as int, order@[k]),
        decreases total - i,
    {
        let x: usize = order[i];
        if x < cores {
            slots.push(SlotSrc::Core(x));
        } else {
            slots.push(SlotSrc::Merged(x - cores));
        }
        i = i + 1;
    }
    proof {
        assert(crate::order::ordered(slot_positions(core_idx@, merged_pos@), order@));
        assert(slots@ =~= Seq::new(
            order@.len(),
            |i: int| slot_at(core_idx@.len() as int, order@[i]),
        ));
    }
    slots
}

pub open spec fn row_views(rows: Seq<Vec<u8>>) -> Seq<Seq<u8>> {
    Seq::new(rows.len(), |i: int| rows[i]@)
}

/// Writes the rows of the slots one after the other.
pub fn assemble_rows(
    all: &[u8],
    merged: &Vec<Vec<u8>>,
    core_idx: &Vec<u32>,
    slots: &Vec<SlotSrc>,
    row_bytes: usize,
) -> (out: Vec<u8>)
    requires
        forall|i: int|
            0 <= i < core_idx@.len() ==> (#[trigger] core_idx@[i] + 1) * row_bytes <= all@.len(),
        forall|i: int|
            0 <= i < slots@.len() ==> match #[trigger] slots@[i] {
                SlotSrc::Core(c) => c < core_idx@.len(),
                SlotSrc::Merged(g) => g < merged@.len(),
            },
    ensures
        out@ == slot_rows(all@, row_views(merged@), core_idx@, slots@, row_bytes as int),
{
    let avail: usize = all.len();
    let mut out: Vec<u8> = Vec::new();
    let mut t: usize = 0;
    let ghost views = row_views(merged@);
    assert(slots@.subrange(0, 0) =~= Seq::<SlotSrc>::empty());
    while t < slots.len()
        invariant
            t <= slots@.len(),
            avail == all@.len(),
            views == row_views(merged@),
            forall|i: int|
                0 <= i < core_idx@.len() ==> (#[trigger] core_idx@[i] + 1) * row_bytes <= avail,
            forall|i: int|
                0 <= i < slots@.len() ==> match #[trigger] slots@[i] {
                    SlotSrc::Core(c) => c < core_idx@.len(),
                    SlotSrc::Merged(g) => g < merged@.len(),
                },
            out@ == slot_rows(
                all@,
                views,
                core_idx@,
                slots@.subrange(0, t as int),
                row_bytes as int,
            ),
        decreases slots@.len() - t,
    {
        let ghost before = out@;
        let ghost part = slots@.subrange(0, t + 1);
        proof {
            assert(part.drop_last() =~= slots@.subrange(0, t as int));
            assert(part.last() == slots@[t as int]);
        }
        match slots[t] {
            SlotSrc::Core(c) => {
                let pos: usize = core_idx[c] as usize;
                proof {
                    assert((core_idx@[c as int] + 1) * row_bytes <= avail);
                    assert((pos + 1) * row_bytes == pos * row_bytes + row_bytes && pos * row_bytes
                        >= 0) by (nonlinear_arith)
                        requires
                            pos >= 0,
                            row_bytes >= 0,
                    ;
                }
                let base: usize = pos * row_bytes;
                let ghost row = crate::cask::cache_row(all@, pos as int, row_bytes as int);
                let mut i: usize = 0;
                while i < row_bytes
                    invariant
                        i <= row_bytes,
                        base + row_bytes <= avail,
                        avail == all@.len(),
                        row == all@.subrange(base as int, base + row_bytes),
                        out@ == before + row.subrange(0, i as int),
                    decreases row_bytes - i,
                {
                    out.push(all[base + i]);
                    assert(out@ =~= before + row.subrange(0, i + 1));
                    i = i + 1;
                }
                assert(out@ =~= before + row) by {
                    assert(row.subrange(0, row_bytes as int) =~= row);
                }
            },
            SlotSrc::Merged(g) => {
                let ghost row = merged@[g as int]@;
                let mut i: usize = 0;
                while i < merged[g].len()
                    invariant
                        g < merged@.len(),
                        row == merged@[g as int]@,
                        i <= row.len(),
                        out@ == before + row.subrange(0, i as int),
                    decreases row.len() - i,
                {
                    out.push(merged[g][i]);
                    assert(out@ =~= before + row.subrange(0, i + 1));
                    i = i + 1;
                }
                assert(out@ =~= before + row) by {
                    assert(row.subrange(0, row.len() as int) =~= row);
                }
            },
        }
        t = t + 1;
    }
    assert(slots@.subrange(0, slots@.len() as int) =~= slots@);
    out
}

/// The position that a folded group stands for.
fn group_position(tokens: &Vec<u32>, weights: &Vec<F32>) -> (r: u32)
    requires
        tokens@.len() == weights@.len(),
    ensures
        r == merged_position(tokens@, weights@),
{
    let mut acc: F32 = F32::zero().neg();
    let mut i: usize = 0;
    while i < tokens.len()
        invariant
            i <= tokens@.len(),
            tokens@.len() == weights@.len(),
            acc == centroid(tokens@, weights@, i as nat),
        decreases tokens@.len() - i,
    {
        acc = acc.plus(F32::from_u64(tokens[i] as u64).times(weights[i]));
        i = i + 1;
    }
    let c: u64 = acc.to_u64();
    if c < 0xFFFF_FFFF {
        c as u32
    } else {
        0xFFFF_FFFF
    }
}

impl LayerSelection {
    /// Per group the row that its tokens fold into.
    pub open spec fn folded(self, ctx: CaskCtx, all: Seq<u8>, weights: Seq<Vec<F32>>) -> Seq<Seq<u8>> {
        Seq::new(
            self.groups@.len(),
            |g: int|
                crate::cask::merged_row(
                    all,
                    group_tokens(self.scratch_idx@, self.groups@[g]@),
                    weights[g]@,
                    ctx.base.n_kv_heads as int,
                    ctx.base.head_dim as int,
                ),
        )
    }

    /// Per group the position that it stands for.
    pub open spec fn positions(self, weights: Seq<Vec<F32>>) -> Seq<u32> {
        Seq::new(
            self.groups@.len(),
            |g: int|
                merged_position(
                    group_tokens(self.scratch_idx@, self.groups@[g]@),
                    weights[g]@,
                ),
        )
    }
}

impl CaskCtx {
    /// Folds one layer: each group becomes one row under its weights, and core
    /// and folded rows are laid out by position. Returns the new keys and values.
    pub fn fold_layer(
        &self,
        sel: &LayerSelection,
        weights: &Vec<Vec<F32>>,
        k_all: &[u8],
        v_all: &[u8],
        physical: usize,
    ) -> (r: (Vec<u8>, Vec<u8>))
        requires
            sel.in_range(physical as int),
            sel.core_idx@.len() + sel.groups@.len() <= usize::MAX,
            weights@.len() == sel.groups@.len(),
            forall|g: int|
                0 <= g < weights@.len() ==> (#[trigger] weights@[g])@.len() == sel.groups@[g]@.len(),
            self.base.n_kv_heads * self.base.head_dim <= usize::MAX,
            self.row_bytes() <= usize::MAX,
            physical * self.row_bytes() <= k_all@.len(),
            physical * self.row_bytes() <= v_all@.len(),
        ensures
            exists|slots: Seq<SlotSrc>|
                {
                    &&& #[trigger] is_slot_order(
                        sel.core_idx@,
                        sel.positions(weights@),
                        slots,
                    )
                    &&& r.0@ == slot_rows(
                        k_all@,
                        sel.folded(*self, k_all@, weights@),
                        sel.core_idx@,
                        slots,
                        self.row_bytes(),
                    )
                    &&& r.1@ == slot_rows(
                        v_all@,
                        sel.folded(*self, v_all@, weights@),
                        sel.core_idx@,
                        slots,
                        self.row_bytes(),
                    )
                },
            r.0@.len() == (sel.core_idx@.len() + sel.groups@.len()) * self.row_bytes(),
            r.1@.len() == (sel.core_idx@.len() + sel.groups@.len()) * self.row_bytes(),
    {
        let n_kv: usize = self.base.n_kv_heads;
        let head_dim: usize = self.base.head_dim;
        let ghost len = self.row_bytes();
        proof {
            lemma_row_len(n_kv as int, head_dim as int);
            let a = n_kv * (head_dim as int / 32);
            assert(0 <= a <= a * 34) by (nonlinear_arith)
                requires
                    a == n_kv * (head_dim as int / 32),
                    n_kv >= 0,
                    head_dim as int / 32 >= 0,
            ;
        }
        let row_bytes: usize = n_kv * (head_dim / 32) * 34;
        let mut merged_k: Vec<Vec<u8>> = Vec::with_capacity(sel.groups.len());
        let mut merged_v: Vec<Vec<u8>> = Vec::with_capacity(sel.groups.len());
        let mut merged_pos: Vec<u32> = Vec::with_capacity(sel.groups.len());
        let ghost fk = sel.folded(*self, k_all@, weights@);
        let ghost fv = sel.folded(*self, v_all@, weights@);
        let ghost fp = sel.positions(weights@);
        let mut g: usize = 0;
        while g < sel.groups.len()
            invariant
                g <= sel.groups@.len(),
                sel.in_range(physical as int),
                weights@.len() == sel.groups@.len(),
                forall|g: int|
                    0 <= g < weights@.len() ==> (#[trigger] weights@[g])@.len()
                        == sel.groups@[g]@.len(),
                n_kv == self.base.n_kv_heads,
                head_dim == self.base.head_dim,
                n_kv * head_dim <= usize::MAX,
                len == self.row_bytes(),
                0 <= len <= usize::MAX,
                physical * len <= k_all@.len(),
                physical * len <= v_all@.len(),
                fk == sel.folded(*self, k_all@, weights@),
                fv == sel.folded(*self, v_all@, weights@),
                fp == sel.positions(weights@),
                merged_k@.len() == g,
                merged_v@.len() == g,
                merged_pos@.len() == g,
                forall|a: int| 0 <= a < g ==> (#[trigger] merged_k@[a])@ == fk[a],
                forall|a: int| 0 <= a < g ==> (#[trigger] merged_v@[a])@ == fv[a],
                forall|a: int| 0 <= a < g ==> (#[trigger] merged_pos@[a]) == fp[a],
            decreases sel.groups@.len() - g,
        {
            let group: &Vec<usize> = &sel.groups[g];
            let mut tokens: Vec<u32> = Vec::with_capacity(group.len());
            let mut i: usize = 0;
            while i < group.len()
                invariant
                    g < sel.groups@.len(),
                    *group == sel.groups@[g as int],
                    i <= group@.len(),
                    sel.in_range(physical as int),
                    tokens@.len() == i,
                    forall|k: int|
                        0 <= k < i ==> #[trigger] tokens@[k] == group_tokens(
                            sel.scratch_idx@,
                            group@,
                        )[k],
                decreases group@.len() - i,
            {
                assert(sel.groups@[g as int]@[i as int] < sel.scratch_idx@.len());
                tokens.push(sel.scratch_idx[group[i]]);
                i = i + 1;
            }
            proof {
                assert(tokens@ =~= group_tokens(sel.scratch_idx@, group@));
                assert(weights@[g as int]@.len() == group@.len());
                assert forall|k: int| 0 <= k < tokens@.len() implies (#[trigger] tokens@[k] + 1)
                    * len <= k_all@.len() && (tokens@[k] + 1) * len <= v_all@.len() by {
                    assert(sel.groups@[g as int]@[k] < sel.scratch_idx@.len());
                    assert(tokens@[k] == sel.scratch_idx@[group@[k] as int]);
                    lemma_rows_inside(
                        tokens@[k] as int,
                        physical as int,
                        len,
                        k_all@.len() as int,
                    );
                    lemma_rows_inside(
                        tokens@[k] as int,
                        physical as int,
                        len,
                        v_all@.len() as int,
                    );
                }
            }
            let w: &Vec<F32> = &weights[g];
            merged_k.push(weighted_avg_q8(k_all, &tokens, w, n_kv, head_dim));
            merged_v.push(weighted_avg_q8(v_all, &tokens, w, n_kv, head_dim));
            merged_pos.push(group_position(&tokens, w));
            g = g + 1;
        }
        proof {
            assert(row_views(merged_k@) =~= fk);
            assert(row_views(merged_v@) =~= fv);
            assert(merged_pos@ =~= fp);
            assert forall|i: int| 0 <= i < sel.core_idx@.len() implies (#[trigger] sel.core_idx@[i]
                + 1) * row_bytes <= k_all@.len() && (sel.core_idx@[i] + 1) * row_bytes
                <= v_all@.len() by {
                lemma_rows_inside(
                    sel.core_idx@[i] as int,
                    physical as int,
                    len,
                    k_all@.len() as int,
                );
                lemma_rows_inside(
                    sel.core_idx@[i] as int,
                    physical as int,
                    len,
                    v_all@.len() as int,
                );
            }
        }
        let slots: Vec<SlotSrc> = slot_order(&sel.core_idx, &merged_pos);
        let final_k: Vec<u8> = assemble_rows(k_all, &merged_k, &sel.core_idx, &slots, row_bytes);
        let final_v: Vec<u8> = assemble_rows(v_all, &merged_v, &sel.core_idx, &slots, row_bytes);
        proof {
            assert(is_slot_order(sel.core_idx@, sel.positions(weights@), slots@));
            lemma_slot_rows_len(k_all@, fk, sel.core_idx@, slots@, len);
            lemma_slot_rows_len(v_all@, fv, sel.core_idx@, slots@, len);
        }
        (final_k, final_v)
    }
}

} // verus!
