//! Speculative decoding: a small model drafts tokens, a large one verifies them.

use vstd::prelude::*;

use crate::device::{extend, Op, StateQuant};
use crate::float::F32;
use crate::quant::EmbeddingFormat;
use crate::qwen35::{
    are_matching, forward_scratch, DeltaNetState, KvCache, Qwen35Config, Qwen35Scratch, Qwen35Weights, QwenOp,
    StateBuf,
};

verus! {

// Model slots.

/// How the key/value cache of a slot is laid out.
#[derive(Debug, Clone, Copy, PartialEq, Eq, Structural)]
pub enum KvMode {
    /// Eight-bit keys and values.
    Q8,
}

impl Default for KvMode {
    fn default() -> (r: Self)
        ensures
            r == KvMode::Q8,
    {
        KvMode::Q8
    }
}

/// How a model is loaded into a slot.
#[derive(Debug, Clone, Copy)]
pub struct ModelSlotConfig {
    pub max_seq: usize,
    pub kv_mode: KvMode,
    pub repeat_window: usize,
    pub state_quant: StateQuant,
}

impl Default for ModelSlotConfig {
    fn default() -> (r: Self)
        ensures
            r == (ModelSlotConfig {
                max_seq: 2048,
                kv_mode: KvMode::Q8,
                repeat_window: 128,
                state_quant: StateQuant::Q8,
            }),
    {
        ModelSlotConfig {
            max_seq: 2048,
            kv_mode: KvMode::Q8,
            repeat_window: 128,
            state_quant: StateQuant::Q8,
        }
    }
}

/// The size of a key/value cache: every layer has its share.
#[derive(Debug, Clone, Copy, PartialEq, Eq, Structural)]
pub struct KvPlan {
    pub layers: usize,
    pub kv_heads: usize,
    pub head_dim: usize,
    pub max_seq: usize,
}

/// A model with a cache, a recurrent state and scratch buffers of its own.
pub struct ModelSlot {
    pub config: Qwen35Config,
    pub weights: Qwen35Weights,
    pub kv: KvPlan,
    pub dn_state: DeltaNetState,
    pub scratch: Qwen35Scratch,
    pub slot_config: ModelSlotConfig,
}

/// What the device allocates for a slot, besides the weights and the cache.
pub struct SlotAllocs {
    pub state: Vec<Op<StateBuf, ()>>,
    pub scratch: Vec<QwenOp>,
}

impl ModelSlot {
    /// The cache of a slot: eight bits, no turbo form.
    pub open spec fn cache(self) -> KvCache {
        KvCache {
            quant_asym: false,
            quant_turbo: 0,
            quant_q8: true,
            max_seq: self.kv.max_seq,
        }
    }

    /// A slot for a model, and what the device allocates for it.
    pub fn load(config: Qwen35Config, weights: Qwen35Weights, slot_config: ModelSlotConfig) -> (r: (
        Self,
        SlotAllocs,
    ))
        requires
            config.fits(),
            config.state_fits(),
        ensures
            r.0.config == config,
            r.0.weights == weights,
            r.0.slot_config == slot_config,
            r.0.kv == (KvPlan {
                layers: config.n_layers,
                kv_heads: config.n_kv_heads,
                head_dim: config.head_dim,
                max_seq: slot_config.max_seq,
            }),
            r.0.dn_state == crate::qwen35::state_of(config, slot_config.state_quant),
            r.0.scratch.repeat_window == slot_config.repeat_window,
            r.1.state@ == r.0.dn_state.alloc_ops(r.0.dn_state.layers as nat),
            r.1.scratch@ == r.0.scratch.alloc_ops(config),
    {
        let kv: KvPlan = KvPlan {
            layers: config.n_layers,
            kv_heads: config.n_kv_heads,
            head_dim: config.head_dim,
            max_seq: slot_config.max_seq,
        };
        let (dn_state, state) = DeltaNetState::new_with_quant(&config, slot_config.state_quant);
        let (scratch, scratch_ops) = Qwen35Scratch::new(&config, slot_config.repeat_window);
        (
            ModelSlot { config, weights, kv, dn_state, scratch, slot_config },
            SlotAllocs { state, scratch: scratch_ops },
        )
    }

    /// One token through the model of the slot.
    pub fn forward(&self, token: u32, pos: usize) -> (ops: Vec<QwenOp>)
        requires
            self.ready(),
            pos < usize::MAX,
        ensures
            ops@ == self.pass_ops(token, pos),
    {
        let cache: KvCache = KvCache {
            quant_asym: false,
            quant_turbo: 0,
            quant_q8: true,
            max_seq: self.kv.max_seq,
        };
        forward_scratch(&self.config, &self.weights, token, pos, &cache, self.dn_state.quant)
    }

    /// Zeroes the recurrent state. The cache stays as it is: what lies beyond the
    /// position is never read.
    pub fn reset_state(&self) -> (ops: Vec<Op<StateBuf, ()>>)
        requires
            self.dn_state.fits(),
        ensures
            ops@ == reset_ops(self.dn_state),
    {
        let bufs: Vec<StateBuf> = self.dn_state.buf_list();
        let mut ops: Vec<Op<StateBuf, ()>> = Vec::new();
        let mut i: usize = 0;
        while i < bufs.len()
            invariant
                i <= bufs@.len(),
                bufs@ == self.dn_state.bufs(),
                self.dn_state.fits(),
                ops@.len() == i,
                forall|k: int| 0 <= k < i ==> #[trigger] ops@[k] == reset_ops(self.dn_state)[k],
            decreases bufs@.len() - i,
        {
            ops.push(Op::Zero { buf: bufs[i], bytes: self.dn_state.buf_bytes(bufs[i]) });
            i = i + 1;
        }
        assert(ops@ =~= reset_ops(self.dn_state));
        ops
    }
}

/// Every buffer of a recurrent state, zeroed from end to end.
pub open spec fn reset_ops(st: DeltaNetState) -> Seq<Op<StateBuf, ()>> {
    Seq::new(
        st.bufs().len(),
        |i: int| Op::<StateBuf, ()>::Zero {
            buf: st.bufs()[i],
            bytes: st.bytes(st.bufs()[i]) as usize,
        },
    )
}

// Pairs.

/// Why two models cannot work together.
#[derive(Debug, Clone, Copy, PartialEq, Eq, Structural)]
pub enum PairError {
    /// The target has no tokenizer.
    NoTargetTokenizer,
    /// The draft has no tokenizer.
    NoDraftTokenizer,
    /// The vocabularies differ in size.
    Vocab { target: usize, draft: usize },
    /// The same text gives different tokens.
    Merges,
}

/// A tokenizer, as far as compatibility goes: the size of its vocabulary, and the
/// tokens of the probe text.
pub struct TokenizerProbe {
    pub vocab_size: usize,
    pub tokens: Vec<u32>,
}

/// The text on which two tokenizers are compared.
pub fn probe_text() -> (r: String)
    ensures
        r@ == "<|im_start|>user\nHello world\n<|im_end|>"@,
{
    "<|im_start|>user\nHello world\n<|im_end|>".to_owned()
}

/// Whether two lists of tokens are the same.
fn same_tokens(a: &Vec<u32>, b: &Vec<u32>) -> (r: bool)
    ensures
        r == (a@ == b@),
{
    if a.len() != b.len() {
        return false;
    }
    let mut i: usize = 0;
    while i < a.len()
        invariant
            i <= a@.len() == b@.len(),
            forall|k: int| 0 <= k < i ==> a@[k] == b@[k],
        decreases a@.len() - i,
    {
        if a[i] != b[i] {
            return false;
        }
        i = i + 1;
    }
    assert(a@ =~= b@);
    true
}

/// A target and a draft that share their tokens.
pub struct SpecPair {
    pub target: ModelSlot,
    pub draft: ModelSlot,
}

impl SpecPair {
    /// Puts two slots together, if both have tokenizers with vocabularies of one
    /// size that agree on the probe text.
    pub fn load(
        target: ModelSlot,
        draft: ModelSlot,
        target_tok: &Option<TokenizerProbe>,
        draft_tok: &Option<TokenizerProbe>,
    ) -> (r: Result<SpecPair, PairError>)
        ensures
            match r {
                Ok(pair) => {
                    &&& pair.target == target && pair.draft == draft
                    &&& target_tok is Some && draft_tok is Some
                    &&& target_tok->0.vocab_size == draft_tok->0.vocab_size
                    &&& target_tok->0.tokens@ == draft_tok->0.tokens@
                },
                Err(PairError::NoTargetTokenizer) => target_tok is None,
                Err(PairError::NoDraftTokenizer) => target_tok is Some && draft_tok is None,
                Err(PairError::Vocab { target: t, draft: d }) => {
                    &&& target_tok is Some && draft_tok is Some
                    &&& t == target_tok->0.vocab_size && d == draft_tok->0.vocab_size
                    &&& t != d
                },
                Err(PairError::Merges) => {
                    &&& target_tok is Some && draft_tok is Some
                    &&& target_tok->0.vocab_size == draft_tok->0.vocab_size
                    &&& target_tok->0.tokens@ != draft_tok->0.tokens@
                },
            },
    {
        let t: &TokenizerProbe = match target_tok {
            Some(t) => t,
            None => return Err(PairError::NoTargetTokenizer),
        };
        let d: &TokenizerProbe = match draft_tok {
            Some(d) => d,
            None => return Err(PairError::NoDraftTokenizer),
        };
        if t.vocab_size != d.vocab_size {
            return Err(PairError::Vocab { target: t.vocab_size, draft: d.vocab_size });
        }
        if !same_tokens(&t.tokens, &d.tokens) {
            return Err(PairError::Merges);
        }
        Ok(SpecPair { target, draft })
    }
}

/// The token of a smoke test.
pub const PROBE_TOKEN: u32 = 1;

/// How many forward passes a smoke test runs on each slot.
pub const PROBE_PASSES: usize = 8;

impl ModelSlot {
    /// What a forward pass through the slot needs.
    pub open spec fn ready(self) -> bool {
        &&& self.config.fits()
        &&& crate::qwen35::divides(self.config)
        &&& crate::qwen35::matches_config(self.weights, self.config)
        &&& crate::qwen35::has_lookup(self.weights.embd_format)
    }

    /// Whether the slot is ready for passes and its recurrent state can be zeroed.
    pub fn is_ready(&self) -> (r: bool)
        ensures
            r == (self.ready() && self.dn_state.fits()),
    {
        let st: &DeltaNetState = &self.dn_state;
        self.config.is_addressable() && (self.config.linear_num_key_heads >= 1
            || self.config.linear_num_value_heads == 0) && are_matching(
            &self.weights,
            &self.config,
        ) && self.weights.embd_format != EmbeddingFormat::Q4K && st.scale_elems <= usize::MAX / 4
            && st.conv_elems <= usize::MAX / 4 && st.layers <= usize::MAX / 3
    }

    /// A forward pass through the slot.
    pub open spec fn pass_ops(self, token: u32, pos: usize) -> Seq<QwenOp> {
        crate::qwen35::scratch_pass_ops(
            self.config,
            self.weights,
            token,
            pos,
            self.cache(),
            self.dn_state.quant,
        )
    }

    /// The first `n` passes of a smoke test: the probe token at one position after
    /// the other.
    pub open spec fn probe_ops(self, n: nat) -> Seq<QwenOp>
        decreases n,
    {
        if n == 0 {
            Seq::empty()
        } else {
            self.probe_ops((n - 1) as nat) + self.pass_ops(PROBE_TOKEN, (n - 1) as usize)
        }
    }

    fn probe(&self) -> (ops: Vec<QwenOp>)
        requires
            self.ready(),
        ensures
            ops@ == self.probe_ops(PROBE_PASSES as nat),
    {
        let mut ops: Vec<QwenOp> = Vec::new();
        let mut pos: usize = 0;
        while pos < PROBE_PASSES
            invariant
                pos <= PROBE_PASSES,
                self.ready(),
                ops@ == self.probe_ops(pos as nat),
            decreases PROBE_PASSES - pos,
        {
            extend(&mut ops, self.forward(PROBE_TOKEN, pos));
            pos = pos + 1;
        }
        ops
    }
}

/// All logits are finite.
pub open spec fn sound(logits: Seq<F32>) -> bool {
    forall|i: int| 0 <= i < logits.len() ==> (#[trigger] logits[i]).finite()
}

fn are_sound(logits: &[F32]) -> (r: bool)
    ensures
        r == sound(logits@),
{
    let n: usize = logits.len();
    let mut i: usize = 0;
    while i < n
        invariant
            i <= n == logits@.len(),
            forall|k: int| 0 <= k < i ==> (#[trigger] logits@[k]).finite(),
        decreases n - i,
    {
        if !logits[i].is_finite() {
            return false;
        }
        i = i + 1;
    }
    true
}

/// The work of a smoke test, in the order in which it is done.
pub struct SmokePlan {
    /// The passes on the target.
    pub target: Vec<QwenOp>,
    /// The passes on the draft.
    pub draft: Vec<QwenOp>,
    /// What zeroes the target's recurrent state, once the logits are fetched.
    pub reset_target: Vec<Op<StateBuf, ()>>,
    /// What zeroes the draft's recurrent state, once the logits are fetched.
    pub reset_draft: Vec<Op<StateBuf, ()>>,
}

impl SpecPair {
    /// The work of a smoke test: passes on the target, then on the draft; then the
    /// logits of both are fetched for [`SpecPair::smoke_test`], and both states are
    /// reset, so that the pair starts from a clean state.
    pub fn smoke_passes(&self) -> (r: SmokePlan)
        requires
            self.target.ready(),
            self.draft.ready(),
            self.target.dn_state.fits(),
            self.draft.dn_state.fits(),
        ensures
            r.target@ == self.target.probe_ops(PROBE_PASSES as nat),
            r.draft@ == self.draft.probe_ops(PROBE_PASSES as nat),
            r.reset_target@ == reset_ops(self.target.dn_state),
            r.reset_draft@ == reset_ops(self.draft.dn_state),
    {
        SmokePlan {
            target: self.target.probe(),
            draft: self.draft.probe(),
            reset_target: self.target.reset_state(),
            reset_draft: self.draft.reset_state(),
        }
    }

    /// The outcome of a smoke test, for the target and the draft: whether the logits
    /// of the last pass are all finite.
    pub fn smoke_test(target_logits: &[F32], draft_logits: &[F32]) -> (r: (bool, bool))
        ensures
            r == (sound(target_logits@), sound(draft_logits@)),
    {
        (are_sound(target_logits), are_sound(draft_logits))
    }
}

/// The bytes of every buffer after the first `n` operations, as far as zeroing goes.
pub open spec fn after_zeroing(
    ops: Seq<Op<StateBuf, ()>>,
    n: nat,
    mem: spec_fn(StateBuf) -> Seq<u8>,
) -> spec_fn(StateBuf) -> Seq<u8>
    decreases n,
{
    if n == 0 {
        mem
    } else {
        let before = after_zeroing(ops, (n - 1) as nat, mem);
        match ops[n - 1] {
            Op::Zero { buf, bytes } => |b: StateBuf|
                if b == buf {
                    Seq::new(bytes as nat, |i: int| 0u8) + before(b).subrange(
                        bytes as int,
                        before(b).len() as int,
                    )
                } else {
                    before(b)
                },
            _ => before,
        }
    }
}

proof fn lemma_zeroed(st: DeltaNetState, mem: spec_fn(StateBuf) -> Seq<u8>, n: nat)
    requires
        st.fits(),
        forall|b: StateBuf| st.bufs().contains(b) ==> (#[trigger] mem(b)).len() == st.bytes(b),
        n <= st.bufs().len(),
    ensures
        forall|b: StateBuf|
            st.bufs().contains(b) ==> (#[trigger] after_zeroing(reset_ops(st), n, mem)(b)).len()
                == st.bytes(b),
        forall|j: int|
            0 <= j < n ==> after_zeroing(reset_ops(st), n, mem)(#[trigger] st.bufs()[j])
                == Seq::new(st.bytes(st.bufs()[j]) as nat, |i: int| 0u8),
    decreases n,
{
    if n > 0 {
        let m = (n - 1) as nat;
        lemma_zeroed(st, mem, m);
        let before = after_zeroing(reset_ops(st), m, mem);
        let after = after_zeroing(reset_ops(st), n, mem);
        let b = st.bufs()[m as int];
        assert(st.bufs().contains(b));
        assert(after(b) =~= Seq::new(st.bytes(b) as nat, |i: int| 0u8));
    }
}

/// A reset leaves every byte of every buffer of the recurrent state zero.
pub proof fn law_reset_zeroes(st: DeltaNetState, mem: spec_fn(StateBuf) -> Seq<u8>, b: StateBuf)
    requires
        st.fits(),
        forall|b: StateBuf| st.bufs().contains(b) ==> (#[trigger] mem(b)).len() == st.bytes(b),
        st.bufs().contains(b),
    ensures
        after_zeroing(reset_ops(st), reset_ops(st).len(), mem)(b) == Seq::new(
            st.bytes(b) as nat,
            |i: int| 0u8,
        ),
{
    let n = st.bufs().len();
    lemma_zeroed(st, mem, n);
    let j = choose|j: int| 0 <= j < n && st.bufs()[j] == b;
    assert(st.bufs()[j] == b);
}

// Greedy choice.

/// The place of the greatest of the first `n` numbers: the first such place, if
/// any number is above minus infinity.
pub open spec fn leader(logits: Seq<F32>, n: nat) -> Option<int>
    decreases n,
{
    if n == 0 {
        None
    } else {
        match leader(logits, (n - 1) as nat) {
            None => if (F32 { bits: crate::cask::NEG_INFINITY }).below(logits[n - 1]) {
                Some(n - 1)
            } else {
                None
            },
            Some(b) => if logits[b].below(logits[n - 1]) {
                Some(n - 1)
            } else {
                Some(b)
            },
        }
    }
}

/// The greedy choice: the place of the first maximum, or the first token.
pub open spec fn argmax(logits: Seq<F32>) -> u32 {
    match leader(logits, logits.len()) {
        Some(b) => b as u32,
        None => 0,
    }
}

proof fn lemma_leader(logits: Seq<F32>, n: nat)
    requires
        n <= logits.len(),
    ensures
        match leader(logits, n) {
            Some(b) => {
                &&& 0 <= b < n
                &&& (F32 { bits: crate::cask::NEG_INFINITY }).below(logits[b])
                &&& forall|j: int| 0 <= j < n ==> !logits[b].below(#[trigger] logits[j])
                &&& forall|j: int|
                    0 <= j < b && (F32 { bits: crate::cask::NEG_INFINITY }).below(
                        #[trigger] logits[j],
                    ) ==> logits[j].below(logits[b])
            },
            None => forall|j: int|
                0 <= j < n ==> !(F32 { bits: crate::cask::NEG_INFINITY }).below(#[trigger] logits[j]),
        },
    decreases n,
{
    if n > 0 {
        lemma_leader(logits, (n - 1) as nat);
    }
}

/// The greedy choice is the first of the greatest numbers; no number that can be
/// compared is greater.
pub proof fn law_argmax_is_first_maximum(logits: Seq<F32>, j: int)
    requires
        0 <= j < logits.len() <= u32::MAX,
        (F32 { bits: crate::cask::NEG_INFINITY }).below(logits[j]),
    ensures
        0 <= argmax(logits) < logits.len(),
        !logits[argmax(logits) as int].below(logits[j]),
        j < argmax(logits) ==> logits[j].below(logits[argmax(logits) as int]),
{
    lemma_leader(logits, logits.len());
}

/// The greedy choice.
pub fn argmax_u32(logits: &[F32]) -> (r: u32)
    ensures
        r == argmax(logits@),
{
    let n: usize = logits.len();
    let mut found: bool = false;
    let mut best: usize = 0;
    let mut best_v: F32 = F32 { bits: crate::cask::NEG_INFINITY };
    let mut i: usize = 0;
    while i < n
        invariant
            i <= n == logits@.len(),
            best < n || best == 0,
            match leader(logits@, i as nat) {
                Some(b) => found && best == b && best_v == logits@[b] && b < i,
                None => !found && best == 0 && best_v == (F32 {
                    bits: crate::cask::NEG_INFINITY,
                }),
            },
        decreases n - i,
    {
        if best_v.lt(logits[i]) {
            best_v = logits[i];
            best = i;
            found = true;
        }
        i = i + 1;
    }
    best as u32
}

// Snapshots of the recurrent state.

/// A buffer of a recurrent state, or its backup.
#[derive(Debug, Clone, Copy, PartialEq, Eq, Structural)]
pub enum SnapBuf {
    Live(StateBuf),
    Saved(StateBuf),
}

/// Backup buffers for a recurrent state.
pub struct DeltaNetSnapshot {
    /// The sizes of the state that the buffers were made for.
    pub shape: DeltaNetState,
}

/// The buffers that two states have in common.
pub open spec fn shared_bufs(a: DeltaNetState, b: DeltaNetState) -> Seq<StateBuf> {
    if a.layers <= b.layers {
        a.bufs()
    } else {
        b.bufs()
    }
}

fn shared_list(a: &DeltaNetState, b: &DeltaNetState) -> (r: Vec<StateBuf>)
    ensures
        r@ == shared_bufs(*a, *b),
{
    if a.layers <= b.layers {
        a.buf_list()
    } else {
        b.buf_list()
    }
}

impl DeltaNetSnapshot {
    /// A backup buffer for each buffer of a state.
    pub open spec fn alloc_ops(self) -> Seq<Op<SnapBuf, ()>> {
        Seq::new(
            self.shape.bufs().len(),
            |i: int| Op::<SnapBuf, ()>::AllocBytes {
                buf: SnapBuf::Saved(self.shape.bufs()[i]),
                bytes: self.shape.bytes(self.shape.bufs()[i]) as usize,
            },
        )
    }

    /// From the live state to the backup.
    pub open spec fn save_ops(self, st: DeltaNetState) -> Seq<Op<SnapBuf, ()>> {
        Seq::new(
            shared_bufs(self.shape, st).len(),
            |i: int| Op::<SnapBuf, ()>::Copy {
                dst: SnapBuf::Saved(shared_bufs(self.shape, st)[i]),
                dst_off: 0,
                src: SnapBuf::Live(shared_bufs(self.shape, st)[i]),
                src_off: 0,
                bytes: st.bytes(shared_bufs(self.shape, st)[i]) as usize,
            },
        )
    }

    /// From the backup to the live state.
    pub open spec fn restore_ops(self, st: DeltaNetState) -> Seq<Op<SnapBuf, ()>> {
        Seq::new(
            shared_bufs(self.shape, st).len(),
            |i: int| Op::<SnapBuf, ()>::Copy {
                dst: SnapBuf::Live(shared_bufs(self.shape, st)[i]),
                dst_off: 0,
                src: SnapBuf::Saved(shared_bufs(self.shape, st)[i]),
                src_off: 0,
                bytes: self.shape.bytes(shared_bufs(self.shape, st)[i]) as usize,
            },
        )
    }

    /// Backup buffers for a state, and the allocations that make them.
    pub fn new_for(st: &DeltaNetState) -> (r: (Self, Vec<Op<SnapBuf, ()>>))
        requires
            st.fits(),
        ensures
            r.0.shape == *st,
            r.1@ == r.0.alloc_ops(),
    {
        let snap: DeltaNetSnapshot = DeltaNetSnapshot { shape: *st };
        let bufs: Vec<StateBuf> = st.buf_list();
        let mut ops: Vec<Op<SnapBuf, ()>> = Vec::new();
        let mut i: usize = 0;
        while i < bufs.len()
            invariant
                i <= bufs@.len(),
                bufs@ == st.bufs(),
                snap.shape == *st,
                st.fits(),
                ops@.len() == i,
                forall|k: int| 0 <= k < i ==> #[trigger] ops@[k] == snap.alloc_ops()[k],
            decreases bufs@.len() - i,
        {
            ops.push(
                Op::AllocBytes { buf: SnapBuf::Saved(bufs[i]), bytes: st.buf_bytes(bufs[i]) },
            );
            i = i + 1;
        }
        assert(ops@ =~= snap.alloc_ops());
        (snap, ops)
    }

    /// Copies the live state to the backup.
    pub fn save_from(&self, st: &DeltaNetState) -> (ops: Vec<Op<SnapBuf, ()>>)
        requires
            st.fits(),
        ensures
            ops@ == self.save_ops(*st),
    {
        let bufs: Vec<StateBuf> = shared_list(&self.shape, st);
        let mut ops: Vec<Op<SnapBuf, ()>> = Vec::new();
        let mut i: usize = 0;
        while i < bufs.len()
            invariant
                i <= bufs@.len(),
                bufs@ == shared_bufs(self.shape, *st),
                st.fits(),
                ops@.len() == i,
                forall|k: int| 0 <= k < i ==> #[trigger] ops@[k] == self.save_ops(*st)[k],
            decreases bufs@.len() - i,
        {
            ops.push(
                Op::Copy {
                    dst: SnapBuf::Saved(bufs[i]),
                    dst_off: 0,
                    src: SnapBuf::Live(bufs[i]),
                    src_off: 0,
                    bytes: st.buf_bytes(bufs[i]),
                },
            );
            i = i + 1;
        }
        assert(ops@ =~= self.save_ops(*st));
        ops
    }

    /// Copies the backup to the live state.
    pub fn restore_to(&self, st: &DeltaNetState) -> (ops: Vec<Op<SnapBuf, ()>>)
        requires
            self.shape.fits(),
        ensures
            ops@ == self.restore_ops(*st),
    {
        let bufs: Vec<StateBuf> = shared_list(&self.shape, st);
        let mut ops: Vec<Op<SnapBuf, ()>> = Vec::new();
        let mut i: usize = 0;
        while i < bufs.len()
            invariant
                i <= bufs@.len(),
                bufs@ == shared_bufs(self.shape, *st),
                self.shape.fits(),
                ops@.len() == i,
                forall|k: int| 0 <= k < i ==> #[trigger] ops@[k] == self.restore_ops(*st)[k],
            decreases bufs@.len() - i,
        {
            ops.push(
                Op::Copy {
                    dst: SnapBuf::Live(bufs[i]),
                    dst_off: 0,
                    src: SnapBuf::Saved(bufs[i]),
                    src_off: 0,
                    bytes: self.shape.buf_bytes(bufs[i]),
                },
            );
            i = i + 1;
        }
        assert(ops@ =~= self.restore_ops(*st));
        ops
    }
}

/// The buffers of a state and their backups have their sizes.
pub open spec fn sized(mem: spec_fn(SnapBuf) -> Seq<u8>, st: DeltaNetState) -> bool {
    forall|b: StateBuf|
        #![trigger mem(SnapBuf::Live(b))]
        #![trigger mem(SnapBuf::Saved(b))]
        st.bufs().contains(b) ==> mem(SnapBuf::Live(b)).len() == st.bytes(b) && mem(
            SnapBuf::Saved(b),
        ).len() == st.bytes(b)
}

proof fn lemma_save(st: DeltaNetState, snap: DeltaNetSnapshot, mem: spec_fn(SnapBuf) -> Seq<u8>, n: nat)
    requires
        st.fits(),
        snap.shape == st,
        sized(mem, st),
        n <= st.bufs().len(),
    ensures
        forall|b: StateBuf|
            #[trigger] crate::device::after_copies(snap.save_ops(st), n, mem)(SnapBuf::Live(b))
                == mem(SnapBuf::Live(b)),
        forall|j: int|
            0 <= j < n ==> crate::device::after_copies(snap.save_ops(st), n, mem)(
                SnapBuf::Saved(#[trigger] st.bufs()[j]),
            ) == mem(SnapBuf::Live(st.bufs()[j])),
        sized(crate::device::after_copies(snap.save_ops(st), n, mem), st),
    decreases n,
{
    if n > 0 {
        let m = (n - 1) as nat;
        lemma_save(st, snap, mem, m);
        let before = crate::device::after_copies(snap.save_ops(st), m, mem);
        let after = crate::device::after_copies(snap.save_ops(st), n, mem);
        let b = st.bufs()[m as int];
        assert(st.bufs().contains(b));
        assert(after(SnapBuf::Saved(b)) =~= mem(SnapBuf::Live(b)));
    }
}

proof fn lemma_restore(
    st: DeltaNetState,
    snap: DeltaNetSnapshot,
    mem: spec_fn(SnapBuf) -> Seq<u8>,
    n: nat,
)
    requires
        st.fits(),
        snap.shape == st,
        sized(mem, st),
        n <= st.bufs().len(),
    ensures
        forall|b: StateBuf|
            #[trigger] crate::device::after_copies(snap.restore_ops(st), n, mem)(SnapBuf::Saved(b))
                == mem(SnapBuf::Saved(b)),
        forall|j: int|
            0 <= j < n ==> crate::device::after_copies(snap.restore_ops(st), n, mem)(
                SnapBuf::Live(#[trigger] st.bufs()[j]),
            ) == mem(SnapBuf::Saved(st.bufs()[j])),
        sized(crate::device::after_copies(snap.restore_ops(st), n, mem), st),
    decreases n,
{
    if n > 0 {
        let m = (n - 1) as nat;
        lemma_restore(st, snap, mem, m);
        let before = crate::device::after_copies(snap.restore_ops(st), m, mem);
        let after = crate::device::after_copies(snap.restore_ops(st), n, mem);
        let b = st.bufs()[m as int];
        assert(st.bufs().contains(b));
        assert(after(SnapBuf::Live(b)) =~= mem(SnapBuf::Saved(b)));
    }
}

/// Restoring a snapshot brings back every byte of the recurrent state as it was
/// saved, whatever happened to the state in between.
pub proof fn law_snapshot_rewinds(
    st: DeltaNetState,
    snap: DeltaNetSnapshot,
    before: spec_fn(SnapBuf) -> Seq<u8>,
    later: spec_fn(SnapBuf) -> Seq<u8>,
    b: StateBuf,
)
    requires
        st.fits(),
        snap.shape == st,
        sized(before, st),
        sized(later, st),
        forall|b: StateBuf|
            #[trigger] later(SnapBuf::Saved(b)) == crate::device::after_copies(
                snap.save_ops(st),
                snap.save_ops(st).len(),
                before,
            )(SnapBuf::Saved(b)),
        st.bufs().contains(b),
    ensures
        crate::device::after_copies(snap.restore_ops(st), snap.restore_ops(st).len(), later)(
            SnapBuf::Live(b),
        ) == before(SnapBuf::Live(b)),
{
    let n = st.bufs().len();
    lemma_save(st, snap, before, n);
    lemma_restore(st, snap, later, n);
    let j = choose|j: int| 0 <= j < n && st.bufs()[j] == b;
    assert(st.bufs()[j] == b);
}

// Hidden states of the target.

/// Three layers short of the last, but at least the first, as a number.
pub open spec fn last_extract(num_target_layers: nat) -> F32 {
    crate::float::of_int(
        if num_target_layers < 4 {
            1int
        } else {
            num_target_layers - 3
        },
    )
}

/// The distance between extracted layers.
pub open spec fn extract_step(num_target_layers: nat, num_extract: nat) -> F32 {
    let one = F32 { bits: crate::cask::ONE };
    crate::float::quotient(
        crate::float::difference(last_extract(num_target_layers), one),
        crate::float::difference(crate::float::of_nat(num_extract), one),
    )
}

/// The target layers whose states a draft reads: evenly spread from the first to
/// three short of the last, and rounded.
pub open spec fn extract_ids(num_target_layers: nat, num_extract: nat) -> Seq<usize> {
    let one = F32 { bits: crate::cask::ONE };
    if num_extract == 1 {
        seq![1usize]
    } else {
        Seq::new(
            num_extract,
            |i: int|
                crate::float::round_nat(
                    crate::float::sum(
                        one,
                        crate::float::product(
                            crate::float::of_nat(i as nat),
                            extract_step(num_target_layers, num_extract),
                        ),
                    ),
                ) as usize,
        )
    }
}

/// The target layers whose states a draft reads.
pub fn dflash_extract_layer_ids(num_target_layers: usize, num_extract: usize) -> (r: Vec<usize>)
    requires
        num_target_layers <= i32::MAX,
    ensures
        r@ == extract_ids(num_target_layers as nat, num_extract as nat),
{
    let mut r: Vec<usize> = Vec::new();
    if num_extract == 0 {
        assert(r@ =~= extract_ids(num_target_layers as nat, 0));
        return r;
    }
    if num_extract == 1 {
        return vec![1];
    }
    let start: F32 = F32 { bits: crate::cask::ONE };
    let last: i64 = if num_target_layers < 4 {
        1
    } else {
        (num_target_layers - 3) as i64
    };
    let end: F32 = F32::from_i64(last);
    let step: F32 = end.minus(start).over(F32::from_u64(num_extract as u64).minus(start));
    let mut i: usize = 0;
    while i < num_extract
        invariant
            i <= num_extract,
            num_extract != 1,
            start == (F32 { bits: crate::cask::ONE }),
            step == extract_step(num_target_layers as nat, num_extract as nat),
            r@.len() == i,
            forall|k: int|
                0 <= k < i ==> #[trigger] r@[k] == extract_ids(
                    num_target_layers as nat,
                    num_extract as nat,
                )[k],
        decreases num_extract - i,
    {
        r.push(start.plus(F32::from_u64(i as u64).times(step)).round_u64() as usize);
        i = i + 1;
    }
    assert(r@ =~= extract_ids(num_target_layers as nat, num_extract as nat));
    r
}

/// The buffers of a ring: one per extracted layer, and the hidden state that is
/// written to it.
#[derive(Debug, Clone, Copy, PartialEq, Eq, Structural)]
pub enum RingBuf {
    Layer(usize),
    Hidden,
}

/// The most recent hidden states of some target layers, a ring of `max_positions`
/// rows for each.
pub struct HiddenStateRingBuffer {
    pub extract_layers: Vec<usize>,
    pub max_positions: usize,
    pub hidden_dim: usize,
    /// Where the next row goes.
    pub head: usize,
    /// How many rows were ever written.
    pub written: usize,
}

impl HiddenStateRingBuffer {
    /// The head is where the count of rows puts it.
    pub open spec fn wf(self) -> bool {
        self.max_positions >= 1 && self.head == self.written as int % self.max_positions as int
    }

    /// One ring per extracted layer.
    pub open spec fn alloc_ops(self, num_extract: nat) -> Seq<Op<RingBuf, ()>> {
        Seq::new(
            num_extract,
            |i: int| Op::<RingBuf, ()>::Alloc {
                buf: RingBuf::Layer(i as usize),
                elems: (self.max_positions * self.hidden_dim) as usize,
            },
        )
    }

    /// An empty ring for each of `num_extract` layers, and the allocations that
    /// make them.
    pub fn new(
        num_target_layers: usize,
        num_extract: usize,
        hidden_dim: usize,
        max_positions: usize,
    ) -> (r: (Self, Vec<Op<RingBuf, ()>>))
        requires
            num_target_layers <= i32::MAX,
            max_positions * hidden_dim <= usize::MAX,
        ensures
            r.0.extract_layers@ == extract_ids(num_target_layers as nat, num_extract as nat),
            r.0.max_positions == max_positions,
            r.0.hidden_dim == hidden_dim,
            r.0.head == 0,
            r.0.written == 0,
            max_positions >= 1 ==> r.0.wf(),
            r.1@ == r.0.alloc_ops(num_extract as nat),
    {
        let extract_layers: Vec<usize> = dflash_extract_layer_ids(num_target_layers, num_extract);
        let rb: HiddenStateRingBuffer = HiddenStateRingBuffer {
            extract_layers,
            max_positions,
            hidden_dim,
            head: 0,
            written: 0,
        };
        let elems: usize = max_positions * hidden_dim;
        let mut ops: Vec<Op<RingBuf, ()>> = Vec::new();
        let mut i: usize = 0;
        while i < num_extract
            invariant
                i <= num_extract,
                elems == max_positions * hidden_dim,
                rb.max_positions == max_positions,
                rb.hidden_dim == hidden_dim,
                ops@ == rb.alloc_ops(i as nat),
            decreases num_extract - i,
        {
            ops.push(Op::Alloc { buf: RingBuf::Layer(i), elems });
            assert(ops@ =~= rb.alloc_ops((i + 1) as nat));
            i = i + 1;
        }
        (rb, ops)
    }

    /// The ring of a target layer, if its states are extracted.
    pub fn extract_slot(&self, target_layer_idx: usize) -> (r: Option<usize>)
        ensures
            match r {
                Some(i) => {
                    &&& i < self.extract_layers@.len()
                    &&& self.extract_layers@[i as int] == target_layer_idx
                    &&& forall|k: int| 0 <= k < i ==> self.extract_layers@[k] != target_layer_idx
                },
                None => !self.extract_layers@.contains(target_layer_idx),
            },
    {
        let mut i: usize = 0;
        while i < self.extract_layers.len()
            invariant
                i <= self.extract_layers@.len(),
                forall|k: int| 0 <= k < i ==> self.extract_layers@[k] != target_layer_idx,
            decreases self.extract_layers@.len() - i,
        {
            if self.extract_layers[i] == target_layer_idx {
                return Some(i);
            }
            i = i + 1;
        }
        None
    }

    /// The current hidden state, copied to the head row of a ring.
    pub open spec fn write_op(self, extract_idx: usize) -> Op<RingBuf, ()> {
        Op::Copy {
            dst: RingBuf::Layer(extract_idx),
            dst_off: (self.head * self.hidden_dim * 4) as usize,
            src: RingBuf::Hidden,
            src_off: 0,
            bytes: (self.hidden_dim * 4) as usize,
        }
    }

    /// Copies the current hidden state to the head row of a ring.
    pub fn write_at_head(&self, extract_idx: usize) -> (op: Op<RingBuf, ()>)
        requires
            extract_idx < self.extract_layers@.len(),
            (self.head + 1) * self.hidden_dim * 4 <= usize::MAX,
        ensures
            op == self.write_op(extract_idx),
    {
        proof {
            let h = self.head as int;
            let d = self.hidden_dim as int;
            assert(0 <= h * d && h * d * 4 + d * 4 == (h + 1) * d * 4) by (nonlinear_arith)
                requires
                    h >= 0,
                    d >= 0,
            ;
        }
        Op::Copy {
            dst: RingBuf::Layer(extract_idx),
            dst_off: self.head * self.hidden_dim * 4,
            src: RingBuf::Hidden,
            src_off: 0,
            bytes: self.hidden_dim * 4,
        }
    }

    /// Moves the head on, after every ring has its row.
    pub fn advance_head(&mut self)
        requires
            old(self).wf(),
            old(self).written < usize::MAX,
        ensures
            final(self).wf(),
            final(self).written == old(self).written + 1,
            final(self).head == (old(self).head + 1) % (old(self).max_positions as int),
            final(self).extract_layers == old(self).extract_layers,
            final(self).max_positions == old(self).max_positions,
            final(self).hidden_dim == old(self).hidden_dim,
    {
        proof {
            let w = self.written as int;
            let m = self.max_positions as int;
            vstd::arithmetic::div_mod::lemma_add_mod_noop_right(1, w, m);
            vstd::arithmetic::div_mod::lemma_mod_bound(w, m);
            if w % m + 1 < m {
                vstd::arithmetic::div_mod::lemma_small_mod((w % m + 1) as nat, m as nat);
            } else {
                vstd::arithmetic::div_mod::lemma_mod_self_0(m);
            }
        }
        if self.head + 1 >= self.max_positions {
            self.head = 0;
        } else {
            self.head = self.head + 1;
        }
        self.written = self.written + 1;
    }

    /// Forgets all rows. They stay where they are and are never read.
    pub fn reset(&mut self)
        requires
            old(self).max_positions >= 1,
        ensures
            final(self).wf(),
            final(self).head == 0,
            final(self).written == 0,
            final(self).extract_layers == old(self).extract_layers,
            final(self).max_positions == old(self).max_positions,
            final(self).hidden_dim == old(self).hidden_dim,
    {
        self.head = 0;
        self.written = 0;
        proof {
            vstd::arithmetic::div_mod::lemma_small_mod(0, self.max_positions as nat);
        }
    }

    /// The row of position `p` among the most recent `b`.
    pub open spec fn slot(self, b: int, p: int) -> int {
        let m = self.max_positions as int;
        ((self.head + m - b) % m + p) % m
    }
}

/// A row of a ring.
pub open spec fn ring_row<T>(data: Seq<T>, slot: int, hidden: int) -> Seq<T> {
    data.subrange(slot * hidden, slot * hidden + hidden)
}

/// The first `n` rows of a block of `b` positions: by position, then by layer.
pub open spec fn block_rows<T>(rb: HiddenStateRingBuffer, data: Seq<Seq<T>>, b: int, n: nat) -> Seq<T>
    decreases n,
{
    if n == 0 {
        Seq::empty()
    } else {
        let ne = rb.extract_layers@.len() as int;
        block_rows(rb, data, b, (n - 1) as nat) + ring_row(
            data[(n - 1) % ne],
            rb.slot(b, (n - 1) / ne),
            rb.hidden_dim as int,
        )
    }
}

pub open spec fn views<T>(v: Seq<Vec<T>>) -> Seq<Seq<T>> {
    Seq::new(v.len(), |i: int| v[i]@)
}

fn push_row<T: Copy>(out: &mut Vec<T>, data: &Vec<T>, from: usize, n: usize)
    requires
        from + n <= data@.len(),
    ensures
        final(out)@ == old(out)@ + data@.subrange(from as int, from + n),
{
    let ghost first = out@;
    let mut j: usize = 0;
    let len: usize = data.len();
    assert(first + data@.subrange(from as int, from as int) =~= first);
    while j < n
        invariant
            j <= n,
            from + n <= len == data@.len(),
            out@ == first + data@.subrange(from as int, from + j),
        decreases n - j,
    {
        out.push(data[from + j]);
        assert(out@ =~= first + data@.subrange(from as int, from + j + 1));
        j = j + 1;
    }
}

/// The hidden states of the most recent `b` positions, by position and then by
/// extracted layer, out of the contents of the rings.
pub fn download_hidden_block<T: Copy>(rb: &HiddenStateRingBuffer, layer_data: &Vec<Vec<T>>, b: usize) -> (r:
    Vec<T>)
    requires
        b <= rb.written,
        b <= rb.head + rb.max_positions <= usize::MAX,
        rb.wf(),
        layer_data@.len() == rb.extract_layers@.len(),
        forall|i: int|
            0 <= i < layer_data@.len() ==> (#[trigger] layer_data@[i])@.len() == rb.max_positions
                * rb.hidden_dim,
        b * rb.extract_layers@.len() <= usize::MAX,
    ensures
        r@ == block_rows(
            *rb,
            views(layer_data@),
            b as int,
            (b * rb.extract_layers@.len()) as nat,
        ),
{
    let ne: usize = rb.extract_layers.len();
    let hidden: usize = rb.hidden_dim;
    let m: usize = rb.max_positions;
    let start: usize = (rb.head + m - b) % m;
    let mut out: Vec<T> = Vec::new();
    let mut p: usize = 0;
    let ghost data = views(layer_data@);
    assert(0 * ne == 0);
    while p < b
        invariant
            p <= b,
            ne == rb.extract_layers@.len() == layer_data@.len(),
            hidden == rb.hidden_dim,
            m == rb.max_positions,
            m >= 1,
            start == (rb.head + m - b) % (m as int),
            start < m,
            data == views(layer_data@),
            forall|i: int|
                0 <= i < layer_data@.len() ==> (#[trigger] layer_data@[i])@.len() == m * hidden,
            b * ne <= usize::MAX,
            out@ == block_rows(*rb, data, b as int, (p * ne) as nat),
        decreases b - p,
    {
        let room: usize = m - start;
        let rest: usize = p % m;
        proof {
            vstd::arithmetic::div_mod::lemma_mod_bound(p as int, m as int);
            vstd::arithmetic::div_mod::lemma_add_mod_noop_right(start as int, p as int, m as int);
            if start + rest < m {
                vstd::arithmetic::div_mod::lemma_small_mod((start + rest) as nat, m as nat);
            } else {
                vstd::arithmetic::div_mod::lemma_small_mod((start + rest - m) as nat, m as nat);
                vstd::arithmetic::div_mod::lemma_mod_sub_multiples_vanish(
                    (start + rest) as int,
                    m as int,
                );
            }
        }
        let slot: usize = if rest < room {
            start + rest
        } else {
            rest - room
        };
        assert(slot == rb.slot(b as int, p as int));
        let mut e: usize = 0;
        while e < ne
            invariant
                p < b,
                e <= ne,
                ne == rb.extract_layers@.len() == layer_data@.len(),
                hidden == rb.hidden_dim,
                m == rb.max_positions,
                slot < m,
                slot == rb.slot(b as int, p as int),
                data == views(layer_data@),
                forall|i: int|
                    0 <= i < layer_data@.len() ==> (#[trigger] layer_data@[i])@.len() == m
                        * hidden,
                b * ne <= usize::MAX,
                out@ == block_rows(*rb, data, b as int, (p * ne + e) as nat),
            decreases ne - e,
        {
            proof {
                let s = slot as int;
                let h = hidden as int;
                assert(0 <= s * h && s * h + h <= m * h) by (nonlinear_arith)
                    requires
                        0 <= s < m,
                        h >= 0,
                ;
                let len = layer_data@[e as int]@.len();
                assert(len == m * h);
            }
            let len: usize = layer_data[e].len();
            let from: usize = slot * hidden;
            push_row(&mut out, &layer_data[e], from, hidden);
            proof {
                let n = p * ne + e + 1;
                vstd::arithmetic::div_mod::lemma_fundamental_div_mod_converse(
                    n - 1,
                    ne as int,
                    p as int,
                    e as int,
                );
                assert(0 <= p * ne) by (nonlinear_arith);
                assert(out@ =~= block_rows(*rb, data, b as int, n as nat));
            }
            e = e + 1;
        }
        assert((p + 1) * ne == p * ne + ne) by (nonlinear_arith);
        p = p + 1;
    }
    out
}

/// The rings hold the most recent rows of a history: of position, then of layer.
pub open spec fn ring_holds<T>(
    rb: HiddenStateRingBuffer,
    data: Seq<Seq<T>>,
    history: Seq<Seq<Seq<T>>>,
) -> bool {
    let m = rb.max_positions as int;
    &&& rb.wf()
    &&& data.len() == rb.extract_layers@.len()
    &&& history.len() == rb.written
    &&& forall|t: int, e: int|
        #![trigger history[t][e]]
        0 <= t < history.len() && history.len() - m <= t && 0 <= e < data.len() ==> ring_row(
            data[e],
            t % m,
            rb.hidden_dim as int,
        ) == history[t][e]
}

/// Writing a row to every ring at the head and moving the head on makes the row
/// the latest of the history and loses only what is too old to be held.
pub proof fn law_ring_takes_rows<T>(
    rb: HiddenStateRingBuffer,
    data: Seq<Seq<T>>,
    history: Seq<Seq<Seq<T>>>,
    rows: Seq<Seq<T>>,
    after: HiddenStateRingBuffer,
    written: Seq<Seq<T>>,
)
    requires
        ring_holds(rb, data, history),
        rows.len() == data.len() == written.len(),
        forall|e: int, s: int|
            #![trigger ring_row(written[e], s, rb.hidden_dim as int)]
            0 <= e < data.len() && 0 <= s < rb.max_positions ==> ring_row(
                written[e],
                s,
                rb.hidden_dim as int,
            ) == if s == rb.head {
                rows[e]
            } else {
                ring_row(data[e], s, rb.hidden_dim as int)
            },
        after.wf(),
        after.written == rb.written + 1,
        after.extract_layers == rb.extract_layers,
        after.max_positions == rb.max_positions,
        after.hidden_dim == rb.hidden_dim,
    ensures
        ring_holds(after, written, history.push(rows)),
{
    let m = rb.max_positions as int;
    let w = rb.written as int;
    let longer = history.push(rows);
    assert forall|t: int, e: int|
        #![trigger longer[t][e]]
        0 <= t < longer.len() && longer.len() - m <= t && 0 <= e < written.len() implies ring_row(
        written[e],
        t % m,
        after.hidden_dim as int,
    ) == longer[t][e] by {
        vstd::arithmetic::div_mod::lemma_mod_bound(t, m);
        if t < w {
            assert(longer[t][e] == history[t][e]);
            if t % m == w % m {
                vstd::arithmetic::div_mod::lemma_fundamental_div_mod(t, m);
                vstd::arithmetic::div_mod::lemma_fundamental_div_mod(w, m);
                let qt = t / m;
                let qw = w / m;
                assert(false) by (nonlinear_arith)
                    requires
                        t == m * qt + t % m,
                        w == m * qw + w % m,
                        t % m == w % m,
                        0 < w - t < m,
                ;
            }
        }
    }
}

proof fn lemma_slot_of_recent(rb: HiddenStateRingBuffer, b: int, p: int)
    requires
        rb.wf(),
        0 <= b <= rb.written,
        b <= rb.max_positions,
        0 <= p < b,
    ensures
        rb.slot(b, p) == (rb.written - b + p) % (rb.max_positions as int),
{
    let m = rb.max_positions as int;
    let w = rb.written as int;
    let start = (rb.head + m - b) % m;
    vstd::arithmetic::div_mod::lemma_fundamental_div_mod(w, m);
    vstd::arithmetic::div_mod::lemma_fundamental_div_mod(rb.head + m - b, m);
    vstd::arithmetic::div_mod::lemma_fundamental_div_mod(start + p, m);
    vstd::arithmetic::div_mod::lemma_mod_bound(start + p, m);
    let q0 = w / m;
    let q1 = (rb.head + m - b) / m;
    let q2 = (start + p) / m;
    assert(w - b + p == (q0 + q1 - 1 + q2) * m + rb.slot(b, p)) by (nonlinear_arith)
        requires
            w == m * q0 + rb.head,
            rb.head + m - b == m * q1 + start,
            start + p == m * q2 + rb.slot(b, p),
    ;
    vstd::arithmetic::div_mod::lemma_fundamental_div_mod_converse(
        w - b + p,
        m,
        q0 + q1 - 1 + q2,
        rb.slot(b, p),
    );
}

/// The first `n` rows of the last `b` positions of a history with `ne` layers.
pub open spec fn recent_rows<T>(history: Seq<Seq<Seq<T>>>, ne: int, b: int, n: nat) -> Seq<T>
    decreases n,
{
    if n == 0 {
        Seq::empty()
    } else {
        recent_rows(history, ne, b, (n - 1) as nat) + history[history.len() - b + (n - 1) / ne][(n
            - 1) % ne]
    }
}

/// A block is the last `b` positions of the history, in the order in which they
/// were written, as long as the rings hold them all.
pub proof fn law_block_is_recent<T>(
    rb: HiddenStateRingBuffer,
    data: Seq<Seq<T>>,
    history: Seq<Seq<Seq<T>>>,
    b: int,
    n: nat,
)
    requires
        ring_holds(rb, data, history),
        0 <= b <= rb.written,
        b <= rb.max_positions,
        n <= b * rb.extract_layers@.len(),
    ensures
        block_rows(rb, data, b, n) == recent_rows(
            history,
            rb.extract_layers@.len() as int,
            b,
            n,
        ),
    decreases n,
{
    if n > 0 {
        let ne = rb.extract_layers@.len() as int;
        law_block_is_recent(rb, data, history, b, (n - 1) as nat);
        let p = (n - 1) / ne;
        let e = (n - 1) % ne;
        assert(ne >= 1 && 0 <= p < b && 0 <= e < ne) by (nonlinear_arith)
            requires
                0 < n <= b * ne,
                ne >= 0,
                p == (n - 1) / ne,
                e == (n - 1) % ne,
        ;
        lemma_slot_of_recent(rb, b, p);
        assert(history[history.len() - b + p][e] == history[history.len() - b + p][e]);
    }
}

// One step.

/// What one step of speculative decoding did.
#[derive(Debug, Clone)]
pub struct SpecStepResult {
    /// How many drafted tokens were accepted.
    pub accepted: usize,
    /// The target's own choice after the accepted tokens.
    pub bonus_token: u32,
    /// What the draft proposed.
    pub drafted: Vec<u32>,
    /// The accepted tokens and the bonus token.
    pub committed: Vec<u32>,
}

/// The target's choice before drafted token `i`, or after the last one.
pub open spec fn choice(at_pos: Seq<F32>, mid: Seq<Seq<F32>>, i: int) -> u32 {
    if i == 0 {
        argmax(at_pos)
    } else {
        argmax(mid[i - 1])
    }
}

/// The target would have chosen drafted token `i` itself.
pub open spec fn agrees(drafted: Seq<u32>, at_pos: Seq<F32>, mid: Seq<Seq<F32>>, i: int) -> bool {
    (i == 0 ==> at_pos.len() > 0) && choice(at_pos, mid, i) == drafted[i]
}

/// `n` drafted tokens are accepted: the target agrees with these and, if there
/// are more, not with the next.
pub open spec fn accepts(drafted: Seq<u32>, at_pos: Seq<F32>, mid: Seq<Seq<F32>>, n: int) -> bool {
    &&& 0 <= n <= drafted.len()
    &&& forall|i: int| 0 <= i < n ==> #[trigger] agrees(drafted, at_pos, mid, i)
    &&& n < drafted.len() ==> !agrees(drafted, at_pos, mid, n)
}

/// Exactly one number of tokens is accepted.
pub proof fn law_acceptance_is_unique(
    drafted: Seq<u32>,
    at_pos: Seq<F32>,
    mid: Seq<Seq<F32>>,
    a: int,
    b: int,
)
    requires
        accepts(drafted, at_pos, mid, a),
        accepts(drafted, at_pos, mid, b),
    ensures
        a == b,
{
    if a < b {
        assert(agrees(drafted, at_pos, mid, a));
    } else if b < a {
        assert(agrees(drafted, at_pos, mid, b));
    }
}

/// Every committed token is the target's own greedy choice after the tokens
/// before it: speculation changes the speed and not the text.
pub proof fn law_committed_is_target_greedy(
    drafted: Seq<u32>,
    at_pos: Seq<F32>,
    mid: Seq<Seq<F32>>,
    n: int,
    i: int,
)
    requires
        accepts(drafted, at_pos, mid, n),
        0 <= i <= n,
    ensures
        committed_of(drafted, at_pos, mid, n)[i] == choice(at_pos, mid, i),
        committed_of(drafted, at_pos, mid, n).len() == n + 1,
        i < n ==> committed_of(drafted, at_pos, mid, n)[i] == drafted[i],
{
    if i < n {
        assert(agrees(drafted, at_pos, mid, i));
    }
}

/// The tokens that are committed when `n` are accepted.
pub open spec fn committed_of(drafted: Seq<u32>, at_pos: Seq<F32>, mid: Seq<Seq<F32>>, n: int) -> Seq<u32> {
    drafted.subrange(0, n).push(choice(at_pos, mid, n))
}

/// `r` is the outcome of verifying `drafted` against the target's logits.
pub open spec fn is_outcome(r: SpecStepResult, drafted: Seq<u32>, at_pos: Seq<F32>, mid: Seq<Seq<F32>>) -> bool {
    &&& accepts(drafted, at_pos, mid, r.accepted as int)
    &&& r.bonus_token == choice(at_pos, mid, r.accepted as int)
    &&& r.drafted@ == drafted
    &&& r.committed@ == committed_of(drafted, at_pos, mid, r.accepted as int)
}

/// How many drafted tokens are accepted.
pub fn count_accepted(drafted: &Vec<u32>, at_pos: &Vec<F32>, mid: &Vec<Vec<F32>>) -> (n: usize)
    requires
        mid@.len() == drafted@.len(),
    ensures
        accepts(drafted@, at_pos@, views(mid@), n as int),
{
    let mut n: usize = 0;
    while n < drafted.len()
        invariant
            n <= drafted@.len() == mid@.len(),
            forall|i: int| 0 <= i < n ==> #[trigger] agrees(drafted@, at_pos@, views(mid@), i),
        decreases drafted@.len() - n,
    {
        let ok: bool = if n == 0 {
            at_pos.len() > 0 && argmax_u32(at_pos.as_slice()) == drafted[0]
        } else {
            argmax_u32(mid[n - 1].as_slice()) == drafted[n]
        };
        assert(ok == agrees(drafted@, at_pos@, views(mid@), n as int));
        if !ok {
            return n;
        }
        n = n + 1;
    }
    n
}

/// Verifies drafted tokens against the target's logits: those at the position,
/// and those after each drafted token.
pub fn verify_drafted(drafted: Vec<u32>, at_pos: &Vec<F32>, mid: &Vec<Vec<F32>>) -> (r: SpecStepResult)
    requires
        mid@.len() == drafted@.len(),
    ensures
        is_outcome(r, drafted@, at_pos@, views(mid@)),
{
    let accepted: usize = count_accepted(&drafted, at_pos, mid);
    let bonus_token: u32 = if accepted == 0 {
        argmax_u32(at_pos.as_slice())
    } else {
        argmax_u32(mid[accepted - 1].as_slice())
    };
    let mut committed: Vec<u32> = Vec::new();
    let mut i: usize = 0;
    while i < accepted
        invariant
            i <= accepted <= drafted@.len(),
            committed@ == drafted@.subrange(0, i as int),
        decreases accepted - i,
    {
        committed.push(drafted[i]);
        assert(committed@ =~= drafted@.subrange(0, i + 1));
        i = i + 1;
    }
    committed.push(bonus_token);
    SpecStepResult { accepted, bonus_token, drafted, committed }
}

/// What a driver does next in a step.
#[derive(Debug, Clone, Copy, PartialEq, Eq, Structural)]
pub enum StepAction {
    /// Back up both recurrent states.
    Save,
    /// Hand over the target's logits.
    FetchTarget,
    /// Hand over the draft's logits.
    FetchDraft,
    /// Run a token through the draft.
    DraftForward { token: u32, pos: usize },
    /// Run a token through the target.
    TargetForward { token: u32, pos: usize },
    /// Bring both recurrent states back.
    Restore,
    /// Nothing is left to do.
    Finish,
}

/// A step of speculative decoding on its way: the draft proposes `k` tokens from
/// position `pos`, the target verifies them, both are rewound and replay what is
/// committed.
pub struct GreedyStep {
    pub pos: usize,
    pub k: usize,
    /// How many actions were done.
    pub done: usize,
    pub drafted: Vec<u32>,
    pub at_pos: Vec<F32>,
    pub mid: Vec<Vec<F32>>,
    /// There once the target has verified all.
    pub result: Option<SpecStepResult>,
}

/// Action `n` of a step: back up; fetch; draft and fetch in turn; verify and fetch
/// in turn; rewind; replay on both models.
pub open spec fn action_at(pos: int, k: int, drafted: Seq<u32>, committed: Seq<u32>, n: int) -> StepAction {
    if n == 0 {
        StepAction::Save
    } else if n == 1 {
        StepAction::FetchTarget
    } else if n == 2 {
        StepAction::FetchDraft
    } else if n < 2 * k + 2 {
        let j = n - 3;
        if j % 2 == 0 {
            StepAction::DraftForward { token: drafted[j / 2], pos: (pos + j / 2) as usize }
        } else {
            StepAction::FetchDraft
        }
    } else if n < 4 * k + 2 {
        let j = n - (2 * k + 2);
        if j % 2 == 0 {
            StepAction::TargetForward { token: drafted[j / 2], pos: (pos + j / 2) as usize }
        } else {
            StepAction::FetchTarget
        }
    } else if n == 4 * k + 2 {
        StepAction::Restore
    } else if n < 4 * k + 3 + 2 * committed.len() {
        let j = n - (4 * k + 3);
        if j % 2 == 0 {
            StepAction::TargetForward { token: committed[j / 2], pos: (pos + j / 2) as usize }
        } else {
            StepAction::DraftForward { token: committed[j / 2], pos: (pos + j / 2) as usize }
        }
    } else {
        StepAction::Finish
    }
}

/// How many tokens are drafted after `n` actions.
pub open spec fn drafted_after(k: int, n: int) -> int {
    if n <= 2 {
        0
    } else if n <= 2 * k + 2 {
        (n - 1) / 2
    } else {
        k
    }
}

/// How many tokens are verified after `n` actions.
pub open spec fn verified_after(k: int, n: int) -> int {
    if n <= 2 * k + 2 {
        0
    } else if n <= 4 * k + 2 {
        (n - (2 * k + 2)) / 2
    } else {
        k
    }
}

impl GreedyStep {
    pub open spec fn committed(self) -> Seq<u32> {
        match self.result {
            Some(r) => r.committed@,
            None => Seq::empty(),
        }
    }

    /// What was handed over so far fits the actions that were done.
    pub open spec fn wf(self) -> bool {
        let k = self.k as int;
        let n = self.done as int;
        &&& self.k >= 1
        &&& 6 * self.k + 6 <= usize::MAX
        &&& self.pos + self.k + 1 <= usize::MAX
        &&& n <= 4 * k + 3 + 2 * (k + 1)
        &&& self.drafted@.len() == drafted_after(k, n)
        &&& self.mid@.len() == verified_after(k, n)
        &&& self.result is Some <==> n >= 4 * k + 2
        &&& self.result is Some ==> {
            &&& is_outcome(self.result->0, self.drafted@, self.at_pos@, views(self.mid@))
            &&& n <= 4 * k + 3 + 2 * self.result->0.committed@.len()
        }
    }

    /// The next action.
    pub open spec fn next(self) -> StepAction {
        action_at(
            self.pos as int,
            self.k as int,
            self.drafted@,
            self.committed(),
            self.done as int,
        )
    }

    /// The next action.
    pub fn next_action(&self) -> (r: StepAction)
        requires
            self.wf(),
        ensures
            r == self.next(),
    {
        let n: usize = self.done;
        let k: usize = self.k;
        if n == 0 {
            StepAction::Save
        } else if n == 1 {
            StepAction::FetchTarget
        } else if n == 2 {
            StepAction::FetchDraft
        } else if n < 2 * k + 2 {
            let j: usize = n - 3;
            if j % 2 == 0 {
                StepAction::DraftForward { token: self.drafted[j / 2], pos: self.pos + j / 2 }
            } else {
                StepAction::FetchDraft
            }
        } else if n < 4 * k + 2 {
            let j: usize = n - (2 * k + 2);
            if j % 2 == 0 {
                StepAction::TargetForward { token: self.drafted[j / 2], pos: self.pos + j / 2 }
            } else {
                StepAction::FetchTarget
            }
        } else if n == 4 * k + 2 {
            StepAction::Restore
        } else {
            let j: usize = n - (4 * k + 3);
            match &self.result {
                Some(r) => {
                    if j / 2 < r.committed.len() {
                        let token: u32 = r.committed[j / 2];
                        let pos: usize = self.pos + j / 2;
                        if j % 2 == 0 {
                            StepAction::TargetForward { token, pos }
                        } else {
                            StepAction::DraftForward { token, pos }
                        }
                    } else {
                        StepAction::Finish
                    }
                },
                None => StepAction::Finish,
            }
        }
    }

    /// The next action was done; `logits` are what it fetched, if it fetched any.
    pub fn advance(&mut self, logits: Vec<F32>)
        requires
            old(self).wf(),
            old(self).next() != StepAction::Finish,
        ensures
            final(self).wf(),
            final(self).pos == old(self).pos,
            final(self).k == old(self).k,
            final(self).done == old(self).done + 1,
            final(self).at_pos@ == if old(self).done == 1 {
                logits@
            } else {
                old(self).at_pos@
            },
            final(self).drafted@ == if old(self).next() == StepAction::FetchDraft {
                old(self).drafted@.push(argmax(logits@))
            } else {
                old(self).drafted@
            },
            views(final(self).mid@) == if old(self).done > 1 && old(self).next()
                == StepAction::FetchTarget {
                views(old(self).mid@).push(logits@)
            } else {
                views(old(self).mid@)
            },
            old(self).result is Some ==> final(self).result == old(self).result,
    {
        let n: usize = self.done;
        let k: usize = self.k;
        let act: StepAction = self.next_action();
        let ghost before = views(self.mid@);
        match act {
            StepAction::FetchDraft => {
                self.drafted.push(argmax_u32(logits.as_slice()));
            },
            StepAction::FetchTarget => {
                if n == 1 {
                    self.at_pos = logits;
                } else {
                    self.mid.push(logits);
                    assert(views(self.mid@) =~= before.push(logits@));
                }
            },
            _ => {},
        }
        self.done = n + 1;
        if n + 1 == 4 * k + 2 {
            let mut drafted: Vec<u32> = Vec::new();
            let mut i: usize = 0;
            while i < self.drafted.len()
                invariant
                    i <= self.drafted@.len(),
                    drafted@ == self.drafted@.subrange(0, i as int),
                decreases self.drafted@.len() - i,
            {
                drafted.push(self.drafted[i]);
                assert(drafted@ =~= self.drafted@.subrange(0, i + 1));
                i = i + 1;
            }
            assert(drafted@ =~= self.drafted@);
            self.result = Some(verify_drafted(drafted, &self.at_pos, &self.mid));
        }
    }

    /// The outcome, once nothing is left to do.
    pub fn finish(self) -> (r: Option<SpecStepResult>)
        requires
            self.wf(),
        ensures
            match r {
                Some(o) => {
                    &&& self.done >= 4 * self.k + 2
                    &&& is_outcome(o, self.drafted@, self.at_pos@, views(self.mid@))
                    &&& o.drafted@.len() == self.k
                },
                None => self.done < 4 * self.k + 2,
            },
    {
        self.result
    }
}

/// Both models replay the committed tokens at their positions, in order: the
/// target first, then the draft.
pub proof fn law_both_models_replay(step: GreedyStep, i: int)
    requires
        step.wf(),
        step.result is Some,
        0 <= i < step.committed().len(),
    ensures
        action_at(
            step.pos as int,
            step.k as int,
            step.drafted@,
            step.committed(),
            4 * step.k + 3 + 2 * i,
        ) == (StepAction::TargetForward {
            token: step.committed()[i],
            pos: (step.pos + i) as usize,
        }),
        action_at(
            step.pos as int,
            step.k as int,
            step.drafted@,
            step.committed(),
            4 * step.k + 3 + 2 * i + 1,
        ) == (StepAction::DraftForward { token: step.committed()[i], pos: (step.pos + i) as usize }),
{
}

/// One step of speculative decoding from position `pos` with `k` drafted tokens,
/// with nothing done yet. A driver does [`GreedyStep::next_action`] and reports
/// with [`GreedyStep::advance`] until nothing is left to do.
pub fn spec_step_greedy(pos: usize, k: usize) -> (r: GreedyStep)
    requires
        k >= 1,
        6 * k + 6 <= usize::MAX,
        pos + k + 1 <= usize::MAX,
    ensures
        r.wf(),
        r.pos == pos,
        r.k == k,
        r.done == 0,
{
    GreedyStep {
        pos,
        k,
        done: 0,
        drafted: Vec::new(),
        at_pos: Vec::new(),
        mid: Vec::new(),
        result: None,
    }
}

// What a step does to both models.

/// A model slot as far as decoding goes: its recurrent state, the cache entry of
/// each position, and the logits of its last pass.
pub struct SlotView<R, E> {
    pub state: R,
    pub cache: spec_fn(int) -> E,
    pub logits: Seq<F32>,
}

/// The cache entries before position `pos`.
pub open spec fn before_pos<E>(cache: spec_fn(int) -> E, pos: int) -> Seq<E> {
    Seq::new(pos as nat, |i: int| cache(i))
}

/// A slot after a token at position `pos`. A pass reads the recurrent state and
/// the cache entries before its position, replaces the state, writes the entry at
/// its position and leaves logits.
pub open spec fn passed<R, E>(
    run: spec_fn(R, Seq<E>, u32) -> (R, E, Seq<F32>),
    s: SlotView<R, E>,
    token: u32,
    pos: int,
) -> SlotView<R, E> {
    let out = run(s.state, before_pos(s.cache, pos), token);
    SlotView {
        state: out.0,
        cache: |i: int|
            if i == pos {
                out.1
            } else {
                (s.cache)(i)
            },
        logits: out.2,
    }
}

/// A slot after the first `n` of some tokens, from position `pos` on.
pub open spec fn fed<R, E>(
    run: spec_fn(R, Seq<E>, u32) -> (R, E, Seq<F32>),
    s: SlotView<R, E>,
    tokens: Seq<u32>,
    pos: int,
    n: nat,
) -> SlotView<R, E>
    decreases n,
{
    if n == 0 {
        s
    } else {
        passed(run, fed(run, s, tokens, pos, (n - 1) as nat), tokens[n - 1], pos + n - 1)
    }
}

/// The `n` tokens that a slot decodes on its own from position `pos` on: each is
/// its choice from the logits after the tokens before it.
pub open spec fn greedy<R, E>(
    run: spec_fn(R, Seq<E>, u32) -> (R, E, Seq<F32>),
    s: SlotView<R, E>,
    pos: int,
    n: nat,
) -> Seq<u32>
    decreases n,
{
    if n == 0 {
        Seq::empty()
    } else {
        let g = greedy(run, s, pos, (n - 1) as nat);
        g.push(argmax(fed(run, s, g, pos, (n - 1) as nat).logits))
    }
}

/// Two slots that no pass from position `pos` on can tell apart.
pub open spec fn alike<R, E>(a: SlotView<R, E>, b: SlotView<R, E>, pos: int) -> bool {
    a.state == b.state && before_pos(a.cache, pos) == before_pos(b.cache, pos)
}

/// Both slots and the backups of their recurrent states.
pub struct PairView<R, E> {
    pub target: SlotView<R, E>,
    pub draft: SlotView<R, E>,
    pub saved_target: R,
    pub saved_draft: R,
}

/// Both slots after an action.
pub open spec fn acted<R, E>(
    run_t: spec_fn(R, Seq<E>, u32) -> (R, E, Seq<F32>),
    run_d: spec_fn(R, Seq<E>, u32) -> (R, E, Seq<F32>),
    s: PairView<R, E>,
    a: StepAction,
) -> PairView<R, E> {
    match a {
        StepAction::Save => PairView {
            saved_target: s.target.state,
            saved_draft: s.draft.state,
            ..s
        },
        StepAction::Restore => PairView {
            target: SlotView { state: s.saved_target, ..s.target },
            draft: SlotView { state: s.saved_draft, ..s.draft },
            ..s
        },
        StepAction::TargetForward { token, pos } => PairView {
            target: passed(run_t, s.target, token, pos as int),
            ..s
        },
        StepAction::DraftForward { token, pos } => PairView {
            draft: passed(run_d, s.draft, token, pos as int),
            ..s
        },
        _ => s,
    }
}

/// Both slots after the first `n` actions of a step.
pub open spec fn played<R, E>(
    run_t: spec_fn(R, Seq<E>, u32) -> (R, E, Seq<F32>),
    run_d: spec_fn(R, Seq<E>, u32) -> (R, E, Seq<F32>),
    s: PairView<R, E>,
    step: GreedyStep,
    n: nat,
) -> PairView<R, E>
    decreases n,
{
    if n == 0 {
        s
    } else {
        acted(
            run_t,
            run_d,
            played(run_t, run_d, s, step, (n - 1) as nat),
            action_at(step.pos as int, step.k as int, step.drafted@, step.committed(), n - 1),
        )
    }
}

/// The logits that were handed to a step are those of the models: at its start,
/// and after each pass that precedes a fetch.
pub open spec fn handed<R, E>(
    run_t: spec_fn(R, Seq<E>, u32) -> (R, E, Seq<F32>),
    run_d: spec_fn(R, Seq<E>, u32) -> (R, E, Seq<F32>),
    s: PairView<R, E>,
    step: GreedyStep,
) -> bool {
    &&& step.at_pos@ == s.target.logits
    &&& forall|i: int|
        0 <= i < step.mid@.len() ==> (#[trigger] views(step.mid@)[i]) == played(
            run_t,
            run_d,
            s,
            step,
            (2 * step.k + 3 + 2 * i) as nat,
        ).target.logits
    &&& forall|i: int|
        0 <= i < step.drafted@.len() ==> (#[trigger] step.drafted@[i]) == argmax(
            played(run_t, run_d, s, step, (2 + 2 * i) as nat).draft.logits,
        )
}

proof fn lemma_fed_prefix<R, E>(
    run: spec_fn(R, Seq<E>, u32) -> (R, E, Seq<F32>),
    s: SlotView<R, E>,
    a: Seq<u32>,
    b: Seq<u32>,
    pos: int,
    n: nat,
)
    requires
        n <= a.len(),
        n <= b.len(),
        forall|i: int| 0 <= i < n ==> a[i] == b[i],
    ensures
        fed(run, s, a, pos, n) == fed(run, s, b, pos, n),
    decreases n,
{
    if n > 0 {
        lemma_fed_prefix(run, s, a, b, pos, (n - 1) as nat);
    }
}

proof fn lemma_fed_keeps_below<R, E>(
    run: spec_fn(R, Seq<E>, u32) -> (R, E, Seq<F32>),
    s: SlotView<R, E>,
    tokens: Seq<u32>,
    pos: int,
    n: nat,
)
    requires
        0 <= pos,
    ensures
        before_pos(fed(run, s, tokens, pos, n).cache, pos) == before_pos(s.cache, pos),
    decreases n,
{
    if n > 0 {
        let m = (n - 1) as nat;
        lemma_fed_keeps_below(run, s, tokens, pos, m);
        let prev = fed(run, s, tokens, pos, m);
        assert forall|i: int| 0 <= i < pos implies #[trigger] before_pos(
            fed(run, s, tokens, pos, n).cache,
            pos,
        )[i] == before_pos(s.cache, pos)[i] by {
            assert(before_pos(prev.cache, pos)[i] == before_pos(s.cache, pos)[i]);
        }
        assert(before_pos(fed(run, s, tokens, pos, n).cache, pos) =~= before_pos(s.cache, pos));
    }
}

proof fn lemma_fed_alike<R, E>(
    run: spec_fn(R, Seq<E>, u32) -> (R, E, Seq<F32>),
    a: SlotView<R, E>,
    b: SlotView<R, E>,
    tokens: Seq<u32>,
    pos: int,
    n: nat,
)
    requires
        0 <= pos,
        alike(a, b, pos),
    ensures
        alike(fed(run, a, tokens, pos, n), fed(run, b, tokens, pos, n), pos + n),
        n > 0 ==> fed(run, a, tokens, pos, n).logits == fed(run, b, tokens, pos, n).logits,
    decreases n,
{
    if n > 0 {
        let m = (n - 1) as nat;
        lemma_fed_alike(run, a, b, tokens, pos, m);
        let x = fed(run, a, tokens, pos, m);
        let y = fed(run, b, tokens, pos, m);
        let u = fed(run, a, tokens, pos, n);
        let v = fed(run, b, tokens, pos, n);
        let q = pos + n;
        assert forall|i: int| 0 <= i < q implies #[trigger] before_pos(u.cache, q)[i]
            == before_pos(v.cache, q)[i] by {
            if i < pos + m {
                assert(before_pos(x.cache, pos + m)[i] == before_pos(y.cache, pos + m)[i]);
            }
        }
        assert(before_pos(u.cache, q) =~= before_pos(v.cache, q));
    }
}

/// Both slots while tokens are drafted and verified.
#[verifier::spinoff_prover]
proof fn lemma_played_forth<R, E>(
    run_t: spec_fn(R, Seq<E>, u32) -> (R, E, Seq<F32>),
    run_d: spec_fn(R, Seq<E>, u32) -> (R, E, Seq<F32>),
    s: PairView<R, E>,
    step: GreedyStep,
    n: nat,
)
    requires
        step.wf(),
        1 <= n <= 4 * step.k + 2,
    ensures
        ({
            let k = step.k as int;
            let p = played(run_t, run_d, s, step, n);
            let d = if n <= 2 {
                0
            } else if n <= 2 * k + 2 {
                (n - 2) / 2
            } else {
                k
            };
            let t = if n <= 2 * k + 2 {
                0
            } else {
                (n - (2 * k + 1)) / 2
            };
            &&& p.saved_target == s.target.state
            &&& p.saved_draft == s.draft.state
            &&& p.draft == fed(run_d, s.draft, step.drafted@, step.pos as int, d as nat)
            &&& p.target == fed(run_t, s.target, step.drafted@, step.pos as int, t as nat)
        }),
    decreases n,
{
    if n > 1 {
        lemma_played_forth(run_t, run_d, s, step, (n - 1) as nat);
    } else {
        reveal_with_fuel(played, 2);
    }
}

/// Both slots while the committed tokens are replayed.
#[verifier::spinoff_prover]
proof fn lemma_played_back<R, E>(
    run_t: spec_fn(R, Seq<E>, u32) -> (R, E, Seq<F32>),
    run_d: spec_fn(R, Seq<E>, u32) -> (R, E, Seq<F32>),
    s: PairView<R, E>,
    step: GreedyStep,
    n: nat,
)
    requires
        step.wf(),
        step.result is Some,
        4 * step.k + 3 <= n <= 4 * step.k + 3 + 2 * step.committed().len(),
    ensures
        ({
            let b = 4 * step.k + 3;
            let r = played(run_t, run_d, s, step, b as nat);
            let p = played(run_t, run_d, s, step, n);
            &&& p.target == fed(
                run_t,
                r.target,
                step.committed(),
                step.pos as int,
                ((n - b + 1) / 2) as nat,
            )
            &&& p.draft == fed(
                run_d,
                r.draft,
                step.committed(),
                step.pos as int,
                ((n - b) / 2) as nat,
            )
        }),
    decreases n,
{
    if n > 4 * step.k + 3 {
        lemma_played_back(run_t, run_d, s, step, (n - 1) as nat);
    }
}

/// After the rewind both slots are as they were, as far as later passes can tell.
proof fn lemma_rewound<R, E>(
    run_t: spec_fn(R, Seq<E>, u32) -> (R, E, Seq<F32>),
    run_d: spec_fn(R, Seq<E>, u32) -> (R, E, Seq<F32>),
    s: PairView<R, E>,
    step: GreedyStep,
)
    requires
        step.wf(),
        step.result is Some,
    ensures
        ({
            let r = played(run_t, run_d, s, step, (4 * step.k + 3) as nat);
            alike(r.target, s.target, step.pos as int) && alike(r.draft, s.draft, step.pos as int)
        }),
{
    let k = step.k as nat;
    let n = (4 * k + 2) as nat;
    lemma_played_forth(run_t, run_d, s, step, n);
    lemma_fed_keeps_below(run_t, s.target, step.drafted@, step.pos as int, k);
    lemma_fed_keeps_below(run_d, s.draft, step.drafted@, step.pos as int, k);
    assert(action_at(step.pos as int, step.k as int, step.drafted@, step.committed(), n as int)
        == StepAction::Restore);
}

/// Tokens that are each the choice after those before are the greedy ones.
proof fn lemma_greedy_of<R, E>(
    run: spec_fn(R, Seq<E>, u32) -> (R, E, Seq<F32>),
    s: SlotView<R, E>,
    tokens: Seq<u32>,
    pos: int,
    n: nat,
)
    requires
        n <= tokens.len(),
        forall|i: nat|
            i < n ==> tokens[i as int] == argmax((#[trigger] fed(run, s, tokens, pos, i)).logits),
    ensures
        greedy(run, s, pos, n) == tokens.subrange(0, n as int),
    decreases n,
{
    if n == 0 {
        assert(tokens.subrange(0, 0) =~= Seq::<u32>::empty());
    } else {
        let m = (n - 1) as nat;
        lemma_greedy_of(run, s, tokens, pos, m);
        let g = greedy(run, s, pos, m);
        lemma_fed_prefix(run, s, g, tokens, pos, m);
        assert(tokens[m as int] == argmax(fed(run, s, tokens, pos, m).logits));
        assert(tokens.subrange(0, n as int) =~= tokens.subrange(0, m as int).push(
            tokens[m as int],
        ));
    }
}

/// Committed token `i` is the target's choice after those before it.
#[verifier::spinoff_prover]
proof fn lemma_committed_chosen<R, E>(
    run_t: spec_fn(R, Seq<E>, u32) -> (R, E, Seq<F32>),
    run_d: spec_fn(R, Seq<E>, u32) -> (R, E, Seq<F32>),
    s: PairView<R, E>,
    step: GreedyStep,
    i: nat,
)
    requires
        step.wf(),
        step.result is Some,
        handed(run_t, run_d, s, step),
        i < step.committed().len(),
    ensures
        step.committed()[i as int] == argmax(
            fed(run_t, s.target, step.committed(), step.pos as int, i).logits,
        ),
{
    let c = step.committed();
    let o = step.result->0;
    let pos = step.pos as int;
    let mid = views(step.mid@);
    assert(c.len() == o.accepted + 1);
    law_committed_is_target_greedy(step.drafted@, step.at_pos@, mid, o.accepted as int, i as int);
    if i > 0 {
        assert forall|j: int| 0 <= j < i implies c[j] == step.drafted@[j] by {
            law_committed_is_target_greedy(
                step.drafted@,
                step.at_pos@,
                mid,
                o.accepted as int,
                j,
            );
        }
        lemma_fed_prefix(run_t, s.target, c, step.drafted@, pos, i);
        let at = (2 * step.k + 3 + 2 * (i - 1)) as nat;
        assert(mid[i - 1] == played(run_t, run_d, s, step, at).target.logits);
        lemma_played_forth(run_t, run_d, s, step, at);
    }
}

/// Drafted token `i` is the draft's choice after those before it.
#[verifier::spinoff_prover]
proof fn lemma_drafted_chosen<R, E>(
    run_t: spec_fn(R, Seq<E>, u32) -> (R, E, Seq<F32>),
    run_d: spec_fn(R, Seq<E>, u32) -> (R, E, Seq<F32>),
    s: PairView<R, E>,
    step: GreedyStep,
    i: nat,
)
    requires
        step.wf(),
        step.result is Some,
        handed(run_t, run_d, s, step),
        i < step.k,
    ensures
        step.drafted@[i as int] == argmax(
            fed(run_d, s.draft, step.drafted@, step.pos as int, i).logits,
        ),
{
    let at = (2 + 2 * i) as nat;
    assert(step.drafted@[i as int] == argmax(played(run_t, run_d, s, step, at).draft.logits));
    lemma_played_forth(run_t, run_d, s, step, at);
}

/// A finished step commits what the target decodes greedily on its own from the
/// position on, out of what the draft decodes greedily, and leaves both slots as
/// if exactly the committed tokens had been run through them: the same recurrent
/// state, the same logits and the same cache up to the new position.
pub proof fn law_step_decodes_greedily<R, E>(
    run_t: spec_fn(R, Seq<E>, u32) -> (R, E, Seq<F32>),
    run_d: spec_fn(R, Seq<E>, u32) -> (R, E, Seq<F32>),
    s: PairView<R, E>,
    step: GreedyStep,
)
    requires
        step.wf(),
        step.next() == StepAction::Finish,
        handed(run_t, run_d, s, step),
    ensures
        ({
            let pos = step.pos as int;
            let c = step.committed();
            let end = played(run_t, run_d, s, step, step.done as nat);
            let target = fed(run_t, s.target, c, pos, c.len());
            let draft = fed(run_d, s.draft, c, pos, c.len());
            &&& 1 <= c.len() <= step.k + 1
            &&& c == greedy(run_t, s.target, pos, c.len())
            &&& step.drafted@ == greedy(run_d, s.draft, pos, step.k as nat)
            &&& alike(end.target, target, pos + c.len())
            &&& alike(end.draft, draft, pos + c.len())
            &&& end.target.logits == target.logits
            &&& end.draft.logits == draft.logits
        }),
{
    let pos = step.pos as int;
    let c = step.committed();
    assert(step.result is Some);
    assert(c.len() == step.result->0.accepted + 1);
    assert(step.done == 4 * step.k + 3 + 2 * c.len());
    assert forall|i: nat| i < c.len() implies c[i as int] == argmax(
        (#[trigger] fed(run_t, s.target, c, pos, i)).logits,
    ) by {
        lemma_committed_chosen(run_t, run_d, s, step, i);
    }
    lemma_greedy_of(run_t, s.target, c, pos, c.len());
    assert(c.subrange(0, c.len() as int) =~= c);
    let d = step.drafted@;
    assert forall|i: nat| i < step.k implies d[i as int] == argmax(
        (#[trigger] fed(run_d, s.draft, d, pos, i)).logits,
    ) by {
        lemma_drafted_chosen(run_t, run_d, s, step, i);
    }
    lemma_greedy_of(run_d, s.draft, d, pos, step.k as nat);
    assert(d.subrange(0, step.k as int) =~= d);
    let r = played(run_t, run_d, s, step, (4 * step.k + 3) as nat);
    lemma_played_back(run_t, run_d, s, step, step.done as nat);
    lemma_rewound(run_t, run_d, s, step);
    lemma_fed_alike(run_t, r.target, s.target, c, pos, c.len());
    lemma_fed_alike(run_d, r.draft, s.draft, c, pos, c.len());
}

// Verification of a drafted block.

/// One pass of a block through the target: a token at its position. Its hidden
/// states go to a row of the rings, and its logits are fetched before the next.
#[derive(Debug, Clone, Copy, PartialEq, Eq, Structural)]
pub struct BlockPass {
    pub token: u32,
    pub pos: usize,
    /// The row of each ring that takes the pass's hidden state.
    pub row: usize,
}

/// What the target says about a drafted block.
pub struct DflashVerifyOutput {
    /// Entry `i` is the target's greedy choice once token `i` of the block has gone
    /// through it: after the context and the first `i + 1` tokens, for the position
    /// after that token's.
    pub argmax_per_pos: Vec<u32>,
    /// All the logits, row after row.
    pub logits_per_pos: Vec<F32>,
}

/// The first `n` rows, one after the other.
pub open spec fn joined_rows(rows: Seq<Seq<F32>>, n: nat) -> Seq<F32>
    decreases n,
{
    if n == 0 {
        Seq::empty()
    } else {
        joined_rows(rows, (n - 1) as nat) + rows[n - 1]
    }
}

/// The passes that verify a drafted block from position `start_pos` on, one for
/// each token and in order, and the rings moved on by a row for each of them. The
/// logits that the passes leave go to [`DflashVerifyOutput::from_rows`].
pub fn verify_dflash_block(
    draft_tokens: &[u32],
    start_pos: usize,
    hidden_rb: &mut HiddenStateRingBuffer,
) -> (r: Vec<BlockPass>)
    requires
        old(hidden_rb).wf(),
        start_pos + draft_tokens@.len() <= usize::MAX,
        old(hidden_rb).written + draft_tokens@.len() <= usize::MAX,
    ensures
        r@.len() == draft_tokens@.len(),
        forall|i: int|
            0 <= i < r@.len() ==> #[trigger] r@[i] == block_pass(
                draft_tokens@,
                start_pos as int,
                *old(hidden_rb),
                i,
            ),
        final(hidden_rb).wf(),
        final(hidden_rb).written == old(hidden_rb).written + draft_tokens@.len(),
        final(hidden_rb).head == (old(hidden_rb).head + draft_tokens@.len()) % (old(
            hidden_rb,
        ).max_positions as int),
        final(hidden_rb).extract_layers == old(hidden_rb).extract_layers,
        final(hidden_rb).max_positions == old(hidden_rb).max_positions,
        final(hidden_rb).hidden_dim == old(hidden_rb).hidden_dim,
{
    let ghost before = *hidden_rb;
    let n: usize = draft_tokens.len();
    let mut passes: Vec<BlockPass> = Vec::new();
    let mut i: usize = 0;
    proof {
        vstd::arithmetic::div_mod::lemma_small_mod(
            before.head as nat,
            before.max_positions as nat,
        );
    }
    while i < n
        invariant
            i <= n == draft_tokens@.len(),
            start_pos + n <= usize::MAX,
            before == *old(hidden_rb),
            before.wf(),
            hidden_rb.wf(),
            before.written + n <= usize::MAX,
            hidden_rb.written == before.written + i,
            hidden_rb.head == (before.head + i) % (before.max_positions as int),
            hidden_rb.extract_layers == before.extract_layers,
            hidden_rb.max_positions == before.max_positions,
            hidden_rb.hidden_dim == before.hidden_dim,
            passes@.len() == i,
            forall|j: int|
                0 <= j < i ==> #[trigger] passes@[j] == block_pass(
                    draft_tokens@,
                    start_pos as int,
                    before,
                    j,
                ),
        decreases n - i,
    {
        passes.push(BlockPass { token: draft_tokens[i], pos: start_pos + i, row: hidden_rb.head });
        proof {
            vstd::arithmetic::div_mod::lemma_add_mod_noop_right(
                1,
                before.head + i,
                before.max_positions as int,
            );
        }
        hidden_rb.advance_head();
        i = i + 1;
    }
    passes
}

/// Pass `i` of a block.
pub open spec fn block_pass(
    tokens: Seq<u32>,
    start_pos: int,
    rb: HiddenStateRingBuffer,
    i: int,
) -> BlockPass {
    BlockPass {
        token: tokens[i],
        pos: (start_pos + i) as usize,
        row: ((rb.head + i) % (rb.max_positions as int)) as usize,
    }
}

impl DflashVerifyOutput {
    /// What the target says about a drafted block, from its logits after each pass.
    pub fn from_rows(rows: &Vec<Vec<F32>>) -> (r: DflashVerifyOutput)
        ensures
            r.argmax_per_pos@ == Seq::new(rows@.len(), |i: int| argmax(rows@[i]@)),
            r.logits_per_pos@ == joined_rows(views(rows@), rows@.len()),
    {
        let mut argmax_per_pos: Vec<u32> = Vec::new();
        let mut logits_per_pos: Vec<F32> = Vec::new();
        let mut i: usize = 0;
        while i < rows.len()
            invariant
                i <= rows@.len(),
                argmax_per_pos@.len() == i,
                forall|k: int| 0 <= k < i ==> #[trigger] argmax_per_pos@[k] == argmax(rows@[k]@),
                logits_per_pos@ == joined_rows(views(rows@), i as nat),
            decreases rows@.len() - i,
        {
            argmax_per_pos.push(argmax_u32(rows[i].as_slice()));
            let n: usize = rows[i].len();
            push_row(&mut logits_per_pos, &rows[i], 0, n);
            assert(rows@[i as int]@.subrange(0, n as int) =~= rows@[i as int]@);
            assert(logits_per_pos@ == joined_rows(views(rows@), (i + 1) as nat));
            i = i + 1;
        }
        assert(argmax_per_pos@ =~= Seq::new(rows@.len(), |i: int| argmax(rows@[i]@)));
        DflashVerifyOutput { argmax_per_pos, logits_per_pos }
    }
}

/// What is said about a block is what the target would decode: if the rows are the
/// logits after each of its passes, the choice at row `i` is the target's next
/// token after the first `i + 1` tokens of the block.
pub proof fn law_block_says_target_greedy<R, E>(
    run: spec_fn(R, Seq<E>, u32) -> (R, E, Seq<F32>),
    target: SlotView<R, E>,
    tokens: Seq<u32>,
    start_pos: int,
    rows: Seq<Seq<F32>>,
    out: DflashVerifyOutput,
    i: int,
)
    requires
        rows.len() == tokens.len(),
        forall|j: int|
            0 <= j < rows.len() ==> #[trigger] rows[j] == fed(
                run,
                target,
                tokens,
                start_pos,
                (j + 1) as nat,
            ).logits,
        out.argmax_per_pos@ == Seq::new(rows.len(), |j: int| argmax(rows[j])),
        0 <= i < tokens.len(),
    ensures
        out.argmax_per_pos@[i] == argmax(
            fed(run, target, tokens.subrange(0, i + 1), start_pos, (i + 1) as nat).logits,
        ),
{
    lemma_fed_prefix(
        run,
        target,
        tokens,
        tokens.subrange(0, i + 1),
        start_pos,
        (i + 1) as nat,
    );
    assert(rows[i] == fed(run, target, tokens, start_pos, (i + 1) as nat).logits);
}

// Statistics.

/// Totals over a sequence of steps.
#[derive(Debug, Clone, Default)]
pub struct SpecStats {
    /// How many steps were run.
    pub cycles: usize,
    /// How many tokens were committed.
    pub committed_tokens: usize,
    /// How many drafted tokens were accepted.
    pub accepted_tokens: usize,
    /// How many steps accepted each number of tokens.
    pub acceptance_hist: Vec<usize>,
}

/// The sum of the first `n` counts.
pub open spec fn count_sum(hist: Seq<usize>, n: nat) -> int
    decreases n,
{
    if n == 0 {
        0
    } else {
        count_sum(hist, (n - 1) as nat) + hist[n - 1]
    }
}

/// What the steps in the first `n` counts accepted: `i` tokens for each in count
/// `i`.
pub open spec fn accepted_sum(hist: Seq<usize>, n: nat) -> int
    decreases n,
{
    if n == 0 {
        0
    } else {
        accepted_sum(hist, (n - 1) as nat) + (n - 1) * hist[n - 1]
    }
}

impl SpecStats {
    /// Each step committed one token more than it accepted and is counted once in
    /// the histogram, under the number of tokens that it accepted.
    pub open spec fn consistent(self) -> bool {
        let hist = self.acceptance_hist@;
        &&& self.committed_tokens == self.accepted_tokens + self.cycles
        &&& count_sum(hist, hist.len()) == self.cycles
        &&& accepted_sum(hist, hist.len()) == self.accepted_tokens
    }

    /// The statistics after a step.
    pub open spec fn follows(self, before: SpecStats, step: SpecStepResult) -> bool {
        let hist = before.acceptance_hist@;
        let a = step.accepted as int;
        &&& self.cycles == before.cycles + 1
        &&& self.committed_tokens == before.committed_tokens + step.committed@.len()
        &&& self.accepted_tokens == before.accepted_tokens + a
        &&& self.acceptance_hist@ == if a < hist.len() {
            hist.update(a, (hist[a] + 1) as usize)
        } else {
            hist
        }
    }

    /// No steps yet, for up to `k` drafted tokens a step.
    pub fn new(k: usize) -> (r: Self)
        requires
            k < usize::MAX,
        ensures
            r.cycles == 0,
            r.committed_tokens == 0,
            r.accepted_tokens == 0,
            r.acceptance_hist@ == Seq::new((k + 1) as nat, |i: int| 0usize),
            r.consistent(),
    {
        let mut acceptance_hist: Vec<usize> = Vec::new();
        let mut i: usize = 0;
        while i <= k
            invariant
                i <= k + 1,
                k < usize::MAX,
                acceptance_hist@ == Seq::new(i as nat, |j: int| 0usize),
                count_sum(acceptance_hist@, i as nat) == 0,
                accepted_sum(acceptance_hist@, i as nat) == 0,
            decreases k + 1 - i,
        {
            let ghost before = acceptance_hist@;
            acceptance_hist.push(0);
            proof {
                assert(acceptance_hist@ =~= Seq::new((i + 1) as nat, |j: int| 0usize));
                lemma_sum_prefix(before, acceptance_hist@, i as nat);
            }
            i = i + 1;
        }
        SpecStats { cycles: 0, committed_tokens: 0, accepted_tokens: 0, acceptance_hist }
    }

    /// Adds a step.
    pub fn record(&mut self, step: &SpecStepResult)
        requires
            old(self).cycles < usize::MAX,
            old(self).committed_tokens + step.committed@.len() <= usize::MAX,
            old(self).accepted_tokens + step.accepted <= usize::MAX,
            step.accepted < old(self).acceptance_hist@.len() ==> old(
                self,
            ).acceptance_hist@[step.accepted as int] < usize::MAX,
        ensures
            final(self).follows(*old(self), *step),
    {
        self.cycles = self.cycles + 1;
        self.committed_tokens = self.committed_tokens + step.committed.len();
        self.accepted_tokens = self.accepted_tokens + step.accepted;
        if step.accepted < self.acceptance_hist.len() {
            let n: usize = self.acceptance_hist[step.accepted];
            self.acceptance_hist.set(step.accepted, n + 1);
        }
    }

    /// Accepted tokens per step.
    pub fn tau(&self) -> (r: F32)
        ensures
            r == mean(self.accepted_tokens as nat, self.cycles as nat),
    {
        if self.cycles == 0 {
            F32::zero()
        } else {
            F32::from_u64(self.accepted_tokens as u64).over(F32::from_u64(self.cycles as u64))
        }
    }

    /// Committed tokens per step.
    pub fn mean_committed(&self) -> (r: F32)
        ensures
            r == mean(self.committed_tokens as nat, self.cycles as nat),
    {
        if self.cycles == 0 {
            F32::zero()
        } else {
            F32::from_u64(self.committed_tokens as u64).over(F32::from_u64(self.cycles as u64))
        }
    }
}

/// A mean; zero over nothing.
pub open spec fn mean(total: nat, cycles: nat) -> F32 {
    if cycles == 0 {
        F32 { bits: 0 }
    } else {
        crate::float::quotient(crate::float::of_nat(total), crate::float::of_nat(cycles))
    }
}

proof fn lemma_sum_prefix(a: Seq<usize>, b: Seq<usize>, n: nat)
    requires
        n <= a.len(),
        n <= b.len(),
        forall|i: int| 0 <= i < n ==> a[i] == b[i],
    ensures
        count_sum(a, n) == count_sum(b, n),
        accepted_sum(a, n) == accepted_sum(b, n),
    decreases n,
{
    if n > 0 {
        lemma_sum_prefix(a, b, (n - 1) as nat);
    }
}

proof fn lemma_sum_update(a: Seq<usize>, at: int, n: nat)
    requires
        0 <= at < a.len(),
        n <= a.len(),
        a[at] < usize::MAX,
    ensures
        count_sum(a.update(at, (a[at] + 1) as usize), n) == count_sum(a, n) + if at < n {
            1int
        } else {
            0int
        },
        accepted_sum(a.update(at, (a[at] + 1) as usize), n) == accepted_sum(a, n) + if at < n {
            at
        } else {
            0int
        },
    decreases n,
{
    if n > 0 {
        lemma_sum_update(a, at, (n - 1) as nat);
        if at == n - 1 {
            assert(at * (a[at] + 1) == at * a[at] + at) by (nonlinear_arith);
        }
    }
}

/// Statistics stay consistent: a step that committed one token more than it
/// accepted, and accepted no more than the histogram has room for, keeps the
/// totals in step.
pub proof fn law_record_keeps_totals(before: SpecStats, after: SpecStats, step: SpecStepResult)
    requires
        before.consistent(),
        step.committed@.len() == step.accepted + 1,
        step.accepted < before.acceptance_hist@.len(),
        before.acceptance_hist@[step.accepted as int] < usize::MAX,
        after.follows(before, step),
    ensures
        after.consistent(),
        after.acceptance_hist@.len() == before.acceptance_hist@.len(),
{
    lemma_sum_update(
        before.acceptance_hist@,
        step.accepted as int,
        before.acceptance_hist@.len(),
    );
}

/// Over any number of steps of up to `k` drafted tokens, the counts of the
/// histogram sum to the number of steps, each step committed one token more than it
/// accepted, and the accepted tokens are those of the histogram. `history` are the
/// statistics at the start and after each step.
pub proof fn law_totals(k: usize, history: Seq<SpecStats>, steps: Seq<SpecStepResult>)
    requires
        history.len() == steps.len() + 1,
        history[0].cycles == 0,
        history[0].consistent(),
        history[0].acceptance_hist@.len() == k + 1,
        forall|i: int|
            0 <= i < steps.len() ==> {
                &&& (#[trigger] steps[i]).committed@.len() == steps[i].accepted + 1
                &&& steps[i].accepted <= k
                &&& history[i].acceptance_hist@[steps[i].accepted as int] < usize::MAX
                &&& history[i + 1].follows(history[i], steps[i])
            },
    ensures
        ({
            let end = history.last();
            let hist = end.acceptance_hist@;
            &&& hist.len() == k + 1
            &&& end.cycles == steps.len()
            &&& count_sum(hist, hist.len()) == end.cycles
            &&& end.committed_tokens == end.accepted_tokens + end.cycles
            &&& accepted_sum(hist, hist.len()) == end.accepted_tokens
            &&& end.consistent()
        }),
    decreases steps.len(),
{
    if steps.len() > 0 {
        let n = steps.len() - 1;
        assert(steps.drop_last().len() == n);
        assert forall|i: int| 0 <= i < n implies {
            &&& (#[trigger] steps.drop_last()[i]).committed@.len() == steps.drop_last()[i].accepted
                + 1
            &&& steps.drop_last()[i].accepted <= k
            &&& history.drop_last()[i].acceptance_hist@[steps.drop_last()[i].accepted as int]
                < usize::MAX
            &&& history.drop_last()[i + 1].follows(history.drop_last()[i], steps.drop_last()[i])
        } by {
            assert(steps[i] == steps.drop_last()[i]);
        }
        law_totals(k, history.drop_last(), steps.drop_last());
        assert(history.drop_last().last() == history[n]);
        assert(steps[n] == steps.last());
        law_record_keeps_totals(history[n], history[n + 1], steps[n]);
    }
}

} // verus!
