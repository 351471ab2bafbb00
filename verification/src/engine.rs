//! The engine's control plane: per-zone IR banks with stepwise partition
//! replacement, ungated epoch voices, the retired-set queue and the
//! pooled voice tails. The sample arithmetic (FFTs, spectra products,
//! overlap-add) is carried out by the caller on the windows, lag ranges
//! and gains that these functions decide.

use vstd::prelude::*;
use vstd::multiset::Multiset;
use crate::params::{clamp, clamp_usize, TailMode};
use crate::partition::PartitionSet;

verus! {

/// Max per-partition write-fade frames.
pub const MAX_FADE: usize = 16;

/// Length of the cursor history of a streaming swap.
pub const HIST_LEN: usize = MAX_FADE + 1;

/// Max partitions replaced per frame during a streaming swap.
pub const MAX_MORPH: usize = 16;

/// Max ring-out voices per zone in [`TailMode::Ungated`].
pub const RING_SLOTS: usize = 8;

/// Capacity of a zone's retired-set queue.
pub const RETIRED_SLOTS: usize = 12;

/// Voice tail buffers per zone: one live voice plus the ring-outs.
pub const TAIL_BUFFERS: usize = RING_SLOTS + 1;

/// A dying voice's gain halves each frame; it is `2^-fade`. A voice whose
/// gain fell below `1e-4` is dead: `2^-13 >= 1e-4 > 2^-14`.
pub const DEATH_FADE: usize = 14;

/// What one IR-bank partition holds.
pub enum PartContent<S> {
    /// All zeros.
    Zero,
    /// Exactly partition `p` of a set.
    Exact(PartitionSet<S>, int),
    /// Part-way through a blend; unspecified.
    InFlight,
}

/// An in-flight streaming swap of a zone's IR bank.
pub struct Pending<S> {
    /// The target set; `None` streams the bank out to silence.
    pub set: Option<PartitionSet<S>>,
    /// Next partition index to start blending (load-order cursor).
    pub cursor: usize,
    /// Partitions covered by the swap: `max(old active_k, new k)`.
    pub eff_k: usize,
    /// `hist[s]` is the cursor `s` frames ago; partitions in
    /// `[hist[s], hist[s-1])` are at blend stage `s`.
    pub hist: [usize; HIST_LEN],
}

impl<S> Pending<S> {
    /// Partition count of the target.
    pub open spec fn target_k(&self) -> nat {
        match self.set {
            Some(s) => s.k(),
            None => 0,
        }
    }

    /// What partition `p` holds once the swap has reached it.
    pub open spec fn target(&self, p: int) -> PartContent<S> {
        match self.set {
            Some(s) => if p < s.k() {
                PartContent::Exact(s, p)
            } else {
                PartContent::Zero
            },
            None => PartContent::Zero,
        }
    }

    /// The cursor history falls back from the cursor, within the span.
    pub open spec fn wf(&self, max_parts: nat) -> bool {
        &&& self.cursor == self.hist@[0]
        &&& forall|s: int| 1 <= s < HIST_LEN ==> #[trigger] self.hist@[s] <= self.hist@[s - 1]
        &&& self.cursor <= self.eff_k <= max_parts
        &&& self.target_k() <= self.eff_k
    }

    /// Every partition has passed the last blend stage.
    pub open spec fn done(&self) -> bool {
        self.cursor >= self.eff_k && self.hist@[MAX_FADE as int] >= self.eff_k
    }
}

/// Blend denominator of stage `s` under a write fade of `fade` frames: the
/// stage moves a partition `1/den` of the way to its target; `den == 1`
/// writes the target exactly.
pub open spec fn stage_den(s: int, fade: int) -> int {
    if s >= fade {
        1
    } else {
        fade + 1 - s
    }
}

/// The cursor history after one frame advancing `steps` partitions.
pub open spec fn advanced_hist(hist: Seq<usize>, cursor: int) -> Seq<usize> {
    Seq::new(HIST_LEN as nat, |s: int| if s == 0 { cursor as usize } else { hist[s - 1] })
}

/// The IR bank after one frame of a swap whose (new) cursor history is
/// `hist`, blended under a write fade of `fade` frames: the windows of the
/// stages from `fade` on are written exactly (stage denominator 1), the
/// earlier stages' windows are part-way.
pub open spec fn staged_bank<S>(
    bank: Seq<PartContent<S>>,
    hist: Seq<usize>,
    target: spec_fn(int) -> PartContent<S>,
    fade: int,
) -> Seq<PartContent<S>> {
    Seq::new(
        bank.len(),
        |p: int|
            if hist[MAX_FADE as int] <= p < hist[fade - 1] {
                target(p)
            } else if hist[fade - 1] <= p < hist[0] {
                PartContent::InFlight
            } else {
                bank[p]
            },
    )
}

/// A cursor history falls back monotonically: later entries are no larger.
pub proof fn lemma_hist_descends(hist: Seq<usize>, i: int, j: int)
    requires
        0 <= i <= j < HIST_LEN,
        hist.len() == HIST_LEN,
        forall|s: int| 1 <= s < HIST_LEN ==> #[trigger] hist[s] <= hist[s - 1],
    ensures
        hist[j] <= hist[i],
    decreases j - i,
{
    if i < j {
        lemma_hist_descends(hist, i, j - 1);
        assert(hist[j] <= hist[j - 1]);
    }
}

/// Whether a set can stream into an engine of the given geometry.
pub open spec fn set_fits<S>(set: PartitionSet<S>, max_parts: nat, bins: nat) -> bool {
    set.bins() == bins && set.k() <= max_parts && set.ch() > 0
}

/// Index of the first `None` at or after `i`, or `-1`.
pub open spec fn first_none_from<T>(s: Seq<Option<T>>, i: int) -> int
    decreases s.len() - i,
{
    if i < 0 || i >= s.len() {
        -1
    } else if s[i] is None {
        i
    } else {
        first_none_from(s, i + 1)
    }
}

/// Index of the first `None`, or `-1`.
pub open spec fn first_none<T>(s: Seq<Option<T>>) -> int {
    first_none_from(s, 0)
}

/// Index of the first `Some` at or after `i`, or `-1`.
pub open spec fn first_some_from<T>(s: Seq<Option<T>>, i: int) -> int
    decreases s.len() - i,
{
    if i < 0 || i >= s.len() {
        -1
    } else if s[i] is Some {
        i
    } else {
        first_some_from(s, i + 1)
    }
}

/// The retired queue after parking `set`: the first free slot takes it;
/// when all are taken, it takes slot 0.
pub open spec fn retired_after<S>(
    retired: Seq<Option<PartitionSet<S>>>,
    set: PartitionSet<S>,
) -> Seq<Option<PartitionSet<S>>> {
    let i = first_none(retired);
    if i >= 0 {
        retired.update(i, Some(set))
    } else {
        retired.update(0, Some(set))
    }
}


/// `x` saturated at `usize::MAX`.
pub open spec fn sat(x: int) -> int {
    if x < usize::MAX {
        x
    } else {
        usize::MAX as int
    }
}

/// One input-epoch voice ([`TailMode::Ungated`]): an adopted IR that hears
/// only its epoch's slice of the zone's shared input ring.
pub struct LayerVoice<S> {
    pub set: PartitionSet<S>,
    /// Live voice: frames since epoch start (saturating). Frozen voice:
    /// frames since freeze, counting the next frame as 1.
    pub age: usize,
    /// Epoch length in frames, fixed at freeze (0 while live).
    pub epoch_len: usize,
    /// Output gain is `2^-fade`; it halves each frame once `dying`.
    pub fade: usize,
    pub dying: bool,
    /// Index of the voice's overlap-add tail buffer.
    pub tail: usize,
    /// Frame index of the epoch's first frame.
    pub start: Ghost<int>,
    /// Frame index one past the epoch's last frame (frozen voices).
    pub end: Ghost<int>,
}

/// Whether a ringing voice is finished: no lag of its IR is left, or its
/// gain fell below `1e-4`.
pub open spec fn voice_dead<S>(v: LayerVoice<S>) -> bool {
    v.age >= v.set.k() || v.fade >= DEATH_FADE
}

/// Invariant of the live voice at frame `frame`.
pub open spec fn live_wf<S>(v: LayerVoice<S>, frame: int, max_parts: nat, bins: nat) -> bool {
    &&& !v.dying
    &&& v.fade == 0
    &&& v.epoch_len == 0
    &&& v.start@ <= frame
    &&& v.age == sat(frame - v.start@)
    &&& set_fits(v.set, max_parts, bins)
}

/// Invariant of a frozen (ringing) voice at frame `frame`.
pub open spec fn ring_wf<S>(v: LayerVoice<S>, frame: int, max_parts: nat, bins: nat) -> bool {
    &&& v.start@ <= v.end@ <= frame
    &&& v.epoch_len == sat(v.end@ - v.start@)
    &&& v.age == frame - v.end@ + 1
    &&& (v.age <= v.set.k() || v.age == 1)
    &&& v.fade <= DEATH_FADE
    &&& (!v.dying ==> v.fade == 0)
    &&& set_fits(v.set, max_parts, bins)
}

/// The live voice frozen at frame `frame`: it stops hearing input and
/// rings out.
pub open spec fn frozen<S>(v: LayerVoice<S>, frame: int) -> LayerVoice<S> {
    LayerVoice {
        set: v.set,
        age: 1,
        epoch_len: v.age,
        fade: v.fade,
        dying: v.dying,
        tail: v.tail,
        start: v.start,
        end: Ghost(frame),
    }
}

/// A voice marked dying.
pub open spec fn marked_dying<S>(v: LayerVoice<S>) -> LayerVoice<S> {
    LayerVoice {
        set: v.set,
        age: v.age,
        epoch_len: v.epoch_len,
        fade: v.fade,
        dying: true,
        tail: v.tail,
        start: v.start,
        end: v.end,
    }
}

pub open spec fn slot_dying<S>(r: Seq<Option<LayerVoice<S>>>, i: int) -> bool {
    r[i] matches Some(v) && v.dying
}

pub open spec fn slot_fade<S>(r: Seq<Option<LayerVoice<S>>>, i: int) -> int {
    match r[i] {
        Some(v) => v.fade as int,
        None => 0,
    }
}

pub open spec fn slot_age<S>(r: Seq<Option<LayerVoice<S>>>, i: int) -> int {
    match r[i] {
        Some(v) => v.age as int,
        None => 0,
    }
}

/// All of the first `n` slots hold a voice.
pub open spec fn slots_full<S>(r: Seq<Option<LayerVoice<S>>>, n: int) -> bool {
    forall|j: int| 0 <= j < n ==> #[trigger] r[j] is Some
}

/// Slot `i` holds the quietest dying voice among the first `n` slots (the
/// first one, on ties).
pub open spec fn quietest_dying<S>(r: Seq<Option<LayerVoice<S>>>, n: int, i: int) -> bool {
    &&& 0 <= i < n
    &&& slot_dying(r, i)
    &&& forall|j: int| 0 <= j < n && slot_dying(r, j) ==> slot_fade(r, j) <= slot_fade(r, i)
    &&& forall|j: int| 0 <= j < i && slot_dying(r, j) ==> slot_fade(r, j) < slot_fade(r, i)
}

/// Slot `i` holds the oldest voice among the first `n` slots (the last
/// one, on ties).
pub open spec fn oldest<S>(r: Seq<Option<LayerVoice<S>>>, n: int, i: int) -> bool {
    &&& 0 <= i < n
    &&& r[i] is Some
    &&& forall|j: int| 0 <= j < n && r[j] is Some ==> slot_age(r, j) <= slot_age(r, i)
    &&& forall|j: int| i < j < n && r[j] is Some ==> slot_age(r, j) < slot_age(r, i)
}

/// The slot a freezing voice takes among the first `cap` slots: the first
/// free one; else the quietest dying voice's; else the oldest voice's.
pub open spec fn freeze_slot<S>(r: Seq<Option<LayerVoice<S>>>, cap: int, i: int) -> bool {
    if first_none(r.take(cap)) >= 0 {
        i == first_none(r.take(cap))
    } else if exists|j: int| 0 <= j < cap && slot_dying(r, j) {
        quietest_dying(r, cap, i)
    } else {
        oldest(r, cap, i)
    }
}

/// A healthy voice old enough to be faded out ahead of need.
pub open spec fn fade_candidate<S>(r: Seq<Option<LayerVoice<S>>>, j: int) -> bool {
    r[j] matches Some(v) && !v.dying && v.age > 1
}

/// Slot `i` holds the oldest fade candidate among the first `n` slots
/// (the last one, on ties).
pub open spec fn fade_victim<S>(r: Seq<Option<LayerVoice<S>>>, n: int, i: int) -> bool {
    &&& 0 <= i < n
    &&& fade_candidate(r, i)
    &&& forall|j: int| 0 <= j < n && fade_candidate(r, j) ==> slot_age(r, j) <= slot_age(r, i)
    &&& forall|j: int| i < j < n && fade_candidate(r, j) ==> slot_age(r, j) < slot_age(r, i)
}

/// The ring after the proactive step of a freeze: when the first `cap`
/// slots are all taken, the oldest healthy voice (older than the one just
/// frozen) starts dying, so that the next freeze finds a quiet victim.
pub open spec fn after_proactive<S>(r: Seq<Option<LayerVoice<S>>>, cap: int, victim: Option<int>) -> bool {
    match victim {
        Some(i) => slots_full(r, cap) && fade_victim(r, cap, i),
        None => !slots_full(r, cap) || forall|j: int| 0 <= j < cap ==> !fade_candidate(r, j),
    }
}

/// Tail buffer held by an optional voice.
pub open spec fn voice_tails<S>(v: Option<LayerVoice<S>>) -> Seq<usize> {
    match v {
        Some(v) => seq![v.tail],
        None => Seq::empty(),
    }
}

/// Tail buffers held by a ring of voices, in slot order.
pub open spec fn ring_tails<S>(r: Seq<Option<LayerVoice<S>>>) -> Seq<usize>
    decreases r.len(),
{
    if r.len() == 0 {
        Seq::empty()
    } else {
        ring_tails(r.drop_last()) + voice_tails(r.last())
    }
}

/// Every tail buffer index, once each.
pub open spec fn all_tail_buffers() -> Multiset<usize> {
    Seq::new(TAIL_BUFFERS as nat, |i: int| i as usize).to_multiset()
}


/// Removing a voice from a slot and putting another there trades their
/// tail buffers.
pub proof fn lemma_ring_tails_update<S>(
    r: Seq<Option<LayerVoice<S>>>,
    i: int,
    x: Option<LayerVoice<S>>,
)
    requires
        0 <= i < r.len(),
    ensures
        ring_tails(r.update(i, x)).to_multiset().add(voice_tails(r[i]).to_multiset())
            =~= ring_tails(r).to_multiset().add(voice_tails(x).to_multiset()),
    decreases r.len(),
{
    broadcast use vstd::seq_lib::lemma_multiset_commutative;
    broadcast use vstd::multiset::group_multiset_axioms;

    let u = r.update(i, x);
    assert(ring_tails(u) == ring_tails(u.drop_last()) + voice_tails(u.last()));
    assert(ring_tails(r) == ring_tails(r.drop_last()) + voice_tails(r.last()));
    vstd::seq_lib::lemma_multiset_commutative(ring_tails(u.drop_last()), voice_tails(u.last()));
    vstd::seq_lib::lemma_multiset_commutative(ring_tails(r.drop_last()), voice_tails(r.last()));
    let lhs = ring_tails(u).to_multiset().add(voice_tails(r[i]).to_multiset());
    let rhs = ring_tails(r).to_multiset().add(voice_tails(x).to_multiset());
    if i == r.len() - 1 {
        assert(u.drop_last() =~= r.drop_last());
        assert forall|v: usize| lhs.count(v) == rhs.count(v) by {}
    } else {
        lemma_ring_tails_update(r.drop_last(), i, x);
        assert(u.drop_last() =~= r.drop_last().update(i, x));
        assert(u.last() == r.last());
        let a = ring_tails(u.drop_last()).to_multiset();
        let b = ring_tails(r.drop_last()).to_multiset();
        assert(a.add(voice_tails(r[i]).to_multiset()) =~= b.add(voice_tails(x).to_multiset()));
        assert forall|v: usize| lhs.count(v) == rhs.count(v) by {
            assert(a.add(voice_tails(r[i]).to_multiset()).count(v) == b.add(
                voice_tails(x).to_multiset(),
            ).count(v));
        }
    }
    assert(lhs =~= rhs);
}

/// A ring holds at most one tail per slot.
pub proof fn lemma_ring_tails_len<S>(r: Seq<Option<LayerVoice<S>>>)
    ensures
        ring_tails(r).len() <= r.len(),
    decreases r.len(),
{
    if r.len() > 0 {
        lemma_ring_tails_len(r.drop_last());
    }
}

/// The control state of one zone's convolution branch.
pub struct Branch<S> {
    /// Partitions of the IR bank in use; those beyond are all zero.
    pub active_k: usize,
    /// IR channel count of the most recently queued set.
    pub ir_ch: usize,
    /// Input-ring slot holding the most recent frame's spectrum.
    pub head: usize,
    pub pending: Option<Pending<S>>,
    /// The live epoch voice (ungated).
    pub live: Option<LayerVoice<S>>,
    /// Frozen ring-out voices.
    pub ringing: Vec<Option<LayerVoice<S>>>,
    /// Free voice tail buffers.
    pub tail_pool: Vec<usize>,
    /// Spent sets awaiting disposal off the audio thread.
    pub retired: Vec<Option<PartitionSet<S>>>,
    /// What each partition of the IR bank holds.
    pub hbank: Ghost<Seq<PartContent<S>>>,
    /// The set installed in the IR bank while no swap is pending.
    pub current: Ghost<Option<PartitionSet<S>>>,
    /// Index of the next frame this branch processes.
    pub frame: Ghost<int>,
}

impl<S> Branch<S> {
    /// Tail buffers of the pool and of every voice.
    pub open spec fn tails(&self) -> Seq<usize> {
        self.tail_pool@ + voice_tails(self.live) + ring_tails(self.ringing@)
    }

    /// The IR bank invariant: beyond `active_k` all zero; without a swap,
    /// exactly the installed set; during a swap, every partition below the
    /// last stage's window already holds its target.
    pub open spec fn bank_wf(&self, max_parts: nat, bins: nat) -> bool {
        &&& self.hbank@.len() == max_parts
        &&& self.active_k <= max_parts
        &&& forall|p: int|
            self.active_k <= p < max_parts ==> #[trigger] self.hbank@[p] == PartContent::<S>::Zero
        &&& match self.pending {
            None => {
                &&& forall|p: int|
                    0 <= p < self.active_k ==> #[trigger] self.hbank@[p] == PartContent::Exact(
                        self.current@->0,
                        p,
                    )
                &&& self.active_k > 0 ==> (self.current@ is Some && self.current@->0.k()
                    == self.active_k)
            },
            Some(pd) => {
                &&& pd.wf(max_parts)
                &&& self.active_k == pd.eff_k
                &&& (pd.set matches Some(s) ==> set_fits(s, max_parts, bins))
                &&& forall|p: int|
                    0 <= p < pd.hist@[MAX_FADE - 1] ==> #[trigger] self.hbank@[p] == pd.target(p)
            },
        }
    }

    /// The live and ring-out voices are well formed for the current frame.
    pub open spec fn voices_wf(&self, max_parts: nat, bins: nat) -> bool {
        &&& (self.live matches Some(v) ==> live_wf(v, self.frame@, max_parts, bins))
        &&& forall|i: int|
            0 <= i < RING_SLOTS ==> (#[trigger] self.ringing@[i] matches Some(v) ==> ring_wf(
                v,
                self.frame@,
                max_parts,
                bins,
            ))
    }

    /// The branch invariant: slots sized, IR bank and voices well formed,
    /// and every tail buffer held exactly once.
    pub open spec fn wf(&self, max_parts: nat, bins: nat) -> bool {
        &&& self.head < max_parts
        &&& self.ringing@.len() == RING_SLOTS
        &&& self.retired@.len() == RETIRED_SLOTS
        &&& self.bank_wf(max_parts, bins)
        &&& self.voices_wf(max_parts, bins)
        &&& self.tails().to_multiset() == all_tail_buffers()
    }

    /// Whether the branch takes part in the next frame.
    pub open spec fn busy(&self) -> bool {
        self.active_k > 0 || self.pending is Some || self.live is Some || exists|i: int|
            0 <= i < self.ringing@.len() && self.ringing@[i] is Some
    }
}


/// Park a spent set in the first free retired slot. If all are taken
/// (the control side left them undrained for many frames), it takes slot
/// 0, and the set it displaces is leaked rather than freed: the audio
/// thread neither frees nor allocates.
fn retire_push<S>(retired: &mut Vec<Option<PartitionSet<S>>>, set: PartitionSet<S>)
    requires
        old(retired)@.len() > 0,
    ensures
        final(retired)@ == retired_after(old(retired)@, set),
        final(retired)@.len() == old(retired)@.len(),
{
    let n = retired.len();
    let mut i: usize = 0;
    while i < n
        invariant
            n == retired@.len(),
            retired@ == old(retired)@,
            0 <= i <= n,
            first_none(retired@) == first_none_from(retired@, i as int),
        decreases n - i,
    {
        if retired[i].is_none() {
            retired.set(i, Some(set));
            return;
        }
        i += 1;
    }
    let mut displaced: Option<PartitionSet<S>> = Some(set);
    retired.set_and_swap(0, &mut displaced);
    let _leaked = core::mem::ManuallyDrop::new(displaced);
}

/// Take the value out of a slot, leaving `None`.
fn take_slot<X>(v: &mut Vec<Option<X>>, i: usize) -> (r: Option<X>)
    requires
        i < old(v)@.len(),
    ensures
        r == old(v)@[i as int],
        final(v)@ == old(v)@.update(i as int, None),
{
    let mut tmp: Option<X> = None;
    v.set_and_swap(i, &mut tmp);
    tmp
}

/// Take the set out of the first occupied slot.
fn take_first<S>(retired: &mut Vec<Option<PartitionSet<S>>>) -> (r: Option<PartitionSet<S>>)
    ensures
        ({
            let i = first_some_from(old(retired)@, 0);
            if i >= 0 {
                r == old(retired)@[i] && final(retired)@ == old(retired)@.update(i, None)
            } else {
                r is None && final(retired)@ == old(retired)@
            }
        }),
{
    let n = retired.len();
    let mut i: usize = 0;
    while i < n
        invariant
            n == retired@.len(),
            retired@ == old(retired)@,
            0 <= i <= n,
            first_some_from(retired@, 0) == first_some_from(retired@, i as int),
        decreases n - i,
    {
        if retired[i].is_some() {
            return take_slot(retired, i);
        }
        i += 1;
    }
    None
}


impl<S> Pending<S> {
    /// `next` is this swap one frame later, having advanced `steps`
    /// partitions.
    pub open spec fn advanced_to(&self, next: Pending<S>, steps: int) -> bool {
        &&& next.set == self.set
        &&& next.eff_k == self.eff_k
        &&& next.cursor == (if self.cursor + steps < self.eff_k {
            self.cursor + steps
        } else {
            self.eff_k as int
        })
        &&& next.hist@ == advanced_hist(self.hist@, next.cursor as int)
    }
}

impl<S> Branch<S> {
    /// The voices, the tail pool, the retired queue and the frame count are
    /// the same in `self` and `other`.
    pub open spec fn same_voices(&self, other: Branch<S>) -> bool {
        &&& self.live == other.live
        &&& self.ringing@ == other.ringing@
        &&& self.tail_pool@ == other.tail_pool@
        &&& self.retired@ == other.retired@
        &&& self.frame@ == other.frame@
    }

    /// The IR bank, its swap and the input-ring head are the same in `self`
    /// and `other`.
    pub open spec fn same_bank(&self, other: Branch<S>) -> bool {
        &&& self.active_k == other.active_k
        &&& self.pending == other.pending
        &&& self.hbank@ == other.hbank@
        &&& self.current@ == other.current@
        &&& self.head == other.head
        &&& self.ir_ch == other.ir_ch
    }

    /// An idle branch with an empty IR bank.
    pub(crate) fn new(max_parts: usize) -> (b: Self)
        requires
            max_parts >= 2,
        ensures
            forall|bins: nat| #[trigger] b.wf(max_parts as nat, bins),
            !b.busy(),
            b.active_k == 0,
            b.pending is None,
            b.frame@ == 0,
            b.head == 0,
            b.ir_ch == 1,
            b.live is None,
            forall|i: int| 0 <= i < RING_SLOTS ==> b.ringing@[i] is None,
            b.tail_pool@ == Seq::new(TAIL_BUFFERS as nat, |j: int| j as usize),
            b.retired@.len() == RETIRED_SLOTS,
            forall|i: int| 0 <= i < RETIRED_SLOTS ==> b.retired@[i] is None,
    {
        let mut ringing: Vec<Option<LayerVoice<S>>> = Vec::new();
        let mut i: usize = 0;
        while i < RING_SLOTS
            invariant
                0 <= i <= RING_SLOTS,
                ringing@.len() == i,
                forall|j: int| 0 <= j < i ==> ringing@[j] is None,
            decreases RING_SLOTS - i,
        {
            ringing.push(None);
            i += 1;
        }
        let mut retired: Vec<Option<PartitionSet<S>>> = Vec::new();
        let mut i: usize = 0;
        while i < RETIRED_SLOTS
            invariant
                0 <= i <= RETIRED_SLOTS,
                retired@.len() == i,
                forall|j: int| 0 <= j < i ==> retired@[j] is None,
            decreases RETIRED_SLOTS - i,
        {
            retired.push(None);
            i += 1;
        }
        let mut tail_pool: Vec<usize> = Vec::new();
        let mut i: usize = 0;
        while i < TAIL_BUFFERS
            invariant
                0 <= i <= TAIL_BUFFERS,
                tail_pool@ == Seq::new(i as nat, |j: int| j as usize),
            decreases TAIL_BUFFERS - i,
        {
            tail_pool.push(i);
            i += 1;
            assert(tail_pool@ =~= Seq::new(i as nat, |j: int| j as usize));
        }
        let b = Branch {
            active_k: 0,
            ir_ch: 1,
            head: 0,
            pending: None,
            live: None,
            ringing,
            tail_pool,
            retired,
            hbank: Ghost(Seq::new(max_parts as nat, |p: int| PartContent::Zero)),
            current: Ghost(None),
            frame: Ghost(0),
        };
        proof {
            lemma_all_empty_ring_tails(b.ringing@);
            assert(b.tails() =~= Seq::new(TAIL_BUFFERS as nat, |j: int| j as usize));
        }
        b
    }

    pub(crate) fn is_busy(&self) -> (r: bool)
        requires
            self.ringing@.len() == RING_SLOTS,
        ensures
            r == self.busy(),
            self.active_k > 0 ==> r,
            self.pending is Some ==> r,
            self.live is Some ==> r,
            forall|i: int| 0 <= i < RING_SLOTS && #[trigger] self.ringing@[i] is Some ==> r,
            !r ==> self.active_k == 0 && self.pending is None && self.live is None && forall|i: int|
                0 <= i < RING_SLOTS ==> #[trigger] self.ringing@[i] is None,
    {
        if self.active_k > 0 || self.pending.is_some() || self.live.is_some() {
            return true;
        }
        let mut i: usize = 0;
        while i < RING_SLOTS
            invariant
                0 <= i <= RING_SLOTS,
                self.ringing@.len() == RING_SLOTS,
                forall|j: int| 0 <= j < i ==> self.ringing@[j] is None,
            decreases RING_SLOTS - i,
        {
            if self.ringing[i].is_some() {
                return true;
            }
            i += 1;
        }
        false
    }

    /// Advance an in-flight swap by `steps` partitions: shift the cursor
    /// history one frame and move the cursor, at most to `eff_k`.
    pub(crate) fn advance_swap(
        &mut self,
        steps: usize,
        fade: usize,
        Ghost(max_parts): Ghost<nat>,
        Ghost(bins): Ghost<nat>,
    )
        requires
            old(self).wf(max_parts, bins),
            1 <= steps <= MAX_MORPH,
            1 <= fade <= MAX_FADE,
            max_parts + MAX_MORPH <= usize::MAX,
        ensures
            final(self).wf(max_parts, bins),
            final(self).same_voices(*old(self)),
            final(self).head == old(self).head,
            final(self).ir_ch == old(self).ir_ch,
            final(self).active_k == old(self).active_k,
            final(self).current@ == old(self).current@,
            match old(self).pending {
                None => final(self).pending is None && final(self).hbank@ == old(self).hbank@,
                Some(pd) => final(self).pending matches Some(np) && pd.advanced_to(
                    np,
                    steps as int,
                ) && final(self).hbank@ == staged_bank(
                    old(self).hbank@,
                    np.hist@,
                    |p: int| pd.target(p),
                    fade as int,
                ),
            },
    {
        let taken = self.pending.take();
        match taken {
            None => {},
            Some(mut pd) => {
                let ghost old_pd = pd;
                let mut s: usize = MAX_FADE;
                while s > 0
                    invariant
                        0 <= s <= MAX_FADE,
                        pd.set == old_pd.set,
                        pd.cursor == old_pd.cursor,
                        pd.eff_k == old_pd.eff_k,
                        forall|i: int| 0 <= i <= s ==> pd.hist@[i] == old_pd.hist@[i],
                        forall|i: int| s < i < HIST_LEN ==> pd.hist@[i] == old_pd.hist@[i - 1],
                    decreases s,
                {
                    pd.hist[s] = pd.hist[s - 1];
                    s -= 1;
                }
                let c = if pd.cursor + steps < pd.eff_k {
                    pd.cursor + steps
                } else {
                    pd.eff_k
                };
                pd.cursor = c;
                pd.hist[0] = c;
                proof {
                    assert(pd.hist@ =~= advanced_hist(old_pd.hist@, c as int));
                    let tgt = |p: int| old_pd.target(p);
                    let nb = staged_bank(self.hbank@, pd.hist@, tgt, fade as int);
                    assert forall|p: int| 0 <= p < pd.hist@[MAX_FADE - 1] implies nb[p]
                        == pd.target(p) by {
                        if p >= pd.hist@[MAX_FADE as int] {
                            assert(pd.hist@[MAX_FADE - 1] <= pd.hist@[fade - 1]) by {
                                lemma_hist_descends(pd.hist@, fade - 1, MAX_FADE - 1);
                            }
                        } else {
                            assert(p < old_pd.hist@[MAX_FADE - 1]);
                        }
                    }
                    self.hbank = Ghost(nb);
                }
                self.pending = Some(pd);
            },
        }
    }

    /// Blend window of stage `s` of the in-flight swap: partitions
    /// `[lo, hi)` move `1/den` of the way to their target.
    pub(crate) fn swap_window(&self, s: usize, fade: usize) -> (r: (usize, usize, usize))
        requires
            self.pending is Some,
            1 <= s <= MAX_FADE,
            1 <= fade <= MAX_FADE,
        ensures
            r.0 == self.pending->0.hist@[s as int],
            r.1 == self.pending->0.hist@[s - 1],
            r.2 == stage_den(s as int, fade as int),
    {
        match &self.pending {
            Some(pd) => {
                let den = if s >= fade {
                    1
                } else {
                    fade + 1 - s
                };
                (pd.hist[s], pd.hist[s - 1], den)
            },
            None => (0, 0, 1),
        }
    }

    /// `(cursor, eff_k)` of an in-flight swap covering any partition.
    pub(crate) fn swap_progress(&self) -> (r: Option<(usize, usize)>)
        ensures
            r == (match self.pending {
                Some(pd) => if pd.eff_k > 0 {
                    Some((pd.cursor, pd.eff_k))
                } else {
                    None
                },
                None => None,
            }),
    {
        match &self.pending {
            Some(pd) => if pd.eff_k > 0 {
                Some((pd.cursor, pd.eff_k))
            } else {
                None
            },
            None => None,
        }
    }

    /// Finish a swap whose every partition has passed the last blend
    /// stage: the target becomes the installed set and is retired.
    pub(crate) fn complete_swap_if_done(&mut self, Ghost(max_parts): Ghost<nat>, Ghost(bins): Ghost<nat>) -> (done: bool)
        requires
            old(self).wf(max_parts, bins),
        ensures
            final(self).wf(max_parts, bins),
            done == (old(self).pending matches Some(pd) && pd.done()),
            final(self).live == old(self).live,
            final(self).ringing@ == old(self).ringing@,
            final(self).tail_pool@ == old(self).tail_pool@,
            final(self).frame@ == old(self).frame@,
            final(self).head == old(self).head,
            final(self).ir_ch == old(self).ir_ch,
            final(self).hbank@ == old(self).hbank@,
            !done ==> final(self).same_bank(*old(self)) && final(self).retired@
                == old(self).retired@,
            done ==> ({
                let pd = old(self).pending->0;
                &&& final(self).pending is None
                &&& final(self).active_k == pd.target_k()
                &&& final(self).current@ == pd.set
                &&& final(self).retired@ == (match pd.set {
                    Some(s) => retired_after(old(self).retired@, s),
                    None => old(self).retired@,
                })
                &&& forall|p: int|
                    0 <= p < max_parts ==> #[trigger] final(self).hbank@[p] == pd.target(p)
            }),
    {
        let is_done = match &self.pending {
            Some(pd) => pd.cursor >= pd.eff_k && pd.hist[MAX_FADE] >= pd.eff_k,
            None => false,
        };
        if !is_done {
            return false;
        }
        let pd = self.pending.take().unwrap();
        proof {
            assert(pd.hist@[MAX_FADE as int] <= pd.hist@[MAX_FADE - 1]);
            assert forall|p: int| 0 <= p < max_parts implies #[trigger] self.hbank@[p] == pd.target(
                p,
            ) by {
                if p < pd.eff_k {
                    assert(p < pd.hist@[MAX_FADE - 1]);
                } else {
                    assert(self.active_k <= p);
                }
            }
        }
        self.current = Ghost(pd.set);
        match pd.set {
            Some(s) => {
                self.active_k = s.partitions();
                retire_push(&mut self.retired, s);
            },
            None => {
                self.active_k = 0;
            },
        }
        true
    }

    /// Step the input-ring head for a new frame.
    pub(crate) fn advance_head(&mut self, max_parts: usize) -> (r: (usize, usize))
        requires
            old(self).head < max_parts,
        ensures
            final(self).head == (old(self).head + 1) % (max_parts as int),
            r.0 == final(self).head,
            r.1 == old(self).active_k,
            final(self).active_k == old(self).active_k,
            final(self).pending == old(self).pending,
            final(self).ir_ch == old(self).ir_ch,
            final(self).hbank@ == old(self).hbank@,
            final(self).current@ == old(self).current@,
            final(self).same_voices(*old(self)),
    {
        self.head = (self.head + 1) % max_parts;
        (self.head, self.active_k)
    }
}

/// An empty ring holds no tails.
pub proof fn lemma_all_empty_ring_tails<S>(r: Seq<Option<LayerVoice<S>>>)
    requires
        forall|j: int| 0 <= j < r.len() ==> r[j] is None,
    ensures
        ring_tails(r) == Seq::<usize>::empty(),
    decreases r.len(),
{
    if r.len() > 0 {
        lemma_all_empty_ring_tails(r.drop_last());
        assert(ring_tails(r) =~= Seq::<usize>::empty());
    }
}


/// One freeze of the live voice `live` into a ring of voices, choosing
/// `slot` and fading `victim` out ahead of need: `ring2`, `pool2` and
/// `retired2` are the ring, the tail pool and the retired queue after it.
pub open spec fn freeze_result<S>(
    live: LayerVoice<S>,
    ring: Seq<Option<LayerVoice<S>>>,
    pool: Seq<usize>,
    retired: Seq<Option<PartitionSet<S>>>,
    frame: int,
    cap: int,
    slot: int,
    victim: Option<int>,
    ring2: Seq<Option<LayerVoice<S>>>,
    pool2: Seq<usize>,
    retired2: Seq<Option<PartitionSet<S>>>,
) -> bool {
    let placed = ring.update(slot, Some(frozen(live, frame)));
    &&& 0 <= slot < cap
    &&& freeze_slot(ring, cap, slot)
    &&& after_proactive(placed, cap, victim)
    &&& ring2 == (match victim {
        Some(i) => placed.update(i, Some(marked_dying(placed[i]->0))),
        None => placed,
    })
    &&& retired2 == (match ring[slot] {
        Some(e) => retired_after(retired, e.set),
        None => retired,
    })
    &&& pool2 == (match ring[slot] {
        Some(e) => pool.push(e.tail),
        None => pool,
    })
}

/// `ring2`, `pool2` and `retired2` are the result of freezing the live
/// voice, if any, within the first `cap` ring slots.
pub open spec fn froze<S>(
    live: Option<LayerVoice<S>>,
    ring: Seq<Option<LayerVoice<S>>>,
    pool: Seq<usize>,
    retired: Seq<Option<PartitionSet<S>>>,
    frame: int,
    cap: int,
    ring2: Seq<Option<LayerVoice<S>>>,
    pool2: Seq<usize>,
    retired2: Seq<Option<PartitionSet<S>>>,
) -> bool {
    match live {
        None => ring2 == ring && pool2 == pool && retired2 == retired,
        Some(v) => exists|slot: int, victim: Option<int>|
            freeze_result(v, ring, pool, retired, frame, cap, slot, victim, ring2, pool2, retired2),
    }
}

/// The first `None` of a sequence whose earlier slots are all taken.
pub proof fn lemma_first_none_at<T>(s: Seq<Option<T>>, f: int, j: int)
    requires
        0 <= j <= f < s.len(),
        s[f] is None,
        forall|l: int| 0 <= l < f ==> s[l] is Some,
    ensures
        first_none_from(s, j) == f,
    decreases f - j,
{
    if j < f {
        lemma_first_none_at(s, f, j + 1);
    }
}

/// A sequence with every slot from `j` on taken has no `None` there.
pub proof fn lemma_no_none_from<T>(s: Seq<Option<T>>, j: int)
    requires
        0 <= j,
        forall|l: int| j <= l < s.len() ==> s[l] is Some,
    ensures
        first_none_from(s, j) == -1,
    decreases s.len() - j,
{
    if j < s.len() {
        lemma_no_none_from(s, j + 1);
    }
}

/// Putting a voice with the same tail in a slot keeps the ring's tails.
pub proof fn lemma_ring_tails_same_tail<S>(r: Seq<Option<LayerVoice<S>>>, i: int, x: LayerVoice<S>)
    requires
        0 <= i < r.len(),
        r[i] matches Some(v) && v.tail == x.tail,
    ensures
        ring_tails(r.update(i, Some(x))).to_multiset() == ring_tails(r).to_multiset(),
{
    broadcast use vstd::multiset::group_multiset_axioms;

    lemma_ring_tails_update(r, i, Some(x));
    assert(voice_tails(r[i]) == voice_tails(Some(x)));
    let a = ring_tails(r.update(i, Some(x))).to_multiset();
    let b = ring_tails(r).to_multiset();
    let t = voice_tails(Some(x)).to_multiset();
    assert forall|v: usize| a.count(v) == b.count(v) by {
        assert(a.add(t).count(v) == b.add(t).count(v));
    }
    assert(a =~= b);
}

impl<S> Branch<S> {
    /// Freeze the live voice with ring depth `ring`, taken within
    /// `1..=RING_SLOTS`; see [`Self::freeze_within`].
    pub(crate) fn freeze_live(&mut self, ring: usize, Ghost(max_parts): Ghost<nat>, Ghost(bins): Ghost<nat>) -> (r: Option<(usize, Option<usize>)>)
        requires
            old(self).wf(max_parts, bins),
        ensures
            final(self).wf(max_parts, bins),
            final(self).same_bank(*old(self)),
            final(self).frame@ == old(self).frame@,
            final(self).live is None,
            old(self).live is None ==> r is None,
            froze(
                old(self).live,
                old(self).ringing@,
                old(self).tail_pool@,
                old(self).retired@,
                old(self).frame@,
                clamp(ring as int, 1, RING_SLOTS as int),
                final(self).ringing@,
                final(self).tail_pool@,
                final(self).retired@,
            ),
    {
        let cap = clamp_usize(ring, 1, RING_SLOTS);
        self.freeze_within(cap, Ghost(max_parts), Ghost(bins))
    }

    /// Freeze the live voice into a ring slot among the first `cap`: it
    /// stops hearing input and rings out. Slot preference: free slot, then
    /// the quietest dying voice, then the oldest voice; an evicted voice's
    /// tail returns to the pool and its set is retired. When this leaves no
    /// free slot, the oldest healthy older voice starts dying.
    fn freeze_within(&mut self, cap: usize, Ghost(max_parts): Ghost<nat>, Ghost(bins): Ghost<nat>) -> (r: Option<(usize, Option<usize>)>)
        requires
            old(self).wf(max_parts, bins),
            1 <= cap <= RING_SLOTS,
        ensures
            final(self).wf(max_parts, bins),
            final(self).same_bank(*old(self)),
            final(self).frame@ == old(self).frame@,
            final(self).live is None,
            old(self).live is None ==> r is None,
            froze(
                old(self).live,
                old(self).ringing@,
                old(self).tail_pool@,
                old(self).retired@,
                old(self).frame@,
                cap as int,
                final(self).ringing@,
                final(self).tail_pool@,
                final(self).retired@,
            ),
    {
        let lv = self.live.take();
        let mut v = match lv {
            None => {
                return None;
            },
            Some(v) => v,
        };
        let ghost old_v = v;
        let ghost ring = self.ringing@;
        let ghost frame = self.frame@;
        v.epoch_len = v.age;
        v.age = 1;
        v.end = Ghost(frame);
        assert(v == frozen(old_v, frame));
        // Slot choice.
        let mut free: Option<usize> = None;
        let mut quiet: Option<(usize, usize)> = None;
        let mut old_i: usize = 0;
        let mut old_age: usize = 0;
        let mut i: usize = 0;
        while i < cap && free.is_none()
            invariant
                self.ringing@ == ring,
                ring.len() == RING_SLOTS,
                1 <= cap <= RING_SLOTS,
                0 <= i <= cap,
                free matches Some(f) ==> (f < cap && ring[f as int] is None && slots_full(ring, f as int)),
                free is None ==> slots_full(ring, i as int),
                free is None && quiet is None ==> forall|j: int|
                    0 <= j < i ==> !slot_dying(ring, j),
                free is None ==> (quiet matches Some((q, f)) ==> (quietest_dying(ring, i as int, q as int) && f == slot_fade(ring, q as int))),
                free is None && i > 0 ==> oldest(ring, i as int, old_i as int) && old_age == slot_age(ring, old_i as int),
                i == 0 ==> old_age == 0,
            decreases cap - i,
        {
            match &self.ringing[i] {
                None => {
                    free = Some(i);
                },
                Some(rv) => {
                    let quieter = match quiet {
                        None => true,
                        Some((_, f)) => rv.fade > f,
                    };
                    if rv.dying && quieter {
                        quiet = Some((i, rv.fade));
                    }
                    if rv.age >= old_age {
                        old_i = i;
                        old_age = rv.age;
                    }
                },
            }
            i += 1;
        }
        let slot = match free {
            Some(f) => f,
            None => match quiet {
                Some((q, _)) => q,
                None => old_i,
            },
        };
        proof {
            match free {
                Some(f) => {
                    lemma_first_none_at(ring.take(cap as int), f as int, 0);
                },
                None => {
                    lemma_no_none_from(ring.take(cap as int), 0);
                },
            }
        }
        assert(freeze_slot(ring, cap as int, slot as int));
        // Evict and place.
        let ghost pool0 = self.tail_pool@;
        let ev = take_slot(&mut self.ringing, slot);
        match ev {
            Some(e) => {
                self.tail_pool.push(e.tail);
                retire_push(&mut self.retired, e.set);
            },
            None => {},
        }
        self.ringing.set(slot, Some(v));
        let ghost placed = self.ringing@;
        assert(placed =~= ring.update(slot as int, Some(frozen(old_v, frame))));
        proof {
            broadcast use vstd::seq_lib::lemma_multiset_commutative;
            broadcast use vstd::multiset::group_multiset_axioms;
            broadcast use vstd::seq_lib::group_to_multiset_ensures;

            lemma_ring_tails_update(ring, slot as int, Some(v));
            let before = pool0 + voice_tails(Some(old_v)) + ring_tails(ring);
            let after = self.tail_pool@ + voice_tails(None::<LayerVoice<S>>) + ring_tails(placed);
            assert(before.to_multiset() == all_tail_buffers());
            assert(voice_tails(None::<LayerVoice<S>>) =~= Seq::<usize>::empty());
            assert(self.tail_pool@ + voice_tails(None::<LayerVoice<S>>) =~= self.tail_pool@);
            assert(pool0 + voice_tails(Some(old_v)) =~= pool0.push(old_v.tail));
            assert(self.tail_pool@ =~= pool0 + voice_tails(ring[slot as int]));
            assert forall|t: usize| after.to_multiset().count(t) == before.to_multiset().count(t) by {
                assert(ring_tails(placed).to_multiset().add(voice_tails(ring[slot as int]).to_multiset()).count(t)
                    == ring_tails(ring).to_multiset().add(voice_tails(Some(v)).to_multiset()).count(t));
                assert(voice_tails(Some(v)) =~= seq![old_v.tail]);
                assert(voice_tails(Some(old_v)) =~= seq![old_v.tail]);
            }
            assert(after.to_multiset() =~= before.to_multiset());
        }
        // Proactive fade-out when no slot is left free.
        let mut full = true;
        let mut j: usize = 0;
        while j < cap
            invariant
                self.ringing@ == placed,
                placed.len() == RING_SLOTS,
                1 <= cap <= RING_SLOTS,
                0 <= j <= cap,
                full == slots_full(placed, j as int),
            decreases cap - j,
        {
            if self.ringing[j].is_none() {
                full = false;
            }
            j += 1;
        }
        let mut victim: Option<usize> = None;
        if full {
            let mut best: Option<(usize, usize)> = None;
            let mut j: usize = 0;
            while j < cap
                invariant
                    self.ringing@ == placed,
                    placed.len() == RING_SLOTS,
                    1 <= cap <= RING_SLOTS,
                    0 <= j <= cap,
                    best is None ==> forall|l: int| 0 <= l < j ==> !fade_candidate(placed, l),
                    best matches Some((b, a)) ==> fade_victim(placed, j as int, b as int) && a == slot_age(placed, b as int),
                decreases cap - j,
            {
                match &self.ringing[j] {
                    Some(rv) => {
                        let better = match best {
                            None => true,
                            Some((_, a)) => rv.age >= a,
                        };
                        if !rv.dying && rv.age > 1 && better {
                            best = Some((j, rv.age));
                        }
                    },
                    None => {},
                }
                j += 1;
            }
            match best {
                Some((b, _)) => {
                    let t = take_slot(&mut self.ringing, b);
                    let mut rv = t.unwrap();
                    rv.dying = true;
                    self.ringing.set(b, Some(rv));
                    victim = Some(b);
                    proof {
                        assert(self.ringing@ =~= placed.update(b as int, Some(marked_dying(placed[b as int]->0))));
                        lemma_ring_tails_same_tail(placed, b as int, marked_dying(placed[b as int]->0));
                    }
                },
                None => {},
            }
        }
        proof {
            let vi: Option<int> = match victim {
                Some(b) => Some(b as int),
                None => None,
            };
            assert(freeze_result(old_v, ring, pool0, old(self).retired@, frame, cap as int, slot as int, vi, self.ringing@, self.tail_pool@, self.retired@));
        }
        Some((slot, victim))
    }
}


/// The retired queue after parking the target set of a displaced swap.
pub open spec fn retire_pending<S>(
    retired: Seq<Option<PartitionSet<S>>>,
    pending: Option<Pending<S>>,
) -> Seq<Option<PartitionSet<S>>> {
    match pending {
        Some(pd) => match pd.set {
            Some(s) => retired_after(retired, s),
            None => retired,
        },
        None => retired,
    }
}

/// A fresh swap starting at partition 0.
pub open spec fn fresh_swap<S>(p: Pending<S>, set: Option<PartitionSet<S>>, eff_k: int) -> bool {
    &&& p.set == set
    &&& p.cursor == 0
    &&& p.eff_k == eff_k
    &&& forall|s: int| 0 <= s < HIST_LEN ==> #[trigger] p.hist@[s] == 0
}

/// A new live voice for `set`, starting its epoch at frame `frame`.
pub open spec fn new_live<S>(set: PartitionSet<S>, tail: usize, frame: int) -> LayerVoice<S> {
    LayerVoice {
        set,
        age: 0,
        epoch_len: 0,
        fade: 0,
        dying: false,
        tail,
        start: Ghost(frame),
        end: Ghost(frame),
    }
}

impl<S> Branch<S> {
    /// Gated hand-over: the live voice (if any) rings out, a displaced
    /// swap's target is retired, and `set` streams into the IR bank from
    /// partition 0.
    pub(crate) fn queue_gated(&mut self, set: PartitionSet<S>, cap: usize, Ghost(max_parts): Ghost<nat>, Ghost(bins): Ghost<nat>)
        requires
            old(self).wf(max_parts, bins),
            set_fits(set, max_parts, bins),
            1 <= cap <= RING_SLOTS,
        ensures
            final(self).wf(max_parts, bins),
            final(self).frame@ == old(self).frame@,
            final(self).head == old(self).head,
            final(self).hbank@ == old(self).hbank@,
            final(self).current@ == old(self).current@,
            final(self).ir_ch == set.ch(),
            final(self).live is None,
            final(self).active_k == (if set.k() > old(self).active_k {
                set.k()
            } else {
                old(self).active_k as nat
            }),
            final(self).pending matches Some(p) && fresh_swap(
                p,
                Some(set),
                final(self).active_k as int,
            ),
            exists|ret: Seq<Option<PartitionSet<S>>>|
                froze(
                    old(self).live,
                    old(self).ringing@,
                    old(self).tail_pool@,
                    old(self).retired@,
                    old(self).frame@,
                    cap as int,
                    final(self).ringing@,
                    final(self).tail_pool@,
                    ret,
                ) && final(self).retired@ == retire_pending(ret, old(self).pending),
    {
        self.ir_ch = set.channels();
        self.freeze_live(cap, Ghost(max_parts), Ghost(bins));
        let ghost ret = self.retired@;
        let old_pending = self.pending.take();
        match old_pending {
            Some(pd) => match pd.set {
                Some(s) => retire_push(&mut self.retired, s),
                None => {},
            },
            None => {},
        }
        let k = set.partitions();
        let eff_k = if k > self.active_k {
            k
        } else {
            self.active_k
        };
        self.active_k = eff_k;
        let pd = Pending { set: Some(set), cursor: 0, eff_k, hist: [0; HIST_LEN] };
        assert(pd.hist@ =~= Seq::new(HIST_LEN as nat, |s: int| 0usize));
        self.pending = Some(pd);
        assert(final(self).retired@ == retire_pending(ret, old(self).pending));
    }

    /// Ungated hand-over: a displaced swap's target is retired, an audible
    /// IR bank starts streaming out to silence, the live voice (if any)
    /// freezes and rings out, and `set` becomes the new live voice on a
    /// tail buffer from the pool.
    pub(crate) fn queue_ungated(&mut self, set: PartitionSet<S>, cap: usize, Ghost(max_parts): Ghost<nat>, Ghost(bins): Ghost<nat>) -> (tail: usize)
        requires
            old(self).wf(max_parts, bins),
            set_fits(set, max_parts, bins),
            1 <= cap <= RING_SLOTS,
        ensures
            final(self).wf(max_parts, bins),
            final(self).frame@ == old(self).frame@,
            final(self).head == old(self).head,
            final(self).hbank@ == old(self).hbank@,
            final(self).current@ == old(self).current@,
            final(self).ir_ch == set.ch(),
            final(self).active_k == old(self).active_k,
            old(self).active_k > 0 ==> (final(self).pending matches Some(p) && fresh_swap(
                p,
                None,
                old(self).active_k as int,
            )),
            old(self).active_k == 0 ==> final(self).pending is None,
            final(self).live == Some(new_live(set, tail, old(self).frame@)),
            tail < TAIL_BUFFERS,
            exists|pool: Seq<usize>|
                froze(
                    old(self).live,
                    old(self).ringing@,
                    old(self).tail_pool@,
                    retire_pending(old(self).retired@, old(self).pending),
                    old(self).frame@,
                    cap as int,
                    final(self).ringing@,
                    pool,
                    final(self).retired@,
                ) && pool.len() > 0 && final(self).tail_pool@ == pool.drop_last() && tail
                    == pool.last(),
    {
        self.ir_ch = set.channels();
        let old_pending = self.pending.take();
        match old_pending {
            Some(pd) => match pd.set {
                Some(s) => retire_push(&mut self.retired, s),
                None => {},
            },
            None => {},
        }
        assert(self.retired@ == retire_pending(old(self).retired@, old(self).pending));
        if self.active_k > 0 {
            let pd = Pending { set: None, cursor: 0, eff_k: self.active_k, hist: [0; HIST_LEN] };
            assert(pd.hist@ =~= Seq::new(HIST_LEN as nat, |s: int| 0usize));
            self.pending = Some(pd);
        }
        self.freeze_live(cap, Ghost(max_parts), Ghost(bins));
        let ghost pool = self.tail_pool@;
        let ghost ring2 = self.ringing@;
        let ghost ret2 = self.retired@;
        proof {
            broadcast use vstd::seq_lib::group_to_multiset_ensures;
            broadcast use vstd::seq_lib::lemma_multiset_commutative;
            broadcast use vstd::multiset::group_multiset_axioms;

            lemma_ring_tails_len(self.ringing@);
            assert(self.tails() =~= pool + ring_tails(self.ringing@));
            assert(self.tails().len() == TAIL_BUFFERS) by {
                assert(all_tail_buffers().len() == TAIL_BUFFERS);
            }
        }
        let tail = self.tail_pool.pop().unwrap();
        proof {
            broadcast use vstd::seq_lib::group_to_multiset_ensures;
            broadcast use vstd::seq_lib::lemma_multiset_commutative;
            broadcast use vstd::multiset::group_multiset_axioms;

            assert(pool =~= self.tail_pool@.push(tail));
            assert(all_tail_buffers().count(tail) > 0) by {
                assert(pool.contains(tail)) by {
                    assert(pool[pool.len() - 1] == tail);
                }
                assert((pool + ring_tails(self.ringing@)).contains(tail)) by {
                    assert((pool + ring_tails(self.ringing@))[pool.len() - 1] == tail);
                }
            }
            assert(Seq::new(TAIL_BUFFERS as nat, |i: int| i as usize).contains(tail));
            let tt = self.tail_pool@ + voice_tails(Some(new_live(set, tail, self.frame@)))
                + ring_tails(self.ringing@);
            assert(tt =~= pool + ring_tails(self.ringing@));
        }
        self.live = Some(
            LayerVoice {
                set,
                age: 0,
                epoch_len: 0,
                fade: 0,
                dying: false,
                tail,
                start: Ghost(self.frame@),
                end: Ghost(self.frame@),
            },
        );
        assert(froze(
            old(self).live,
            old(self).ringing@,
            old(self).tail_pool@,
            retire_pending(old(self).retired@, old(self).pending),
            old(self).frame@,
            cap as int,
            ring2,
            pool,
            ret2,
        ));
        assert(self.tail_pool@ =~= pool.drop_last());
        tail
    }
}


/// What a voice contributes to the current frame: convolve input lags
/// `[lo, hi)` of the zone's input ring with the same partitions of its IR
/// (or, if `lo >= hi`, flush its overlap-add tail once), writing to tail
/// buffer `tail` at gain `2^-fade`, ramping to half of that within the
/// frame when `dying`.
#[derive(Clone, Copy, PartialEq, Eq, Debug, Structural)]
pub struct VoicePlan {
    pub lo: usize,
    pub hi: usize,
    pub tail: usize,
    pub fade: usize,
    pub dying: bool,
}

/// Whether a voice hears, at frame `frame`, the input of lag `j` (the
/// input of frame `frame - j`): the lag is within its IR and the input
/// frame belongs to its epoch (which, for a live voice, is still open).
pub open spec fn hears<S>(v: LayerVoice<S>, frozen: bool, frame: int, j: int) -> bool {
    &&& 0 <= j < v.set.k()
    &&& v.start@ <= frame - j
    &&& frozen ==> frame - j < v.end@
}

/// The plan of a voice at frame `frame`: a live voice hears every lag back
/// to its epoch start; a frozen voice hears only its own epoch's input.
pub open spec fn plan_of<S>(p: VoicePlan, v: LayerVoice<S>, frozen: bool, frame: int) -> bool {
    &&& p.tail == v.tail
    &&& p.fade == v.fade
    &&& p.dying == v.dying
    &&& forall|j: int| #[trigger] hears(v, frozen, frame, j) <==> p.lo <= j < p.hi
}

/// The lag window `[lo, hi)` a live voice reads: lags `0..=age`, within
/// its IR.
pub open spec fn live_window<S>(v: LayerVoice<S>) -> (int, int) {
    (0, if v.age < v.set.k() {
        v.age + 1
    } else {
        v.set.k() as int
    })
}

/// The lag window `[lo, hi)` a frozen voice reads: lags from its age on,
/// for its epoch's length, within its IR.
pub open spec fn frozen_window<S>(v: LayerVoice<S>) -> (int, int) {
    let k = v.set.k() as int;
    (if v.age < k {
        v.age as int
    } else {
        k
    }, if v.age + v.epoch_len < k {
        v.age + v.epoch_len
    } else {
        k
    })
}

/// A live voice one frame older.
pub open spec fn aged_live<S>(v: LayerVoice<S>) -> LayerVoice<S> {
    LayerVoice {
        set: v.set,
        age: sat(v.age + 1) as usize,
        epoch_len: v.epoch_len,
        fade: v.fade,
        dying: v.dying,
        tail: v.tail,
        start: v.start,
        end: v.end,
    }
}

/// A surviving ring-out voice in slot `i` one frame older: slots at or
/// beyond the ring depth `cap` start dying; dying voices halve their gain.
pub open spec fn aged_ring<S>(v: LayerVoice<S>, i: int, cap: int) -> LayerVoice<S> {
    let dying = v.dying || i >= cap;
    LayerVoice {
        set: v.set,
        age: (v.age + 1) as usize,
        epoch_len: v.epoch_len,
        fade: (if dying {
            v.fade + 1
        } else {
            v.fade as int
        }) as usize,
        dying,
        tail: v.tail,
        start: v.start,
        end: v.end,
    }
}

/// A ring slot after a frame: dead voices leave, the rest age.
pub open spec fn slot_after_frame<S>(o: Option<LayerVoice<S>>, i: int, cap: int) -> Option<LayerVoice<S>> {
    match o {
        Some(v) => if voice_dead(v) {
            None
        } else {
            Some(aged_ring(v, i, cap))
        },
        None => None,
    }
}

/// Tail buffers of the dead voices among the first `n` slots, in order.
pub open spec fn dead_tails<S>(r: Seq<Option<LayerVoice<S>>>, n: int) -> Seq<usize>
    decreases n,
{
    if n <= 0 {
        Seq::empty()
    } else {
        dead_tails(r, n - 1) + match r[n - 1] {
            Some(v) => if voice_dead(v) {
                seq![v.tail]
            } else {
                Seq::empty()
            },
            None => Seq::empty(),
        }
    }
}

/// The retired queue after parking the sets of the dead voices among the
/// first `n` slots, in order.
pub open spec fn retire_dead<S>(
    retired: Seq<Option<PartitionSet<S>>>,
    r: Seq<Option<LayerVoice<S>>>,
    n: int,
) -> Seq<Option<PartitionSet<S>>>
    decreases n,
{
    if n <= 0 {
        retired
    } else {
        let prev = retire_dead(retired, r, n - 1);
        match r[n - 1] {
            Some(v) => if voice_dead(v) {
                retired_after(prev, v.set)
            } else {
                prev
            },
            None => prev,
        }
    }
}

/// The retired queue after parking the sets of every voice among the
/// first `n` slots, in order.
pub open spec fn retire_ring<S>(
    retired: Seq<Option<PartitionSet<S>>>,
    r: Seq<Option<LayerVoice<S>>>,
    n: int,
) -> Seq<Option<PartitionSet<S>>>
    decreases n,
{
    if n <= 0 {
        retired
    } else {
        let prev = retire_ring(retired, r, n - 1);
        match r[n - 1] {
            Some(v) => retired_after(prev, v.set),
            None => prev,
        }
    }
}

/// Parking sets keeps the retired queue's length.
pub proof fn lemma_retire_dead_len<S>(retired: Seq<Option<PartitionSet<S>>>, r: Seq<Option<LayerVoice<S>>>, n: int)
    requires
        retired.len() > 0,
    ensures
        retire_dead(retired, r, n).len() == retired.len(),
        retire_ring(retired, r, n).len() == retired.len(),
    decreases n,
{
    if n > 0 {
        lemma_retire_dead_len(retired, r, n - 1);
        lemma_retired_after_len(retire_dead(retired, r, n - 1), r[n-1]->0.set);
        lemma_retired_after_len(retire_ring(retired, r, n - 1), r[n-1]->0.set);
    }
}

/// The search for a free slot finds one at or after `i`, or none.
pub proof fn lemma_first_none_from_range<T>(s: Seq<Option<T>>, i: int)
    ensures
        first_none_from(s, i) == -1 || (i <= first_none_from(s, i) < s.len() && s[first_none_from(s, i)] is None),
    decreases s.len() - i,
{
    if 0 <= i < s.len() && !(s[i] is None) {
        lemma_first_none_from_range(s, i + 1);
    }
}

/// The search for an occupied slot finds one at or after `i`, or none.
pub proof fn lemma_first_some_from_range<T>(s: Seq<Option<T>>, i: int)
    ensures
        first_some_from(s, i) == -1 || (i <= first_some_from(s, i) < s.len() && s[first_some_from(s, i)] is Some),
    decreases s.len() - i,
{
    if 0 <= i < s.len() && !(s[i] is Some) {
        lemma_first_some_from_range(s, i + 1);
    }
}

/// Parking one set keeps the retired queue's length.
pub proof fn lemma_retired_after_len<S>(retired: Seq<Option<PartitionSet<S>>>, set: PartitionSet<S>)
    requires
        retired.len() > 0,
    ensures
        retired_after(retired, set).len() == retired.len(),
{
    lemma_first_none_from_range(retired, 0);
}

impl<S> Branch<S> {
    /// The plan of voice `vi` for the current frame: 0 is the live voice,
    /// `1..=RING_SLOTS` the ring-out slots.
    pub(crate) fn voice_plan(&self, vi: usize, Ghost(max_parts): Ghost<nat>, Ghost(bins): Ghost<nat>) -> (r: Option<VoicePlan>)
        requires
            self.wf(max_parts, bins),
            vi <= RING_SLOTS,
        ensures
            vi == 0 ==> match self.live {
                Some(v) => r matches Some(p) && plan_of(p, v, false, self.frame@) && (p.lo as int, p.hi as int)
                    == live_window(v),
                None => r is None,
            },
            vi > 0 ==> match self.ringing@[vi - 1] {
                Some(v) => r matches Some(p) && plan_of(p, v, true, self.frame@) && (p.lo as int, p.hi as int)
                    == frozen_window(v),
                None => r is None,
            },
    {
        if vi == 0 {
            match &self.live {
                Some(v) => {
                    let k = v.set.partitions();
                    let hi = if v.age < k {
                        v.age + 1
                    } else {
                        k
                    };
                    Some(VoicePlan { lo: 0, hi, tail: v.tail, fade: v.fade, dying: v.dying })
                },
                None => None,
            }
        } else {
            match &self.ringing[vi - 1] {
                Some(v) => {
                    let k = v.set.partitions();
                    let lo = if v.age < k {
                        v.age
                    } else {
                        k
                    };
                    let hi = if v.age >= k {
                        k
                    } else if v.epoch_len >= k - v.age {
                        k
                    } else {
                        v.age + v.epoch_len
                    };
                    Some(VoicePlan { lo, hi, tail: v.tail, fade: v.fade, dying: v.dying })
                },
                None => None,
            }
        }
    }

    /// End of a frame: the live voice ages; ring-out voices that are dead
    /// leave (tail to the pool, set retired, in slot order); the others age,
    /// slots at or beyond the ring depth `cap` start dying and dying voices
    /// halve their gain.
    pub(crate) fn end_frame(&mut self, cap: usize, Ghost(max_parts): Ghost<nat>, Ghost(bins): Ghost<nat>)
        requires
            old(self).wf(max_parts, bins),
            1 <= cap <= RING_SLOTS,
            max_parts < usize::MAX,
        ensures
            final(self).wf(max_parts, bins),
            final(self).same_bank(*old(self)),
            final(self).frame@ == old(self).frame@ + 1,
            final(self).live == (match old(self).live {
                Some(v) => Some(aged_live(v)),
                None => None,
            }),
            forall|i: int|
                0 <= i < RING_SLOTS ==> #[trigger] final(self).ringing@[i] == slot_after_frame(
                    old(self).ringing@[i],
                    i,
                    cap as int,
                ),
            final(self).tail_pool@ == old(self).tail_pool@ + dead_tails(
                old(self).ringing@,
                RING_SLOTS as int,
            ),
            final(self).retired@ == retire_dead(
                old(self).retired@,
                old(self).ringing@,
                RING_SLOTS as int,
            ),
    {
        let ghost frame = self.frame@;
        let ghost ring0 = self.ringing@;
        let ghost pool0 = self.tail_pool@;
        let ghost ret0 = self.retired@;
        let lv = self.live.take();
        match lv {
            Some(mut v) => {
                if v.age < usize::MAX {
                    v.age = v.age + 1;
                }
                self.live = Some(v);
            },
            None => {},
        }
        let ghost live1 = self.live;
        let mut i: usize = 0;
        while i < RING_SLOTS
            invariant
                0 <= i <= RING_SLOTS,
                1 <= cap <= RING_SLOTS,
                ring0.len() == RING_SLOTS,
                ret0.len() == RETIRED_SLOTS,
                self.ringing@.len() == RING_SLOTS,
                self.live == live1,
                self.frame@ == frame,
                self.same_bank(*old(self)),
                self.retired@.len() == RETIRED_SLOTS,
                forall|j: int|
                    0 <= j < i ==> #[trigger] self.ringing@[j] == slot_after_frame(
                        ring0[j],
                        j,
                        cap as int,
                    ),
                forall|j: int| i <= j < RING_SLOTS ==> #[trigger] self.ringing@[j] == ring0[j],
                self.tail_pool@ == pool0 + dead_tails(ring0, i as int),
                self.retired@ == retire_dead(ret0, ring0, i as int),
                (self.tail_pool@ + ring_tails(self.ringing@)).to_multiset() == (pool0 + ring_tails(
                    ring0,
                )).to_multiset(),
            decreases RING_SLOTS - i,
        {
            let ghost before = self.ringing@;
            let ghost pool_b = self.tail_pool@;
            let slot = take_slot(&mut self.ringing, i);
            match slot {
                Some(mut v) => {
                    if v.age >= v.set.partitions() || v.fade >= DEATH_FADE {
                        self.tail_pool.push(v.tail);
                        retire_push(&mut self.retired, v.set);
                        proof {
                            broadcast use vstd::seq_lib::group_to_multiset_ensures;
                            broadcast use vstd::multiset::group_multiset_axioms;

                            lemma_ring_tails_update(before, i as int, None);
                            assert(before.update(i as int, None) =~= self.ringing@);
                            assert(voice_tails(before[i as int]) =~= seq![v.tail]);
                            assert(voice_tails(None::<LayerVoice<S>>) =~= Seq::<usize>::empty());
                            vstd::seq_lib::lemma_multiset_commutative(self.tail_pool@, ring_tails(self.ringing@));
                            vstd::seq_lib::lemma_multiset_commutative(pool_b, ring_tails(before));
                            assert(self.tail_pool@ == pool_b.push(v.tail));
                            assert(seq![v.tail].to_multiset() =~= Multiset::empty().insert(v.tail)) by {
                                assert(seq![v.tail] =~= Seq::<usize>::empty().push(v.tail));
                            }
                            let a = (self.tail_pool@ + ring_tails(self.ringing@)).to_multiset();
                            let b = (pool_b + ring_tails(before)).to_multiset();
                            assert forall|t: usize| a.count(t) == b.count(t) by {
                                assert(ring_tails(self.ringing@).to_multiset().add(
                                    voice_tails(before[i as int]).to_multiset(),
                                ).count(t) == ring_tails(before).to_multiset().add(
                                    voice_tails(None::<LayerVoice<S>>).to_multiset(),
                                ).count(t));
                            }
                            assert(a =~= b);
                        }
                    } else {
                        v.age = v.age + 1;
                        if i >= cap {
                            v.dying = true;
                        }
                        if v.dying {
                            v.fade = v.fade + 1;
                        }
                        self.ringing.set(i, Some(v));
                        proof {
                            broadcast use vstd::multiset::group_multiset_axioms;

                            lemma_ring_tails_same_tail(before, i as int, v);
                            assert(before.update(i as int, Some(v)) =~= self.ringing@);
                            vstd::seq_lib::lemma_multiset_commutative(self.tail_pool@, ring_tails(self.ringing@));
                            vstd::seq_lib::lemma_multiset_commutative(pool_b, ring_tails(before));
                        }
                    }
                },
                None => {
                    proof {
                        assert(before =~= self.ringing@);
                    }
                },
            }
            proof {
                reveal_with_fuel(dead_tails, 2);
                assert(dead_tails(ring0, i + 1) =~= dead_tails(ring0, i as int) + match ring0[i as int] {
                    Some(v) => if voice_dead(v) {
                        seq![v.tail]
                    } else {
                        Seq::empty()
                    },
                    None => Seq::empty(),
                });
                assert(pool0 + dead_tails(ring0, i + 1) =~= (pool0 + dead_tails(ring0, i as int)) + match ring0[i as int] {
                    Some(v) => if voice_dead(v) {
                        seq![v.tail]
                    } else {
                        Seq::empty()
                    },
                    None => Seq::empty(),
                });
            }
            i += 1;
        }
        proof {
            broadcast use vstd::multiset::group_multiset_axioms;

            let vt = voice_tails(live1);
            assert(voice_tails(old(self).live) == vt);
            vstd::seq_lib::lemma_multiset_commutative(self.tail_pool@ + vt, ring_tails(self.ringing@));
            vstd::seq_lib::lemma_multiset_commutative(self.tail_pool@, vt);
            vstd::seq_lib::lemma_multiset_commutative(self.tail_pool@, ring_tails(self.ringing@));
            vstd::seq_lib::lemma_multiset_commutative(pool0 + vt, ring_tails(ring0));
            vstd::seq_lib::lemma_multiset_commutative(pool0, vt);
            vstd::seq_lib::lemma_multiset_commutative(pool0, ring_tails(ring0));
            let a = (self.tail_pool@ + vt + ring_tails(self.ringing@)).to_multiset();
            let b = (pool0 + vt + ring_tails(ring0)).to_multiset();
            assert forall|t: usize| a.count(t) == b.count(t) by {
                assert((self.tail_pool@ + ring_tails(self.ringing@)).to_multiset().count(t) == (pool0
                    + ring_tails(ring0)).to_multiset().count(t));
            }
            assert(a =~= b);
            assert forall|j: int| 0 <= j < RING_SLOTS implies (#[trigger] self.ringing@[j] matches Some(
                v,
            ) ==> ring_wf(v, frame + 1, max_parts, bins)) by {
                assert(self.ringing@[j] == slot_after_frame(ring0[j], j, cap as int));
                if ring0[j] is Some {
                    assert(ring_wf(ring0[j]->0, frame, max_parts, bins));
                }
            }
        }
        self.frame = Ghost(frame + 1);
    }
}


/// The live voice after a reset: same IR and tail buffer, a new epoch
/// starting at `frame`.
pub open spec fn restarted<S>(live: Option<LayerVoice<S>>, frame: int) -> Option<LayerVoice<S>> {
    match live {
        Some(v) => Some(new_live(v.set, v.tail, frame)),
        None => None,
    }
}

/// The IR bank after an in-flight swap is completed at once.
pub open spec fn fast_forwarded<S>(bank: Seq<PartContent<S>>, pd: Pending<S>) -> Seq<PartContent<S>> {
    Seq::new(bank.len(), |p: int| if p < pd.eff_k { pd.target(p) } else { bank[p] })
}

impl<S> Branch<S> {
    /// Clear the branch's signal state: an in-flight swap completes at
    /// once; the live voice keeps its IR and starts a new epoch at the
    /// current frame; every ring-out voice is retired (tails back to the
    /// pool, in slot order); the input-ring head returns to slot 0.
    pub(crate) fn reset(&mut self, Ghost(max_parts): Ghost<nat>, Ghost(bins): Ghost<nat>)
        requires
            old(self).wf(max_parts, bins),
        ensures
            final(self).wf(max_parts, bins),
            final(self).pending is None,
            final(self).live == restarted(old(self).live, old(self).frame@),
            forall|i: int| 0 <= i < RING_SLOTS ==> #[trigger] final(self).ringing@[i] is None,
            final(self).head == 0,
            final(self).frame@ == old(self).frame@,
            final(self).ir_ch == old(self).ir_ch,
            final(self).tail_pool@ == old(self).tail_pool@ + ring_tails(old(self).ringing@),
            final(self).retired@ == retire_ring(
                retire_pending(old(self).retired@, old(self).pending),
                old(self).ringing@,
                RING_SLOTS as int,
            ),
            match old(self).pending {
                Some(pd) => {
                    &&& final(self).active_k == pd.target_k()
                    &&& final(self).current@ == pd.set
                    &&& final(self).hbank@ == fast_forwarded(old(self).hbank@, pd)
                },
                None => {
                    &&& final(self).active_k == old(self).active_k
                    &&& final(self).current@ == old(self).current@
                    &&& final(self).hbank@ == old(self).hbank@
                },
            },
    {
        let pend = self.pending.take();
        match pend {
            Some(pd) => {
                proof {
                    let nb = fast_forwarded(self.hbank@, pd);
                    assert forall|p: int| 0 <= p < max_parts implies #[trigger] nb[p] == pd.target(
                        p,
                    ) by {
                        if p >= pd.eff_k {
                            assert(self.active_k <= p);
                        }
                    }
                    self.hbank = Ghost(nb);
                }
                self.current = Ghost(pd.set);
                match pd.set {
                    Some(s) => {
                        self.active_k = s.partitions();
                        retire_push(&mut self.retired, s);
                    },
                    None => {
                        self.active_k = 0;
                    },
                }
            },
            None => {},
        }
        let ghost frame = self.frame@;
        let lv = self.live.take();
        match lv {
            Some(mut v) => {
                v.age = 0;
                v.start = Ghost(frame);
                v.end = Ghost(frame);
                self.live = Some(v);
            },
            None => {},
        }
        assert(self.live == restarted(old(self).live, frame));
        let ghost ring0 = self.ringing@;
        let ghost pool1 = self.tail_pool@;
        let ghost ret2 = self.retired@;
        let ghost final_active = self.active_k;
        let ghost final_current = self.current@;
        let ghost final_bank = self.hbank@;
        let mut i: usize = 0;
        while i < RING_SLOTS
            invariant
                0 <= i <= RING_SLOTS,
                ring0.len() == RING_SLOTS,
                ret2.len() == RETIRED_SLOTS,
                self.ringing@.len() == RING_SLOTS,
                self.retired@.len() == RETIRED_SLOTS,
                forall|j: int| 0 <= j < i ==> #[trigger] self.ringing@[j] is None,
                forall|j: int| i <= j < RING_SLOTS ==> #[trigger] self.ringing@[j] == ring0[j],
                self.tail_pool@ == pool1 + ring_tails(ring0.take(i as int)),
                self.retired@ == retire_ring(ret2, ring0, i as int),
                self.live == restarted(old(self).live, old(self).frame@),
                self.pending is None,
                self.frame@ == old(self).frame@,
                self.ir_ch == old(self).ir_ch,
                self.head == old(self).head,
                self.active_k == final_active,
                self.current@ == final_current,
                self.hbank@ == final_bank,
            decreases RING_SLOTS - i,
        {
            let slot = take_slot(&mut self.ringing, i);
            proof {
                assert(ring0.take(i + 1).drop_last() =~= ring0.take(i as int));
                assert(ring_tails(ring0.take(i + 1)) == ring_tails(ring0.take(i as int)) + voice_tails(ring0[i as int]));
            }
            match slot {
                Some(v) => {
                    self.tail_pool.push(v.tail);
                    retire_push(&mut self.retired, v.set);
                },
                None => {},
            }
            assert(self.tail_pool@ =~= pool1 + ring_tails(ring0.take(i + 1)));
            i += 1;
        }
        self.head = 0;
        proof {
            assert(ring0.take(RING_SLOTS as int) =~= ring0);
            lemma_all_empty_ring_tails(self.ringing@);
            let lt = voice_tails(old(self).live);
            assert(voice_tails(self.live) == lt);
            assert(self.tails() =~= old(self).tail_pool@ + ring_tails(ring0) + lt);
            assert(old(self).tails() == old(self).tail_pool@ + lt + ring_tails(ring0));
            vstd::seq_lib::lemma_multiset_commutative(old(self).tail_pool@ + ring_tails(ring0), lt);
            vstd::seq_lib::lemma_multiset_commutative(old(self).tail_pool@ + lt, ring_tails(ring0));
            vstd::seq_lib::lemma_multiset_commutative(old(self).tail_pool@, ring_tails(ring0));
            vstd::seq_lib::lemma_multiset_commutative(old(self).tail_pool@, lt);
            broadcast use vstd::multiset::group_multiset_axioms;
            assert(self.tails().to_multiset() =~= old(self).tails().to_multiset());
        }
    }

    pub(crate) fn take_retired(&mut self, Ghost(max_parts): Ghost<nat>, Ghost(bins): Ghost<nat>) -> (r: Option<PartitionSet<S>>)
        requires
            old(self).wf(max_parts, bins),
        ensures
            final(self).wf(max_parts, bins),
            final(self).same_bank(*old(self)),
            final(self).live == old(self).live,
            final(self).ringing@ == old(self).ringing@,
            final(self).tail_pool@ == old(self).tail_pool@,
            final(self).frame@ == old(self).frame@,
            ({
                let i = first_some_from(old(self).retired@, 0);
                if i >= 0 {
                    r == old(self).retired@[i] && final(self).retired@ == old(self).retired@.update(
                        i,
                        None,
                    )
                } else {
                    r is None && final(self).retired@ == old(self).retired@
                }
            }),
    {
        proof {
            lemma_first_some_from_range(self.retired@, 0);
        }
        take_first(&mut self.retired)
    }
}


/// `b1` is `b0` after a gated hand-over of `set` with ring depth `cap`.
pub open spec fn queued_gated<S>(b0: Branch<S>, b1: Branch<S>, set: PartitionSet<S>, cap: int) -> bool {
    &&& b1.frame@ == b0.frame@
    &&& b1.head == b0.head
    &&& b1.hbank@ == b0.hbank@
    &&& b1.current@ == b0.current@
    &&& b1.ir_ch == set.ch()
    &&& b1.live is None
    &&& b1.active_k == (if set.k() > b0.active_k {
        set.k()
    } else {
        b0.active_k as nat
    })
    &&& b1.pending matches Some(p) && fresh_swap(p, Some(set), b1.active_k as int)
    &&& exists|ret: Seq<Option<PartitionSet<S>>>|
        froze(
            b0.live,
            b0.ringing@,
            b0.tail_pool@,
            b0.retired@,
            b0.frame@,
            cap,
            b1.ringing@,
            b1.tail_pool@,
            ret,
        ) && b1.retired@ == retire_pending(ret, b0.pending)
}

/// `b1` is `b0` after an ungated hand-over of `set` with ring depth `cap`.
pub open spec fn queued_ungated<S>(b0: Branch<S>, b1: Branch<S>, set: PartitionSet<S>, cap: int) -> bool {
    &&& b1.frame@ == b0.frame@
    &&& b1.head == b0.head
    &&& b1.hbank@ == b0.hbank@
    &&& b1.current@ == b0.current@
    &&& b1.ir_ch == set.ch()
    &&& b1.active_k == b0.active_k
    &&& b0.active_k > 0 ==> (b1.pending matches Some(p) && fresh_swap(p, None, b0.active_k as int))
    &&& b0.active_k == 0 ==> b1.pending is None
    &&& b1.live matches Some(v) && v == new_live(set, v.tail, b0.frame@)
    &&& exists|pool: Seq<usize>|
        froze(
            b0.live,
            b0.ringing@,
            b0.tail_pool@,
            retire_pending(b0.retired@, b0.pending),
            b0.frame@,
            cap,
            b1.ringing@,
            pool,
            b1.retired@,
        ) && pool.len() > 0 && b1.tail_pool@ == pool.drop_last() && b1.live->0.tail == pool.last()
}

/// `b1` is `b0` after a set was installed directly into its empty IR bank.
pub open spec fn installed<S>(b0: Branch<S>, b1: Branch<S>, set: PartitionSet<S>) -> bool {
    &&& b1.same_voices(b0)
    &&& b1.head == b0.head
    &&& b1.pending is None
    &&& b1.ir_ch == set.ch()
    &&& b1.active_k == set.k()
    &&& b1.current@ == Some(set)
    &&& b1.hbank@ == Seq::new(
        b0.hbank@.len(),
        |p: int|
            if p < set.k() {
                PartContent::Exact(set, p)
            } else {
                b0.hbank@[p]
            },
    )
}

/// `b1` is `b0` after its end-of-frame voice update with ring depth `cap`.
pub open spec fn frame_ended<S>(b0: Branch<S>, b1: Branch<S>, cap: int) -> bool {
    &&& b1.same_bank(b0)
    &&& b1.frame@ == b0.frame@ + 1
    &&& b1.live == (match b0.live {
        Some(v) => Some(aged_live(v)),
        None => None,
    })
    &&& forall|i: int|
        0 <= i < RING_SLOTS ==> #[trigger] b1.ringing@[i] == slot_after_frame(b0.ringing@[i], i, cap)
    &&& b1.tail_pool@ == b0.tail_pool@ + dead_tails(b0.ringing@, RING_SLOTS as int)
    &&& b1.retired@ == retire_dead(b0.retired@, b0.ringing@, RING_SLOTS as int)
}

/// `b1` is `b0` after a reset: the swap completed, the live voice kept
/// with a new epoch, the ring-out voices retired.
pub open spec fn was_reset<S>(b0: Branch<S>, b1: Branch<S>) -> bool {
    &&& b1.pending is None
    &&& b1.live == restarted(b0.live, b0.frame@)
    &&& forall|i: int| 0 <= i < RING_SLOTS ==> #[trigger] b1.ringing@[i] is None
    &&& b1.head == 0
    &&& b1.frame@ == b0.frame@
    &&& b1.ir_ch == b0.ir_ch
    &&& b1.tail_pool@ == b0.tail_pool@ + ring_tails(b0.ringing@)
    &&& b1.retired@ == retire_ring(
        retire_pending(b0.retired@, b0.pending),
        b0.ringing@,
        RING_SLOTS as int,
    )
    &&& match b0.pending {
        Some(pd) => {
            &&& b1.active_k == pd.target_k()
            &&& b1.current@ == pd.set
            &&& b1.hbank@ == fast_forwarded(b0.hbank@, pd)
        },
        None => {
            &&& b1.active_k == b0.active_k
            &&& b1.current@ == b0.current@
            &&& b1.hbank@ == b0.hbank@
        },
    }
}

/// `b1` is `b0` after taking `r` from its retired queue.
pub open spec fn took_retired<S>(b0: Branch<S>, b1: Branch<S>, r: Option<PartitionSet<S>>) -> bool {
    &&& b1.same_bank(b0)
    &&& b1.live == b0.live
    &&& b1.ringing@ == b0.ringing@
    &&& b1.tail_pool@ == b0.tail_pool@
    &&& b1.frame@ == b0.frame@
    &&& ({
        let i = first_some_from(b0.retired@, 0);
        if i >= 0 {
            r == b0.retired@[i] && b1.retired@ == b0.retired@.update(i, None)
        } else {
            r is None && b1.retired@ == b0.retired@
        }
    })
}

impl<S> Branch<S> {
    /// Install `set` directly into an empty IR bank.
    pub(crate) fn install(&mut self, set: &PartitionSet<S>, Ghost(max_parts): Ghost<nat>, Ghost(bins): Ghost<nat>)
        requires
            old(self).wf(max_parts, bins),
            old(self).active_k == 0,
            old(self).pending is None,
            set_fits(*set, max_parts, bins),
        ensures
            final(self).wf(max_parts, bins),
            installed(*old(self), *final(self), *set),
    {
        self.ir_ch = set.channels();
        self.active_k = set.partitions();
        proof {
            let k = set.k();
            self.hbank = Ghost(
                Seq::new(
                    self.hbank@.len(),
                    |p: int|
                        if p < k {
                            PartContent::Exact(*set, p)
                        } else {
                            self.hbank@[p]
                        },
                ),
            );
            self.current = Ghost(Some(*set));
        }
    }
}


/// `b1` is `b0` after its in-flight swap (if any) advanced `steps`
/// partitions for one frame, blended under a write fade of `fade` frames.
pub open spec fn swap_advanced<S>(b0: Branch<S>, b1: Branch<S>, steps: int, fade: int) -> bool {
    &&& b1.same_voices(b0)
    &&& b1.head == b0.head
    &&& b1.ir_ch == b0.ir_ch
    &&& b1.active_k == b0.active_k
    &&& b1.current@ == b0.current@
    &&& match b0.pending {
        None => b1.pending is None && b1.hbank@ == b0.hbank@,
        Some(pd) => b1.pending matches Some(np) && pd.advanced_to(np, steps) && b1.hbank@
            == staged_bank(b0.hbank@, np.hist@, |p: int| pd.target(p), fade),
    }
}

/// `b1` is `b0` after the completion check of its swap; `done` tells
/// whether it completed.
pub open spec fn swap_checked<S>(b0: Branch<S>, b1: Branch<S>, done: bool) -> bool {
    &&& done == (b0.pending matches Some(pd) && pd.done())
    &&& b1.live == b0.live
    &&& b1.ringing@ == b0.ringing@
    &&& b1.tail_pool@ == b0.tail_pool@
    &&& b1.frame@ == b0.frame@
    &&& b1.head == b0.head
    &&& b1.ir_ch == b0.ir_ch
    &&& b1.hbank@ == b0.hbank@
    &&& !done ==> b1.same_bank(b0) && b1.retired@ == b0.retired@
    &&& done ==> ({
        let pd = b0.pending->0;
        &&& b1.pending is None
        &&& b1.active_k == pd.target_k()
        &&& b1.current@ == pd.set
        &&& b1.retired@ == (match pd.set {
            Some(s) => retired_after(b0.retired@, s),
            None => b0.retired@,
        })
    })
}

} // verus!
