//! The engine's control plane across its zones: geometry, IR hand-over,
//! retired-set disposal, reset, and the per-frame decisions of each
//! zone's branch.

use vstd::prelude::*;
use crate::engine::{
    first_some_from, frame_ended, frozen_window, installed, lemma_first_some_from_range,
    live_window, plan_of, queued_gated, queued_ungated, set_fits, stage_den, swap_advanced,
    swap_checked, took_retired, was_reset, Branch, VoicePlan, MAX_FADE, MAX_MORPH, RETIRED_SLOTS,
    RING_SLOTS, TAIL_BUFFERS,
};
use crate::geometry::{is_pow2, max_parts_for, spec_max_parts, MAX_ZONES, MIN_PARTITION};
use crate::params::{clamp, clamp_usize, TailMode};
use crate::partition::PartitionSet;

verus! {

/// A live voice older than this many frames has its rendering compared
/// with a new size request (about 100 ms at the default geometry).
pub const RETARGET_MIN_AGE: usize = 19;

/// Which rendering a zone's current size is read from.
#[derive(Clone, Copy, PartialEq, Eq, Debug, Structural)]
pub enum RenderRef {
    /// The live ungated voice's set.
    LiveVoice,
    /// The set installed in the zone's IR bank.
    Bank,
    /// None: nothing to re-render.
    Nothing,
}

/// The control state of an engine: `MAX_ZONES` branches sharing one
/// geometry (partition length, spectrum bins, partition capacity).
pub struct EngineCore<S> {
    channels: usize,
    part: usize,
    bins: usize,
    max_parts: usize,
    branches: Vec<Branch<S>>,
}

impl<S> EngineCore<S> {
    pub closed spec fn channel_count(&self) -> nat {
        self.channels as nat
    }

    pub closed spec fn partition_len(&self) -> nat {
        self.part as nat
    }

    pub closed spec fn bins(&self) -> nat {
        self.bins as nat
    }

    pub closed spec fn capacity(&self) -> nat {
        self.max_parts as nat
    }

    /// The control state of zone `z`.
    pub closed spec fn branch(&self, z: int) -> Branch<S> {
        self.branches@[z]
    }

    /// The engine invariant: a valid geometry and well-formed zones.
    pub closed spec fn wf(&self) -> bool {
        &&& self.channels >= 1
        &&& self.part >= MIN_PARTITION
        &&& is_pow2(self.part as nat)
        &&& self.bins == self.part + 1
        &&& self.max_parts >= 2
        &&& self.max_parts * self.bins <= usize::MAX
        &&& self.branches@.len() == MAX_ZONES
        &&& forall|z: int|
            0 <= z < MAX_ZONES ==> #[trigger] self.branches@[z].wf(
                self.max_parts as nat,
                self.bins as nat,
            )
    }

    /// Same geometry as `other`.
    pub open spec fn same_geometry(&self, other: EngineCore<S>) -> bool {
        &&& self.channel_count() == other.channel_count()
        &&& self.partition_len() == other.partition_len()
        &&& self.bins() == other.bins()
        &&& self.capacity() == other.capacity()
    }

    /// Every zone but `zone` is as in `other`.
    pub open spec fn others_unchanged(&self, other: EngineCore<S>, zone: int) -> bool {
        forall|z: int| 0 <= z < MAX_ZONES && z != zone ==> #[trigger] self.branch(z) == other.branch(z)
    }

    proof fn lemma_wf_geometry(&self)
        requires
            self.wf(),
        ensures
            self.capacity() * self.partition_len() <= usize::MAX,
            self.capacity() + MAX_MORPH < usize::MAX,
            self.capacity() >= 2,
            self.partition_len() >= MIN_PARTITION,
            self.bins() == self.partition_len() + 1,
    {
        assert(self.max_parts * self.part <= self.max_parts * self.bins) by (nonlinear_arith)
            requires
                self.bins == self.part + 1,
        ;
        assert(self.max_parts * self.bins >= self.max_parts * 33) by (nonlinear_arith)
            requires
                self.bins >= 33,
        ;
    }

    /// Every zone's branch is well formed for the engine's geometry.
    pub proof fn lemma_zone_wf(&self, z: int)
        requires
            self.wf(),
            0 <= z < MAX_ZONES,
        ensures
            self.branch(z).wf(self.capacity(), self.bins()),
            self.capacity() >= 2,
    {
    }

    /// An engine with `channels` channels, partition length `partition`
    /// and room for IRs of up to `max_ir_samples` samples after stretch.
    pub fn new(channels: usize, partition: usize, max_ir_samples: usize) -> (e: Self)
        requires
            channels >= 1,
            partition >= MIN_PARTITION,
            is_pow2(partition as nat),
            spec_max_parts(max_ir_samples as int, partition as int) * (partition + 1) <= usize::MAX,
        ensures
            e.wf(),
            e.channel_count() == channels,
            e.partition_len() == partition,
            e.bins() == partition + 1,
            e.capacity() == spec_max_parts(max_ir_samples as int, partition as int),
            forall|z: int|
                0 <= z < MAX_ZONES ==> {
                    let b = #[trigger] e.branch(z);
                    &&& !b.busy()
                    &&& b.active_k == 0
                    &&& b.pending is None
                    &&& b.head == 0
                    &&& b.frame@ == 0
                    &&& b.live is None
                    &&& forall|i: int| 0 <= i < RING_SLOTS ==> b.ringing@[i] is None
                    &&& b.tail_pool@ == Seq::new(TAIL_BUFFERS as nat, |j: int| j as usize)
                    &&& b.retired@.len() == RETIRED_SLOTS
                    &&& forall|i: int| 0 <= i < RETIRED_SLOTS ==> b.retired@[i] is None
                },
    {
        let max_parts = max_parts_for(max_ir_samples, partition);
        let bins = partition + 1;
        let mut branches: Vec<Branch<S>> = Vec::new();
        let mut z: usize = 0;
        while z < MAX_ZONES
            invariant
                0 <= z <= MAX_ZONES,
                max_parts >= 2,
                branches@.len() == z,
                forall|j: int|
                    0 <= j < z ==> {
                        let b = #[trigger] branches@[j];
                        &&& b.wf(max_parts as nat, bins as nat)
                        &&& !b.busy()
                        &&& b.active_k == 0
                        &&& b.pending is None
                        &&& b.head == 0
                        &&& b.frame@ == 0
                        &&& b.live is None
                        &&& forall|i: int| 0 <= i < RING_SLOTS ==> b.ringing@[i] is None
                        &&& b.tail_pool@ == Seq::new(TAIL_BUFFERS as nat, |j: int| j as usize)
                        &&& b.retired@.len() == RETIRED_SLOTS
                    &&& forall|i: int| 0 <= i < RETIRED_SLOTS ==> b.retired@[i] is None
                    },
            decreases MAX_ZONES - z,
        {
            let b = Branch::new(max_parts);
            assert(b.wf(max_parts as nat, bins as nat));
            branches.push(b);
            z += 1;
        }
        EngineCore { channels, part: partition, bins, max_parts, branches }
    }

    pub fn channels(&self) -> (c: usize)
        ensures
            c == self.channel_count(),
    {
        self.channels
    }

    /// Partition length; also the engine's latency in samples.
    pub fn partition(&self) -> (p: usize)
        ensures
            p == self.partition_len(),
    {
        self.part
    }

    /// Reported latency: one partition.
    pub fn latency_samples(&self) -> (l: usize)
        ensures
            l == self.partition_len(),
    {
        self.part
    }

    pub fn bin_count(&self) -> (b: usize)
        ensures
            b == self.bins(),
    {
        self.bins
    }

    /// Preallocated partitions per IR bank and input ring.
    pub fn max_parts(&self) -> (m: usize)
        ensures
            m == self.capacity(),
    {
        self.max_parts
    }
}


/// Partitions of a zone still ringing: its IR bank, or the wider span of
/// an in-flight swap.
pub open spec fn tail_parts<S>(b: Branch<S>) -> int {
    match b.pending {
        Some(p) => if p.eff_k > b.active_k {
            p.eff_k as int
        } else {
            b.active_k as int
        },
        None => b.active_k as int,
    }
}

pub open spec fn max2(a: int, b: int) -> int {
    if a >= b {
        a
    } else {
        b
    }
}

impl<S> EngineCore<S> {
    /// Longest active tail in samples: over the zones, the partitions still
    /// ringing times the partition length.
    pub open spec fn spec_tail_samples(&self) -> int {
        self.partition_len() * max2(
            max2(tail_parts(self.branch(0)), tail_parts(self.branch(1))),
            max2(tail_parts(self.branch(2)), tail_parts(self.branch(3))),
        )
    }

    pub fn tail_samples(&self) -> (t: usize)
        requires
            self.wf(),
        ensures
            t == self.spec_tail_samples(),
    {
        proof {
            self.lemma_wf_geometry();
        }
        let mut best: usize = 0;
        let mut z: usize = 0;
        while z < MAX_ZONES
            invariant
                self.wf(),
                0 <= z <= MAX_ZONES,
                best <= self.max_parts,
                z == 0 ==> best == 0,
                z == 1 ==> best == tail_parts(self.branch(0)),
                z == 2 ==> best == max2(tail_parts(self.branch(0)), tail_parts(self.branch(1))),
                z == 3 ==> best == max2(
                    max2(tail_parts(self.branch(0)), tail_parts(self.branch(1))),
                    tail_parts(self.branch(2)),
                ),
                z == 4 ==> best == max2(
                    max2(tail_parts(self.branch(0)), tail_parts(self.branch(1))),
                    max2(tail_parts(self.branch(2)), tail_parts(self.branch(3))),
                ),
            decreases MAX_ZONES - z,
        {
            let b = &self.branches[z];
            assert(b.wf(self.max_parts as nat, self.bins as nat));
            let k = match &b.pending {
                Some(p) => if p.eff_k > b.active_k {
                    p.eff_k
                } else {
                    b.active_k
                },
                None => b.active_k,
            };
            if k > best || z == 0 {
                best = k;
            }
            z += 1;
        }
        proof {
            assert(best * self.part <= self.max_parts * self.part) by (nonlinear_arith)
                requires
                    best <= self.max_parts,
            ;
        }
        best * self.part
    }

    /// Take one spent set of `zone` for disposal off the audio thread
    /// (call until `None`): the first occupied retired slot, in slot order.
    pub fn take_retired(&mut self, zone: usize) -> (r: Option<PartitionSet<S>>)
        requires
            old(self).wf(),
            zone < MAX_ZONES,
        ensures
            final(self).wf(),
            final(self).same_geometry(*old(self)),
            final(self).others_unchanged(*old(self), zone as int),
            took_retired(old(self).branch(zone as int), final(self).branch(zone as int), r),
    {
        let mp = Ghost(self.max_parts as nat);
        let bn = Ghost(self.bins as nat);
        let b = &mut self.branches[zone];
        b.take_retired(mp, bn)
    }

    /// Hand a rendered set to a zone. `Err(set)` exactly when its geometry
    /// does not match the engine's (spectrum bins, partition capacity, at
    /// least one channel); nothing changes then. `ring` is the requested
    /// ring-out depth, taken within `1..=RING_SLOTS`.
    ///
    /// [`TailMode::Gated`]: the live voice (if any) rings out, an in-flight
    /// swap is displaced (its target retired) and `set` streams into the
    /// IR bank from partition 0 — latest wins.
    ///
    /// [`TailMode::Ungated`]: an in-flight swap's target is retired, an
    /// audible IR bank streams out to silence, the live voice freezes and
    /// rings out, and `set` becomes the new live voice, hearing input from
    /// the next frame on.
    pub fn queue_partition_set(
        &mut self,
        zone: usize,
        set: PartitionSet<S>,
        tails: TailMode,
        ring: usize,
    ) -> (r: Result<(), PartitionSet<S>>)
        requires
            old(self).wf(),
            zone < MAX_ZONES,
        ensures
            final(self).wf(),
            final(self).same_geometry(*old(self)),
            final(self).others_unchanged(*old(self), zone as int),
            r is Ok <==> set_fits(set, old(self).capacity(), old(self).bins()),
            r matches Err(s) ==> s == set && final(self).branch(zone as int) == old(self).branch(
                zone as int,
            ),
            r is Ok && tails == TailMode::Gated ==> queued_gated(
                old(self).branch(zone as int),
                final(self).branch(zone as int),
                set,
                clamp(ring as int, 1, RING_SLOTS as int),
            ),
            r is Ok && tails == TailMode::Ungated ==> queued_ungated(
                old(self).branch(zone as int),
                final(self).branch(zone as int),
                set,
                clamp(ring as int, 1, RING_SLOTS as int),
            ),
    {
        let cap = clamp_usize(ring, 1, RING_SLOTS);
        if set.bin_count() != self.bins || set.partitions() > self.max_parts || set.channels()
            == 0 {
            return Err(set);
        }
        let mp = Ghost(self.max_parts as nat);
        let bn = Ghost(self.bins as nat);
        let b = &mut self.branches[zone];
        match tails {
            TailMode::Gated => {
                b.queue_gated(set, cap, mp, bn);
            },
            TailMode::Ungated => {
                b.queue_ungated(set, cap, mp, bn);
            },
        }
        Ok(())
    }

    /// Load a freshly rendered set into a zone (the engine side of
    /// replacing a zone's source IR). An empty branch (no IR, no swap)
    /// gets it installed directly: the set is handed back so its spectra
    /// can be copied into the IR bank. Otherwise it streams in as a gated
    /// hand-over at full ring depth (a set of another geometry is dropped
    /// instead), and every retired set of the zone is dropped.
    pub fn load_set(&mut self, zone: usize, set: PartitionSet<S>) -> (r: Option<PartitionSet<S>>)
        requires
            old(self).wf(),
            zone < MAX_ZONES,
            old(self).branch(zone as int).active_k == 0 && old(self).branch(zone as int).pending is None
                ==> set_fits(set, old(self).capacity(), old(self).bins()),
        ensures
            final(self).wf(),
            final(self).same_geometry(*old(self)),
            final(self).others_unchanged(*old(self), zone as int),
            ({
                let b0 = old(self).branch(zone as int);
                let b1 = final(self).branch(zone as int);
                if b0.active_k == 0 && b0.pending is None {
                    r == Some(set) && installed(b0, b1, set)
                } else {
                    &&& r is None
                    &&& set_fits(set, old(self).capacity(), old(self).bins()) ==> exists|mid: Branch<S>|
                        queued_gated(b0, mid, set, RING_SLOTS as int) && b1.same_bank(mid)
                            && b1.live == mid.live && b1.ringing@ == mid.ringing@
                            && b1.tail_pool@ == mid.tail_pool@ && b1.frame@ == mid.frame@
                    &&& !set_fits(set, old(self).capacity(), old(self).bins()) ==> b1.same_bank(b0)
                        && b1.live == b0.live && b1.ringing@ == b0.ringing@ && b1.tail_pool@
                        == b0.tail_pool@ && b1.frame@ == b0.frame@
                    &&& forall|i: int| 0 <= i < b1.retired@.len() ==> #[trigger] b1.retired@[i] is None
                }
            }),
    {
        let mp = Ghost(self.max_parts as nat);
        let bn = Ghost(self.bins as nat);
        let fresh = {
            let b = &self.branches[zone];
            b.active_k == 0 && b.pending.is_none()
        };
        if fresh {
            let b = &mut self.branches[zone];
            b.install(&set, mp, bn);
            return Some(set);
        }
        let fits = set.bin_count() == self.bins && set.partitions() <= self.max_parts
            && set.channels() > 0;
        if fits {
            let b = &mut self.branches[zone];
            b.queue_gated(set, RING_SLOTS, mp, bn);
        }
        let ghost mid = self.branches@[zone as int];
        assert(fits ==> queued_gated(old(self).branch(zone as int), mid, set, RING_SLOTS as int));
        loop
            invariant
                self.wf(),
                zone < MAX_ZONES,
                self.same_geometry(*old(self)),
                self.others_unchanged(*old(self), zone as int),
                self.branch(zone as int).same_bank(mid),
                self.branch(zone as int).live == mid.live,
                self.branch(zone as int).ringing@ == mid.ringing@,
                self.branch(zone as int).tail_pool@ == mid.tail_pool@,
                self.branch(zone as int).frame@ == mid.frame@,
            ensures
                forall|i: int|
                    0 <= i < self.branch(zone as int).retired@.len() ==> #[trigger] self.branch(zone as int).retired@[i] is None,
            decreases self.branch(zone as int).retired@.filter(|o: Option<PartitionSet<S>>| o is Some).len(),
        {
            let ghost before = self.branch(zone as int).retired@;
            let t = self.take_retired(zone);
            match t {
                Some(_) => {
                    proof {
                        let i = first_some_from(before, 0);
                        lemma_first_some_from_range(before, 0);
                        lemma_filter_some_drop(before, i);
                    }
                },
                None => {
                    proof {
                        lemma_first_some_from_range(before, 0);
                        lemma_first_some_none(before, 0);
                        assert(self.branch(zone as int).wf(self.max_parts as nat, self.bins as nat));
                    }
                    break;
                },
            }
        }
        assert(fits ==> queued_gated(old(self).branch(zone as int), mid, set, RING_SLOTS as int));
        None
    }
}

/// Clearing an occupied slot lowers the count of occupied slots.
pub proof fn lemma_filter_some_drop<T>(s: Seq<Option<T>>, i: int)
    requires
        0 <= i < s.len(),
        s[i] is Some,
    ensures
        s.update(i, None).filter(|o: Option<T>| o is Some).len() < s.filter(|o: Option<T>| o is Some).len(),
    decreases s.len(),
{
    reveal(Seq::filter);
    let f = |o: Option<T>| o is Some;
    let u = s.update(i, None);
    if i == s.len() - 1 {
        assert(u.drop_last() =~= s.drop_last());
    } else {
        lemma_filter_some_drop(s.drop_last(), i);
        assert(u.drop_last() =~= s.drop_last().update(i, None));
    }
}

/// No occupied slot from `i` on when the search finds none.
pub proof fn lemma_first_some_none<T>(s: Seq<Option<T>>, i: int)
    requires
        0 <= i,
        first_some_from(s, i) == -1,
    ensures
        forall|j: int| i <= j < s.len() ==> s[j] is None,
    decreases s.len() - i,
{
    if i < s.len() {
        lemma_first_some_none(s, i + 1);
    }
}


impl<S> EngineCore<S> {
    /// Clear all signal state: every zone completes its in-flight swap at
    /// once, retires its ring-out voices and returns its input-ring head to
    /// slot 0. Loaded IRs are kept: the installed IR bank, and the live
    /// voice's IR, whose epoch restarts at the current frame.
    pub fn reset(&mut self)
        requires
            old(self).wf(),
        ensures
            final(self).wf(),
            final(self).same_geometry(*old(self)),
            forall|z: int|
                0 <= z < MAX_ZONES ==> was_reset(old(self).branch(z), #[trigger] final(self).branch(z)),
    {
        let mp = Ghost(self.max_parts as nat);
        let bn = Ghost(self.bins as nat);
        let mut z: usize = 0;
        while z < MAX_ZONES
            invariant
                self.wf(),
                self.same_geometry(*old(self)),
                self.max_parts as nat == mp@,
                self.bins as nat == bn@,
                0 <= z <= MAX_ZONES,
                forall|j: int| 0 <= j < z ==> was_reset(old(self).branch(j), #[trigger] self.branch(j)),
                forall|j: int| z <= j < MAX_ZONES ==> #[trigger] self.branch(j) == old(self).branch(j),
            decreases MAX_ZONES - z,
        {
            assert(self.branches@[z as int].wf(mp@, bn@));
            let ghost before = self.branches@;
            assert(self.branch(z as int) == old(self).branch(z as int));
            assert forall|j: int| z <= j < MAX_ZONES implies before[j] == old(self).branch(j) by {
                assert(self.branch(j) == old(self).branch(j));
            }
            assert forall|j: int| 0 <= j < z implies was_reset(old(self).branch(j), before[j]) by {
                assert(was_reset(old(self).branch(j), self.branch(j)));
            }
            let b = &mut self.branches[z];
            b.reset(mp, bn);
            assert(self.branches@ == before.update(z as int, self.branches@[z as int]));
            assert(was_reset(old(self).branch(z as int), self.branch(z as int)));
            assert forall|j: int| 0 <= j < z + 1 implies was_reset(old(self).branch(j), #[trigger] self.branch(j)) by {
                if j < z {
                    assert(self.branch(j) == before[j]);
                }
            }
            assert forall|j: int| z + 1 <= j < MAX_ZONES implies #[trigger] self.branch(j) == old(self).branch(j) by {
                assert(self.branch(j) == before[j]);
            }
            z += 1;
        }
    }

    /// Which rendering carries zone `zone`'s current size, for comparing
    /// with a requested size: in ungated mode a live voice older than
    /// [`RETARGET_MIN_AGE`] frames; else the IR bank, when it holds an IR
    /// and no swap is in flight; else nothing.
    pub fn current_render(&self, zone: usize, tails: TailMode) -> (r: RenderRef)
        requires
            self.wf(),
            zone < MAX_ZONES,
        ensures
            r == ({
                let b = self.branch(zone as int);
                if tails == TailMode::Ungated && (b.live matches Some(v) && v.age > RETARGET_MIN_AGE) {
                    RenderRef::LiveVoice
                } else if b.pending is None && b.active_k > 0 {
                    RenderRef::Bank
                } else {
                    RenderRef::Nothing
                }
            }),
    {
        let b = &self.branches[zone];
        let live_old = match &b.live {
            Some(v) => v.age > RETARGET_MIN_AGE,
            None => false,
        };
        if tails == TailMode::Ungated && live_old {
            RenderRef::LiveVoice
        } else if b.pending.is_none() && b.active_k > 0 {
            RenderRef::Bank
        } else {
            RenderRef::Nothing
        }
    }

    /// Whether zone `zone` takes part in the next frame: it holds an IR, a
    /// swap or a voice.
    pub fn zone_busy(&self, zone: usize) -> (r: bool)
        requires
            self.wf(),
            zone < MAX_ZONES,
        ensures
            r == self.branch(zone as int).busy(),
            self.branch(zone as int).active_k > 0 ==> r,
            self.branch(zone as int).pending is Some ==> r,
            self.branch(zone as int).live is Some ==> r,
            forall|i: int|
                0 <= i < RING_SLOTS && #[trigger] self.branch(zone as int).ringing@[i] is Some ==> r,
            !r ==> self.branch(zone as int).active_k == 0 && self.branch(zone as int).pending is None
                && self.branch(zone as int).live is None && forall|i: int|
                0 <= i < RING_SLOTS ==> #[trigger] self.branch(zone as int).ringing@[i] is None,
    {
        let b = &self.branches[zone];
        assert(b.wf(self.max_parts as nat, self.bins as nat));
        b.is_busy()
    }

    /// Partitions of zone `zone`'s IR bank in use.
    pub fn active_parts(&self, zone: usize) -> (k: usize)
        requires
            self.wf(),
            zone < MAX_ZONES,
        ensures
            k == self.branch(zone as int).active_k,
    {
        self.branches[zone].active_k
    }

    /// Advance zone `zone`'s in-flight swap (if any) by `morph` partitions,
    /// taken within `1..=MAX_MORPH`, for one frame whose blends use a write
    /// fade of `fade` frames, taken within `1..=MAX_FADE` (the same fade the
    /// caller passes to [`Self::swap_window`] for that frame).
    pub fn advance_swap(&mut self, zone: usize, morph: usize, fade: usize)
        requires
            old(self).wf(),
            zone < MAX_ZONES,
        ensures
            final(self).wf(),
            final(self).same_geometry(*old(self)),
            final(self).others_unchanged(*old(self), zone as int),
            swap_advanced(
                old(self).branch(zone as int),
                final(self).branch(zone as int),
                clamp(morph as int, 1, MAX_MORPH as int),
                clamp(fade as int, 1, MAX_FADE as int),
            ),
    {
        proof {
            self.lemma_wf_geometry();
        }
        let steps = clamp_usize(morph, 1, MAX_MORPH);
        let f = clamp_usize(fade, 1, MAX_FADE);
        let mp = Ghost(self.max_parts as nat);
        let bn = Ghost(self.bins as nat);
        let b = &mut self.branches[zone];
        b.advance_swap(steps, f, mp, bn);
    }

    /// Blend window of stage `s` (`1..=MAX_FADE`) of zone `zone`'s in-flight
    /// swap under a write fade of `fade` frames (taken within
    /// `1..=MAX_FADE`): partitions `[lo, hi)` move `1/den` of the way to
    /// their target; `den == 1` writes the target exactly.
    pub fn swap_window(&self, zone: usize, s: usize, fade: usize) -> (r: (usize, usize, usize))
        requires
            self.wf(),
            zone < MAX_ZONES,
            self.branch(zone as int).pending is Some,
            1 <= s <= MAX_FADE,
        ensures
            ({
                let pd = self.branch(zone as int).pending->0;
                &&& r.0 == pd.hist@[s as int]
                &&& r.1 == pd.hist@[s - 1]
                &&& r.2 == stage_den(s as int, clamp(fade as int, 1, MAX_FADE as int))
            }),
    {
        let f = clamp_usize(fade, 1, MAX_FADE);
        self.branches[zone].swap_window(s, f)
    }

    /// `(cursor, eff_k)` of zone `zone`'s in-flight swap, when it covers
    /// any partition; its progress is `cursor / eff_k`.
    pub fn swap_progress(&self, zone: usize) -> (r: Option<(usize, usize)>)
        requires
            self.wf(),
            zone < MAX_ZONES,
        ensures
            r == (match self.branch(zone as int).pending {
                Some(pd) => if pd.eff_k > 0 {
                    Some((pd.cursor, pd.eff_k))
                } else {
                    None
                },
                None => None,
            }),
    {
        self.branches[zone].swap_progress()
    }

    /// Complete zone `zone`'s swap once every partition has passed the last
    /// blend stage: its target becomes the installed IR and is retired.
    pub fn complete_swap(&mut self, zone: usize) -> (done: bool)
        requires
            old(self).wf(),
            zone < MAX_ZONES,
        ensures
            final(self).wf(),
            final(self).same_geometry(*old(self)),
            final(self).others_unchanged(*old(self), zone as int),
            swap_checked(old(self).branch(zone as int), final(self).branch(zone as int), done),
            done ==> forall|p: int|
                0 <= p < old(self).capacity() ==> #[trigger] final(self).branch(zone as int).hbank@[p]
                    == old(self).branch(zone as int).pending->0.target(p),
    {
        let mp = Ghost(self.max_parts as nat);
        let bn = Ghost(self.bins as nat);
        let b = &mut self.branches[zone];
        b.complete_swap_if_done(mp, bn)
    }

    /// Step zone `zone`'s input-ring head for a new frame; returns the new
    /// head slot and the IR bank's active partition count.
    pub fn advance_head(&mut self, zone: usize) -> (r: (usize, usize))
        requires
            old(self).wf(),
            zone < MAX_ZONES,
        ensures
            final(self).wf(),
            final(self).same_geometry(*old(self)),
            final(self).others_unchanged(*old(self), zone as int),
            ({
                let b0 = old(self).branch(zone as int);
                let b1 = final(self).branch(zone as int);
                &&& b1.head == (b0.head + 1) % (old(self).capacity() as int)
                &&& r.0 == b1.head
                &&& r.1 == b0.active_k
                &&& b1.active_k == b0.active_k
                &&& b1.pending == b0.pending
                &&& b1.ir_ch == b0.ir_ch
                &&& b1.hbank@ == b0.hbank@
                &&& b1.current@ == b0.current@
                &&& b1.same_voices(b0)
            }),
    {
        let mp = self.max_parts;
        assert(self.branches@[zone as int].wf(mp as nat, self.bins as nat));
        let b = &mut self.branches[zone];
        b.advance_head(mp)
    }

    /// The plan of voice `vi` of zone `zone` for the current frame: 0 is
    /// the live voice, `1..=RING_SLOTS` the ring-out slots. A live voice
    /// hears exactly the lags back to its epoch's start; a frozen voice
    /// exactly the lags of its own epoch.
    pub fn voice_plan(&self, zone: usize, vi: usize) -> (r: Option<VoicePlan>)
        requires
            self.wf(),
            zone < MAX_ZONES,
            vi <= RING_SLOTS,
        ensures
            ({
                let b = self.branch(zone as int);
                &&& vi == 0 ==> match b.live {
                    Some(v) => r matches Some(p) && plan_of(p, v, false, b.frame@) && (p.lo as int, p.hi as int)
                        == live_window(v),
                    None => r is None,
                }
                &&& vi > 0 ==> match b.ringing@[vi - 1] {
                    Some(v) => r matches Some(p) && plan_of(p, v, true, b.frame@) && (p.lo as int, p.hi as int)
                        == frozen_window(v),
                    None => r is None,
                }
            }),
    {
        let mp = Ghost(self.max_parts as nat);
        let bn = Ghost(self.bins as nat);
        let b = &self.branches[zone];
        assert(b.wf(mp@, bn@));
        b.voice_plan(vi, mp, bn)
    }

    /// End of a frame for zone `zone`: voices age, finished ring-out voices
    /// leave, slots beyond the ring depth `ring` (taken within
    /// `1..=RING_SLOTS`) start dying, and dying voices halve their gain.
    pub fn end_frame(&mut self, zone: usize, ring: usize)
        requires
            old(self).wf(),
            zone < MAX_ZONES,
        ensures
            final(self).wf(),
            final(self).same_geometry(*old(self)),
            final(self).others_unchanged(*old(self), zone as int),
            frame_ended(
                old(self).branch(zone as int),
                final(self).branch(zone as int),
                clamp(ring as int, 1, RING_SLOTS as int),
            ),
    {
        proof {
            self.lemma_wf_geometry();
        }
        let cap = clamp_usize(ring, 1, RING_SLOTS);
        let mp = Ghost(self.max_parts as nat);
        let bn = Ghost(self.bins as nat);
        let b = &mut self.branches[zone];
        b.end_frame(cap, mp, bn);
    }

    /// The target set of zone `zone`'s in-flight swap, if any.
    pub fn pending_set(&self, zone: usize) -> (r: Option<&PartitionSet<S>>)
        requires
            self.wf(),
            zone < MAX_ZONES,
        ensures
            match r {
                Some(s) => self.branch(zone as int).pending matches Some(pd) && pd.set == Some(*s),
                None => !(self.branch(zone as int).pending matches Some(pd) && pd.set is Some),
            },
    {
        match &self.branches[zone].pending {
            Some(pd) => match &pd.set {
                Some(s) => Some(s),
                None => None,
            },
            None => None,
        }
    }

    /// The set of voice `vi` of zone `zone` (0: live, `1..=RING_SLOTS`:
    /// ring-out slots).
    pub fn voice_set(&self, zone: usize, vi: usize) -> (r: Option<&PartitionSet<S>>)
        requires
            self.wf(),
            zone < MAX_ZONES,
            vi <= RING_SLOTS,
        ensures
            ({
                let b = self.branch(zone as int);
                let v = if vi == 0 {
                    b.live
                } else {
                    b.ringing@[vi - 1]
                };
                match r {
                    Some(s) => v matches Some(v) && v.set == *s,
                    None => v is None,
                }
            }),
    {
        let b = &self.branches[zone];
        assert(b.wf(self.max_parts as nat, self.bins as nat));
        let v = if vi == 0 {
            &b.live
        } else {
            &b.ringing[vi - 1]
        };
        match v {
            Some(v) => Some(&v.set),
            None => None,
        }
    }

    /// The tail buffer of zone `zone`'s live voice.
    pub fn live_tail(&self, zone: usize) -> (r: Option<usize>)
        requires
            self.wf(),
            zone < MAX_ZONES,
        ensures
            r == (match self.branch(zone as int).live {
                Some(v) => Some(v.tail),
                None => None,
            }),
    {
        match &self.branches[zone].live {
            Some(v) => Some(v.tail),
            None => None,
        }
    }
}

} // verus!
