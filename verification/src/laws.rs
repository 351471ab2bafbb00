//! Properties of the engine that span several operations or hold of every
//! state it can reach.

use vstd::prelude::*;
use crate::control::EngineCore;
use crate::engine::{
    first_none, fresh_swap, freeze_result, frozen, froze, hears, queued_gated, queued_ungated,
    retire_pending, retired_after, swap_checked, was_reset, Branch, LayerVoice, PartContent,
    Pending, HIST_LEN, MAX_FADE, RING_SLOTS, TAIL_BUFFERS, all_tail_buffers, ring_tails,
    voice_tails, live_wf, ring_wf, stage_den, first_none_from, slot_dying, slot_fade, slot_age,
    slots_full, frame_ended, slot_after_frame, fade_victim, fade_candidate, quietest_dying,
    DEATH_FADE, installed, lemma_all_empty_ring_tails,
};
use crate::geometry::MAX_ZONES;
use crate::partition::PartitionSet;

verus! {

/// IR partitions after a zone's active count are always zero: growing the
/// IR exposes only silence until the new region is written.
pub proof fn law_bank_zero_beyond_active<S>(e: EngineCore<S>, z: int, p: int)
    requires
        e.wf(),
        0 <= z < MAX_ZONES,
        e.branch(z).active_k <= p < e.capacity(),
    ensures
        e.branch(z).hbank@[p] == PartContent::<S>::Zero,
{
    e.lemma_zone_wf(z);
}

/// Parking a set in the retired queue keeps every set already parked and
/// holds the new one, as long as a slot is free.
pub proof fn law_retire_keeps_when_room<S>(retired: Seq<Option<PartitionSet<S>>>, set: PartitionSet<S>)
    requires
        first_none(retired) >= 0,
    ensures
        forall|i: int|
            0 <= i < retired.len() && retired[i] is Some ==> #[trigger] retired_after(retired, set)[i]
                == retired[i],
        retired_after(retired, set)[first_none(retired)] == Some(set),
        retired_after(retired, set).contains(Some(set)),
        retired_after(retired, set).len() == retired.len(),
{
    crate::engine::lemma_first_none_from_range(retired, 0);
    let i = first_none(retired);
    assert(retired_after(retired, set)[i] == Some(set));
}

/// The newest request always wins: of two gated hand-overs in a row, the
/// second set is the swap's target, streaming from partition 0, over a
/// span covering every IR involved; the displaced first set is parked in
/// the retired queue (kept there whenever a slot was free).
pub proof fn law_latest_request_wins<S>(
    b0: Branch<S>,
    b1: Branch<S>,
    b2: Branch<S>,
    s1: PartitionSet<S>,
    s2: PartitionSet<S>,
    cap: int,
)
    requires
        queued_gated(b0, b1, s1, cap),
        queued_gated(b1, b2, s2, cap),
    ensures
        b2.pending matches Some(p) && p.set == Some(s2) && p.cursor == 0,
        b2.active_k >= s2.k(),
        b2.active_k >= s1.k(),
        b2.active_k >= b0.active_k,
        b2.live is None,
        b2.retired@ == retired_after(b1.retired@, s1),
        first_none(b1.retired@) >= 0 ==> b2.retired@.contains(Some(s1)),
{
    let ret = choose|ret: Seq<Option<PartitionSet<S>>>|
        froze(
            b1.live,
            b1.ringing@,
            b1.tail_pool@,
            b1.retired@,
            b1.frame@,
            cap,
            b2.ringing@,
            b2.tail_pool@,
            ret,
        ) && b2.retired@ == retire_pending(ret, b1.pending);
    assert(ret == b1.retired@);
    if first_none(b1.retired@) >= 0 {
        law_retire_keeps_when_room(b1.retired@, s1);
    }
}

/// A completed swap leaves the IR bank holding exactly its target: the
/// new set's partitions in order, silence beyond.
pub proof fn law_swap_done_installs_target<S>(b0: Branch<S>, b1: Branch<S>, max_parts: nat, bins: nat)
    requires
        b0.wf(max_parts, bins),
        b1.wf(max_parts, bins),
        swap_checked(b0, b1, true),
    ensures
        b1.pending is None,
        b1.active_k == b0.pending->0.target_k(),
        forall|p: int| 0 <= p < max_parts ==> #[trigger] b1.hbank@[p] == b0.pending->0.target(p),
{
    let pd = b0.pending->0;
    assert forall|p: int| 0 <= p < max_parts implies #[trigger] b1.hbank@[p] == pd.target(p) by {
        if p >= b1.active_k {
            assert(b1.hbank@[p] == PartContent::<S>::Zero);
        } else {
            assert(b1.hbank@[p] == PartContent::Exact(b1.current@->0, p));
        }
    }
}

/// A reset settles a zone and keeps its IRs: no swap is left in flight,
/// the IR bank holds exactly the set it was heading for (or kept), the
/// live voice keeps its IR with a new epoch starting now, no ring-out voice
/// is left, and every tail buffer but the live voice's is back in the pool.
pub proof fn law_reset_settles<S>(b0: Branch<S>, b1: Branch<S>, max_parts: nat, bins: nat)
    requires
        b0.wf(max_parts, bins),
        b1.wf(max_parts, bins),
        was_reset(b0, b1),
    ensures
        b1.pending is None,
        b1.head == 0,
        forall|i: int| 0 <= i < RING_SLOTS ==> #[trigger] b1.ringing@[i] is None,
        b0.live is Some <==> b1.live is Some,
        b1.live matches Some(v) ==> v.set == b0.live->0.set && v.age == 0 && v.start@ == b0.frame@,
        b1.tail_pool@.to_multiset().add(voice_tails(b1.live).to_multiset()) == all_tail_buffers(),
        b1.active_k == (match b0.pending {
            Some(pd) => pd.target_k(),
            None => b0.active_k as nat,
        }),
        forall|p: int|
            0 <= p < b1.active_k ==> #[trigger] b1.hbank@[p] == PartContent::Exact(b1.current@->0, p),
        b1.active_k > 0 ==> b1.current@ == (match b0.pending {
            Some(pd) => pd.set,
            None => b0.current@,
        }),
{
    lemma_all_empty_ring_tails(b1.ringing@);
    assert(b1.tails() =~= b1.tail_pool@ + voice_tails(b1.live));
    vstd::seq_lib::lemma_multiset_commutative(b1.tail_pool@, voice_tails(b1.live));
}

/// The IR a zone was last handed: the target of a swap in flight, else
/// the installed set.
pub open spec fn latest_set<S>(b: Branch<S>) -> Option<PartitionSet<S>> {
    match b.pending {
        Some(pd) => pd.set,
        None => if b.active_k > 0 {
            b.current@
        } else {
            None
        },
    }
}

/// A reset zone is a fresh zone given its latest IR: after a reset, a zone
/// run in gated mode (no voices) holds the same IR bank, partition count
/// and installed set as a new zone into which that IR was loaded, and,
/// like it, no swap, no voice and an input-ring head at slot 0.
pub proof fn law_reset_is_fresh_load<S>(
    b0: Branch<S>,
    b1: Branch<S>,
    f0: Branch<S>,
    f1: Branch<S>,
    max_parts: nat,
    bins: nat,
)
    requires
        b0.wf(max_parts, bins),
        b1.wf(max_parts, bins),
        was_reset(b0, b1),
        b0.live is None,
        forall|i: int| 0 <= i < RING_SLOTS ==> #[trigger] b0.ringing@[i] is None,
        f0.wf(max_parts, bins),
        f0.active_k == 0,
        f0.pending is None,
        f0.live is None,
        f0.head == 0,
        forall|i: int| 0 <= i < RING_SLOTS ==> #[trigger] f0.ringing@[i] is None,
        latest_set(b0) matches Some(s) ==> installed(f0, f1, s),
        latest_set(b0) is None ==> f1 == f0,
    ensures
        b1.hbank@ == f1.hbank@,
        b1.active_k == f1.active_k,
        b1.pending == f1.pending,
        b1.live == f1.live,
        b1.head == f1.head,
        forall|i: int| 0 <= i < RING_SLOTS ==> #[trigger] b1.ringing@[i] == f1.ringing@[i],
        latest_set(b0) is Some ==> b1.current@ == f1.current@,
{
    assert(f0.hbank@.len() == max_parts && b0.hbank@.len() == max_parts);
    assert forall|p: int| 0 <= p < max_parts implies #[trigger] f0.hbank@[p] == PartContent::<S>::Zero by {}
    match latest_set(b0) {
        Some(s) => {
            assert forall|p: int| 0 <= p < max_parts implies #[trigger] b1.hbank@[p] == f1.hbank@[p] by {
                if b0.pending is None {
                    if p < b0.active_k {
                        assert(b0.hbank@[p] == PartContent::Exact(b0.current@->0, p));
                    }
                } else {
                    if p >= b0.active_k {
                        assert(b0.hbank@[p] == PartContent::<S>::Zero);
                    }
                }
            }
            assert(b1.hbank@ =~= f1.hbank@);
        },
        None => {
            assert forall|p: int| 0 <= p < max_parts implies #[trigger] b1.hbank@[p] == f1.hbank@[p] by {
                if p >= b0.active_k {
                    assert(b0.hbank@[p] == PartContent::<S>::Zero);
                }
            }
            assert(b1.hbank@ =~= f1.hbank@);
        },
    }
}

pub open spec fn min_int(a: int, b: int) -> int {
    if a <= b {
        a
    } else {
        b
    }
}

/// `ps` is one swap frame by frame from its start, advancing `steps`
/// partitions each frame.
pub open spec fn swap_run<S>(ps: Seq<Pending<S>>, steps: int) -> bool {
    &&& ps.len() >= 1
    &&& fresh_swap(ps[0], ps[0].set, ps[0].eff_k as int)
    &&& forall|n: int| 0 <= n < ps.len() - 1 ==> #[trigger] ps[n].advanced_to(ps[n + 1], steps)
}

/// Frame `n` of a swap run: the cursor has covered `n * steps` partitions
/// (at most the span), and `hist[s]` is the cursor of `s` frames before.
proof fn lemma_swap_run_state<S>(ps: Seq<Pending<S>>, steps: int, n: int)
    requires
        swap_run(ps, steps),
        steps >= 1,
        0 <= n < ps.len(),
    ensures
        ps[n].set == ps[0].set,
        ps[n].eff_k == ps[0].eff_k,
        ps[n].cursor == min_int(n * steps, ps[0].eff_k as int),
        forall|s: int|
            0 <= s < HIST_LEN ==> #[trigger] ps[n].hist@[s] == (if n >= s {
                min_int((n - s) * steps, ps[0].eff_k as int)
            } else {
                0
            }),
    decreases n,
{
    let e = ps[0].eff_k as int;
    if n > 0 {
        lemma_swap_run_state(ps, steps, n - 1);
        let m = n - 1;
        assert(ps[m].advanced_to(ps[m + 1], steps));
        assert(m + 1 == n);
        assert((n - 1) * steps + steps == n * steps) by (nonlinear_arith);
        assert((n - 1) * steps >= 0) by (nonlinear_arith)
            requires
                n >= 1,
                steps >= 1,
        ;
        assert forall|s: int| 0 <= s < HIST_LEN implies #[trigger] ps[n].hist@[s] == (if n >= s {
            min_int((n - s) * steps, e)
        } else {
            0
        }) by {
            if s > 0 {
                assert(ps[n].hist@[s] == ps[n - 1].hist@[s - 1]);
                assert((n - 1) - (s - 1) == n - s);
            }
        }
    } else {
        assert(0 * steps == 0);
    }
}

/// How long a swap takes: streaming `steps` partitions per frame (the
/// Morph setting) over a span of `eff_k` partitions, the cursor has
/// covered `min(n * steps, eff_k)` partitions after `n` frames, and the
/// swap is complete exactly once the last partition has also passed the
/// `MAX_FADE` blend stages: `eff_k == 0`, or `n >= MAX_FADE` and
/// `(n - MAX_FADE) * steps >= eff_k`.
pub proof fn law_swap_duration<S>(ps: Seq<Pending<S>>, steps: int, n: int)
    requires
        swap_run(ps, steps),
        steps >= 1,
        0 <= n < ps.len(),
    ensures
        ps[n].set == ps[0].set,
        ps[n].eff_k == ps[0].eff_k,
        ps[n].cursor == min_int(n * steps, ps[0].eff_k as int),
        ps[n].done() <==> (ps[0].eff_k == 0 || (n >= MAX_FADE && (n - MAX_FADE) * steps
            >= ps[0].eff_k)),
{
    lemma_swap_run_state(ps, steps, n);
    let e = ps[0].eff_k as int;
    assert(ps[n].hist@[MAX_FADE as int] == (if n >= MAX_FADE {
        min_int((n - MAX_FADE) * steps, e)
    } else {
        0
    }));
    if n >= MAX_FADE {
        assert((n - MAX_FADE) * steps <= n * steps) by (nonlinear_arith)
            requires
                steps >= 1,
                n >= MAX_FADE,
        ;
    }
}

/// An ungated IR change splits the input between the voices: the old live
/// voice freezes into a ring-out slot and keeps exactly the input before
/// the change, the new live voice hears exactly the input from the change
/// on. At every frame, a lag within both IRs whose input frame belongs to
/// the old voice's epoch or later is heard by exactly one of the two: their
/// sum is one unbroken convolution, with no crossfade.
pub proof fn law_ungated_split<S>(
    b0: Branch<S>,
    b1: Branch<S>,
    set: PartitionSet<S>,
    cap: int,
    max_parts: nat,
    bins: nat,
)
    requires
        b0.wf(max_parts, bins),
        1 <= cap <= RING_SLOTS,
        queued_ungated(b0, b1, set, cap),
        b0.live is Some,
    ensures
        exists|i: int| 0 <= i < cap && b1.ringing@[i] == Some(frozen(b0.live->0, b0.frame@)),
        b1.live matches Some(v) && v.set == set && v.start@ == b0.frame@,
        forall|f: int, j: int|
            0 <= j < b0.live->0.set.k() && 0 <= j < set.k() && b0.live->0.start@ <= f - j ==> (
            hears(frozen(b0.live->0, b0.frame@), true, f, j) <==> !hears(b1.live->0, false, f, j)),
{
    let v = b0.live->0;
    let fz = frozen(v, b0.frame@);
    let pool = choose|pool: Seq<usize>|
        froze(
            b0.live,
            b0.ringing@,
            b0.tail_pool@,
            retire_pending(b0.retired@, b0.pending),
            b0.frame@,
            cap,
            b1.ringing@,
            pool,
            b1.retired@,
        ) && pool.len() > 0 && b1.tail_pool@ == pool.drop_last() && b1.live->0.tail == pool.last();
    let (slot, victim) = choose|slot: int, victim: Option<int>|
        freeze_result(
            v,
            b0.ringing@,
            b0.tail_pool@,
            retire_pending(b0.retired@, b0.pending),
            b0.frame@,
            cap,
            slot,
            victim,
            b1.ringing@,
            pool,
            b1.retired@,
        );
    let placed = b0.ringing@.update(slot, Some(fz));
    assert(0 <= slot < cap);
    match victim {
        Some(i) => {
            assert(crate::engine::fade_victim(placed, cap, i));
            assert(i != slot);
            assert(b1.ringing@[slot] == Some(fz));
        },
        None => {
            assert(b1.ringing@[slot] == Some(fz));
        },
    }
}

/// A ring slot's voice contributes one count of its tail buffer.
proof fn lemma_slot_tail_count<S>(r: Seq<Option<LayerVoice<S>>>, i: int)
    requires
        0 <= i < r.len(),
        r[i] is Some,
    ensures
        ring_tails(r).to_multiset().count(r[i]->0.tail) == ring_tails(r.update(i, None)).to_multiset().count(
            r[i]->0.tail,
        ) + 1,
{
    broadcast use vstd::multiset::group_multiset_axioms;
    broadcast use vstd::seq_lib::group_to_multiset_ensures;

    let t = r[i]->0.tail;
    crate::engine::lemma_ring_tails_update(r, i, None);
    assert(voice_tails::<S>(None) =~= Seq::<usize>::empty());
    assert(voice_tails(r[i]) =~= Seq::<usize>::empty().push(t));
    assert(ring_tails(r.update(i, None)).to_multiset().add(voice_tails(r[i]).to_multiset()).count(t)
        == ring_tails(r).to_multiset().add(voice_tails::<S>(None).to_multiset()).count(t));
}

/// Each tail buffer index occurs at most once among all of them.
proof fn lemma_all_tail_buffers_once(t: usize)
    ensures
        all_tail_buffers().count(t) <= 1,
{
    let s = Seq::new(TAIL_BUFFERS as nat, |i: int| i as usize);
    assert(s.no_duplicates());
    s.lemma_multiset_has_no_duplicates();
}

/// No tail buffer is ever held twice: not by two ring-out voices, not by the
/// live voice and a ring-out voice, and no voice's buffer is in the free
/// pool.
pub proof fn law_tail_buffers_exclusive<S>(b: Branch<S>, max_parts: nat, bins: nat)
    requires
        b.wf(max_parts, bins),
    ensures
        forall|i: int, j: int|
            0 <= i < j < RING_SLOTS && b.ringing@[i] is Some && b.ringing@[j] is Some ==> (
            #[trigger] b.ringing@[i])->0.tail != (#[trigger] b.ringing@[j])->0.tail,
        forall|i: int|
            0 <= i < RING_SLOTS && b.live is Some && b.ringing@[i] is Some ==> b.live->0.tail != (
            #[trigger] b.ringing@[i])->0.tail,
        forall|i: int|
            0 <= i < RING_SLOTS && b.ringing@[i] is Some ==> !b.tail_pool@.contains(
                (#[trigger] b.ringing@[i])->0.tail,
            ),
        b.live is Some ==> !b.tail_pool@.contains(b.live->0.tail),
{
    broadcast use vstd::multiset::group_multiset_axioms;
    broadcast use vstd::seq_lib::group_to_multiset_ensures;

    let r = b.ringing@;
    let pool = b.tail_pool@;
    let lv = voice_tails(b.live);
    let rt = ring_tails(r);
    vstd::seq_lib::lemma_multiset_commutative(pool + lv, rt);
    vstd::seq_lib::lemma_multiset_commutative(pool, lv);
    assert(b.tails() == pool + lv + rt);
    let total = b.tails().to_multiset();
    assert(total == pool.to_multiset().add(lv.to_multiset()).add(rt.to_multiset()));
    assert forall|i: int, j: int|
        0 <= i < j < RING_SLOTS && b.ringing@[i] is Some && b.ringing@[j] is Some implies (
        #[trigger] b.ringing@[i])->0.tail != (#[trigger] b.ringing@[j])->0.tail by {
        let t = r[i]->0.tail;
        if r[j]->0.tail == t {
            lemma_slot_tail_count(r, i);
            let u = r.update(i, None);
            assert(u[j] == r[j]);
            lemma_slot_tail_count(u, j);
            assert(rt.to_multiset().count(t) >= 2);
            lemma_all_tail_buffers_once(t);
            assert(total.count(t) >= 2);
        }
    }
    assert forall|i: int|
        0 <= i < RING_SLOTS && b.live is Some && b.ringing@[i] is Some implies b.live->0.tail != (
        #[trigger] b.ringing@[i])->0.tail by {
        let t = r[i]->0.tail;
        if b.live->0.tail == t {
            lemma_slot_tail_count(r, i);
            assert(lv =~= Seq::<usize>::empty().push(t));
            assert(lv.to_multiset().count(t) == 1);
            lemma_all_tail_buffers_once(t);
            assert(total.count(t) >= 2);
        }
    }
    assert forall|i: int|
        0 <= i < RING_SLOTS && b.ringing@[i] is Some implies !b.tail_pool@.contains(
            (#[trigger] b.ringing@[i])->0.tail,
        ) by {
        let t = r[i]->0.tail;
        if pool.contains(t) {
            lemma_slot_tail_count(r, i);
            assert(pool.to_multiset().count(t) >= 1);
            lemma_all_tail_buffers_once(t);
            assert(total.count(t) >= 2);
        }
    }
    if b.live is Some {
        let t = b.live->0.tail;
        if pool.contains(t) {
            assert(lv =~= Seq::<usize>::empty().push(t));
            assert(lv.to_multiset().count(t) == 1);
            assert(pool.to_multiset().count(t) >= 1);
            lemma_all_tail_buffers_once(t);
            assert(total.count(t) >= 2);
        }
    }
}

/// The input window each voice reads of its zone's shared ring: the live
/// voice at age `a` reads lags `0..=a` (within its IR); a frozen voice `m`
/// frames after its freeze, with epoch length `L`, reads lags
/// `m..min(k, m + L)`.
pub proof fn law_voice_windows<S>(v: LayerVoice<S>, w: LayerVoice<S>, frame: int, max_parts: nat, bins: nat)
    requires
        live_wf(v, frame, max_parts, bins),
        frame - v.start@ < usize::MAX,
        ring_wf(w, frame, max_parts, bins),
        w.end@ - w.start@ < usize::MAX,
    ensures
        forall|j: int| #[trigger] hears(v, false, frame, j) <==> 0 <= j < min_int(v.set.k() as int, v.age + 1),
        forall|j: int|
            #[trigger] hears(w, true, frame, j) <==> w.age <= j < min_int(
                w.set.k() as int,
                w.age + w.epoch_len,
            ),
{
}

/// What stays of a partition's old content after `s` blend stages under a
/// write fade of `fade` frames: the fraction `kept_num / kept_den`.
pub open spec fn kept_num(s: int, fade: int) -> int
    decreases s,
{
    if s <= 0 {
        1
    } else {
        kept_num(s - 1, fade) * (stage_den(s, fade) - 1)
    }
}

pub open spec fn kept_den(s: int, fade: int) -> int
    decreases s,
{
    if s <= 0 {
        1
    } else {
        kept_den(s - 1, fade) * stage_den(s, fade)
    }
}

/// The transition fade: stage `s` moves a partition `1/den` of the way to
/// its target (`h += (T - h) / den`), so after `s` of `fade` stages the
/// old content left is `(fade - s) / fade` — the steps are even
/// (`1/4, 1/2, 3/4, 1` at fade 4) and the last one writes the target
/// exactly.
pub proof fn law_fade_steps_even(s: int, fade: int)
    requires
        1 <= fade <= MAX_FADE,
        0 <= s <= fade,
    ensures
        kept_den(s, fade) > 0,
        kept_num(s, fade) * fade == (fade - s) * kept_den(s, fade),
        s == fade ==> kept_num(s, fade) == 0,
    decreases s,
{
    if s > 0 {
        law_fade_steps_even(s - 1, fade);
        let kn = kept_num(s - 1, fade);
        let kd = kept_den(s - 1, fade);
        assert(stage_den(s, fade) == fade + 1 - s);
        assert(kept_num(s, fade) == kn * (fade - s));
        assert(kept_den(s, fade) == kd * (fade + 1 - s));
        assert(kn * (fade - s) * fade == (fade - s) * (kd * (fade + 1 - s))) by (nonlinear_arith)
            requires
                kn * fade == (fade - (s - 1)) * kd,
        ;
        assert(kd * (fade + 1 - s) > 0) by (nonlinear_arith)
            requires
                kd > 0,
                s <= fade,
        ;
    }
}

/// Halvings after which a dying voice is at least 54 dB down.
pub const QUIET_FADE: usize = 9;

/// The ring-out slots `t` frames after the last freeze, at ring depth
/// `cap`: no voice beyond the depth, every dying voice has faded at least
/// `min(t, DEATH_FADE)` halvings, every voice is older than `t` frames, and
/// whenever the slots within the depth are all taken one of them is dying.
pub open spec fn quiet_ring<S>(r: Seq<Option<LayerVoice<S>>>, cap: int, t: int) -> bool {
    &&& r.len() == RING_SLOTS
    &&& forall|i: int| cap <= i < RING_SLOTS ==> #[trigger] r[i] is None
    &&& forall|i: int|
        0 <= i < RING_SLOTS && #[trigger] slot_dying(r, i) ==> slot_fade(r, i) >= min_int(
            t,
            DEATH_FADE as int,
        )
    &&& forall|i: int| 0 <= i < RING_SLOTS && r[i] is Some ==> #[trigger] slot_age(r, i) >= t + 1
    &&& slots_full(r, cap) ==> exists|i: int| 0 <= i < cap && #[trigger] slot_dying(r, i)
}

/// A `None` at `j` is found by a search from `i <= j`.
proof fn lemma_none_found<T>(s: Seq<Option<T>>, i: int, j: int)
    requires
        0 <= i <= j < s.len(),
        s[j] is None,
    ensures
        first_none_from(s, i) >= 0,
    decreases j - i,
{
    if i < j && s[i] is Some {
        lemma_none_found(s, i + 1, j);
    }
}

/// A frame keeps the ring quiet, one frame further from the last freeze:
/// dying voices fade one more halving, every voice ages one frame, and no
/// slot fills.
pub proof fn law_quiet_ring_after_frame<S>(b0: Branch<S>, b1: Branch<S>, cap: int, t: int)
    requires
        1 <= cap <= RING_SLOTS,
        t >= 0,
        b0.ringing@.len() == RING_SLOTS,
        b1.ringing@.len() == RING_SLOTS,
        quiet_ring(b0.ringing@, cap, t),
        frame_ended(b0, b1, cap),
    ensures
        quiet_ring(b1.ringing@, cap, t + 1),
{
    let r0 = b0.ringing@;
    let r1 = b1.ringing@;
    assert forall|i: int| cap <= i < RING_SLOTS implies #[trigger] r1[i] is None by {
        assert(r1[i] == slot_after_frame(r0[i], i, cap));
    }
    assert forall|i: int| 0 <= i < RING_SLOTS && #[trigger] slot_dying(r1, i) implies slot_fade(r1, i)
        >= min_int(t + 1, DEATH_FADE as int) by {
        assert(r1[i] == slot_after_frame(r0[i], i, cap));
        assert(slot_dying(r0, i));
    }
    assert forall|i: int| 0 <= i < RING_SLOTS && r1[i] is Some implies #[trigger] slot_age(r1, i) >= t
        + 2 by {
        assert(r1[i] == slot_after_frame(r0[i], i, cap));
        assert(slot_age(r0, i) >= t + 1);
        r0[i]->0.set.lemma_counts_fit();
    }
    if slots_full(r1, cap) {
        assert forall|j: int| 0 <= j < cap implies #[trigger] r0[j] is Some by {
            assert(r1[j] == slot_after_frame(r0[j], j, cap));
        }
        assert(slots_full(r0, cap));
        let i = choose|i: int| 0 <= i < cap && #[trigger] slot_dying(r0, i);
        assert(r1[i] == slot_after_frame(r0[i], i, cap));
        assert(slot_dying(r1, i));
    }
}

/// Freezing a live voice into a quiet ring, at least `QUIET_FADE` frames
/// after the last freeze and with a ring depth of at least two, evicts no
/// voice that has not faded by `QUIET_FADE` halvings (54 dB): every voice
/// that leaves its slot was dying and that far down. The ring is quiet
/// again, counting from this freeze.
pub proof fn law_freeze_evicts_only_quiet_voices<S>(
    live: Option<LayerVoice<S>>,
    ring: Seq<Option<LayerVoice<S>>>,
    pool: Seq<usize>,
    retired: Seq<Option<PartitionSet<S>>>,
    frame: int,
    cap: int,
    ring2: Seq<Option<LayerVoice<S>>>,
    pool2: Seq<usize>,
    retired2: Seq<Option<PartitionSet<S>>>,
    t: int,
)
    requires
        2 <= cap <= RING_SLOTS,
        t >= QUIET_FADE,
        quiet_ring(ring, cap, t),
        ring2.len() == RING_SLOTS,
        froze(live, ring, pool, retired, frame, cap, ring2, pool2, retired2),
        live matches Some(v) ==> forall|i: int|
            0 <= i < RING_SLOTS && ring[i] is Some ==> (#[trigger] ring[i])->0.tail != v.tail,
    ensures
        forall|i: int|
            0 <= i < RING_SLOTS && ring[i] is Some && !(ring2[i] matches Some(w) && w.tail
                == ring[i]->0.tail) ==> #[trigger] slot_dying(ring, i) && slot_fade(ring, i)
                >= QUIET_FADE,
        quiet_ring(ring2, cap, 0),
{
    match live {
        None => {
            assert(ring2 == ring);
        },
        Some(v) => {
            let fz = frozen(v, frame);
            let (slot, victim) = choose|slot: int, victim: Option<int>|
                freeze_result(v, ring, pool, retired, frame, cap, slot, victim, ring2, pool2, retired2);
            let placed = ring.update(slot, Some(fz));
            assert(0 <= slot < cap);
            if let Some(vi) = victim {
                assert(fade_victim(placed, cap, vi));
                assert(vi != slot);
            }
            assert(ring2[slot] == Some(fz));
            assert forall|i: int| 0 <= i < RING_SLOTS && i != slot implies (ring2[i] matches Some(w)
                ==> ring[i] matches Some(u) && w.tail == u.tail && w.age == u.age && w.fade == u.fade)
                && (ring2[i] is Some <==> ring[i] is Some) && (slot_dying(ring, i) ==> slot_dying(
                ring2,
                i,
            )) by {
                assert(placed[i] == ring[i]);
            }
            // Who leaves: only the voice in the chosen slot, and only when
            // no slot within the depth was free.
            if ring[slot] is Some {
                let e = ring[slot]->0;
                if first_none(ring.take(cap)) >= 0 {
                    crate::engine::lemma_first_none_from_range(ring.take(cap), 0);
                    assert(ring[slot] is None);
                }
                assert forall|j: int| 0 <= j < cap implies #[trigger] ring[j] is Some by {
                    if ring[j] is None {
                        assert(ring.take(cap)[j] is None);
                        lemma_none_found(ring.take(cap), 0, j);
                    }
                }
                assert(slots_full(ring, cap));
                let d = choose|i: int| 0 <= i < cap && #[trigger] slot_dying(ring, i);
                assert(quietest_dying(ring, cap, slot));
                assert(slot_fade(ring, slot) >= slot_fade(ring, d));
            }
            // The ring is quiet again.
            assert forall|i: int| cap <= i < RING_SLOTS implies #[trigger] ring2[i] is None by {
                assert(i != slot);
            }
            assert forall|i: int| 0 <= i < RING_SLOTS && ring2[i] is Some implies #[trigger] slot_age(
                ring2,
                i,
            ) >= 1 by {
                if i != slot {
                    assert(slot_age(ring, i) >= t + 1);
                }
            }
            if slots_full(ring2, cap) {
                match victim {
                    Some(vi) => {
                        assert(slot_dying(ring2, vi));
                    },
                    None => {
                        let j = if slot == 0 {
                            1int
                        } else {
                            0int
                        };
                        assert(ring2[j] is Some);
                        assert(placed[j] == ring[j]);
                        assert(slots_full(placed, cap)) by {
                            assert forall|l: int| 0 <= l < cap implies #[trigger] placed[l] is Some by {
                                assert(ring2[l] is Some);
                                if l != slot {
                                    assert(placed[l] == ring[l]);
                                }
                            }
                        }
                        assert(!fade_candidate(placed, j));
                        assert(slot_age(ring, j) >= t + 1);
                        assert(slot_dying(ring, j));
                        assert(slot_dying(ring2, j));
                    },
                }
            }
        },
    }
}

/// An empty ring (a new or reset zone) is quiet however long ago the last
/// freeze was.
pub proof fn law_empty_ring_is_quiet<S>(r: Seq<Option<LayerVoice<S>>>, cap: int, t: int)
    requires
        1 <= cap <= RING_SLOTS,
        r.len() == RING_SLOTS,
        forall|i: int| 0 <= i < RING_SLOTS ==> #[trigger] r[i] is None,
    ensures
        quiet_ring(r, cap, t),
{
    if slots_full(r, cap) {
        assert(r[0] is Some);
    }
}

/// The hand-overs evict only quiet voices: a gated or ungated IR change
/// into a zone whose ring is quiet, at least `QUIET_FADE` frames after the
/// previous change and with a ring depth of at least two, removes from the
/// ring only voices that were dying and at least 54 dB down; the ring is
/// then quiet again, counting from this change.
pub proof fn law_hand_over_evicts_only_quiet_voices<S>(
    b0: Branch<S>,
    b1: Branch<S>,
    set: PartitionSet<S>,
    cap: int,
    t: int,
    max_parts: nat,
    bins: nat,
)
    requires
        b0.wf(max_parts, bins),
        b1.wf(max_parts, bins),
        2 <= cap <= RING_SLOTS,
        t >= QUIET_FADE,
        quiet_ring(b0.ringing@, cap, t),
        queued_gated(b0, b1, set, cap) || queued_ungated(b0, b1, set, cap),
    ensures
        forall|i: int|
            0 <= i < RING_SLOTS && b0.ringing@[i] is Some && !(b1.ringing@[i] matches Some(w) && w.tail
                == b0.ringing@[i]->0.tail) ==> #[trigger] slot_dying(b0.ringing@, i) && slot_fade(
                b0.ringing@,
                i,
            ) >= QUIET_FADE,
        quiet_ring(b1.ringing@, cap, 0),
{
    law_tail_buffers_exclusive(b0, max_parts, bins);
    if queued_gated(b0, b1, set, cap) {
        let ret = choose|ret: Seq<Option<PartitionSet<S>>>|
            froze(
                b0.live,
                b0.ringing@,
                b0.tail_pool@,
                b0.retired@,
                b0.frame@,
                cap,
                b1.ringing@,
                b1.tail_pool@,
                ret,
            ) && b1.retired@ == retire_pending(ret, b0.pending);
        law_freeze_evicts_only_quiet_voices(
            b0.live,
            b0.ringing@,
            b0.tail_pool@,
            b0.retired@,
            b0.frame@,
            cap,
            b1.ringing@,
            b1.tail_pool@,
            ret,
            t,
        );
    } else {
        let pool = choose|pool: Seq<usize>|
            froze(
                b0.live,
                b0.ringing@,
                b0.tail_pool@,
                retire_pending(b0.retired@, b0.pending),
                b0.frame@,
                cap,
                b1.ringing@,
                pool,
                b1.retired@,
            ) && pool.len() > 0 && b1.tail_pool@ == pool.drop_last() && b1.live->0.tail == pool.last();
        law_freeze_evicts_only_quiet_voices(
            b0.live,
            b0.ringing@,
            b0.tail_pool@,
            retire_pending(b0.retired@, b0.pending),
            b0.frame@,
            cap,
            b1.ringing@,
            pool,
            b1.retired@,
            t,
        );
    }
}

/// A zone takes part in a frame exactly when it has something to play: an
/// IR bank in use, a swap in flight, a live voice or a ring-out voice. A
/// zone with an installed IR is never skipped.
pub proof fn law_busy_exactly_when_in_use<S>(b: Branch<S>, max_parts: nat, bins: nat)
    requires
        b.wf(max_parts, bins),
    ensures
        b.active_k > 0 ==> b.busy(),
        b.pending is Some ==> b.busy(),
        b.live is Some ==> b.busy(),
        forall|i: int| 0 <= i < RING_SLOTS && #[trigger] b.ringing@[i] is Some ==> b.busy(),
        !b.busy() ==> b.active_k == 0 && b.pending is None && b.live is None && forall|i: int|
            0 <= i < RING_SLOTS ==> #[trigger] b.ringing@[i] is None,
{
}

} // verus!
