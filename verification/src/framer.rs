//! Block framing: samples arrive in host blocks of any size, the engine
//! works one partition-sized frame at a time. The output queue is primed
//! with one partition of zeros, which is the engine's latency.

use vstd::prelude::*;
use std::collections::VecDeque;

verus! {

/// Input accumulator and output queue, one of each per channel.
pub struct Framer<T> {
    part: usize,
    channels: usize,
    in_fifo: Vec<Vec<T>>,
    fill: usize,
    out_fifo: Vec<VecDeque<T>>,
    zero: T,
    /// Every input sample accepted, per channel.
    inputs: Ghost<Seq<Seq<T>>>,
    /// Every output sample queued (the priming zeros first), per channel.
    outputs: Ghost<Seq<Seq<T>>>,
    /// Output samples handed out.
    popped: Ghost<nat>,
    /// Index of the first input sample of the current frame.
    base: Ghost<int>,
    /// Per emitted frame: the input frame it was computed from, per channel.
    frame_ins: Ghost<Seq<Seq<Seq<T>>>>,
    /// Per emitted frame: its output, per channel.
    frame_outs: Ghost<Seq<Seq<Seq<T>>>>,
}

impl<T: Copy> Framer<T> {
    pub closed spec fn partition_len(&self) -> nat {
        self.part as nat
    }

    pub closed spec fn channel_count(&self) -> nat {
        self.channels as nat
    }

    pub closed spec fn zero_value(&self) -> T {
        self.zero
    }

    /// Input samples accepted so far, per channel.
    pub closed spec fn inputs(&self) -> Seq<Seq<T>> {
        self.inputs@
    }

    /// Output samples queued so far, per channel, the priming zeros first.
    pub closed spec fn outputs(&self) -> Seq<Seq<T>> {
        self.outputs@
    }

    /// Output samples handed out so far.
    pub closed spec fn popped(&self) -> nat {
        self.popped@
    }

    /// Frames processed so far.
    pub closed spec fn frames(&self) -> nat {
        self.frame_outs@.len()
    }

    /// Input frame `k`, per channel.
    pub closed spec fn frame_input(&self, k: int) -> Seq<Seq<T>> {
        self.frame_ins@[k]
    }

    /// Output of frame `k`, per channel.
    pub closed spec fn frame_output(&self, k: int) -> Seq<Seq<T>> {
        self.frame_outs@[k]
    }

    /// Samples of the current frame accumulated so far.
    pub closed spec fn filled(&self) -> nat {
        self.fill as nat
    }

    /// The accumulator and queue of channel `c` agree with its history.
    pub closed spec fn chan_ok(&self, c: int) -> bool {
        let part = self.part as int;
        let base = self.base@;
        &&& self.in_fifo@[c]@.len() == part
        &&& self.inputs@[c].len() == base + self.fill
        &&& forall|i: int| 0 <= i < self.fill ==> self.in_fifo@[c]@[i] == self.inputs@[c][base + i]
        &&& self.outputs@[c].len() == part + base
        &&& forall|i: int| 0 <= i < part ==> self.outputs@[c][i] == self.zero
        &&& self.out_fifo@[c]@ == self.outputs@[c].subrange(self.popped@ as int, part + base)
    }

    /// The framer invariant: buffers sized, queues and accumulators in
    /// step with the sample history.
    pub closed spec fn wf(&self) -> bool {
        let part = self.part as int;
        let base = self.base@;
        &&& self.part >= 1
        &&& self.channels >= 1
        &&& self.fill <= self.part
        &&& base == self.frame_outs@.len() * part
        &&& self.in_fifo@.len() == self.channels
        &&& self.out_fifo@.len() == self.channels
        &&& self.inputs@.len() == self.channels
        &&& self.outputs@.len() == self.channels
        &&& self.frame_ins@.len() == self.frame_outs@.len()
        &&& self.popped@ <= base + self.fill
        &&& self.popped@ + 1 >= base + self.fill
        &&& self.popped@ == base + self.fill ==> self.fill < self.part
        &&& forall|c: int| 0 <= c < self.channels ==> #[trigger] self.chan_ok(c)
        &&& forall|k: int, c: int|
            0 <= k < self.frame_outs@.len() && 0 <= c < self.channels ==> (
            #[trigger] self.frame_ins@[k][c]) == self.inputs@[c].subrange(k * part, k * part + part)
        &&& forall|k: int, c: int|
            0 <= k < self.frame_outs@.len() && 0 <= c < self.channels ==> (
            #[trigger] self.frame_outs@[k][c]).len() == part
        &&& forall|k: int|
            0 <= k < self.frame_outs@.len() ==> (#[trigger] self.frame_ins@[k]).len() == self.channels
                && self.frame_outs@[k].len() == self.channels
        &&& forall|c: int, t: int|
            0 <= c < self.channels && part <= t < part + base ==> #[trigger] self.outputs@[c][t]
                == self.frame_outs@[(t - part) / part][c][(t - part) % part]
    }
}

/// `n` copies of `x`.
fn filled<T: Copy>(n: usize, x: T) -> (v: Vec<T>)
    ensures
        v@ == Seq::new(n as nat, |i: int| x),
{
    let mut v: Vec<T> = Vec::new();
    let mut i: usize = 0;
    while i < n
        invariant
            0 <= i <= n,
            v@ == Seq::new(i as nat, |j: int| x),
        decreases n - i,
    {
        v.push(x);
        i += 1;
        assert(v@ =~= Seq::new(i as nat, |j: int| x));
    }
    v
}

/// An output queue primed with `n` copies of `x`.
fn primed<T: Copy>(n: usize, x: T) -> (q: VecDeque<T>)
    ensures
        q@ == Seq::new(n as nat, |i: int| x),
{
    let mut q: VecDeque<T> = VecDeque::new();
    let mut i: usize = 0;
    while i < n
        invariant
            0 <= i <= n,
            q@ == Seq::new(i as nat, |j: int| x),
        decreases n - i,
    {
        q.push_back(x);
        i += 1;
        assert(q@ =~= Seq::new(i as nat, |j: int| x));
    }
    q
}

/// Position `part + k * part + i` of the output stream is position `i` of
/// frame `k`.
pub proof fn lemma_frame_position(part: int, k: int, i: int)
    requires
        part >= 1,
        k >= 0,
        0 <= i < part,
    ensures
        (part + k * part + i - part) / part == k,
        (part + k * part + i - part) % part == i,
{
    assert(part + k * part + i - part == k * part + i);
    vstd::arithmetic::div_mod::lemma_fundamental_div_mod_converse(k * part + i, part, k, i);
}

impl<T: Copy> Framer<T> {
    /// Index of the first input sample of the current frame.
    pub closed spec fn base(&self) -> int {
        self.base@
    }

    /// Ready for the next input sample.
    pub open spec fn awaiting_input(&self) -> bool {
        self.popped() == self.base() + self.filled()
    }

    /// A full frame awaits processing.
    pub open spec fn frame_ready(&self) -> bool {
        self.filled() == self.partition_len()
    }

    /// The output sample for the latest input sample is due.
    pub open spec fn awaiting_output(&self) -> bool {
        &&& self.popped() + 1 == self.base() + self.filled()
        &&& self.filled() < self.partition_len()
    }

    /// The current frame starts right after the frames processed so far.
    pub proof fn lemma_base(&self)
        requires
            self.wf(),
        ensures
            self.base() == self.frames() * self.partition_len(),
    {
    }

    /// A framer for `channels` channels and frames of `part` samples; its
    /// output queues start with `part` copies of `zero`.
    pub fn new(channels: usize, part: usize, zero: T) -> (f: Self)
        requires
            channels >= 1,
            part >= 1,
        ensures
            f.wf(),
            f.awaiting_input(),
            f.partition_len() == part,
            f.channel_count() == channels,
            f.zero_value() == zero,
            f.frames() == 0,
            f.popped() == 0,
            f.filled() == 0,
            f.base() == 0,
            forall|c: int| 0 <= c < channels ==> #[trigger] f.inputs()[c].len() == 0,
    {
        let mut in_fifo: Vec<Vec<T>> = Vec::new();
        let mut out_fifo: Vec<VecDeque<T>> = Vec::new();
        let mut c: usize = 0;
        while c < channels
            invariant
                0 <= c <= channels,
                in_fifo@.len() == c,
                out_fifo@.len() == c,
                forall|j: int| 0 <= j < c ==> (#[trigger] in_fifo@[j])@ == Seq::new(part as nat, |i: int| zero),
                forall|j: int| 0 <= j < c ==> (#[trigger] out_fifo@[j])@ == Seq::new(part as nat, |i: int| zero),
            decreases channels - c,
        {
            in_fifo.push(filled(part, zero));
            out_fifo.push(primed(part, zero));
            c += 1;
        }
        let f = Framer {
            part,
            channels,
            in_fifo,
            fill: 0,
            out_fifo,
            zero,
            inputs: Ghost(Seq::new(channels as nat, |c: int| Seq::<T>::empty())),
            outputs: Ghost(Seq::new(channels as nat, |c: int| Seq::new(part as nat, |i: int| zero))),
            popped: Ghost(0),
            base: Ghost(0),
            frame_ins: Ghost(Seq::empty()),
            frame_outs: Ghost(Seq::empty()),
        };
        assert forall|c: int| 0 <= c < channels implies f.out_fifo@[c]@ == f.outputs@[c].subrange(
            0,
            part as int,
        ) by {
            assert(f.outputs@[c].subrange(0, part as int) =~= f.outputs@[c]);
        }
        f
    }

    pub fn partition(&self) -> (p: usize)
        ensures
            p == self.partition_len(),
    {
        self.part
    }

    pub fn channels(&self) -> (c: usize)
        ensures
            c == self.channel_count(),
    {
        self.channels
    }

    /// Accept one input sample per channel; returns whether a full frame
    /// now awaits processing.
    #[verifier::spinoff_prover]
    #[verifier::rlimit(60)]
    pub fn push_sample(&mut self, xs: &Vec<T>) -> (ready: bool)
        requires
            old(self).wf(),
            old(self).awaiting_input(),
            xs@.len() == old(self).channel_count(),
        ensures
            final(self).wf(),
            ready == final(self).frame_ready(),
            !ready ==> final(self).awaiting_output(),
            final(self).filled() == old(self).filled() + 1,
            final(self).base() == old(self).base(),
            final(self).partition_len() == old(self).partition_len(),
            final(self).channel_count() == old(self).channel_count(),
            final(self).zero_value() == old(self).zero_value(),
            final(self).frames() == old(self).frames(),
            final(self).popped() == old(self).popped(),
            final(self).outputs() == old(self).outputs(),
            forall|c: int|
                0 <= c < old(self).channel_count() ==> #[trigger] final(self).inputs()[c] == old(
                    self,
                ).inputs()[c].push(xs@[c]),
    {
        let ghost part = self.part as int;
        let ghost base = self.base@;
        let ghost old_in = self.inputs@;
        let ghost old_fifo = self.in_fifo@;
        let fill = self.fill;
        assert forall|j: int| 0 <= j < self.channels implies (#[trigger] old_fifo[j])@.len() == self.part by {
            assert(self.chan_ok(j));
        }
        let mut c: usize = 0;
        while c < self.channels
            invariant
                0 <= c <= self.channels,
                self.channels == old(self).channels,
                xs@.len() == self.channels,
                self.frame_ins@ == old(self).frame_ins@,
                self.frame_outs@ == old(self).frame_outs@,
                self.inputs@ == old(self).inputs@,
                self.outputs@ == old(self).outputs@,
                self.popped@ == old(self).popped@,
                self.base@ == old(self).base@,
                self.out_fifo@ == old(self).out_fifo@,
                self.zero == old(self).zero,
                forall|j: int| 0 <= j < self.channels ==> (#[trigger] old_fifo[j])@.len() == self.part,
                self.fill == fill,
                fill < self.part,
                self.part == old(self).part,
                self.in_fifo@.len() == self.channels,
                forall|j: int| 0 <= j < c ==> (#[trigger] self.in_fifo@[j])@ == old_fifo[j]@.update(fill as int, xs@[j]),
                forall|j: int| c <= j < self.channels ==> #[trigger] self.in_fifo@[j] == old_fifo[j],
            decreases self.channels - c,
        {
            let row = &mut self.in_fifo[c];
            row.set(fill, xs[c]);
            c += 1;
        }
        self.fill = fill + 1;
        proof {
            self.inputs = Ghost(Seq::new(self.channels as nat, |c: int| old_in[c].push(xs@[c])));
            assert forall|c: int| 0 <= c < self.channels implies #[trigger] self.chan_ok(c) by {
                assert(old(self).chan_ok(c));
            }
            assert forall|k: int, c: int|
                0 <= k < self.frame_outs@.len() && 0 <= c < self.channels implies (#[trigger] self.frame_ins@[k][c])
                    == self.inputs@[c].subrange(k * part, k * part + part) by {
                assert(old(self).frame_ins@[k][c] == old_in[c].subrange(k * part, k * part + part));
                assert(self.inputs@[c] == old_in[c].push(xs@[c]));
                assert(old(self).chan_ok(c));
                assert(old_in[c].len() == base + fill);
                assert(k * part + part <= self.frame_outs@.len() * part) by (nonlinear_arith)
                    requires
                        k + 1 <= self.frame_outs@.len(),
                        part >= 1,
                ;
                assert(old_in[c].push(xs@[c]).subrange(k * part, k * part + part) =~= old_in[c].subrange(
                    k * part,
                    k * part + part,
                ));
            }
            assert(self.wf());
        }
        self.fill == self.part
    }

    /// Channel `c` of the current input frame.
    pub fn frame_in(&self, c: usize) -> (x: &Vec<T>)
        requires
            self.wf(),
            c < self.channel_count(),
        ensures
            x@.len() == self.partition_len(),
            self.frame_ready() ==> x@ == self.inputs()[c as int].subrange(
                self.base(),
                self.base() + self.partition_len(),
            ),
    {
        proof {
            assert(self.chan_ok(c as int));
            if self.fill == self.part {
                assert(self.in_fifo@[c as int]@ =~= self.inputs@[c as int].subrange(
                    self.base@,
                    self.base@ + self.part,
                ));
            }
        }
        &self.in_fifo[c]
    }
}

impl<T: Copy> Framer<T> {
    /// Queue the processed frame `ys` (one partition per channel) behind
    /// the outputs already queued, and start a new input frame.
    #[verifier::spinoff_prover]
    #[verifier::rlimit(60)]
    pub fn emit_frame(&mut self, ys: &Vec<Vec<T>>)
        requires
            old(self).wf(),
            old(self).frame_ready(),
            ys@.len() == old(self).channel_count(),
            forall|c: int| 0 <= c < ys@.len() ==> (#[trigger] ys@[c])@.len() == old(self).partition_len(),
        ensures
            final(self).wf(),
            final(self).awaiting_output(),
            final(self).filled() == 0,
            final(self).frames() == old(self).frames() + 1,
            final(self).base() == old(self).base() + old(self).partition_len(),
            final(self).partition_len() == old(self).partition_len(),
            final(self).channel_count() == old(self).channel_count(),
            final(self).zero_value() == old(self).zero_value(),
            final(self).popped() == old(self).popped(),
            final(self).inputs() == old(self).inputs(),
            forall|c: int|
                0 <= c < old(self).channel_count() ==> #[trigger] final(self).outputs()[c] == old(
                    self,
                ).outputs()[c] + ys@[c]@,
            forall|c: int|
                0 <= c < old(self).channel_count() ==> #[trigger] final(self).frame_output(
                    old(self).frames() as int,
                )[c] == ys@[c]@,
            forall|c: int|
                0 <= c < old(self).channel_count() ==> #[trigger] final(self).frame_input(
                    old(self).frames() as int,
                )[c] == old(self).inputs()[c].subrange(
                    old(self).base(),
                    old(self).base() + old(self).partition_len(),
                ),
    {
        let ghost part = self.part as int;
        let ghost frames = self.frame_outs@.len() as int;
        let ghost base = self.base@;
        let ghost old_out = self.outputs@;
        let ghost old_q = self.out_fifo@;
        let ghost popped = self.popped@ as int;
        let ghost fin = Seq::new(self.channels as nat, |c: int| self.in_fifo@[c]@);
        let ghost fout = Seq::new(self.channels as nat, |c: int| ys@[c]@);
        proof {
            assert forall|c: int| 0 <= c < self.channels implies #[trigger] fin[c]
                == self.inputs@[c].subrange(base, base + part) by {
                assert(self.chan_ok(c));
                assert(fin[c] =~= self.inputs@[c].subrange(base, base + part));
            }
        }
        let mut c: usize = 0;
        while c < self.channels
            invariant
                0 <= c <= self.channels,
                self.channels == old(self).channels,
                self.part == old(self).part,
                part == self.part,
                ys@.len() == self.channels,
                forall|j: int| 0 <= j < ys@.len() ==> (#[trigger] ys@[j])@.len() == part,
                self.out_fifo@.len() == self.channels,
                forall|j: int| 0 <= j < c ==> (#[trigger] self.out_fifo@[j])@ == old_q[j]@ + ys@[j]@,
                forall|j: int| c <= j < self.channels ==> #[trigger] self.out_fifo@[j] == old_q[j],
                self.frame_ins@ == old(self).frame_ins@,
                self.frame_outs@ == old(self).frame_outs@,
                self.inputs@ == old(self).inputs@,
                self.outputs@ == old(self).outputs@,
                self.popped@ == old(self).popped@,
                self.base@ == old(self).base@,
                self.in_fifo@ == old(self).in_fifo@,
                self.fill == old(self).fill,
                self.zero == old(self).zero,
            decreases self.channels - c,
        {
            let row = &ys[c];
            let q = &mut self.out_fifo[c];
            let ghost q0 = q@;
            let mut i: usize = 0;
            while i < self.part
                invariant
                    0 <= i <= part,
                    part == self.part,
                    row@.len() == part,
                    q@ == q0 + row@.take(i as int),
                decreases part - i,
            {
                q.push_back(row[i]);
                i += 1;
                assert(q@ =~= q0 + row@.take(i as int));
            }
            assert(row@.take(part) =~= row@);
            c += 1;
        }
        self.fill = 0;
        proof {
            let nb = base + part;
            self.base = Ghost(nb);
            self.outputs = Ghost(Seq::new(self.channels as nat, |c: int| old_out[c] + ys@[c]@));
            self.frame_ins = Ghost(self.frame_ins@.push(fin));
            self.frame_outs = Ghost(self.frame_outs@.push(fout));
            assert(nb == self.frame_outs@.len() * part) by (nonlinear_arith)
                requires
                    base == frames * part,
                    nb == base + part,
                    self.frame_outs@.len() == frames + 1,
            ;
            assert forall|c: int| 0 <= c < self.channels implies #[trigger] self.chan_ok(c) by {
                assert(old(self).chan_ok(c));
                assert(self.outputs@[c] == old_out[c] + ys@[c]@);
                assert(old_out[c].len() == part + base);
                assert(forall|i: int| 0 <= i < part ==> old_out[c][i] == self.zero);
                assert(self.out_fifo@[c]@ =~= self.outputs@[c].subrange(
                    self.popped@ as int,
                    part + nb,
                ));
            }
            assert forall|k: int, c: int|
                0 <= k < self.frame_outs@.len() && 0 <= c < self.channels implies (
                #[trigger] self.frame_ins@[k][c]) == self.inputs@[c].subrange(k * part, k * part + part) by {
                if k < frames {
                    assert(old(self).frame_ins@[k][c] == self.inputs@[c].subrange(k * part, k * part + part));
                } else {
                    assert(self.frame_ins@[k] == fin);
                    assert(k * part == base) by (nonlinear_arith)
                        requires k == frames, base == frames * part;
                }
            }
            assert forall|k: int, c: int|
                0 <= k < self.frame_outs@.len() && 0 <= c < self.channels implies (
                #[trigger] self.frame_outs@[k][c]).len() == part by {
                if k < frames {
                    assert(old(self).frame_outs@[k][c].len() == part);
                } else {
                    assert(self.frame_outs@[k] == fout);
                }
            }
            assert forall|k: int| 0 <= k < self.frame_outs@.len() implies (
            #[trigger] self.frame_ins@[k]).len() == self.channels && self.frame_outs@[k].len()
                == self.channels by {
                if k < frames {
                    assert(old(self).frame_ins@[k].len() == self.channels);
                } else {
                    assert(self.frame_ins@[k] == fin);
                    assert(self.frame_outs@[k] == fout);
                }
            }
            assert forall|c: int, t: int|
                0 <= c < self.channels && part <= t < part + nb implies #[trigger] self.outputs@[c][t]
                    == self.frame_outs@[(t - part) / part][c][(t - part) % part] by {
                assert(self.outputs@[c] == old_out[c] + ys@[c]@);
                assert(old_out[c].len() == part + base) by {
                    assert(old(self).chan_ok(c));
                }
                if t < part + base {
                    assert(old_out[c][t] == old(self).frame_outs@[(t - part) / part][c][(t - part) % part]);
                    assert(0 <= (t - part) / part < frames) by (nonlinear_arith)
                        requires
                            0 <= t - part < base,
                            base == frames * part,
                            part >= 1,
                    ;
                    assert(self.frame_outs@[(t - part) / part] == old(self).frame_outs@[(t - part) / part]);
                } else {
                    let i = t - part - base;
                    lemma_frame_position(part, frames, i);
                    assert(t == part + frames * part + i);
                    assert(self.frame_outs@[frames] == fout);
                    assert(self.outputs@[c][t] == ys@[c]@[i]);
                }
            }
            assert(self.wf());
        }
    }

    /// Hand out the output sample of the latest input sample, one per
    /// channel, into `ys` (no allocation): the output queued for input
    /// position `popped - part`.
    pub fn pop_sample(&mut self, ys: &mut Vec<T>)
        requires
            old(self).wf(),
            old(self).awaiting_output(),
            old(ys)@.len() == old(self).channel_count(),
        ensures
            final(self).wf(),
            final(self).awaiting_input(),
            final(self).popped() == old(self).popped() + 1,
            final(self).filled() == old(self).filled(),
            final(self).base() == old(self).base(),
            final(self).frames() == old(self).frames(),
            final(self).partition_len() == old(self).partition_len(),
            final(self).channel_count() == old(self).channel_count(),
            final(self).zero_value() == old(self).zero_value(),
            final(self).inputs() == old(self).inputs(),
            final(self).outputs() == old(self).outputs(),
            final(ys)@.len() == old(self).channel_count(),
            forall|c: int|
                0 <= c < old(self).channel_count() ==> #[trigger] final(ys)@[c] == old(self).outputs()[c][old(
                    self,
                ).popped() as int],
    {
        let ghost part = self.part as int;
        let ghost base = self.base@;
        let ghost popped = self.popped@ as int;
        let ghost old_q = self.out_fifo@;
        assert forall|j: int| 0 <= j < self.channels implies (#[trigger] old_q[j])@ == self.outputs@[j].subrange(popped, part + base)
            && self.outputs@[j].len() == part + base by {
            assert(self.chan_ok(j));
        }
        let mut c: usize = 0;
        while c < self.channels
            invariant
                0 <= c <= self.channels,
                self.channels == old(self).channels,
                self.part == old(self).part,
                part == self.part,
                popped == self.popped@,
                base == self.base@,
                popped < part + base,
                self.out_fifo@.len() == self.channels,
                ys@.len() == self.channels,
                forall|j: int| 0 <= j < self.channels ==> (#[trigger] old_q[j])@ == self.outputs@[j].subrange(popped, part + base)
                    && self.outputs@[j].len() == part + base,
                forall|j: int| 0 <= j < c ==> (#[trigger] self.out_fifo@[j])@ == old_q[j]@.subrange(1, old_q[j]@.len() as int),
                forall|j: int| c <= j < self.channels ==> #[trigger] self.out_fifo@[j] == old_q[j],
                forall|j: int| 0 <= j < c ==> #[trigger] ys@[j] == self.outputs@[j][popped],
                self.frame_ins@ == old(self).frame_ins@,
                self.frame_outs@ == old(self).frame_outs@,
                self.inputs@ == old(self).inputs@,
                self.outputs@ == old(self).outputs@,
                self.in_fifo@ == old(self).in_fifo@,
                self.fill == old(self).fill,
                self.zero == old(self).zero,
            decreases self.channels - c,
        {
            let q = &mut self.out_fifo[c];
            let front = q.pop_front();
            match front {
                Some(y) => {
                    ys.set(c, y);
                },
                None => {
                    ys.set(c, self.zero);
                },
            }
            c += 1;
        }
        proof {
            self.popped = Ghost((popped + 1) as nat);
            assert forall|c: int| 0 <= c < self.channels implies #[trigger] self.chan_ok(c) by {
                assert(old(self).chan_ok(c));
                assert(self.out_fifo@[c]@ =~= self.outputs@[c].subrange(self.popped@ as int, part + base));
            }
        }
    }
}

impl<T: Copy> Framer<T> {
    /// Drop all buffered samples: the input frame restarts empty and each
    /// output queue holds the priming zeros again, as at construction.
    pub fn reset(&mut self)
        requires
            old(self).wf(),
        ensures
            final(self).wf(),
            final(self).awaiting_input(),
            final(self).partition_len() == old(self).partition_len(),
            final(self).channel_count() == old(self).channel_count(),
            final(self).zero_value() == old(self).zero_value(),
            final(self).frames() == 0,
            final(self).popped() == 0,
            final(self).filled() == 0,
            final(self).base() == 0,
            forall|c: int| 0 <= c < old(self).channel_count() ==> #[trigger] final(self).inputs()[c].len() == 0,
    {
        let part = self.part;
        let zero = self.zero;
        let mut c: usize = 0;
        while c < self.channels
            invariant
                0 <= c <= self.channels,
                self.channels == old(self).channels,
                self.channels >= 1,
                part >= 1,
                self.part == part,
                self.zero == zero,
                self.in_fifo@.len() == self.channels,
                self.out_fifo@.len() == self.channels,
                forall|j: int| 0 <= j < c ==> (#[trigger] self.in_fifo@[j])@ == Seq::new(part as nat, |i: int| zero),
                forall|j: int| 0 <= j < c ==> (#[trigger] self.out_fifo@[j])@ == Seq::new(part as nat, |i: int| zero),
            decreases self.channels - c,
        {
            self.in_fifo.set(c, filled(part, zero));
            self.out_fifo.set(c, primed(part, zero));
            c += 1;
        }
        self.fill = 0;
        proof {
            self.inputs = Ghost(Seq::new(self.channels as nat, |c: int| Seq::<T>::empty()));
            self.outputs = Ghost(Seq::new(self.channels as nat, |c: int| Seq::new(part as nat, |i: int| zero)));
            self.popped = Ghost(0);
            self.base = Ghost(0);
            self.frame_ins = Ghost(Seq::empty());
            self.frame_outs = Ghost(Seq::empty());
            assert forall|c: int| 0 <= c < self.channels implies #[trigger] self.chan_ok(c) by {
                assert(self.outputs@[c].subrange(0, part as int) =~= self.outputs@[c]);
            }
        }
    }
}

/// The engine's latency law: the output handed out for input position `t`
/// (the `t`-th output) is, once past the priming zeros, position
/// `(t - part) % part` of the output of frame `(t - part) / part`, and
/// that frame was computed from input positions `[t - part - (t - part) %
/// part, ...)`, holding input `t - part` at the same position. The output
/// at `t` is the response to the input at `t - part`: one partition of
/// delay, exactly.
pub proof fn law_latency_one_partition<T: Copy>(f: Framer<T>, c: int, t: int)
    requires
        f.wf(),
        0 <= c < f.channel_count(),
        0 <= t < f.outputs()[c].len(),
    ensures
        t < f.partition_len() ==> f.outputs()[c][t] == f.zero_value(),
        t >= f.partition_len() ==> ({
            let part = f.partition_len() as int;
            let k = (t - part) / part;
            let i = (t - part) % part;
            &&& 0 <= k < f.frames()
            &&& f.outputs()[c][t] == f.frame_output(k)[c][i]
            &&& f.frame_input(k)[c][i] == f.inputs()[c][t - part]
        }),
{
    let part = f.partition_len() as int;
    assert(f.chan_ok(c));
    if t >= part {
        let k = (t - part) / part;
        let i = (t - part) % part;
        assert(f.outputs@[c][t] == f.frame_outs@[k][c][i]);
        assert(0 <= k < f.frame_outs@.len()) by (nonlinear_arith)
            requires
                0 <= t - part < f.base@,
                f.base@ == f.frame_outs@.len() * part,
                part >= 1,
                k == (t - part) / part,
        ;
        assert(f.frame_ins@[k][c] == f.inputs@[c].subrange(k * part, k * part + part));
        assert(k * part + i == t - part && 0 <= i < part) by (nonlinear_arith)
            requires
                part >= 1,
                k == (t - part) / part,
                i == (t - part) % part,
        ;
        assert(f.inputs@[c].len() == f.base@ + f.fill);
        assert(k * part + part <= f.base@) by (nonlinear_arith)
            requires
                0 <= k,
                k + 1 <= f.frame_outs@.len(),
                f.base@ == f.frame_outs@.len() * part,
                part >= 1,
        ;
        assert(f.frame_ins@[k][c][i] == f.inputs@[c][k * part + i]);
    }
}

} // verus!
