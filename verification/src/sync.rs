//! The control protocol between the audio thread and the IR worker:
//! desired-state reconciliation. The audio thread marks changes and sends
//! the whole desired state at most once per debounce window; the worker
//! renders only the newest state it has received. Changes are deferred,
//! never dropped, and the latest request always wins.

use vstd::prelude::*;

verus! {

/// The audio thread's side: what was last sent, and what is marked.
pub struct SyncControl {
    synced_bank: usize,
    last_reload: bool,
    dirty_load: bool,
    load_gen: u64,
    samples_since_sync: usize,
    debounce_samples: usize,
}

/// What one control step decided.
#[derive(Clone, Copy, PartialEq, Eq, Debug, Structural)]
pub enum SyncDecision {
    /// Send the desired state now: the current bank and size, with this
    /// load generation (bumped whenever the sources must be re-read).
    Send { bank: usize, load_gen: u64 },
    /// Nothing to send this block.
    Hold,
}

/// `s1` and `d` are the state and the decision after one control step
/// from `s0` with the given inputs.
pub open spec fn stepped(
    s0: SyncControl,
    bank: usize,
    reload: bool,
    size_dirty: bool,
    d: SyncDecision,
    s1: SyncControl,
) -> bool {
    let marked = s0.load_pending() || bank != s0.synced_bank() || (reload && !s0.last_reload());
    let due = (marked || size_dirty) && s0.since_sync() >= s0.debounce();
    &&& s1.last_reload() == reload
    &&& s1.debounce() == s0.debounce()
    &&& due ==> {
        &&& d == SyncDecision::Send {
            bank,
            load_gen: (if marked {
                s0.load_gen() + 1
            } else {
                s0.load_gen() as int
            }) as u64,
        }
        &&& s1.load_gen() == (if marked {
            s0.load_gen() + 1
        } else {
            s0.load_gen() as int
        })
        &&& !s1.load_pending()
        &&& s1.synced_bank() == bank
        &&& s1.since_sync() == 0
    }
    &&& !due ==> {
        &&& d == SyncDecision::Hold
        &&& s1.load_gen() == s0.load_gen()
        &&& s1.load_pending() == marked
        &&& s1.synced_bank() == s0.synced_bank()
        &&& s1.since_sync() == s0.since_sync()
    }
}

/// `s1` is `s0` after counting `frames` more samples.
pub open spec fn advanced(s0: SyncControl, frames: int, s1: SyncControl) -> bool {
    &&& s1.since_sync() == (if s0.since_sync() + frames > usize::MAX {
        usize::MAX as int
    } else {
        s0.since_sync() + frames
    })
    &&& s1.synced_bank() == s0.synced_bank()
    &&& s1.last_reload() == s0.last_reload()
    &&& s1.load_pending() == s0.load_pending()
    &&& s1.load_gen() == s0.load_gen()
    &&& s1.debounce() == s0.debounce()
}

impl SyncControl {
    pub closed spec fn synced_bank(&self) -> usize {
        self.synced_bank
    }

    pub closed spec fn last_reload(&self) -> bool {
        self.last_reload
    }

    /// A source reload is marked and not yet sent.
    pub closed spec fn load_pending(&self) -> bool {
        self.dirty_load
    }

    pub closed spec fn load_gen(&self) -> u64 {
        self.load_gen
    }

    pub closed spec fn since_sync(&self) -> usize {
        self.samples_since_sync
    }

    pub closed spec fn debounce(&self) -> usize {
        self.debounce_samples
    }

    /// The state right after the initial sync of `bank` (generation 0).
    pub fn new(bank: usize, debounce_samples: usize) -> (c: Self)
        ensures
            c.synced_bank() == bank,
            !c.last_reload(),
            !c.load_pending(),
            c.load_gen() == 0,
            c.since_sync() == 0,
            c.debounce() == debounce_samples,
    {
        SyncControl {
            synced_bank: bank,
            last_reload: false,
            dirty_load: false,
            load_gen: 0,
            samples_since_sync: 0,
            debounce_samples,
        }
    }

    pub fn load_generation(&self) -> (g: u64)
        ensures
            g == self.load_gen(),
    {
        self.load_gen
    }

    /// One block's control step, given the bank selected now, the reload
    /// switch, and whether the size moved away from the last sent one. A
    /// bank change or a rising reload edge marks a source reload; a marked
    /// reload or a size change is sent once the debounce window since the
    /// last send has passed, and stays marked until then.
    pub fn step(&mut self, bank: usize, reload: bool, size_dirty: bool) -> (d: SyncDecision)
        requires
            old(self).load_gen() < u64::MAX,
        ensures
            stepped(*old(self), bank, reload, size_dirty, d, *final(self)),
    {
        if bank != self.synced_bank || (reload && !self.last_reload) {
            self.dirty_load = true;
        }
        self.last_reload = reload;
        if (self.dirty_load || size_dirty) && self.samples_since_sync >= self.debounce_samples {
            if self.dirty_load {
                self.load_gen = self.load_gen + 1;
                self.dirty_load = false;
            }
            self.synced_bank = bank;
            self.samples_since_sync = 0;
            SyncDecision::Send { bank, load_gen: self.load_gen }
        } else {
            SyncDecision::Hold
        }
    }

    /// Count `frames` more samples since the last send (saturating).
    pub fn advance(&mut self, frames: usize)
        ensures
            advanced(*old(self), frames as int, *final(self)),
    {
        self.samples_since_sync = self.samples_since_sync.saturating_add(frames);
    }
}

/// Deferred, never dropped: a source reload that a step marks (a bank
/// change or a rising reload edge) but holds back stays marked while
/// samples pass, and the first later step whose debounce window has passed
/// sends it, with a new load generation, whatever that step's own inputs.
pub proof fn law_marks_never_dropped(
    s0: SyncControl,
    s1: SyncControl,
    s2: SyncControl,
    s3: SyncControl,
    bank1: usize,
    reload1: bool,
    size1: bool,
    d1: SyncDecision,
    frames: int,
    bank2: usize,
    reload2: bool,
    size2: bool,
    d2: SyncDecision,
)
    requires
        stepped(s0, bank1, reload1, size1, d1, s1),
        bank1 != s0.synced_bank() || (reload1 && !s0.last_reload()),
        d1 == SyncDecision::Hold,
        advanced(s1, frames, s2),
        stepped(s2, bank2, reload2, size2, d2, s3),
        s2.since_sync() >= s2.debounce(),
    ensures
        s1.load_pending(),
        d2 == (SyncDecision::Send { bank: bank2, load_gen: (s0.load_gen() + 1) as u64 }),
{
}

/// The debounce: two sends are at least one debounce window of samples
/// apart.
pub proof fn law_sends_debounced(
    s0: SyncControl,
    s1: SyncControl,
    s2: SyncControl,
    s3: SyncControl,
    bank1: usize,
    reload1: bool,
    size1: bool,
    d1: SyncDecision,
    frames: int,
    bank2: usize,
    reload2: bool,
    size2: bool,
    d2: SyncDecision,
)
    requires
        stepped(s0, bank1, reload1, size1, d1, s1),
        d1 is Send,
        frames >= 0,
        advanced(s1, frames, s2),
        stepped(s2, bank2, reload2, size2, d2, s3),
        d2 is Send,
    ensures
        frames >= s0.debounce(),
{
}

/// A message to the IR worker: a desired-state snapshot, or a spent set to
/// drop off the audio thread.
pub enum ToWorker<P, S> {
    Sync(P),
    Dispose(S),
}

/// The newest snapshot among `msgs`.
pub open spec fn last_sync<P, S>(msgs: Seq<ToWorker<P, S>>) -> Option<P>
    decreases msgs.len(),
{
    if msgs.len() == 0 {
        None
    } else {
        match msgs.last() {
            ToWorker::Sync(p) => Some(p),
            ToWorker::Dispose(_) => last_sync(msgs.drop_last()),
        }
    }
}

/// The spent sets among `msgs`, in order.
pub open spec fn disposals<P, S>(msgs: Seq<ToWorker<P, S>>) -> Seq<S>
    decreases msgs.len(),
{
    if msgs.len() == 0 {
        Seq::empty()
    } else {
        match msgs.last() {
            ToWorker::Sync(_) => disposals(msgs.drop_last()),
            ToWorker::Dispose(s) => disposals(msgs.drop_last()).push(s),
        }
    }
}

/// Reconcile a batch of queued messages: only the newest snapshot is
/// kept; every spent set is handed back for dropping.
pub fn coalesce<P, S>(msgs: Vec<ToWorker<P, S>>) -> (r: (Option<P>, Vec<S>))
    ensures
        r.0 == last_sync(msgs@),
        r.1@ == disposals(msgs@),
{
    let ghost all = msgs@;
    let mut latest: Option<P> = None;
    let mut spent: Vec<S> = Vec::new();
    let mut msgs = msgs;
    let mut taken: usize = 0;
    let total = msgs.len();
    while msgs.len() > 0
        invariant
            all.len() == total,
            taken + msgs@.len() == all.len(),
            msgs@ == all.skip(taken as int),
            latest == last_sync(all.take(taken as int)),
            spent@ == disposals(all.take(taken as int)),
        decreases msgs@.len(),
    {
        let m = msgs.remove(0);
        proof {
            let n = taken as int;
            assert(all.take(n + 1).drop_last() =~= all.take(n));
            assert(all.take(n + 1).last() == all[n]);
            assert(m == all[n]);
        }
        match m {
            ToWorker::Sync(p) => {
                latest = Some(p);
            },
            ToWorker::Dispose(s) => {
                spent.push(s);
            },
        }
        taken = taken + 1;
        proof {
            assert(msgs@ =~= all.skip(taken as int));
        }
    }
    assert(all.take(all.len() as int) =~= all);
    (latest, spent)
}

/// The worker's side: which load generation its sources hold.
pub struct WorkerControl {
    loaded_gen: u64,
}

impl WorkerControl {
    pub closed spec fn loaded(&self) -> u64 {
        self.loaded_gen
    }

    /// No sources loaded yet: the marker `u64::MAX` is no generation the
    /// audio thread sends, so the first snapshot always loads.
    pub fn new() -> (w: Self)
        ensures
            w.loaded() == u64::MAX,
    {
        WorkerControl { loaded_gen: u64::MAX }
    }

    /// Take a snapshot's load generation; returns whether the sources must
    /// be re-read before rendering (the generation differs from the one
    /// loaded). Rendering happens either way.
    pub fn take_sync(&mut self, load_gen: u64) -> (reload: bool)
        ensures
            reload == (old(self).loaded() != load_gen),
            final(self).loaded() == load_gen,
    {
        let reload = self.loaded_gen != load_gen;
        self.loaded_gen = load_gen;
        reload
    }
}

} // verus!
