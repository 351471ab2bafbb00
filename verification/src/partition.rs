//! Rendered IR partition sets, as the engine's control plane sees them.

use vstd::prelude::*;

verus! {

/// A fully rendered IR ready for streaming: `k` partitions per IR
/// channel, each a spectrum of `bins` bins. The spectra themselves travel
/// in `payload`, which the control plane only moves, never inspects.
pub struct PartitionSet<S> {
    k: usize,
    ch: usize,
    bins: usize,
    payload: S,
}

impl<S> PartitionSet<S> {
    /// Partition count.
    pub closed spec fn k(&self) -> nat {
        self.k as nat
    }

    /// IR channel count.
    pub closed spec fn ch(&self) -> nat {
        self.ch as nat
    }

    /// Bins per partition spectrum.
    pub closed spec fn bins(&self) -> nat {
        self.bins as nat
    }

    /// The rendered spectra.
    pub closed spec fn spec_payload(&self) -> S {
        self.payload
    }

    /// The counts of a set fit in `usize`.
    pub proof fn lemma_counts_fit(&self)
        ensures
            self.k() <= usize::MAX,
            self.ch() <= usize::MAX,
            self.bins() <= usize::MAX,
    {
    }

    pub fn new(k: usize, ch: usize, bins: usize, payload: S) -> (r: Self)
        ensures
            r.k() == k,
            r.ch() == ch,
            r.bins() == bins,
            r.spec_payload() == payload,
    {
        PartitionSet { k, ch, bins, payload }
    }

    pub fn partitions(&self) -> (k: usize)
        ensures
            k == self.k(),
    {
        self.k
    }

    pub fn channels(&self) -> (ch: usize)
        ensures
            ch == self.ch(),
    {
        self.ch
    }

    pub fn bin_count(&self) -> (bins: usize)
        ensures
            bins == self.bins(),
    {
        self.bins
    }

    pub fn payload(&self) -> (p: &S)
        ensures
            *p == self.spec_payload(),
    {
        &self.payload
    }

    pub fn into_payload(self) -> (p: S)
        ensures
            p == self.spec_payload(),
    {
        self.payload
    }
}

} // verus!
