//! Engine geometry: partition sizes, spectrum bins and the preallocated
//! partition capacity.

use vstd::prelude::*;

verus! {

/// Number of level zones (and convolution branches).
pub const MAX_ZONES: usize = 4;

/// Default partition length in samples.
pub const DEFAULT_PARTITION: usize = 256;

/// Smallest partition length the engine accepts.
pub const MIN_PARTITION: usize = 32;

/// `n` is a power of two (1, 2, 4, ...).
pub open spec fn is_pow2(n: nat) -> bool
    decreases n,
{
    if n == 1 {
        true
    } else if n >= 2 && n % 2 == 0 {
        is_pow2(n / 2)
    } else {
        false
    }
}

/// Ceiling division.
pub open spec fn ceil_div(n: int, d: int) -> int {
    (n + d - 1) / d
}

/// Whether `partition` is a usable partition length: a power of two of at
/// least [`MIN_PARTITION`] samples.
pub fn is_valid_partition(partition: usize) -> (ok: bool)
    ensures
        ok == (partition >= MIN_PARTITION && is_pow2(partition as nat)),
{
    if partition < MIN_PARTITION {
        return false;
    }
    let mut p = partition;
    while p > 1 && p % 2 == 0
        invariant
            p >= 1,
            is_pow2(partition as nat) == is_pow2(p as nat),
        decreases p,
    {
        p = p / 2;
    }
    p == 1
}

/// `n.div_ceil(d)` without overflow.
pub fn div_ceil(n: usize, d: usize) -> (q: usize)
    requires
        d > 0,
    ensures
        q == ceil_div(n as int, d as int),
        q * d >= n,
        n > 0 ==> q >= 1,
{
    let q = n / d;
    let r = n % d;
    proof {
        assert(n == q * d + r) by (nonlinear_arith)
            requires
                d > 0,
                q == n / d,
                r == n % d,
        ;
        if r != 0 {
            assert(q < usize::MAX) by (nonlinear_arith)
                requires
                    n == q * d + r,
                    0 < r < d,
                    n <= usize::MAX,
            ;
        } else if n > 0 {
            assert(q >= 1) by (nonlinear_arith)
                requires
                    n == q * d,
                    n > 0,
                    d > 0,
            ;
        }
    }
    let res = if r == 0 { q } else { q + 1 };
    proof {
        assert(res == ceil_div(n as int, d as int)) by (nonlinear_arith)
            requires
                d > 0,
                n == q * d + r,
                0 <= r < d,
                res == (if r == 0 { q as int } else { q + 1 }),
        ;
        assert(res * d >= n) by (nonlinear_arith)
            requires
                d > 0,
                n == q * d + r,
                0 <= r < d,
                res == (if r == 0 { q as int } else { q + 1 }),
        ;
    }
    res
}

/// Partition capacity for an IR of at most `max_samples` samples:
/// `max(ceil(max_samples / partition), 2)`.
pub open spec fn spec_max_parts(max_samples: int, partition: int) -> int {
    let q = ceil_div(max_samples, partition);
    if q < 2 {
        2
    } else {
        q
    }
}

/// The preallocated partition count of an engine whose longest
/// (post-stretch) IR has `max_samples` samples.
pub fn max_parts_for(max_samples: usize, partition: usize) -> (m: usize)
    requires
        partition > 0,
    ensures
        m == spec_max_parts(max_samples as int, partition as int),
        m >= 2,
{
    let q = div_ceil(max_samples, partition);
    if q < 2 {
        2
    } else {
        q
    }
}

/// Length and partition count of a rendered IR: the stretched length
/// `raw_len` is kept at least one sample and at most the capacity
/// `max_parts * partition`; the count is its ceiling in partitions.
pub fn rendered_geometry(raw_len: usize, partition: usize, max_parts: usize) -> (r: (usize, usize))
    requires
        partition > 0,
        max_parts * partition <= usize::MAX,
    ensures
        r.0 == ({
            let l = if raw_len < 1 { 1 } else { raw_len as int };
            if l > max_parts * partition { max_parts * partition } else { l }
        }),
        r.1 == ceil_div(r.0 as int, partition as int),
        max_parts >= 1 ==> 1 <= r.1 <= max_parts,
        r.1 * partition >= r.0,
{
    let cap = max_parts * partition;
    let mut out_len = if raw_len < 1 { 1 } else { raw_len };
    if out_len > cap {
        out_len = cap;
    }
    let k = div_ceil(out_len, partition);
    proof {
        if max_parts >= 1 {
            assert(max_parts * partition >= 1) by (nonlinear_arith)
                requires max_parts >= 1, partition > 0;
            assert(out_len <= max_parts * partition);
            assert(k <= max_parts) by (nonlinear_arith)
                requires
                    partition > 0,
                    k == (out_len + partition - 1) / (partition as int),
                    out_len <= max_parts * partition,
            ;
        }
    }
    (out_len, k)
}

} // verus!
