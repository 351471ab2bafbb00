//! The layout of an offline render: how many zones carry an IR, how wide
//! the engine runs, and the blocks of input it is fed.

use vstd::prelude::*;

verus! {

/// Channels taken from a source: at most a stereo pair.
pub open spec fn stereo(n: int) -> int {
    if n < 2 {
        n
    } else {
        2
    }
}

pub open spec fn max_int(a: int, b: int) -> int {
    if a >= b {
        a
    } else {
        b
    }
}

/// The widest IR among the first `n` zones (at least mono), each taken as
/// at most a stereo pair.
pub open spec fn ir_width(irs: Seq<Option<usize>>, n: int) -> int
    decreases n,
{
    if n <= 0 {
        1
    } else {
        match irs[n - 1] {
            Some(c) => max_int(ir_width(irs, n - 1), stereo(c as int)),
            None => ir_width(irs, n - 1),
        }
    }
}

/// One past the last of the first `n` zones that has an IR (0: none).
pub open spec fn zones_loaded(irs: Seq<Option<usize>>, n: int) -> int
    decreases n,
{
    if n <= 0 {
        0
    } else if irs[n - 1] is Some {
        n
    } else {
        zones_loaded(irs, n - 1)
    }
}

/// The widest IR: at least mono and at least as wide as every loaded
/// zone's IR (each taken as at most stereo), and no wider than one of them
/// or mono.
pub proof fn law_ir_width_covers_every_zone(irs: Seq<Option<usize>>, n: int)
    requires
        0 <= n <= irs.len(),
    ensures
        1 <= ir_width(irs, n) <= 2,
        forall|z: int| 0 <= z < n && #[trigger] irs[z] is Some ==> ir_width(irs, n) >= stereo(irs[z]->0 as int),
        ir_width(irs, n) == 1 || exists|z: int|
            0 <= z < n && #[trigger] irs[z] is Some && ir_width(irs, n) == stereo(irs[z]->0 as int),
    decreases n,
{
    if n > 0 {
        law_ir_width_covers_every_zone(irs, n - 1);
        if ir_width(irs, n) != 1 {
            if irs[n - 1] is Some && ir_width(irs, n) == stereo(irs[n - 1]->0 as int) {
                assert(irs[n - 1] is Some);
            } else {
                let z = choose|z: int|
                    0 <= z < n - 1 && #[trigger] irs[z] is Some && ir_width(irs, n - 1) == stereo(
                        irs[z]->0 as int,
                    );
                assert(irs[z] is Some);
            }
        }
    }
}

/// The loaded-zone count is one past the last zone holding an IR: that zone
/// has one, every later zone has none, and it is 0 only when no zone has
/// one.
pub proof fn law_zones_loaded_is_last_ir(irs: Seq<Option<usize>>, n: int)
    requires
        0 <= n <= irs.len(),
    ensures
        0 <= zones_loaded(irs, n) <= n,
        zones_loaded(irs, n) > 0 ==> irs[zones_loaded(irs, n) - 1] is Some,
        forall|z: int| zones_loaded(irs, n) <= z < n ==> #[trigger] irs[z] is None,
    decreases n,
{
    if n > 0 {
        law_zones_loaded_is_last_ir(irs, n - 1);
    }
}

/// The render layout from the input's channel count and, per zone, the
/// channel count of its IR if it has one: `None` when no zone has an IR;
/// else the number of zones up to the last one loaded, and the engine
/// width, the wider of input and IRs, at most stereo. A mono input through
/// a stereo IR renders stereo.
pub fn render_layout(in_ch: usize, irs: &Vec<Option<usize>>) -> (r: Option<(usize, usize)>)
    ensures
        match r {
            None => zones_loaded(irs@, irs@.len() as int) == 0,
            Some((n_loaded, channels)) => {
                &&& n_loaded == zones_loaded(irs@, irs@.len() as int)
                &&& n_loaded > 0
                &&& channels == stereo(max_int(stereo(in_ch as int), ir_width(irs@, irs@.len() as int)))
                &&& 1 <= channels <= 2
                &&& channels >= stereo(in_ch as int)
                &&& forall|z: int|
                    0 <= z < irs@.len() && #[trigger] irs@[z] is Some ==> channels >= stereo(
                        irs@[z]->0 as int,
                    )
                &&& irs@[n_loaded - 1] is Some
                &&& forall|z: int| n_loaded <= z < irs@.len() ==> #[trigger] irs@[z] is None
            },
        },
        r is None <==> forall|z: int| 0 <= z < irs@.len() ==> #[trigger] irs@[z] is None,
{
    proof {
        law_ir_width_covers_every_zone(irs@, irs@.len() as int);
        law_zones_loaded_is_last_ir(irs@, irs@.len() as int);
    }
    let mut n_loaded: usize = 0;
    let mut ir_ch: usize = 1;
    let mut z: usize = 0;
    while z < irs.len()
        invariant
            0 <= z <= irs@.len(),
            n_loaded == zones_loaded(irs@, z as int),
            ir_ch == ir_width(irs@, z as int),
            1 <= ir_ch <= 2,
        decreases irs@.len() - z,
    {
        match irs[z] {
            Some(c) => {
                let w = if c < 2 { c } else { 2 };
                if w > ir_ch {
                    ir_ch = w;
                }
                n_loaded = z + 1;
            },
            None => {},
        }
        z += 1;
    }
    if n_loaded == 0 {
        return None;
    }
    let i = if in_ch < 2 { in_ch } else { 2 };
    let wide = if i > ir_ch { i } else { ir_ch };
    Some((n_loaded, if wide < 2 { wide } else { 2 }))
}

/// A block of `hop` samples of `src` from `start` on, zero past its end.
pub fn fill_block<T: Copy>(src: &Vec<T>, start: usize, hop: usize, zero: T) -> (b: Vec<T>)
    requires
        start + hop <= usize::MAX,
    ensures
        b@.len() == hop,
        forall|j: int|
            0 <= j < hop ==> #[trigger] b@[j] == (if start + j < src@.len() {
                src@[start + j]
            } else {
                zero
            }),
{
    let mut b: Vec<T> = Vec::new();
    let mut j: usize = 0;
    while j < hop
        invariant
            start + hop <= usize::MAX,
            0 <= j <= hop,
            b@.len() == j,
            forall|i: int|
                0 <= i < j ==> #[trigger] b@[i] == (if start + i < src@.len() {
                    src@[start + i]
                } else {
                    zero
                }),
        decreases hop - j,
    {
        let idx = start + j;
        if idx < src.len() {
            b.push(src[idx]);
        } else {
            b.push(zero);
        }
        j += 1;
    }
    b
}

} // verus!
