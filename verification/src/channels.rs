//! Channel layout of sample streams: interleaved frames to one sequence
//! per channel.

use vstd::prelude::*;

verus! {

/// How many of `n` interleaved samples belong to channel `c` of `ch`: the
/// positions `c, c + ch, c + 2 ch, ...` below `n`.
pub open spec fn channel_len(n: int, ch: int, c: int) -> int {
    if n > c {
        (n - 1 - c) / ch + 1
    } else {
        0
    }
}

/// `out` holds, for each channel `c` of `ch`, the samples of `inter` at
/// positions `c, c + ch, c + 2 ch, ...`, in order.
pub open spec fn deinterleaved<T>(inter: Seq<T>, ch: int, out: Seq<Seq<T>>) -> bool {
    &&& out.len() == ch
    &&& forall|c: int|
        0 <= c < ch ==> {
            &&& (#[trigger] out[c]).len() == channel_len(inter.len() as int, ch, c)
            &&& forall|k: int| 0 <= k < out[c].len() ==> #[trigger] out[c][k] == inter[k * ch + c]
        }
}

/// The samples of channel `c` of `ch` interleaved channels.
fn channel_of<T: Copy>(inter: &Vec<T>, ch: usize, c: usize) -> (v: Vec<T>)
    requires
        ch >= 1,
        c < ch,
    ensures
        v@.len() == channel_len(inter@.len() as int, ch as int, c as int),
        forall|k: int| 0 <= k < v@.len() ==> #[trigger] v@[k] == inter@[k * ch + c],
{
    let n = inter.len();
    let mut v: Vec<T> = Vec::new();
    let mut i: usize = c;
    let ghost mut jc: int = 0;
    assert(v@.len() * ch == 0) by (nonlinear_arith)
        requires
            v@.len() == 0,
    ;
    while i < n
        invariant
            ch >= 1,
            c < ch,
            n == inter@.len(),
            jc == v@.len() * ch,
            i < n ==> i == jc + c,
            i >= n ==> jc + c >= n,
            forall|k: int| 0 <= k < v@.len() ==> #[trigger] v@[k] == inter@[k * ch + c],
            v@.len() > 0 ==> jc - ch + c < n,
        decreases n - i,
    {
        v.push(inter[i]);
        proof {
            let j = v@.len() - 1;
            assert(v@[j] == inter@[j * ch + c]) by {
                assert((v@.len() - 1) * ch == jc) by (nonlinear_arith)
                    requires
                        jc == (v@.len() - 1) * ch,
                ;
            }
            assert(v@.len() * ch == jc + ch) by (nonlinear_arith)
                requires
                    jc == (v@.len() - 1) * ch,
            ;
            jc = jc + ch;
        }
        if n - i > ch {
            i = i + ch;
        } else {
            i = n;
        }
    }
    proof {
        let j = v@.len() as int;
        if n > c {
            assert(j >= 1);
            assert(j * ch == (j - 1) * ch + ch) by (nonlinear_arith);
            assert((j - 1) * ch + c < n);
            let x = n - 1 - c;
            vstd::arithmetic::div_mod::lemma_fundamental_div_mod_converse(
                x,
                ch as int,
                j - 1,
                x - (j - 1) * ch,
            );
        } else {
            if j > 0 {
                assert((j - 1) * ch >= 0) by (nonlinear_arith)
                    requires
                        j >= 1,
                        ch >= 1,
                ;
                assert(j * ch == (j - 1) * ch + ch) by (nonlinear_arith);
            }
        }
    }
    v
}

/// Split interleaved samples into one sequence per channel.
pub fn deinterleave<T: Copy>(inter: &Vec<T>, ch: usize) -> (out: Vec<Vec<T>>)
    requires
        ch >= 1,
    ensures
        deinterleaved(inter@, ch as int, out@.map_values(|v: Vec<T>| v@)),
{
    let mut out: Vec<Vec<T>> = Vec::new();
    let mut c: usize = 0;
    while c < ch
        invariant
            ch >= 1,
            0 <= c <= ch,
            out@.len() == c,
            forall|d: int|
                0 <= d < c ==> {
                    &&& (#[trigger] out@[d])@.len() == channel_len(inter@.len() as int, ch as int, d)
                    &&& forall|k: int| 0 <= k < out@[d]@.len() ==> #[trigger] out@[d]@[k] == inter@[k * ch + d]
                },
        decreases ch - c,
    {
        let v = channel_of(inter, ch, c);
        out.push(v);
        c += 1;
    }
    let ghost views = out@.map_values(|v: Vec<T>| v@);
    assert forall|d: int| 0 <= d < ch implies #[trigger] views[d] == out@[d]@ by {}
    out
}

/// The channels of a sample file's interleaved data, when there is any:
/// `None` for no samples or no channels.
pub fn split_channels<T: Copy>(inter: &Vec<T>, ch: usize) -> (r: Option<Vec<Vec<T>>>)
    ensures
        r is None <==> (inter@.len() == 0 || ch == 0),
        r matches Some(out) ==> deinterleaved(inter@, ch as int, out@.map_values(|v: Vec<T>| v@)),
{
    if inter.len() == 0 || ch == 0 {
        None
    } else {
        Some(deinterleave(inter, ch))
    }
}

} // verus!
