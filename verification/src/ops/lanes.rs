//! Runs of consecutive elements that are computed together.
//!
//! A run stands for a vector register (or a few of them side by side): operations act
//! on every lane alike, and no lane looks at another.
use crate::scalar::{zero, Scalar};
use vstd::prelude::*;

verus! {

/// A run of `len` zeros.
pub fn zeros<S: Scalar>(len: usize) -> (r: Vec<S>)
    ensures
        r@ == Seq::new(len as nat, |l: int| zero::<S>()),
{
    let z: S = S::of_raw(0);
    let mut r: Vec<S> = Vec::with_capacity(len);
    while r.len() < len
        invariant
            r@.len() <= len,
            z == zero::<S>(),
            forall|l: int| 0 <= l < r@.len() ==> r@[l] == zero::<S>(),
        decreases len - r.len(),
    {
        r.push(z);
    }
    proof {
        assert(r@ =~= Seq::new(len as nat, |l: int| zero::<S>()));
    }
    r
}

/// The run of `len` elements that begins at `at`.
pub fn load<S: Copy>(src: &[S], at: usize, len: usize) -> (r: Vec<S>)
    requires
        at + len <= src.len(),
    ensures
        r@ == src@.subrange(at as int, at + len),
{
    let mut r: Vec<S> = Vec::with_capacity(len);
    while r.len() < len
        invariant
            at + len <= src.len(),
            r@.len() <= len,
            forall|l: int| 0 <= l < r@.len() ==> r@[l] == src@[at + l],
        decreases len - r.len(),
    {
        let v: S = src[at + r.len()];
        r.push(v);
    }
    proof {
        assert(r@ =~= src@.subrange(at as int, at + len));
    }
    r
}

/// Writes the run `v` over the elements that begin at `at`.
pub fn store<S: Copy>(dst: &mut [S], at: usize, v: &Vec<S>)
    requires
        at + v@.len() <= old(dst)@.len(),
    ensures
        final(dst)@.len() == old(dst)@.len(),
        forall|x: int|
            0 <= x < old(dst)@.len() ==> #[trigger] final(dst)@[x] == if at <= x < at + v@.len() {
                v@[x - at]
            } else {
                old(dst)@[x]
            },
{
    let ghost before = dst@;
    let mut l: usize = 0;
    while l < v.len()
        invariant
            at + v@.len() <= dst.len(),
            dst@.len() == before.len(),
            l <= v@.len(),
            forall|x: int|
                0 <= x < before.len() ==> #[trigger] dst@[x] == if at <= x < at + l {
                    v@[x - at]
                } else {
                    before[x]
                },
        decreases v@.len() - l,
    {
        dst[at + l] = v[l];
        l = l + 1;
    }
}

/// Multiplies the run that begins at `at` by `s` and adds it to `acc`, lane by lane,
/// rounding once.
pub fn fma_lanes<S: Scalar>(acc: &mut Vec<S>, b: &[S], at: usize, s: S)
    requires
        at + old(acc)@.len() <= b@.len(),
    ensures
        final(acc)@.len() == old(acc)@.len(),
        forall|l: int|
            0 <= l < old(acc)@.len() ==> #[trigger] final(acc)@[l] == b@[at + l].fma_spec(
                s,
                old(acc)@[l],
            ),
{
    let ghost before = acc@;
    let mut l: usize = 0;
    while l < acc.len()
        invariant
            at + before.len() <= b.len(),
            acc@.len() == before.len(),
            l <= before.len(),
            forall|x: int|
                0 <= x < before.len() ==> #[trigger] acc@[x] == if x < l {
                    b@[at + x].fma_spec(s, before[x])
                } else {
                    before[x]
                },
        decreases before.len() - l,
    {
        let v: S = b[at + l].fma(s, acc[l]);
        acc.set(l, v);
        l = l + 1;
    }
}

} // verus!
