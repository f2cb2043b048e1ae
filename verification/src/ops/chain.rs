//! Accumulation chains.
//!
//! A long sum is kept in several chains, each of which takes every `stride`-th term in
//! ascending order. How many chains there are, and how they are merged at the end, is
//! part of what a kernel promises: it decides the rounding.
use crate::ops::half::{half_to_single, single_of_half};
use crate::ops::lanes::zeros;
use crate::scalar::{zero, Scalar};
use vstd::prelude::*;

verus! {

/// What a chain holds after `count` terms, the first of which has index `start`: `step`
/// maps the value so far and the index of a term to the next value.
pub open spec fn chain<S>(
    init: S,
    step: spec_fn(S, int) -> S,
    start: int,
    stride: int,
    count: int,
) -> S
    decreases count,
{
    if count <= 0 {
        init
    } else {
        step(chain(init, step, start, stride, count - 1), start + stride * (count - 1))
    }
}

/// Pairwise sum of eight lanes: neighbours first.
pub open spec fn tree_sum<S: Scalar>(v: Seq<S>) -> S {
    let lo = v[0].add_spec(v[1]).add_spec(v[2].add_spec(v[3]));
    let hi = v[4].add_spec(v[5]).add_spec(v[6].add_spec(v[7]));
    lo.add_spec(hi)
}

/// Computes [`tree_sum`].
pub fn hsum<S: Scalar>(v: &Vec<S>) -> (r: S)
    requires
        v@.len() == 8,
    ensures
        r == tree_sum(v@),
{
    let lo: S = v[0].add(v[1]).add(v[2].add(v[3]));
    let hi: S = v[4].add(v[5]).add(v[6].add(v[7]));
    lo.add(hi)
}

/// Pairwise maximum of eight lanes: neighbours first.
pub open spec fn tree_max<S: Scalar>(v: Seq<S>) -> S {
    let lo = v[0].max_spec(v[1]).max_spec(v[2].max_spec(v[3]));
    let hi = v[4].max_spec(v[5]).max_spec(v[6].max_spec(v[7]));
    lo.max_spec(hi)
}

/// Computes [`tree_max`].
pub fn hmax<S: Scalar>(v: &Vec<S>) -> (r: S)
    requires
        v@.len() == 8,
    ensures
        r == tree_max(v@),
{
    let lo: S = v[0].max(v[1]).max(v[2].max(v[3]));
    let hi: S = v[4].max(v[5]).max(v[6].max(v[7]));
    lo.max(hi)
}

/// The terms of a sum.
pub enum Terms<'a, S: Scalar> {
    /// The elements themselves.
    Sum(&'a [S]),
    /// Products of two arrays.
    Dot(&'a [S], &'a [S]),
    /// Products of half-precision weights and single-precision values.
    Half(&'a [u16], &'a [S]),
}

/// The terms of a sum, as sequences.
pub enum TermSeq<S> {
    /// The elements themselves.
    Sum(Seq<S>),
    /// Products of two arrays.
    Dot(Seq<S>, Seq<S>),
    /// Products of half-precision weights and single-precision values.
    Half(Seq<u16>, Seq<S>),
}

impl<S: Scalar> TermSeq<S> {
    /// Both sequences are equally long.
    pub open spec fn wf(self) -> bool {
        match self {
            TermSeq::Sum(x) => true,
            TermSeq::Dot(a, b) => a.len() == b.len(),
            TermSeq::Half(a, b) => a.len() == b.len(),
        }
    }

    /// Number of terms.
    pub open spec fn count(self) -> int {
        match self {
            TermSeq::Sum(x) => x.len() as int,
            TermSeq::Dot(a, b) => a.len() as int,
            TermSeq::Half(a, b) => a.len() as int,
        }
    }

    /// How a chain takes term `i`: products are added with a single rounding.
    pub open spec fn taken(self, acc: S, i: int) -> S {
        match self {
            TermSeq::Sum(x) => acc.add_spec(x[i]),
            TermSeq::Dot(a, b) => a[i].fma_spec(b[i], acc),
            TermSeq::Half(a, b) => single_of_half::<S>(a[i]).fma_spec(b[i], acc),
        }
    }

    /// [`TermSeq::taken`] as a function.
    pub open spec fn step(self) -> spec_fn(S, int) -> S {
        |acc: S, i: int| self.taken(acc, i)
    }

    /// Term `i` on its own, rounded.
    pub open spec fn term(self, i: int) -> S {
        match self {
            TermSeq::Sum(x) => x[i],
            TermSeq::Dot(a, b) => a[i].mul_spec(b[i]),
            TermSeq::Half(a, b) => single_of_half::<S>(a[i]).mul_spec(b[i]),
        }
    }

    /// What `lanes` neighbouring chains of `count` terms hold.
    pub open spec fn lanes_of(self, start: int, stride: int, lanes: int, count: int) -> Seq<S> {
        Seq::new(
            lanes as nat,
            |l: int| chain(zero::<S>(), self.step(), start + l, stride, count),
        )
    }
}

impl<'a, S: Scalar> View for Terms<'a, S> {
    type V = TermSeq<S>;

    open spec fn view(&self) -> TermSeq<S> {
        match *self {
            Terms::Sum(x) => TermSeq::Sum(x@),
            Terms::Dot(a, b) => TermSeq::Dot(a@, b@),
            Terms::Half(a, b) => TermSeq::Half(a@, b@),
        }
    }
}

impl<'a, S: Scalar> Terms<'a, S> {
    /// Number of terms.
    pub fn len(&self) -> (r: usize)
        ensures
            r == self@.count(),
    {
        match self {
            Terms::Sum(x) => x.len(),
            Terms::Dot(a, _) => a.len(),
            Terms::Half(a, _) => a.len(),
        }
    }

    /// Adds term `i` to a chain.
    pub fn take(&self, acc: S, i: usize) -> (r: S)
        requires
            self@.wf(),
            i < self@.count(),
        ensures
            r == self@.taken(acc, i as int),
    {
        match self {
            Terms::Sum(x) => acc.add(x[i]),
            Terms::Dot(a, b) => a[i].fma(b[i], acc),
            Terms::Half(a, b) => half_to_single::<S>(a[i]).fma(b[i], acc),
        }
    }

    /// Term `i` on its own.
    pub fn single(&self, i: usize) -> (r: S)
        requires
            self@.wf(),
            i < self@.count(),
        ensures
            r == self@.term(i as int),
    {
        match self {
            Terms::Sum(x) => x[i],
            Terms::Dot(a, b) => a[i].mul(b[i]),
            Terms::Half(a, b) => half_to_single::<S>(a[i]).mul(b[i]),
        }
    }

    /// `lanes` neighbouring chains of `count` terms each, from index `start`; they advance
    /// together.
    pub fn chains(&self, start: usize, stride: usize, lanes: usize, count: usize) -> (r: Vec<S>)
        requires
            self@.wf(),
            0 < lanes <= stride,
            start + stride * count <= self@.count() + (stride - lanes),
        ensures
            r@ == self@.lanes_of(start as int, stride as int, lanes as int, count as int),
    {
        let mut acc: Vec<S> = zeros(lanes);
        self.extend(&mut acc, start, stride, count);
        proof {
            assert(
                acc@ =~= self@.lanes_of(start as int, stride as int, lanes as int, count as int)
            );
        }
        acc
    }

    /// Takes `count` more terms into every chain of `acc`.
    pub fn extend(&self, acc: &mut Vec<S>, start: usize, stride: usize, count: usize)
        requires
            self@.wf(),
            0 < old(acc)@.len() <= stride,
            start + stride * count <= self@.count() + (stride - old(acc)@.len()),
        ensures
            final(acc)@.len() == old(acc)@.len(),
            forall|l: int|
                0 <= l < old(acc)@.len() ==> #[trigger] final(acc)@[l] == chain(
                    old(acc)@[l],
                    self@.step(),
                    start + l,
                    stride as int,
                    count as int,
                ),
    {
        let ghost acc0 = acc@;
        let total: usize = self.len();
        let mut r: usize = 0;
        let mut at: usize = start;
        while r < count
            invariant
                self@.wf(),
                r <= count,
                total == self@.count(),
                acc@.len() == acc0.len(),
                0 < acc0.len() <= stride,
                r < count ==> at == start + stride * r,
                start + stride * count <= total + (stride - acc0.len()),
                forall|l: int|
                    0 <= l < acc0.len() ==> #[trigger] acc@[l] == chain(
                        acc0[l],
                        self@.step(),
                        start + l,
                        stride as int,
                        r as int,
                    ),
            decreases count - r,
        {
            proof {
                assert(stride * r + stride <= stride * count) by (nonlinear_arith)
                    requires
                        r + 1 <= count,
                        0 <= stride,
                ;
                assert(stride * (r + 1) == stride * r + stride) by (nonlinear_arith);
            }
            let mut l: usize = 0;
            while l < acc.len()
                invariant
                    self@.wf(),
                    total == self@.count(),
                    l <= acc@.len(),
                    acc@.len() == acc0.len(),
                    at == start + stride * r,
                    at + acc0.len() <= total,
                    r < count,
                    forall|x: int|
                        0 <= x < acc0.len() ==> #[trigger] acc@[x] == chain(
                            acc0[x],
                            self@.step(),
                            start + x,
                            stride as int,
                            if x < l {
                                r + 1
                            } else {
                                r as int
                            },
                        ),
                decreases acc@.len() - l,
            {
                let v: S = self.take(acc[l], at + l);
                proof {
                    assert(start + l + stride * (r + 1 - 1) == at + l);
                }
                acc.set(l, v);
                l = l + 1;
            }
            r = r + 1;
            if r < count {
                proof {
                    assert(stride * r + stride <= stride * count) by (nonlinear_arith)
                        requires
                            r + 1 <= count,
                            0 <= stride,
                    ;
                }
                at = at + stride;
            }
        }
    }
}

} // verus!
