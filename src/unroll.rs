use vstd::prelude::*;
use crate::iters::SIMDIterator;
use crate::vecs::{Packable, Packed};

verus! {

/// The state of `it` after `k` full vectors.
pub open spec fn advanced_by<I: SIMDIterator>(it: I, k: nat) -> I
    decreases k,
{
    if k == 0 {
        it
    } else {
        advanced_by(it, (k - 1) as nat).advanced()
    }
}

/// An iterator which yields the full vectors of a `SIMDIterator`.
pub struct PackedIter<T: SIMDIterator> {
    pub iter: T,
}

/// An iterator which yields up to `amt` full vectors of a `PackedIter` at a
/// time, in a window over its own scratch storage.
pub struct Unroll<'a, T: SIMDIterator> {
    pub iter: &'a mut PackedIter<T>,
    pub amt: usize,
    pub scratch: [T::Vector; 8],
}

impl<T: SIMDIterator> PackedIter<T> {
    /// The underlying iterator.
    pub fn unpack(self) -> (r: T)
        ensures
            r == self.iter,
    {
        self.iter
    }

    /// The next full vector of the underlying iterator.
    pub fn next(&mut self) -> (r: Option<T::Vector>)
        requires
            old(self).iter.inv(),
        ensures
            final(self).iter.inv(),
            old(self).iter.has_vector() ==> {
                &&& r matches Some(v)
                &&& v.lanes() == old(self).iter.peek_vector()
                &&& final(self).iter == old(self).iter.advanced()
            },
            !old(self).iter.has_vector() ==> r is None && *final(self) == *old(self),
    {
        self.iter.next_vector()
    }

    /// A view which yields up to `amt` vectors at a time; `amt` is at most 8.
    pub fn unroll(&mut self, amt: usize) -> (r: Unroll<'_, T>)
        requires
            amt <= 8,
        ensures
            r.amt == amt,
            *r.iter == *old(self),
            *final(self) == *final(r.iter),
    {
        let fill = T::Vector::splat(T::Scalar::zero());
        Unroll { iter: self, amt, scratch: [fill; 8] }
    }
}

impl<'a, T: SIMDIterator> Unroll<'a, T> {
    /// The next group of vectors: as many as `amt`, or all that are left if
    /// fewer are, or `None` if none is.
    pub fn next(&mut self) -> (r: Option<&[T::Vector]>)
        requires
            old(self).iter.iter.inv(),
            old(self).amt <= 8,
        ensures
            final(self).amt == old(self).amt,
            final(self).iter.iter.inv(),
            ({
                let k: nat = match r {
                    Some(s) => s@.len(),
                    None => 0,
                };
                &&& k <= old(self).amt
                &&& r is Some ==> 0 < k
                &&& final(self).iter.iter == advanced_by(old(self).iter.iter, k)
                &&& k < old(self).amt ==> !advanced_by(old(self).iter.iter, k).has_vector()
                &&& forall|j: nat|
                    j < k ==> {
                        &&& #[trigger] advanced_by(old(self).iter.iter, j).has_vector()
                        &&& r.unwrap()@[j as int].lanes() == advanced_by(
                            old(self).iter.iter,
                            j,
                        ).peek_vector()
                    }
            }),
    {
        let mut i: usize = 0;
        loop
            invariant
                i <= self.amt,
                self.amt == old(self).amt,
                self.amt <= 8,
                self.iter.iter.inv(),
                self.iter.iter == advanced_by(old(self).iter.iter, i as nat),
                forall|j: nat|
                    j < i ==> {
                        &&& #[trigger] advanced_by(old(self).iter.iter, j).has_vector()
                        &&& self.scratch@[j as int].lanes() == advanced_by(
                            old(self).iter.iter,
                            j,
                        ).peek_vector()
                    },
            ensures
                i <= self.amt,
                self.amt == old(self).amt,
                self.iter.iter.inv(),
                self.iter.iter == advanced_by(old(self).iter.iter, i as nat),
                i < self.amt ==> !advanced_by(old(self).iter.iter, i as nat).has_vector(),
                forall|j: nat|
                    j < i ==> {
                        &&& #[trigger] advanced_by(old(self).iter.iter, j).has_vector()
                        &&& self.scratch@[j as int].lanes() == advanced_by(
                            old(self).iter.iter,
                            j,
                        ).peek_vector()
                    },
            decreases self.amt - i,
        {
            if i >= self.amt {
                break;
            }
            match self.iter.next() {
                Some(v) => {
                    let ghost prev = self.scratch@;
                    self.scratch[i] = v;
                    i = i + 1;
                    proof {
                        assert forall|j: nat| j < i implies {
                            &&& #[trigger] advanced_by(old(self).iter.iter, j).has_vector()
                            &&& self.scratch@[j as int].lanes() == advanced_by(
                                old(self).iter.iter,
                                j,
                            ).peek_vector()
                        } by {
                            if j < i - 1 {
                                assert(self.scratch@[j as int] == prev[j as int]);
                            }
                        }
                    }
                },
                None => break,
            }
        }
        if i > 0 {
            let window = vstd::slice::slice_subrange(self.scratch.as_slice(), 0, i);
            Some(window)
        } else {
            None
        }
    }
}

} // verus!
