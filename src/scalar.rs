use vstd::prelude::*;
use crate::iters::SIMDIterator;
use crate::vecs::{Packable, Packed, splice};

verus! {

/// Stores a stream of vectors back into a contiguous run of scalars.
pub trait IntoScalar<T: Packable>: SIMDIterator<Scalar = T> {
    /// Drains the iterator into a new buffer.
    fn scalar_collect(&mut self) -> (r: Vec<T>)
        requires
            old(self).inv(),
        ensures
            r@ == old(self).drained(),
            *final(self) == old(self).spent(),
            final(self).inv(),
            final(self).spec_scalar_len() == old(self).spec_scalar_len(),
            final(self).spec_scalar_position() == old(self).spec_scalar_len(),
    {
        let w = Self::Vector::width();
        let mut ret: Vec<T> = Vec::new();
        let default = Self::Vector::splat(T::zero());
        proof {
            Self::Vector::lemma_width();
        }
        loop
            invariant
                self.inv(),
                w == Self::Vector::spec_width(),
                self.spec_scalar_len() == old(self).spec_scalar_len(),
                self.spent() == old(self).spent(),
                ret@ + self.drained() == old(self).drained(),
            ensures
                !self.has_vector(),
            decreases self.spec_scalar_len() - self.spec_scalar_position(),
        {
            let ghost before = *self;
            proof {
                before.lemma_progress();
                before.lemma_unfold(default);
            }
            match self.next_vector() {
                Some(v) => {
                    proof {
                        Self::Vector::lemma_shape(v);
                    }
                    push_lanes(&mut ret, &v, 0);
                    assert(ret@ + self.drained() =~= old(self).drained());
                },
                None => break,
            }
        }
        let ghost before = *self;
        proof {
            before.lemma_progress();
            before.lemma_unfold(default);
        }
        match self.next_partial(default) {
            Some((p, n)) => {
                proof {
                    Self::Vector::lemma_shape(p);
                    Self::Vector::lemma_shape(default);
                    assert(p.lanes().subrange(n as int, w as int) =~= before.tail_lanes());
                }
                push_lanes(&mut ret, &p, n);
            },
            None => {},
        }
        proof {
            self.lemma_progress();
        }
        assert(ret@ =~= old(self).drained());
        ret
    }

    /// Drains the iterator into the front of `fill`.
    fn scalar_fill(&mut self, fill: &mut [T])
        requires
            old(self).inv(),
            old(self).drained().len() <= old(fill)@.len(),
        ensures
            final(fill)@ == splice(old(fill)@, 0, old(self).drained()),
            *final(self) == old(self).spent(),
            final(self).inv(),
            final(self).spec_scalar_len() == old(self).spec_scalar_len(),
            final(self).spec_scalar_position() == old(self).spec_scalar_len(),
    {
        let w = Self::Vector::width();
        let fill_len = fill.len();
        let mut offset: usize = 0;
        let default = Self::Vector::splat(T::zero());
        let mut lastvec = default;
        proof {
            Self::Vector::lemma_width();
        }
        loop
            invariant
                self.inv(),
                w == Self::Vector::spec_width(),
                self.spec_scalar_len() == old(self).spec_scalar_len(),
                self.spent() == old(self).spent(),
                fill@.len() == old(fill)@.len(),
                fill_len == fill@.len(),
                old(self).drained().len() <= fill@.len(),
                offset <= old(self).drained().len(),
                fill@.subrange(0, offset as int) + self.drained() == old(self).drained(),
                forall|j: int| offset <= j < fill@.len() ==> fill@[j] == old(fill)@[j],
                offset > 0 ==> offset >= w && lastvec.lanes() == fill@.subrange(
                    offset - w,
                    offset as int,
                ),
            ensures
                !self.has_vector(),
            decreases self.spec_scalar_len() - self.spec_scalar_position(),
        {
            let ghost before = *self;
            proof {
                before.lemma_progress();
                before.lemma_unfold(default);
            }
            match self.next_vector() {
                Some(v) => {
                    proof {
                        Self::Vector::lemma_shape(v);
                        assert(fill@.subrange(0, offset as int) + v.lanes() + self.drained()
                            =~= old(self).drained());
                    }
                    v.store(fill, offset);
                    offset = offset + w;
                    lastvec = v;
                    assert(fill@.subrange(0, offset as int) =~= fill@.subrange(0, offset - w)
                        + v.lanes());
                    assert(lastvec.lanes() =~= fill@.subrange(offset - w, offset as int));
                },
                None => break,
            }
        }
        let ghost before = *self;
        proof {
            before.lemma_progress();
            before.lemma_unfold(default);
        }
        match self.next_partial(default) {
            Some((p, n)) => {
                proof {
                    Self::Vector::lemma_shape(p);
                    Self::Vector::lemma_shape(default);
                    Self::Vector::lemma_shape(lastvec);
                }
                let ghost mid = fill@;
                let ghost d = old(self).drained();
                let ghost tail = before.tail_lanes();
                assert(p.lanes().subrange(n as int, w as int) =~= tail);
                assert forall|j: int| 0 <= j < offset implies mid[j] == d[j] by {
                    assert(d[j] == (mid.subrange(0, offset as int) + tail)[j]);
                }
                assert forall|j: int| 0 <= j < tail.len() implies d[offset + j] == tail[j] by {
                    assert(d[offset + j] == (mid.subrange(0, offset as int) + tail)[offset + j]);
                }
                assert(d.len() == offset + tail.len()) by {
                    assert(d =~= mid.subrange(0, offset as int) + tail);
                }
                if offset > 0 {
                    // The tail is right-aligned, so its padding lanes land on
                    // the last full vector; store that vector again after it.
                    p.store(fill, offset - n);
                    let ghost f1 = fill@;
                    lastvec.store(fill, offset - w);
                    assert forall|j: int| 0 <= j < fill@.len() implies fill@[j] == splice(
                        old(fill)@,
                        0,
                        d,
                    )[j] by {
                        if j < offset - w {
                        } else if j < offset {
                            assert(lastvec.lanes()[j - (offset - w)] == mid[j]);
                        } else if j < offset + tail.len() {
                            assert(f1[j] == p.lanes()[j - (offset - n)]);
                            assert(p.lanes()[j - (offset - n)] == tail[j - offset]);
                        }
                    }
                } else {
                    let mut i: usize = 0;
                    while i < w - n
                        invariant
                            offset == 0,
                            n < w,
                            w == Self::Vector::spec_width(),
                            p.lanes().len() == w,
                            fill@.len() == mid.len(),
                            w - n <= mid.len(),
                            i <= w - n,
                            forall|j: int| 0 <= j < i ==> fill@[j] == p.lanes()[j + n],
                            forall|j: int| i <= j < fill@.len() ==> fill@[j] == mid[j],
                        decreases w - n - i,
                    {
                        fill[i] = p.extract(i + n);
                        i = i + 1;
                    }
                    assert forall|j: int| 0 <= j < fill@.len() implies fill@[j] == splice(
                        old(fill)@,
                        0,
                        d,
                    )[j] by {
                        if j < tail.len() {
                            assert(p.lanes()[j + n] == tail[j]);
                        } else {
                            assert(fill@[j] == mid[j]);
                        }
                    }
                }
                assert(fill@ =~= splice(old(fill)@, 0, old(self).drained()));
            },
            None => {
                assert(fill@ =~= splice(old(fill)@, 0, old(self).drained()));
            },
        }
        proof {
            self.lemma_progress();
        }
    }
}

impl<T: Packable, I: SIMDIterator<Scalar = T>> IntoScalar<T> for I {

}

/// Appends lanes `from..width()` of `v` to `out`.
fn push_lanes<V: Packed>(out: &mut Vec<V::Scalar>, v: &V, from: usize)
    requires
        from <= V::spec_width(),
        v.lanes().len() == V::spec_width(),
    ensures
        final(out)@ == old(out)@ + v.lanes().subrange(from as int, V::spec_width() as int),
{
    let w = V::width();
    let mut i: usize = from;
    while i < w
        invariant
            from <= i <= w,
            w == V::spec_width(),
            v.lanes().len() == w,
            out@ == old(out)@ + v.lanes().subrange(from as int, i as int),
        decreases w - i,
    {
        out.push(v.extract(i));
        i = i + 1;
        assert(out@ =~= old(out)@ + v.lanes().subrange(from as int, i as int));
    }
}

} // verus!
