use vstd::prelude::*;
use crate::iters::{SIMDIterator, SIMDRefIter, SIMDRefMutIter, next_partial_in, next_vector_in, padded};
use crate::vecs::{Packable, Packed};

verus! {

/// From `pos` on, `dst` holds what `f` maps the vectors of a cursor at `pos`
/// over `src` to: for each full vector, all lanes of its image; for the tail,
/// padded in front from `d`, the lanes of its image that stand over real
/// scalars.
pub open spec fn maps_chunks<V: Packed, A: Packed, F: Fn(V) -> A>(
    f: F,
    d: Seq<V::Scalar>,
    src: Seq<V::Scalar>,
    pos: int,
    dst: Seq<A::Scalar>,
) -> bool
    decreases src.len() - pos,
{
    let w = V::spec_width();
    if 0 < w && 0 <= pos && pos + w <= src.len() {
        &&& exists|p: (V, A)|
            p.0.lanes() == src.subrange(pos, pos + w) && #[trigger] f.ensures((p.0,), p.1)
                && dst.subrange(pos, pos + w) == p.1.lanes()
        &&& maps_chunks(f, d, src, pos + w, dst)
    } else if 0 <= pos < src.len() {
        let m = (w - (src.len() - pos)) as nat;
        exists|p: (V, A)|
            p.0.lanes() == padded(d, m, src.subrange(pos, src.len() as int)) && #[trigger] f.ensures(
                (p.0,),
                p.1,
            ) && dst.subrange(pos, src.len() as int) == p.1.lanes().subrange(m as int, w as int)
    } else {
        true
    }
}

/// Every `x` that agrees with `cur` on `from..to` and maps the chunks from
/// `to` on also maps them from `from` on.
pub open spec fn chunks_done<V: Packed, A: Packed, F: Fn(V) -> A>(
    f: F,
    d: Seq<V::Scalar>,
    src: Seq<V::Scalar>,
    from: int,
    to: int,
    cur: Seq<A::Scalar>,
) -> bool {
    forall|x: Seq<A::Scalar>|
        x.len() == cur.len() && x.subrange(from, to) == cur.subrange(from, to)
            && #[trigger] maps_chunks(f, d, src, to, x) ==> maps_chunks(f, d, src, from, x)
}

impl<'a, T: Packable> SIMDRefMutIter<'a, T> {
    /// Runs `func` on each vector of the iterator, the tail padded from
    /// `default`, and stores each result where its input was read; drains
    /// the iterator.
    pub fn simd_for_each<F: Fn(T::Vector) -> T::Vector>(&mut self, default: T::Vector, func: F)
        requires
            old(self).inv(),
            forall|v: T::Vector| func.requires((v,)),
        ensures
            final(self).inv(),
            final(self).position == old(self).data@.len(),
            final(self).data@.len() == old(self).data@.len(),
            final(self).data@.subrange(0, old(self).position as int) == old(self).data@.subrange(
                0,
                old(self).position as int,
            ),
            maps_chunks(
                func,
                default.lanes(),
                old(self).data@,
                old(self).position as int,
                final(self).data@,
            ),
    {
        let w = T::Vector::width();
        let mut lastvec = default;
        let mut wrote = false;
        let ghost src = self.data@;
        let ghost start = self.position as int;
        let ghost len = src.len() as int;
        proof {
            T::Vector::lemma_width();
        }
        loop
            invariant
                self.inv(),
                w == T::Vector::spec_width(),
                0 < w,
                self.data@.len() == len,
                len == src.len(),
                src == old(self).data@,
                start == old(self).position,
                start <= self.position,
                self.data@.subrange(self.position as int, len) == src.subrange(
                    self.position as int,
                    len,
                ),
                self.data@.subrange(0, start) == src.subrange(0, start),
                chunks_done(func, default.lanes(), src, start, self.position as int, self.data@),
                forall|v: T::Vector| func.requires((v,)),
                wrote ==> start + w <= self.position && lastvec.lanes() == self.data@.subrange(
                    self.position - w,
                    self.position as int,
                ),
            ensures
                !self.has_vector(),
            decreases self.data@.len() - self.position,
        {
            let ghost pos = self.position as int;
            let ghost before = self.data@;
            match self.next_vector() {
                Some(v) => {
                    let out = func(v);
                    proof {
                        T::Vector::lemma_shape(out);
                        assert forall|j: int| 0 <= j < w implies v.lanes()[j] == src[pos + j] by {
                            assert(before.subrange(pos, len)[j] == src.subrange(pos, len)[j]);
                        }
                        assert(v.lanes() =~= src.subrange(pos, pos + w));
                    }
                    out.store(&mut *self.data, self.position - w);
                    lastvec = out;
                    wrote = true;
                    proof {
                        let cur = self.data@;
                        assert(cur.subrange(pos, pos + w) =~= out.lanes());
                        assert forall|j: int| pos + w <= j < len implies cur[j] == src[j] by {
                            assert(before.subrange(pos, len)[j - pos] == src.subrange(pos, len)[j
                                - pos]);
                        }
                        assert(cur.subrange(self.position as int, len) =~= src.subrange(
                            self.position as int,
                            len,
                        ));
                        assert(cur.subrange(0, start) =~= src.subrange(0, start));
                        assert forall|x: Seq<T>|
                            x.len() == cur.len() && x.subrange(start, pos + w) == cur.subrange(
                                start,
                                pos + w,
                            ) && #[trigger] maps_chunks(
                                func,
                                default.lanes(),
                                src,
                                pos + w,
                                x,
                            ) implies maps_chunks(func, default.lanes(), src, start, x) by {
                            assert forall|k: int| pos <= k < pos + w implies x[k] == cur[k] by {
                                assert(x.subrange(start, pos + w)[k - start] == cur.subrange(
                                    start,
                                    pos + w,
                                )[k - start]);
                            }
                            assert forall|k: int| start <= k < pos implies x[k] == before[k] by {
                                assert(x.subrange(start, pos + w)[k - start] == cur.subrange(
                                    start,
                                    pos + w,
                                )[k - start]);
                            }
                            assert(x.subrange(pos, pos + w) =~= cur.subrange(pos, pos + w));
                            assert(x.subrange(start, pos) =~= before.subrange(start, pos));
                            let p = (v, out);
                            assert(p.0.lanes() == src.subrange(pos, pos + w) && func.ensures(
                                (p.0,),
                                p.1,
                            ) && x.subrange(pos, pos + w) == p.1.lanes());
                            assert(maps_chunks(func, default.lanes(), src, pos, x));
                        }
                    }
                },
                None => break,
            }
        }
        let end = self.position;
        let ghost pos = end as int;
        let ghost before = self.data@;
        proof {
            self.lemma_progress();
        }
        match self.next_partial(default) {
            Some((p, n)) => {
                let out = func(p);
                proof {
                    T::Vector::lemma_shape(out);
                    T::Vector::lemma_shape(lastvec);
                }
                if wrote {
                    // The tail is right-aligned, so its padding lanes land on
                    // the last full vector; store that vector again after it.
                    out.store(&mut *self.data, end - n);
                    lastvec.store(&mut *self.data, end - w);
                } else {
                    let mut i: usize = 0;
                    while i < w - n
                        invariant
                            n < w,
                            w == T::Vector::spec_width(),
                            out.lanes().len() == w,
                            self.data@.len() == len,
                            pos + (w - n) == len,
                            end == pos,
                            self.position == len,
                            i <= w - n,
                            self.inv(),
                            forall|j: int| 0 <= j < pos ==> self.data@[j] == before[j],
                            forall|j: int| pos <= j < pos + i ==> self.data@[j] == out.lanes()[j - pos + n],
                        decreases w - n - i,
                    {
                        self.data[end + i] = out.extract(i + n);
                        i = i + 1;
                    }
                }
                proof {
                    let cur = self.data@;
                    assert(cur.subrange(start, pos) =~= before.subrange(start, pos));
                    assert(cur.subrange(0, start) =~= src.subrange(0, start));
                    assert(cur.subrange(pos, len) =~= out.lanes().subrange(n as int, w as int));
                    assert(p.lanes() =~= padded(default.lanes(), n as nat, src.subrange(pos, len)));
                    let q = (p, out);
                    assert(q.0.lanes() == padded(default.lanes(), n as nat, src.subrange(pos, len))
                        && func.ensures((q.0,), q.1) && cur.subrange(pos, len) == q.1.lanes().subrange(
                        n as int,
                        w as int,
                    ));
                    assert(maps_chunks(func, default.lanes(), src, pos, cur));
                }
            },
            None => {
                assert(maps_chunks(func, default.lanes(), src, pos, self.data@));
            },
        }
    }
}

impl<'a, T: Packable> SIMDRefIter<'a, T> {
    /// Runs `func` on each vector of the whole buffer, from its start and
    /// with the tail padded from `default`, and stores the results in order
    /// at the front of `into`; the iterator itself is left as it is.
    pub fn simd_map_into<A, B, F>(&mut self, into: &mut [B], default: T::Vector, func: F) where
        F: Fn(T::Vector) -> A,
        A: Packed<Scalar = B>,
        B: Packable,

        requires
            old(self).inv(),
            forall|v: T::Vector| func.requires((v,)),
            A::spec_width() == T::Vector::spec_width(),
            old(self).data@.len() <= old(into)@.len(),
        ensures
            *final(self) == *old(self),
            final(into)@.len() == old(into)@.len(),
            final(into)@.subrange(old(self).data@.len() as int, old(into)@.len() as int)
                == old(into)@.subrange(old(self).data@.len() as int, old(into)@.len() as int),
            maps_chunks(func, default.lanes(), old(self).data@, 0, final(into)@),
    {
        let w = T::Vector::width();
        let len = self.data.len();
        let mut i: usize = 0;
        let mut lastvec = A::splat(B::zero());
        let ghost src = self.data@;
        let ghost total = into@.len();
        proof {
            T::Vector::lemma_width();
        }
        loop
            invariant
                self.inv(),
                *self == *old(self),
                src == self.data@,
                w == T::Vector::spec_width(),
                A::spec_width() == w,
                0 < w,
                len == src.len(),
                i <= len,
                len <= total,
                into@.len() == total,
                into@.subrange(len as int, total as int) == old(into)@.subrange(
                    len as int,
                    total as int,
                ),
                chunks_done(func, default.lanes(), src, 0, i as int, into@),
                forall|v: T::Vector| func.requires((v,)),
                i > 0 ==> w <= i && lastvec.lanes() == into@.subrange(i - w, i as int),
            ensures
                len < i + w,
            decreases len - i,
        {
            let ghost before = into@;
            let ghost pos = i as int;
            match next_vector_in(self.data, &mut i) {
                Some(v) => {
                    let out = func(v);
                    proof {
                        A::lemma_shape(out);
                    }
                    out.store(into, i - w);
                    lastvec = out;
                    proof {
                        let cur = into@;
                        assert(cur.subrange(pos, pos + w) =~= out.lanes());
                        assert(cur.subrange(len as int, total as int) =~= old(into)@.subrange(
                            len as int,
                            total as int,
                        )) by {
                            assert forall|k: int| len <= k < total implies cur[k] == before[k] by {
                                assert(before.subrange(len as int, total as int)[k - len]
                                    == old(into)@.subrange(len as int, total as int)[k - len]);
                            }
                        }
                        assert forall|x: Seq<B>|
                            x.len() == cur.len() && x.subrange(0, pos + w) == cur.subrange(
                                0,
                                pos + w,
                            ) && #[trigger] maps_chunks(
                                func,
                                default.lanes(),
                                src,
                                pos + w,
                                x,
                            ) implies maps_chunks(func, default.lanes(), src, 0, x) by {
                            assert forall|k: int| pos <= k < pos + w implies x[k] == cur[k] by {
                                assert(x.subrange(0, pos + w)[k] == cur.subrange(0, pos + w)[k]);
                            }
                            assert forall|k: int| 0 <= k < pos implies x[k] == before[k] by {
                                assert(x.subrange(0, pos + w)[k] == cur.subrange(0, pos + w)[k]);
                            }
                            assert(x.subrange(pos, pos + w) =~= cur.subrange(pos, pos + w));
                            assert(x.subrange(0, pos) =~= before.subrange(0, pos));
                            let p = (v, out);
                            assert(p.0.lanes() == src.subrange(pos, pos + w) && func.ensures(
                                (p.0,),
                                p.1,
                            ) && x.subrange(pos, pos + w) == p.1.lanes());
                            assert(maps_chunks(func, default.lanes(), src, pos, x));
                        }
                    }
                },
                None => break,
            }
        }
        let end = i;
        let ghost pos = end as int;
        let ghost before = into@;
        match next_partial_in(self.data, &mut i, default) {
            Some((p, n)) => {
                let out = func(p);
                proof {
                    A::lemma_shape(out);
                    A::lemma_shape(lastvec);
                }
                if end > 0 {
                    // The tail is right-aligned, so its padding lanes land on
                    // the last full vector; store that vector again after it.
                    out.store(into, end - n);
                    lastvec.store(into, end - w);
                } else {
                    let mut j: usize = 0;
                    while j < w - n
                        invariant
                            n < w,
                            w == A::spec_width(),
                            out.lanes().len() == w,
                            into@.len() == total,
                            len <= total,
                            pos + (w - n) == len,
                            end == pos,
                            j <= w - n,
                            forall|k: int| 0 <= k < pos ==> into@[k] == before[k],
                            forall|k: int| len <= k < total ==> into@[k] == before[k],
                            forall|k: int| pos <= k < pos + j ==> into@[k] == out.lanes()[k - pos + n],
                        decreases w - n - j,
                    {
                        into[end + j] = out.extract(j + n);
                        j = j + 1;
                    }
                }
                proof {
                    let cur = into@;
                    assert(cur.subrange(0, pos) =~= before.subrange(0, pos));
                    assert(cur.subrange(pos, len as int) =~= out.lanes().subrange(n as int, w as int));
                    assert(cur.subrange(len as int, total as int) =~= old(into)@.subrange(
                        len as int,
                        total as int,
                    )) by {
                        assert forall|k: int| len <= k < total implies cur[k] == before[k] by {
                        }
                        assert forall|k: int| len <= k < total implies before[k] == old(into)@[k] by {
                            assert(before.subrange(len as int, total as int)[k - len]
                                == old(into)@.subrange(len as int, total as int)[k - len]);
                        }
                    }
                    let q = (p, out);
                    assert(q.0.lanes() == padded(default.lanes(), n as nat, src.subrange(pos, len as int))
                        && func.ensures((q.0,), q.1) && cur.subrange(pos, len as int) == q.1.lanes().subrange(
                        n as int,
                        w as int,
                    ));
                    assert(maps_chunks(func, default.lanes(), src, pos, cur));
                }
            },
            None => {
                assert(maps_chunks(func, default.lanes(), src, pos, into@));
            },
        }
    }
}

} // verus!
