use vstd::prelude::*;
use crate::map::{SIMDMap, lane_function};
use crate::unroll::PackedIter;
use crate::vecs::{Packable, Packed};

verus! {

/// `d`'s first `m` lanes followed by `values`: a tail vector whose `m` leading
/// lanes are padding.
pub open spec fn padded<T>(d: Seq<T>, m: nat, values: Seq<T>) -> Seq<T> {
    d.subrange(0, m as int) + values
}

/// An iterator which packs the scalars it iterates over into vectors.
///
/// Its state is modelled abstractly: `has_vector` says whether a full vector
/// is left, `peek_vector` gives its lanes and `advanced` the state after it;
/// `tail_lanes` gives the real scalars of the final, partial vector, `missing`
/// the number of padding lanes in front of them, and `finished` the state
/// after it.
pub trait SIMDIterator: Sized {
    type Scalar: Packable;
    type Vector: Packed<Scalar = Self::Scalar>;

    spec fn inv(&self) -> bool;

    spec fn spec_scalar_len(&self) -> nat;

    spec fn spec_scalar_position(&self) -> nat;

    spec fn has_vector(&self) -> bool;

    spec fn peek_vector(&self) -> Seq<Self::Scalar>;

    spec fn advanced(&self) -> Self;

    /// At most one vector's worth of scalars is left.
    spec fn within_tail(&self) -> bool;

    spec fn tail_lanes(&self) -> Seq<Self::Scalar>;

    spec fn missing(&self) -> nat;

    spec fn finished(&self) -> Self;

    /// The state once every vector and the tail have been taken.
    spec fn spent(&self) -> Self;

    /// The scalar that `next` yields, and the state after it.
    spec fn peek_scalar(&self) -> Self::Scalar;

    spec fn stepped(&self) -> Self;

    /// The scalars that draining this iterator yields: every full vector,
    /// then the real lanes of the tail.
    spec fn drained(&self) -> Seq<Self::Scalar>;

    /// The lanes of every vector that draining this iterator yields, the
    /// tail padded from `default`.
    spec fn vectors(&self, default: Self::Vector) -> Seq<Seq<Self::Scalar>>;

    proof fn lemma_progress(&self)
        requires
            self.inv(),
        ensures
            self.spec_scalar_position() <= self.spec_scalar_len(),
            self.has_vector() ==> {
                &&& self.advanced().inv()
                &&& self.advanced().spec_scalar_len() == self.spec_scalar_len()
                &&& self.spec_scalar_position() < self.advanced().spec_scalar_position()
                    <= self.spec_scalar_len()
                &&& self.peek_vector().len() == <Self::Vector as Packed>::spec_width()
            },
            !self.has_vector() ==> self.within_tail(),
            self.within_tail() && self.spec_scalar_position() < self.spec_scalar_len() ==> {
                &&& self.finished().inv()
                &&& self.finished().spec_scalar_len() == self.spec_scalar_len()
                &&& self.finished().spec_scalar_position() == self.spec_scalar_len()
                &&& self.missing() < <Self::Vector as Packed>::spec_width()
                &&& self.tail_lanes().len() + self.missing()
                    == <Self::Vector as Packed>::spec_width()
            },
            self.spec_scalar_position() < self.spec_scalar_len() ==> {
                &&& self.stepped().inv()
                &&& self.stepped().spec_scalar_len() == self.spec_scalar_len()
                &&& self.stepped().spec_scalar_position() == self.spec_scalar_position() + 1
            },
    ;

    proof fn lemma_unfold(&self, default: Self::Vector)
        requires
            self.inv(),
        ensures
            self.has_vector() ==> {
                &&& self.spent() == self.advanced().spent()
                &&& self.drained() == self.peek_vector() + self.advanced().drained()
                &&& self.vectors(default) == seq![self.peek_vector()] + self.advanced().vectors(
                    default,
                )
            },
            !self.has_vector() && self.spec_scalar_position() < self.spec_scalar_len() ==> {
                &&& self.spent() == self.finished()
                &&& self.drained() == self.tail_lanes()
                &&& self.vectors(default) == seq![
                    padded(default.lanes(), self.missing(), self.tail_lanes()),
                ]
            },
            self.spec_scalar_position() >= self.spec_scalar_len() ==> {
                &&& !self.has_vector()
                &&& self.spent() == *self
                &&& self.drained() == Seq::<Self::Scalar>::empty()
                &&& self.vectors(default) == Seq::<Seq<Self::Scalar>>::empty()
            },
    ;

    /// The number of lanes of this iterator's vectors.
    fn width(&self) -> (w: usize)
        ensures
            w == <Self::Vector as Packed>::spec_width(),
    {
        Self::Vector::width()
    }

    /// The length of this iterator, measured in scalar elements.
    fn scalar_len(&self) -> (r: usize)
        requires
            self.inv(),
        ensures
            r == self.spec_scalar_len(),
    ;

    /// The current position of this iterator, measured in scalar elements.
    fn scalar_position(&self) -> (r: usize)
        requires
            self.inv(),
        ensures
            r == self.spec_scalar_position(),
    ;

    /// The length of the underlying stream, measured in scalar elements.
    fn len(&self) -> (r: usize)
        requires
            self.inv(),
        ensures
            r == self.spec_scalar_len(),
    ;

    /// The next scalar, one element per step; `None` at the end.
    fn next(&mut self) -> (r: Option<Self::Scalar>)
        requires
            old(self).inv(),
        ensures
            final(self).inv(),
            old(self).spec_scalar_position() < old(self).spec_scalar_len() ==> r == Some(
                old(self).peek_scalar(),
            ) && *final(self) == old(self).stepped(),
            old(self).spec_scalar_position() >= old(self).spec_scalar_len() ==> r is None
                && *final(self) == *old(self),
    ;

    /// The next full vector, or `None` where fewer than `width()` scalars
    /// are left.
    fn next_vector(&mut self) -> (r: Option<Self::Vector>)
        requires
            old(self).inv(),
        ensures
            final(self).inv(),
            old(self).has_vector() ==> {
                &&& r matches Some(v)
                &&& v.lanes() == old(self).peek_vector()
                &&& *final(self) == old(self).advanced()
            },
            !old(self).has_vector() ==> r is None && *final(self) == *old(self),
    ;

    /// The final, partial vector, or `None` where no scalar is left. The
    /// real scalars fill the last lanes; the returned count of leading lanes
    /// is taken from `default`.
    fn next_partial(&mut self, default: Self::Vector) -> (r: Option<(Self::Vector, usize)>)
        requires
            old(self).inv(),
            old(self).within_tail(),
        ensures
            final(self).inv(),
            old(self).spec_scalar_position() < old(self).spec_scalar_len() ==> {
                &&& r matches Some((v, m))
                &&& m == old(self).missing()
                &&& v.lanes() == padded(default.lanes(), old(self).missing(), old(self).tail_lanes())
                &&& *final(self) == old(self).finished()
            },
            old(self).spec_scalar_position() >= old(self).spec_scalar_len() ==> r is None && *final(self) == *old(self),
    ;
}

/// The lanes of each of `vs`.
pub open spec fn lanes_of<V: Packed>(vs: Seq<V>) -> Seq<Seq<V::Scalar>> {
    Seq::new(vs.len(), |i: int| vs[i].lanes())
}

/// `func` has returned from a call on a vector with lanes `lanes`.
pub open spec fn called_on<V: Packed, F: Fn(V)>(func: F, lanes: Seq<V::Scalar>) -> bool {
    exists|v: V| v.lanes() == lanes && #[trigger] func.ensures((v,), ())
}

/// Given the vectors `seen` that `func` was called on, with lanes `vs`,
/// `func` was called on a vector with the lanes of each of `vs`.
proof fn lemma_each_called<V: Packed, F: Fn(V)>(func: F, seen: Seq<V>, vs: Seq<Seq<V::Scalar>>)
    requires
        lanes_of(seen) == vs,
        forall|j: int| 0 <= j < seen.len() ==> func.ensures((#[trigger] seen[j],), ()),
    ensures
        forall|j: int| 0 <= j < vs.len() ==> called_on(func, #[trigger] vs[j]),
{
    assert forall|j: int| 0 <= j < vs.len() implies called_on(func, #[trigger] vs[j]) by {
        let v = seen[j];
        assert(lanes_of(seen)[j] == v.lanes());
        assert(v.lanes() == vs[j] && func.ensures((v,), ()));
    }
}

/// `r` is a result of folding `f` over `start` and vectors with lanes
/// `chunks`, in order.
pub open spec fn folds_to<A, V: Packed, F: Fn(A, V) -> A>(
    f: F,
    start: A,
    chunks: Seq<Seq<V::Scalar>>,
    r: A,
) -> bool
    decreases chunks.len(),
{
    if chunks.len() == 0 {
        r == start
    } else {
        exists|acc: A, v: V|
            #![trigger f.ensures((acc, v), r)]
            v.lanes() == chunks.last() && folds_to(f, start, chunks.drop_last(), acc) && f.ensures(
                (acc, v),
                r,
            )
    }
}

/// Whole-stream operations on a `SIMDIterator`.
pub trait SIMDIteratorExt: SIMDIterator {
    /// A lazy iterator which applies `func` to the vectors of this one; the
    /// inner tail is padded from `default` before `func` sees it.
    fn simd_map<A, B, F>(self, default: Self::Vector, func: F) -> (r: SIMDMap<Self, F>) where
        F: Fn(Self::Vector) -> A,
        A: Packed<Scalar = B>,
        B: Packable,

        requires
            self.inv(),
            lane_function::<Self::Vector, A, F>(func),
            A::spec_width() * B::spec_size() == <Self::Vector as Packed>::spec_width()
                * Self::Scalar::spec_size(),
        ensures
            r == (SIMDMap { iter: self, func, default }),
            r.inv(),
    {
        SIMDMap { iter: self, func, default }
    }

    /// The number of scalars left, as both bounds.
    fn size_hint(&self) -> (r: (usize, Option<usize>))
        requires
            self.inv(),
        ensures
            r == ((self.spec_scalar_len() - self.spec_scalar_position()) as usize, Some(
                (self.spec_scalar_len() - self.spec_scalar_position()) as usize,
            )),
    {
        proof {
            self.lemma_progress();
        }
        let remaining = self.scalar_len() - self.scalar_position();
        (remaining, Some(remaining))
    }

    /// An iterator over the full vectors of this one.
    fn pack(self) -> (r: PackedIter<Self>)
        ensures
            r == (PackedIter { iter: self }),
    {
        PackedIter { iter: self }
    }

    /// Runs `func` on every vector of the iterator, the tail padded from
    /// `default`, and drains it.
    fn simd_do_each<F: Fn(Self::Vector)>(&mut self, default: Self::Vector, func: F)
        requires
            old(self).inv(),
            forall|v: Self::Vector| func.requires((v,)),
        ensures
            forall|j: int|
                0 <= j < old(self).vectors(default).len() ==> called_on(
                    func,
                    #[trigger] old(self).vectors(default)[j],
                ),
            *final(self) == old(self).spent(),
            final(self).inv(),
            final(self).spec_scalar_len() == old(self).spec_scalar_len(),
            final(self).spec_scalar_position() == old(self).spec_scalar_len(),
    {
        let ghost mut seen: Seq<Self::Vector> = Seq::empty();
        assert(lanes_of(seen) + old(self).vectors(default)
            =~= old(self).vectors(default));
        loop
            invariant
                self.inv(),
                self.spec_scalar_len() == old(self).spec_scalar_len(),
                self.spent() == old(self).spent(),
                forall|v: Self::Vector| func.requires((v,)),
                lanes_of(seen) + self.vectors(default) == old(
                    self,
                ).vectors(default),
                forall|j: int| 0 <= j < seen.len() ==> func.ensures((#[trigger] seen[j],), ()),
            ensures
                !self.has_vector(),
            decreases self.spec_scalar_len() - self.spec_scalar_position(),
        {
            let ghost before = *self;
            proof {
                before.lemma_progress();
                before.lemma_unfold(default);
            }
            match self.next_vector() {
                Some(v) => {
                    func(v);
                    proof {
                        let next = seen.push(v);
                        assert(lanes_of(next) =~= lanes_of(seen).push(v.lanes()));
                        assert(lanes_of(next) + self.vectors(default)
                            =~= lanes_of(seen) + before.vectors(
                            default,
                        ));
                        assert forall|j: int| 0 <= j < next.len() implies func.ensures(
                            (#[trigger] next[j],),
                            (),
                        ) by {
                            if j < seen.len() {
                                assert(next[j] == seen[j]);
                            }
                        }
                        seen = next;
                    }
                },
                None => break,
            }
        }
        let ghost before = *self;
        proof {
            before.lemma_progress();
            before.lemma_unfold(default);
        }
        match self.next_partial(default) {
            Some((v, _)) => {
                func(v);
                proof {
                    let next = seen.push(v);
                    assert(lanes_of(next) =~= lanes_of(seen).push(v.lanes()));
                    assert forall|j: int| 0 <= j < next.len() implies func.ensures(
                        (#[trigger] next[j],),
                        (),
                    ) by {
                        if j < seen.len() {
                            assert(next[j] == seen[j]);
                        }
                    }
                    seen = next;
                }
            },
            None => {},
        }
        proof {
            self.lemma_progress();
            assert(lanes_of(seen) =~= old(self).vectors(default));
            lemma_each_called(func, seen, old(self).vectors(default));
        }
    }

    /// Folds `func` over accumulator `start` and every vector of the
    /// iterator, the tail padded from `default`, and drains it.
    ///
    /// The padding lanes take part in the fold: `default` must hold the
    /// identity of `func` for the result not to depend on the vector width.
    fn simd_reduce<A, F: Fn(A, Self::Vector) -> A>(
        &mut self,
        start: A,
        default: Self::Vector,
        func: F,
    ) -> (r: A)
        requires
            old(self).inv(),
            forall|a: A, v: Self::Vector| func.requires((a, v)),
        ensures
            folds_to(func, start, old(self).vectors(default), r),
            *final(self) == old(self).spent(),
            final(self).inv(),
            final(self).spec_scalar_len() == old(self).spec_scalar_len(),
            final(self).spec_scalar_position() == old(self).spec_scalar_len(),
    {
        let mut acc = start;
        let ghost mut done: Seq<Seq<Self::Scalar>> = Seq::empty();
        assert(done + old(self).vectors(default) =~= old(self).vectors(default));
        loop
            invariant
                self.inv(),
                self.spec_scalar_len() == old(self).spec_scalar_len(),
                forall|a: A, v: Self::Vector| func.requires((a, v)),
                self.spent() == old(self).spent(),
                done + self.vectors(default) == old(self).vectors(default),
                folds_to(func, start, done, acc),
            ensures
                !self.has_vector(),
            decreases self.spec_scalar_len() - self.spec_scalar_position(),
        {
            let ghost before = *self;
            let ghost prev = acc;
            proof {
                before.lemma_progress();
                before.lemma_unfold(default);
            }
            match self.next_vector() {
                Some(v) => {
                    acc = func(acc, v);
                    proof {
                        let next = done.push(v.lanes());
                        assert(next.drop_last() =~= done);
                        assert(folds_to(func, start, next, acc));
                        assert(next + self.vectors(default) =~= done + before.vectors(default));
                        done = next;
                    }
                },
                None => break,
            }
        }
        let ghost before = *self;
        proof {
            before.lemma_progress();
            before.lemma_unfold(default);
        }
        match self.next_partial(default) {
            Some((v, _)) => {
                let ghost prev = acc;
                acc = func(acc, v);
                proof {
                    let next = done.push(v.lanes());
                    assert(next.drop_last() =~= done);
                    assert(folds_to(func, start, next, acc));
                    assert(next =~= old(self).vectors(default));
                }
            },
            None => {
                assert(done =~= old(self).vectors(default));
            },
        }
        proof {
            self.lemma_progress();
        }
        acc
    }
}

impl<I: SIMDIterator> SIMDIteratorExt for I {

}

impl<T: Packable> SIMDIter<T> {
    /// A cursor at the start of `data`.
    pub fn new(data: Vec<T>) -> (r: Self)
        ensures
            r.position == 0,
            r.data@ == data@,
            r.inv(),
    {
        proof {
            assert(data.len() == data@.len());
        }
        SIMDIter { position: 0, data }
    }
}

impl<'a, T: Packable> SIMDRefIter<'a, T> {
    /// A cursor at the start of `data`.
    pub fn new(data: &'a [T]) -> (r: Self)
        ensures
            r.position == 0,
            r.data@ == data@,
            r.inv(),
    {
        proof {
            assert(data.len() == data@.len());
        }
        SIMDRefIter { position: 0, data }
    }
}

impl<'a, T: Packable> SIMDRefMutIter<'a, T> {
    /// A cursor at the start of `data`.
    pub fn new(data: &'a mut [T]) -> (r: Self)
        ensures
            r.position == 0,
            r.data@ == old(data)@,
            r.inv(),
    {
        proof {
            assert(data.len() == data@.len());
        }
        SIMDRefMutIter { position: 0, data }
    }
}

/// Some scalar is left.
pub open spec fn has_tail<I: SIMDIterator>(it: &I) -> bool {
    it.spec_scalar_position() < it.spec_scalar_len()
}

// Cursor logic shared by the three buffer-backed iterators.

/// The lanes of the vectors that a cursor at `pos` over `data` yields, with
/// `w` lanes each and the tail padded from `d`.
pub open spec fn cursor_vectors<T>(data: Seq<T>, pos: int, w: nat, d: Seq<T>) -> Seq<Seq<T>>
    decreases data.len() - pos,
{
    if 0 < w && pos + w <= data.len() {
        seq![data.subrange(pos, pos + w)] + cursor_vectors(data, pos + w, w, d)
    } else if 0 <= pos < data.len() {
        seq![padded(d, (w - (data.len() - pos)) as nat, data.subrange(pos, data.len() as int))]
    } else {
        Seq::empty()
    }
}

pub(crate) fn next_vector_in<T: Packable>(data: &[T], position: &mut usize) -> (r: Option<T::Vector>)
    requires
        *old(position) <= data@.len(),
    ensures
        *old(position) + T::Vector::spec_width() <= data@.len() ==> {
            &&& r matches Some(v)
            &&& v.lanes() == data@.subrange(
                *old(position) as int,
                *old(position) + T::Vector::spec_width(),
            )
            &&& *final(position) == *old(position) + T::Vector::spec_width()
        },
        !(*old(position) + T::Vector::spec_width() <= data@.len()) ==> r is None
            && *final(position) == *old(position),
{
    let w = T::Vector::width();
    if w <= data.len() - *position {
        let v = T::Vector::load(data, *position);
        *position = *position + w;
        Some(v)
    } else {
        None
    }
}

pub(crate) fn next_partial_in<T: Packable>(data: &[T], position: &mut usize, default: T::Vector) -> (r:
    Option<(T::Vector, usize)>)
    requires
        *old(position) <= data@.len() <= *old(position) + T::Vector::spec_width(),
    ensures
        *old(position) < data@.len() ==> {
            &&& r matches Some((v, m))
            &&& m == T::Vector::spec_width() - (data@.len() - *old(position))
            &&& v.lanes() == padded(
                default.lanes(),
                m as nat,
                data@.subrange(*old(position) as int, data@.len() as int),
            )
            &&& *final(position) == data@.len()
        },
        *old(position) >= data@.len() ==> r is None && *final(position) == *old(position),
{
    let len = data.len();
    if *position < len {
        let w = T::Vector::width();
        let empty_amt = w - (len - *position);
        proof {
            T::Vector::lemma_shape(default);
        }
        let mut ret = default;
        if w < len {
            // Right-align the tail so that it is one full, in-bounds load.
            let loaded = T::Vector::load(data, len - w);
            ret = default.merge_partitioned(loaded, empty_amt);
        } else {
            let mut i: usize = empty_amt;
            while i < w
                invariant
                    empty_amt <= i <= w,
                    w == T::Vector::spec_width(),
                    empty_amt == w - (len - *position),
                    *position < len,
                    len == data@.len(),
                    ret.lanes().len() == w,
                    default.lanes().len() == w,
                    forall|j: int| 0 <= j < empty_amt ==> ret.lanes()[j] == default.lanes()[j],
                    forall|j: int|
                        empty_amt <= j < i ==> ret.lanes()[j] == data@[*position + j - empty_amt],
                decreases w - i,
            {
                ret = ret.replace(i, data[*position + (i - empty_amt)]);
                i = i + 1;
            }
        }
        assert(ret.lanes() =~= padded(
            default.lanes(),
            empty_amt as nat,
            data@.subrange(*old(position) as int, data@.len() as int),
        ));
        *position = len;
        Some((ret, empty_amt))
    } else {
        None
    }
}

/// A slice-backed iterator which can pack its elements into vectors.
pub struct SIMDRefIter<'a, T: Packable> {
    pub position: usize,
    pub data: &'a [T],
}

impl<'a, T: Packable> SIMDIterator for SIMDRefIter<'a, T> {
    type Scalar = T;
    type Vector = <T as Packable>::Vector;

    open spec fn inv(&self) -> bool {
        self.position <= self.data@.len() <= usize::MAX
    }

    open spec fn spec_scalar_len(&self) -> nat {
        self.data@.len()
    }

    open spec fn spec_scalar_position(&self) -> nat {
        self.position as nat
    }

    open spec fn has_vector(&self) -> bool {
        self.position + T::Vector::spec_width() <= self.data@.len()
    }

    open spec fn peek_vector(&self) -> Seq<T> {
        self.data@.subrange(self.position as int, self.position + T::Vector::spec_width())
    }

    open spec fn advanced(&self) -> Self {
        SIMDRefIter { position: (self.position + T::Vector::spec_width()) as usize, data: self.data }
    }

    open spec fn within_tail(&self) -> bool {
        self.data@.len() <= self.position + T::Vector::spec_width()
    }

    open spec fn tail_lanes(&self) -> Seq<T> {
        self.data@.subrange(self.position as int, self.data@.len() as int)
    }

    open spec fn missing(&self) -> nat {
        (T::Vector::spec_width() - (self.data@.len() - self.position)) as nat
    }

    open spec fn finished(&self) -> Self {
        SIMDRefIter { position: self.data@.len() as usize, data: self.data }
    }

    open spec fn spent(&self) -> Self {
        SIMDRefIter { position: self.data@.len() as usize, data: self.data }
    }

    open spec fn peek_scalar(&self) -> T {
        self.data@[self.position as int]
    }

    open spec fn stepped(&self) -> Self {
        SIMDRefIter { position: (self.position + 1) as usize, data: self.data }
    }

    open spec fn drained(&self) -> Seq<T> {
        self.data@.subrange(self.position as int, self.data@.len() as int)
    }

    open spec fn vectors(&self, default: T::Vector) -> Seq<Seq<T>> {
        cursor_vectors(self.data@, self.position as int, T::Vector::spec_width(), default.lanes())
    }

    proof fn lemma_progress(&self) {
        T::Vector::lemma_width();
    }

    proof fn lemma_unfold(&self, default: T::Vector) {
        T::Vector::lemma_width();
        if self.has_vector() {
            assert(self.drained() =~= self.peek_vector() + self.advanced().drained());
        }
        if self.position >= self.data@.len() {
            assert(self.drained() =~= Seq::<T>::empty());
        }
    }

    fn scalar_len(&self) -> (r: usize) {
        self.data.len()
    }

    fn scalar_position(&self) -> (r: usize) {
        self.position
    }

    fn len(&self) -> (r: usize) {
        self.data.len()
    }

    fn next(&mut self) -> (r: Option<T>) {
        if self.position < self.data.len() {
            let d = self.data[self.position];
            self.position = self.position + 1;
            Some(d)
        } else {
            None
        }
    }

    fn next_vector(&mut self) -> (r: Option<T::Vector>) {
        next_vector_in(self.data, &mut self.position)
    }

    fn next_partial(&mut self, default: T::Vector) -> (r: Option<(T::Vector, usize)>) {
        next_partial_in(self.data, &mut self.position, default)
    }
}

/// A slice-backed iterator which can pack its elements into vectors, and
/// store vectors back into them.
pub struct SIMDRefMutIter<'a, T: Packable> {
    pub position: usize,
    pub data: &'a mut [T],
}

impl<'a, T: Packable> SIMDIterator for SIMDRefMutIter<'a, T> {
    type Scalar = T;
    type Vector = <T as Packable>::Vector;

    open spec fn inv(&self) -> bool {
        self.position <= self.data@.len() <= usize::MAX
    }

    open spec fn spec_scalar_len(&self) -> nat {
        self.data@.len()
    }

    open spec fn spec_scalar_position(&self) -> nat {
        self.position as nat
    }

    open spec fn has_vector(&self) -> bool {
        self.position + T::Vector::spec_width() <= self.data@.len()
    }

    open spec fn peek_vector(&self) -> Seq<T> {
        self.data@.subrange(self.position as int, self.position + T::Vector::spec_width())
    }

    open spec fn advanced(&self) -> Self {
        SIMDRefMutIter { position: (self.position + T::Vector::spec_width()) as usize, data: self.data }
    }

    open spec fn within_tail(&self) -> bool {
        self.data@.len() <= self.position + T::Vector::spec_width()
    }

    open spec fn tail_lanes(&self) -> Seq<T> {
        self.data@.subrange(self.position as int, self.data@.len() as int)
    }

    open spec fn missing(&self) -> nat {
        (T::Vector::spec_width() - (self.data@.len() - self.position)) as nat
    }

    open spec fn finished(&self) -> Self {
        SIMDRefMutIter { position: self.data@.len() as usize, data: self.data }
    }

    open spec fn spent(&self) -> Self {
        SIMDRefMutIter { position: self.data@.len() as usize, data: self.data }
    }

    open spec fn peek_scalar(&self) -> T {
        self.data@[self.position as int]
    }

    open spec fn stepped(&self) -> Self {
        SIMDRefMutIter { position: (self.position + 1) as usize, data: self.data }
    }

    open spec fn drained(&self) -> Seq<T> {
        self.data@.subrange(self.position as int, self.data@.len() as int)
    }

    open spec fn vectors(&self, default: T::Vector) -> Seq<Seq<T>> {
        cursor_vectors(self.data@, self.position as int, T::Vector::spec_width(), default.lanes())
    }

    proof fn lemma_progress(&self) {
        T::Vector::lemma_width();
    }

    proof fn lemma_unfold(&self, default: T::Vector) {
        T::Vector::lemma_width();
        if self.has_vector() {
            assert(self.drained() =~= self.peek_vector() + self.advanced().drained());
        }
        if self.position >= self.data@.len() {
            assert(self.drained() =~= Seq::<T>::empty());
        }
    }

    fn scalar_len(&self) -> (r: usize) {
        self.data.len()
    }

    fn scalar_position(&self) -> (r: usize) {
        self.position
    }

    fn len(&self) -> (r: usize) {
        self.data.len()
    }

    fn next(&mut self) -> (r: Option<T>) {
        if self.position < self.data.len() {
            let d = self.data[self.position];
            self.position = self.position + 1;
            Some(d)
        } else {
            None
        }
    }

    fn next_vector(&mut self) -> (r: Option<T::Vector>) {
        next_vector_in(&*self.data, &mut self.position)
    }

    fn next_partial(&mut self, default: T::Vector) -> (r: Option<(T::Vector, usize)>) {
        next_partial_in(&*self.data, &mut self.position, default)
    }
}

/// An iterator over an owned buffer which can pack its elements into
/// vectors.
pub struct SIMDIter<T: Packable> {
    pub position: usize,
    pub data: Vec<T>,
}

impl<T: Packable> SIMDIterator for SIMDIter<T> {
    type Scalar = T;
    type Vector = <T as Packable>::Vector;

    open spec fn inv(&self) -> bool {
        self.position <= self.data@.len() <= usize::MAX
    }

    open spec fn spec_scalar_len(&self) -> nat {
        self.data@.len()
    }

    open spec fn spec_scalar_position(&self) -> nat {
        self.position as nat
    }

    open spec fn has_vector(&self) -> bool {
        self.position + T::Vector::spec_width() <= self.data@.len()
    }

    open spec fn peek_vector(&self) -> Seq<T> {
        self.data@.subrange(self.position as int, self.position + T::Vector::spec_width())
    }

    open spec fn advanced(&self) -> Self {
        SIMDIter { position: (self.position + T::Vector::spec_width()) as usize, data: self.data }
    }

    open spec fn within_tail(&self) -> bool {
        self.data@.len() <= self.position + T::Vector::spec_width()
    }

    open spec fn tail_lanes(&self) -> Seq<T> {
        self.data@.subrange(self.position as int, self.data@.len() as int)
    }

    open spec fn missing(&self) -> nat {
        (T::Vector::spec_width() - (self.data@.len() - self.position)) as nat
    }

    open spec fn finished(&self) -> Self {
        SIMDIter { position: self.data@.len() as usize, data: self.data }
    }

    open spec fn spent(&self) -> Self {
        SIMDIter { position: self.data@.len() as usize, data: self.data }
    }

    open spec fn peek_scalar(&self) -> T {
        self.data@[self.position as int]
    }

    open spec fn stepped(&self) -> Self {
        SIMDIter { position: (self.position + 1) as usize, data: self.data }
    }

    open spec fn drained(&self) -> Seq<T> {
        self.data@.subrange(self.position as int, self.data@.len() as int)
    }

    open spec fn vectors(&self, default: T::Vector) -> Seq<Seq<T>> {
        cursor_vectors(self.data@, self.position as int, T::Vector::spec_width(), default.lanes())
    }

    proof fn lemma_progress(&self) {
        T::Vector::lemma_width();
    }

    proof fn lemma_unfold(&self, default: T::Vector) {
        T::Vector::lemma_width();
        if self.has_vector() {
            assert(self.drained() =~= self.peek_vector() + self.advanced().drained());
        }
        if self.position >= self.data@.len() {
            assert(self.drained() =~= Seq::<T>::empty());
        }
    }

    fn scalar_len(&self) -> (r: usize) {
        self.data.len()
    }

    fn scalar_position(&self) -> (r: usize) {
        self.position
    }

    fn len(&self) -> (r: usize) {
        self.data.len()
    }

    fn next(&mut self) -> (r: Option<T>) {
        if self.position < self.data.len() {
            let d = self.data[self.position];
            self.position = self.position + 1;
            Some(d)
        } else {
            None
        }
    }

    fn next_vector(&mut self) -> (r: Option<T::Vector>) {
        next_vector_in(self.data.as_slice(), &mut self.position)
    }

    fn next_partial(&mut self, default: T::Vector) -> (r: Option<(T::Vector, usize)>) {
        next_partial_in(self.data.as_slice(), &mut self.position, default)
    }
}

} // verus!
