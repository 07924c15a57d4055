use vstd::prelude::*;
use crate::iters::{SIMDIterator, padded};
use crate::vecs::{Packable, Packed};

verus! {

/// The lanes of the vector that `f` maps a vector with lanes `lanes` to.
pub open spec fn mapped_lanes<V: Packed, A: Packed, F: Fn(V) -> A>(
    f: F,
    lanes: Seq<V::Scalar>,
) -> Seq<A::Scalar> {
    (choose|p: (V, A)| p.0.lanes() == lanes && #[trigger] f.ensures((p.0,), p.1)).1.lanes()
}

/// `f` accepts every vector, and maps vectors with equal lanes to vectors
/// with equal lanes.
pub open spec fn lane_function<V: Packed, A: Packed, F: Fn(V) -> A>(f: F) -> bool {
    &&& forall|v: V| f.requires((v,))
    &&& forall|v1: V, v2: V, w1: A, w2: A|
        v1.lanes() == v2.lanes() && #[trigger] f.ensures((v1,), w1) && #[trigger] f.ensures(
            (v2,),
            w2,
        ) ==> w1.lanes() == w2.lanes()
}

proof fn lemma_mapped<V: Packed, A: Packed, F: Fn(V) -> A>(f: F, v: V, w: A)
    requires
        lane_function::<V, A, F>(f),
        f.ensures((v,), w),
    ensures
        mapped_lanes::<V, A, F>(f, v.lanes()) == w.lanes(),
{
    let w0: (V, A) = (v, w);
    assert(w0.0.lanes() == v.lanes() && f.ensures((w0.0,), w0.1));
    let c = choose|p: (V, A)| p.0.lanes() == v.lanes() && #[trigger] f.ensures((p.0,), p.1);
    assert(f.ensures((c.0,), c.1));
}

/// A lazy mapping iterator which applies its function to a stream of
/// vectors; `default` pads the tail of `iter` before `func` sees it.
pub struct SIMDMap<I: SIMDIterator, F> {
    pub iter: I,
    pub func: F,
    pub default: I::Vector,
}

/// The lanes of the vectors of the map `m`, as `vectors` gives them.
pub open spec fn map_vectors<A, B, I, F>(m: SIMDMap<I, F>, d: A) -> Seq<Seq<B>> where
    I: SIMDIterator,
    F: Fn(I::Vector) -> A,
    A: Packed<Scalar = B>,
    B: Packable,
    decreases m.iter.spec_scalar_len() - m.iter.spec_scalar_position(),
{
    if m.iter.has_vector() && m.iter.advanced().spec_scalar_len() == m.iter.spec_scalar_len()
        && m.iter.spec_scalar_position() < m.iter.advanced().spec_scalar_position()
        <= m.iter.spec_scalar_len() {
        seq![m.peek_vector()] + map_vectors(m.advanced(), d)
    } else if m.iter.spec_scalar_position() < m.iter.spec_scalar_len() {
        seq![padded(d.lanes(), m.missing(), m.tail_lanes())]
    } else {
        Seq::empty()
    }
}

/// The scalars that draining a map over `it` yields.
pub open spec fn map_drained<A, B, I, F>(m: SIMDMap<I, F>) -> Seq<B> where
    I: SIMDIterator,
    F: Fn(I::Vector) -> A,
    A: Packed<Scalar = B>,
    B: Packable,
    decreases m.iter.spec_scalar_len() - m.iter.spec_scalar_position(),
{
    if m.iter.has_vector() && m.iter.advanced().spec_scalar_len() == m.iter.spec_scalar_len()
        && m.iter.spec_scalar_position() < m.iter.advanced().spec_scalar_position()
        <= m.iter.spec_scalar_len() {
        m.peek_vector() + map_drained(m.advanced())
    } else if m.iter.spec_scalar_position() < m.iter.spec_scalar_len() {
        m.tail_lanes()
    } else {
        Seq::empty()
    }
}

impl<A, B, I, F> SIMDIterator for SIMDMap<I, F> where
    I: SIMDIterator,
    F: Fn(I::Vector) -> A,
    A: Packed<Scalar = B>,
    B: Packable,
 {
    type Scalar = B;
    type Vector = A;

    open spec fn inv(&self) -> bool {
        &&& self.iter.inv()
        &&& lane_function::<I::Vector, A, F>(self.func)
        &&& A::spec_width() * B::spec_size() == I::Vector::spec_width() * I::Scalar::spec_size()
    }

    open spec fn spec_scalar_len(&self) -> nat {
        self.iter.spec_scalar_len()
    }

    open spec fn spec_scalar_position(&self) -> nat {
        self.iter.spec_scalar_position()
    }

    open spec fn has_vector(&self) -> bool {
        self.iter.has_vector()
    }

    open spec fn peek_vector(&self) -> Seq<B> {
        mapped_lanes::<I::Vector, A, F>(self.func, self.iter.peek_vector())
    }

    open spec fn advanced(&self) -> Self {
        SIMDMap { iter: self.iter.advanced(), func: self.func, default: self.default }
    }

    open spec fn within_tail(&self) -> bool {
        self.iter.within_tail()
    }

    /// The real lanes of the inner tail, mapped, with the padding count
    /// rescaled from the inner scalar size to the outer one.
    open spec fn tail_lanes(&self) -> Seq<B> {
        mapped_lanes::<I::Vector, A, F>(
            self.func,
            padded(self.default.lanes(), self.iter.missing(), self.iter.tail_lanes()),
        ).subrange(self.missing() as int, A::spec_width() as int)
    }

    open spec fn missing(&self) -> nat {
        self.iter.missing() * I::Scalar::spec_size() / B::spec_size()
    }

    open spec fn finished(&self) -> Self {
        SIMDMap { iter: self.iter.finished(), func: self.func, default: self.default }
    }

    open spec fn spent(&self) -> Self {
        SIMDMap { iter: self.iter.spent(), func: self.func, default: self.default }
    }

    /// Lane 0 of the image of a vector with every lane the inner scalar.
    open spec fn peek_scalar(&self) -> B {
        mapped_lanes::<I::Vector, A, F>(
            self.func,
            Seq::new(I::Vector::spec_width(), |i: int| self.iter.peek_scalar()),
        )[0]
    }

    open spec fn stepped(&self) -> Self {
        SIMDMap { iter: self.iter.stepped(), func: self.func, default: self.default }
    }

    open spec fn drained(&self) -> Seq<B> {
        map_drained(*self)
    }

    open spec fn vectors(&self, default: A) -> Seq<Seq<B>> {
        map_vectors(*self, default)
    }

    proof fn lemma_progress(&self) {
        self.iter.lemma_progress();
        A::lemma_width();
        I::Vector::lemma_width();
        if self.has_vector() {
            lemma_mapped_len::<I::Vector, A, F>(self.func, self.iter.peek_vector());
        }
        if self.within_tail() && self.spec_scalar_position() < self.spec_scalar_len() {
            let n = self.iter.missing();
            let wi = I::Vector::spec_width();
            let wo = A::spec_width();
            let si = I::Scalar::spec_size();
            let so = B::spec_size();
            I::Scalar::lemma_size();
            B::lemma_size();
            assert(n * si / so < wo) by (nonlinear_arith)
                requires
                    n < wi,
                    0 < si,
                    0 < so,
                    wo * so == wi * si,
            {
                assert(n * si < wi * si);
                assert(n * si < wo * so);
            }
            let lanes = padded(self.default.lanes(), n, self.iter.tail_lanes());
            I::Vector::lemma_shape(self.default);
            lemma_mapped_len::<I::Vector, A, F>(self.func, lanes);
        }
    }

    proof fn lemma_unfold(&self, default: A) {
        self.iter.lemma_progress();
        self.iter.lemma_unfold(self.default);
    }

    fn scalar_len(&self) -> (r: usize) {
        self.iter.scalar_len()
    }

    fn scalar_position(&self) -> (r: usize) {
        self.iter.scalar_position()
    }

    fn len(&self) -> (r: usize) {
        self.iter.len()
    }

    fn next(&mut self) -> (r: Option<B>) {
        match self.iter.next() {
            Some(s) => {
                let v = I::Vector::splat(s);
                let w = (self.func)(v);
                proof {
                    lemma_mapped::<I::Vector, A, F>(self.func, v, w);
                    A::lemma_width();
                    A::lemma_shape(w);
                }
                Some(w.coalesce())
            },
            None => None,
        }
    }

    fn next_vector(&mut self) -> (r: Option<A>) {
        match self.iter.next_vector() {
            Some(v) => {
                let w = (self.func)(v);
                proof {
                    lemma_mapped::<I::Vector, A, F>(self.func, v, w);
                }
                Some(w)
            },
            None => None,
        }
    }

    fn next_partial(&mut self, default: A) -> (r: Option<(A, usize)>) {
        proof {
            self.lemma_progress();
            self.iter.lemma_progress();
            A::lemma_shape(default);
            I::Vector::lemma_width();
            I::Scalar::lemma_size();
            B::lemma_size();
        }
        match self.iter.next_partial(self.default) {
            Some((v, n)) => {
                assert(n * I::Scalar::spec_size() <= 64 * 8) by (nonlinear_arith)
                    requires
                        n < 64,
                        I::Scalar::spec_size() <= 8,
                {
                }
                let nr = n * I::Scalar::size() / B::size();
                let w = (self.func)(v);
                proof {
                    lemma_mapped::<I::Vector, A, F>(self.func, v, w);
                    A::lemma_shape(w);
                }
                let r = default.merge_partitioned(w, nr);
                assert(r.lanes() =~= padded(default.lanes(), nr as nat, w.lanes().subrange(nr as int, A::spec_width() as int)));
                Some((r, nr))
            },
            None => None,
        }
    }
}

proof fn lemma_mapped_len<V: Packed, A: Packed, F: Fn(V) -> A>(f: F, lanes: Seq<V::Scalar>)
    ensures
        mapped_lanes::<V, A, F>(f, lanes).len() == A::spec_width(),
{
    let c = choose|p: (V, A)| p.0.lanes() == lanes && #[trigger] f.ensures((p.0,), p.1);
    A::lemma_shape(c.1);
}

} // verus!
