use vstd::prelude::*;
use crate::iters::{SIMDIterator, SIMDRefIter, folds_to, has_tail, padded};
use crate::scalar::IntoScalar;
use crate::transform::maps_chunks;
use crate::vecs::{Packable, Packed, splice};

verus! {

/// Round trip: draining a cursor from the start of its buffer and storing
/// what it yields at the front of a buffer of the same length gives back the
/// cursor's own buffer.
pub proof fn lemma_round_trip<'a, T: Packable>(it: SIMDRefIter<'a, T>, fill: Seq<T>)
    requires
        it.inv(),
        it.position == 0,
        fill.len() == it.data@.len(),
    ensures
        splice(fill, 0, it.drained()) == it.data@,
{
    assert(splice(fill, 0, it.drained()) =~= it.data@);
}

/// A cursor over an empty buffer has neither a full vector nor a tail.
pub proof fn lemma_empty<'a, T: Packable>(it: SIMDRefIter<'a, T>)
    requires
        it.inv(),
        it.data@.len() == 0,
    ensures
        !it.has_vector(),
        !has_tail(&it),
{
    T::Vector::lemma_width();
}

/// Over a buffer shorter than one vector, a cursor has no full vector, and
/// exactly one tail, whose padding count is the width less the length.
pub proof fn lemma_short_buffer<'a, T: Packable>(it: SIMDRefIter<'a, T>)
    requires
        it.inv(),
        it.position == 0,
        0 < it.data@.len() < T::Vector::spec_width(),
    ensures
        !it.has_vector(),
        it.within_tail(),
        has_tail(&it),
        it.missing() == T::Vector::spec_width() - it.data@.len(),
        !has_tail(&it.finished()),
{
}

/// Over a buffer whose length is a multiple of the width, a cursor whose
/// position is a multiple of the width (every position that full vectors
/// reach from the start) has no tail once it has no full vector.
pub proof fn lemma_exact_multiple<'a, T: Packable>(it: SIMDRefIter<'a, T>)
    requires
        it.inv(),
        (it.data@.len() as int) % (T::Vector::spec_width() as int) == 0,
        (it.position as int) % (T::Vector::spec_width() as int) == 0,
        !it.has_vector(),
    ensures
        !has_tail(&it),
{
    T::Vector::lemma_width();
    let w = T::Vector::spec_width() as int;
    let len = it.data@.len() as int;
    let pos = it.position as int;
    assert(pos == len) by (nonlinear_arith)
        requires
            0 < w,
            0 <= pos <= len,
            len < pos + w,
            len % w == 0,
            pos % w == 0,
    {
        let a = len / w;
        let b = pos / w;
        assert(len == a * w);
        assert(pos == b * w);
        assert(b * w <= a * w);
        assert(a * w < b * w + w);
        assert(a * w < (b + 1) * w);
        assert(a < b + 1);
        assert(b <= a);
    }
}

/// After `next_partial` has returned the tail, a second call is admitted
/// (the state is valid, with at most one vector's worth left) and, no
/// scalar being left, returns `None` whatever its default.
pub proof fn lemma_partial_once<I: SIMDIterator>(it: I, default: I::Vector)
    requires
        it.inv(),
        it.within_tail(),
        has_tail(&it),
    ensures
        it.finished().inv(),
        it.finished().within_tail(),
        !has_tail(&it.finished()),
{
    it.lemma_progress();
    it.finished().lemma_unfold(default);
    it.finished().lemma_progress();
}

/// `scalar_collect` and `scalar_fill` on the same iterator state yield the
/// same scalars: what the first returns is the front of what the second
/// leaves in its buffer.
pub proof fn lemma_collect_matches_fill<T: Packable, I: IntoScalar<T>>(
    a: &mut I,
    b: &mut I,
    fill: &mut [T],
    r: Vec<T>,
)
    requires
        *old(a) == *old(b),
        call_ensures(I::scalar_collect, (a,), r),
        call_ensures(I::scalar_fill, (b, fill), ()),
    ensures
        r@.len() <= final(fill)@.len(),
        final(fill)@.subrange(0, r@.len() as int) == r@,
{
    assert(final(fill)@.subrange(0, r@.len() as int) =~= r@);
}

/// `f` maps each vector to one with the same lanes.
pub open spec fn lane_identity<V: Packed, F: Fn(V) -> V>(f: F) -> bool {
    forall|v: V, w: V| #[trigger] f.ensures((v,), w) ==> w.lanes() == v.lanes()
}

/// Applying a transform that keeps every lane, chunk by chunk from `pos` on,
/// leaves the buffer as it was from `pos` on.
pub proof fn lemma_identity_chunks<V: Packed, F: Fn(V) -> V>(
    f: F,
    d: Seq<V::Scalar>,
    src: Seq<V::Scalar>,
    pos: int,
    dst: Seq<V::Scalar>,
)
    requires
        lane_identity::<V, F>(f),
        maps_chunks(f, d, src, pos, dst),
        dst.len() == src.len(),
        d.len() == V::spec_width(),
        0 <= pos <= src.len(),
    ensures
        dst.subrange(pos, src.len() as int) == src.subrange(pos, src.len() as int),
    decreases src.len() - pos,
{
    V::lemma_width();
    let w = V::spec_width() as int;
    let len = src.len() as int;
    if pos + w <= len {
        let p = choose|p: (V, V)|
            p.0.lanes() == src.subrange(pos, pos + w) && #[trigger] f.ensures((p.0,), p.1)
                && dst.subrange(pos, pos + w) == p.1.lanes();
        lemma_identity_chunks(f, d, src, pos + w, dst);
        assert forall|j: int| pos <= j < len implies dst[j] == src[j] by {
            if j < pos + w {
                assert(dst.subrange(pos, pos + w)[j - pos] == src.subrange(pos, pos + w)[j - pos]);
            } else {
                assert(dst.subrange(pos + w, len)[j - pos - w] == src.subrange(pos + w, len)[j
                    - pos - w]);
            }
        }
        assert(dst.subrange(pos, len) =~= src.subrange(pos, len));
    } else if pos < len {
        let m = (w - (len - pos)) as nat;
        let p = choose|p: (V, V)|
            p.0.lanes() == padded(d, m, src.subrange(pos, len)) && #[trigger] f.ensures(
                (p.0,),
                p.1,
            ) && dst.subrange(pos, len) == p.1.lanes().subrange(m as int, w);
        assert(padded(d, m, src.subrange(pos, len)).subrange(m as int, w) =~= src.subrange(
            pos,
            len,
        ));
    } else {
        assert(dst.subrange(pos, len) =~= src.subrange(pos, len));
    }
}

/// `simd_for_each` with a transform that keeps every lane leaves the buffer
/// unchanged: its contract then pins the new buffer to the old one.
pub proof fn lemma_for_each_identity<V: Packed, F: Fn(V) -> V>(
    f: F,
    default: V,
    old_data: Seq<V::Scalar>,
    position: int,
    new_data: Seq<V::Scalar>,
)
    requires
        lane_identity::<V, F>(f),
        0 <= position <= old_data.len(),
        new_data.len() == old_data.len(),
        new_data.subrange(0, position) == old_data.subrange(0, position),
        maps_chunks(f, default.lanes(), old_data, position, new_data),
    ensures
        new_data == old_data,
{
    V::lemma_shape(default);
    lemma_identity_chunks(f, default.lanes(), old_data, position, new_data);
    assert forall|j: int| 0 <= j < old_data.len() implies new_data[j] == old_data[j] by {
        if j < position {
            assert(new_data.subrange(0, position)[j] == old_data.subrange(0, position)[j]);
            assert(new_data.subrange(0, position)[j] == new_data[j]);
            assert(old_data.subrange(0, position)[j] == old_data[j]);
        } else {
            let k = j - position;
            assert(new_data.subrange(position, old_data.len() as int)[k] == old_data.subrange(
                position,
                old_data.len() as int,
            )[k]);
            assert(new_data.subrange(position, old_data.len() as int)[k] == new_data[j]);
            assert(old_data.subrange(position, old_data.len() as int)[k] == old_data[j]);
        }
    }
    assert(new_data =~= old_data);
}

/// The sum of the scalars, as an integer.
pub open spec fn lane_sum<T: Packable>(s: Seq<T>) -> int
    decreases s.len(),
{
    if s.len() == 0 {
        0
    } else {
        lane_sum(s.drop_last()) + s.last().as_int()
    }
}

/// The sum of the scalars of all chunks, as an integer.
pub open spec fn chunks_sum<T: Packable>(cs: Seq<Seq<T>>) -> int
    decreases cs.len(),
{
    if cs.len() == 0 {
        0
    } else {
        chunks_sum(cs.drop_last()) + lane_sum(cs.last())
    }
}

/// No scalar is negative.
pub open spec fn all_nonneg<T: Packable>(s: Seq<T>) -> bool {
    forall|i: int| 0 <= i < s.len() ==> (#[trigger] s[i]).as_int() >= 0
}

/// No scalar of any chunk is negative.
pub open spec fn chunks_nonneg<T: Packable>(cs: Seq<Seq<T>>) -> bool {
    forall|j: int| 0 <= j < cs.len() ==> all_nonneg(#[trigger] cs[j])
}

/// `f` adds its two vectors lane by lane wherever the sum of two lanes is a
/// non-negative value of the scalar type (a wrapping addition does).
pub open spec fn lane_additive<T: Packable, V: Packed<Scalar = T>, F: Fn(V, V) -> V>(
    f: F,
) -> bool {
    forall|a: V, v: V, r: V|
        #[trigger] f.ensures((a, v), r) ==> forall|i: int|
            0 <= i < V::spec_width() && 0 <= a.lanes()[i].as_int() + v.lanes()[i].as_int()
                <= T::spec_max() ==> r.lanes()[i].as_int() == a.lanes()[i].as_int()
                + v.lanes()[i].as_int()
}

proof fn lemma_lane_sum_concat<T: Packable>(a: Seq<T>, b: Seq<T>)
    ensures
        lane_sum(a + b) == lane_sum(a) + lane_sum(b),
    decreases b.len(),
{
    if b.len() == 0 {
        assert(a + b =~= a);
    } else {
        lemma_lane_sum_concat(a, b.drop_last());
        assert((a + b).drop_last() =~= a + b.drop_last());
    }
}

proof fn lemma_lane_sum_pointwise<T: Packable>(r: Seq<T>, a: Seq<T>, v: Seq<T>)
    requires
        r.len() == a.len(),
        v.len() == a.len(),
        forall|i: int| 0 <= i < r.len() ==> r[i].as_int() == a[i].as_int() + v[i].as_int(),
    ensures
        lane_sum(r) == lane_sum(a) + lane_sum(v),
    decreases r.len(),
{
    if r.len() > 0 {
        lemma_lane_sum_pointwise(r.drop_last(), a.drop_last(), v.drop_last());
    }
}

proof fn lemma_lane_sum_const<T: Packable>(s: Seq<T>, k: int)
    requires
        forall|i: int| 0 <= i < s.len() ==> s[i].as_int() == k,
    ensures
        lane_sum(s) == s.len() * k,
    decreases s.len(),
{
    if s.len() > 0 {
        lemma_lane_sum_const(s.drop_last(), k);
        assert(lane_sum(s) == (s.len() - 1) * k + k);
        assert((s.len() - 1) * k + k == s.len() * k) by (nonlinear_arith);
    }
}

/// A sum of non-negative scalars is non-negative and bounds each of them.
proof fn lemma_lane_sum_bounds<T: Packable>(s: Seq<T>)
    requires
        all_nonneg(s),
    ensures
        lane_sum(s) >= 0,
        forall|i: int| 0 <= i < s.len() ==> (#[trigger] s[i]).as_int() <= lane_sum(s),
    decreases s.len(),
{
    if s.len() > 0 {
        let t = s.drop_last();
        assert forall|i: int| 0 <= i < t.len() implies (#[trigger] t[i]).as_int() >= 0 by {
            assert(t[i] == s[i]);
        }
        lemma_lane_sum_bounds(t);
        assert forall|i: int| 0 <= i < s.len() implies (#[trigger] s[i]).as_int() <= lane_sum(
            s,
        ) by {
            if i < t.len() {
                assert(t[i] == s[i]);
            }
        }
    }
}

proof fn lemma_chunks_sum_prepend<T: Packable>(x: Seq<T>, cs: Seq<Seq<T>>)
    ensures
        chunks_sum(seq![x] + cs) == lane_sum(x) + chunks_sum(cs),
    decreases cs.len(),
{
    if cs.len() == 0 {
        assert(seq![x] + cs =~= seq![x]);
        assert(seq![x].drop_last() =~= Seq::<Seq<T>>::empty());
        assert(seq![x].last() == x);
        assert(chunks_sum(Seq::<Seq<T>>::empty()) == 0);
    } else {
        lemma_chunks_sum_prepend(x, cs.drop_last());
        assert((seq![x] + cs).drop_last() =~= seq![x] + cs.drop_last());
        assert((seq![x] + cs).last() == cs.last());
    }
}

/// With a zero default, the vectors of an iterator sum to its scalars, and
/// hold no negative lane where its scalars hold none.
proof fn lemma_vectors_sum<I: SIMDIterator>(it: I, d: I::Vector)
    requires
        it.inv(),
        all_nonneg(it.drained()),
        forall|i: int| 0 <= i < I::Vector::spec_width() ==> (#[trigger] d.lanes()[i]).as_int() == 0,
    ensures
        chunks_sum(it.vectors(d)) == lane_sum(it.drained()),
        chunks_nonneg(it.vectors(d)),
    decreases it.spec_scalar_len() - it.spec_scalar_position(),
{
    it.lemma_progress();
    it.lemma_unfold(d);
    I::Vector::lemma_shape(d);
    if it.has_vector() {
        let adv = it.advanced();
        let p = it.peek_vector();
        assert forall|i: int| 0 <= i < adv.drained().len() implies (#[trigger] adv.drained()[
            i
        ]).as_int() >= 0 by {
            assert(it.drained()[p.len() + i] == adv.drained()[i]);
        }
        assert forall|i: int| 0 <= i < p.len() implies (#[trigger] p[i]).as_int() >= 0 by {
            assert(it.drained()[i] == p[i]);
        }
        lemma_vectors_sum(adv, d);
        lemma_chunks_sum_prepend(p, adv.vectors(d));
        lemma_lane_sum_concat(p, adv.drained());
        assert forall|j: int| 0 <= j < it.vectors(d).len() implies all_nonneg(
            #[trigger] it.vectors(d)[j],
        ) by {
            if j > 0 {
                assert(it.vectors(d)[j] == adv.vectors(d)[j - 1]);
            } else {
                assert(it.vectors(d)[j] == p);
            }
        }
    } else if it.spec_scalar_position() < it.spec_scalar_len() {
        let m = it.missing();
        let t = it.tail_lanes();
        let x = padded(d.lanes(), m, t);
        assert(seq![x].drop_last() =~= Seq::<Seq<I::Scalar>>::empty());
        assert(seq![x].last() == x);
        assert(chunks_sum(Seq::<Seq<I::Scalar>>::empty()) == 0);
        assert(chunks_sum(seq![x]) == lane_sum(x));
        lemma_lane_sum_concat(d.lanes().subrange(0, m as int), t);
        lemma_lane_sum_const(d.lanes().subrange(0, m as int), 0);
        assert forall|j: int| 0 <= j < it.vectors(d).len() implies all_nonneg(
            #[trigger] it.vectors(d)[j],
        ) by {
            assert(it.vectors(d)[j] == x);
            assert forall|i: int| 0 <= i < x.len() implies (#[trigger] x[i]).as_int() >= 0 by {
                if i >= m {
                    assert(x[i] == t[i - m]);
                } else {
                    assert(x[i] == d.lanes()[i]);
                }
            }
        }
    } else {
        assert(chunks_sum(Seq::<Seq<I::Scalar>>::empty()) == 0);
        assert(lane_sum(Seq::<I::Scalar>::empty()) == 0);
    }
}

proof fn lemma_fold_sum<T: Packable, V: Packed<Scalar = T>, F: Fn(V, V) -> V>(
    f: F,
    start: V,
    cs: Seq<Seq<T>>,
    r: V,
)
    requires
        lane_additive::<T, V, F>(f),
        folds_to(f, start, cs, r),
        all_nonneg(start.lanes()),
        chunks_nonneg(cs),
        lane_sum(start.lanes()) + chunks_sum(cs) <= T::spec_max(),
    ensures
        lane_sum(r.lanes()) == lane_sum(start.lanes()) + chunks_sum(cs),
        all_nonneg(r.lanes()),
    decreases cs.len(),
{
    if cs.len() > 0 {
        let (acc, v) = choose|acc: V, v: V|
            #![trigger f.ensures((acc, v), r)]
            v.lanes() == cs.last() && folds_to(f, start, cs.drop_last(), acc) && f.ensures(
                (acc, v),
                r,
            );
        let rest = cs.drop_last();
        assert forall|j: int| 0 <= j < rest.len() implies all_nonneg(#[trigger] rest[j]) by {
            assert(rest[j] == cs[j]);
        }
        assert(all_nonneg(cs[cs.len() - 1]));
        lemma_lane_sum_bounds(v.lanes());
        lemma_fold_sum(f, start, rest, acc);
        lemma_lane_sum_bounds(acc.lanes());
        V::lemma_shape(r);
        V::lemma_shape(acc);
        V::lemma_shape(v);
        assert forall|i: int| 0 <= i < r.lanes().len() implies r.lanes()[i].as_int()
            == acc.lanes()[i].as_int() + v.lanes()[i].as_int() by {
            assert(acc.lanes()[i].as_int() <= lane_sum(acc.lanes()));
            assert(v.lanes()[i].as_int() <= lane_sum(v.lanes()));
            assert(acc.lanes()[i].as_int() >= 0);
            assert(v.lanes()[i].as_int() >= 0);
        }
        lemma_lane_sum_pointwise(r.lanes(), acc.lanes(), v.lanes());
        assert forall|i: int| 0 <= i < r.lanes().len() implies (#[trigger] r.lanes()[
            i
        ]).as_int() >= 0 by {
            assert(acc.lanes()[i].as_int() >= 0);
            assert(v.lanes()[i].as_int() >= 0);
        }
    }
}

/// Reducing `N` copies of a non-negative `c`, with `N * c` no more than the
/// scalar type holds, by lane-wise addition from a zero accumulator and with
/// a zero default, gives a vector whose lanes sum to `N * c`, whatever the
/// width.
pub proof fn lemma_reduce_sum<I: SIMDIterator, F: Fn(I::Vector, I::Vector) -> I::Vector>(
    it: I,
    c: I::Scalar,
    start: I::Vector,
    default: I::Vector,
    f: F,
    r: I::Vector,
)
    requires
        it.inv(),
        forall|i: int| 0 <= i < it.drained().len() ==> it.drained()[i] == c,
        0 <= c.as_int(),
        it.drained().len() * c.as_int() <= I::Scalar::spec_max(),
        forall|i: int|
            0 <= i < I::Vector::spec_width() ==> (#[trigger] start.lanes()[i]).as_int() == 0
                && default.lanes()[i].as_int() == 0,
        lane_additive::<I::Scalar, I::Vector, F>(f),
        folds_to(f, start, it.vectors(default), r),
    ensures
        lane_sum(r.lanes()) == it.drained().len() * c.as_int(),
{
    I::Vector::lemma_shape(start);
    assert forall|i: int| 0 <= i < it.drained().len() implies (#[trigger] it.drained()[
        i
    ]).as_int() >= 0 by {
    }
    assert forall|i: int| 0 <= i < I::Vector::spec_width() implies (#[trigger] default.lanes()[
        i
    ]).as_int() == 0 by {
        assert(start.lanes()[i].as_int() == 0);
    }
    lemma_vectors_sum(it, default);
    lemma_lane_sum_const(start.lanes(), 0);
    lemma_lane_sum_const(it.drained(), c.as_int());
    assert forall|i: int| 0 <= i < start.lanes().len() implies (#[trigger] start.lanes()[
        i
    ]).as_int() >= 0 by {
    }
    lemma_fold_sum(f, start, it.vectors(default), r);
}

} // verus!
