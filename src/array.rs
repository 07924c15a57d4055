use vstd::prelude::*;
use crate::iters::{SIMDIter, SIMDIterator, SIMDRefIter, SIMDRefMutIter};
use crate::vecs::{Packable, Packed, splice};

verus! {

/// An iterator backed by a buffer of scalars that can be read at any offset.
pub trait SIMDArray: SIMDIterator {
    spec fn elements(&self) -> Seq<Self::Scalar>;

    /// The vector at `offset`.
    fn load(&self, offset: usize) -> (r: Self::Vector)
        requires
            offset + <Self::Vector as Packed>::spec_width() <= self.elements().len(),
        ensures
            r.lanes() == self.elements().subrange(
                offset as int,
                offset + <Self::Vector as Packed>::spec_width(),
            ),
    ;

    /// The vector at `offset`, which the caller has shown to be in bounds.
    fn load_unchecked(&self, offset: usize) -> (r: Self::Vector)
        requires
            offset + <Self::Vector as Packed>::spec_width() <= self.elements().len(),
        ensures
            r.lanes() == self.elements().subrange(
                offset as int,
                offset + <Self::Vector as Packed>::spec_width(),
            ),
    ;

    /// The scalar at `offset`.
    fn load_scalar(&self, offset: usize) -> (r: Self::Scalar)
        requires
            offset < self.elements().len(),
        ensures
            r == self.elements()[offset as int],
    ;

    /// The scalar at `offset`, which the caller has shown to be in bounds.
    fn load_scalar_unchecked(&self, offset: usize) -> (r: Self::Scalar)
        requires
            offset < self.elements().len(),
        ensures
            r == self.elements()[offset as int],
    ;
}

/// An iterator backed by a buffer of scalars that can be written at any
/// offset; a write leaves the position alone.
pub trait SIMDArrayMut: SIMDArray {
    /// Stores `value` at `offset`.
    fn store(&mut self, value: Self::Vector, offset: usize)
        requires
            offset + <Self::Vector as Packed>::spec_width() <= old(self).elements().len(),
        ensures
            final(self).elements() == splice(old(self).elements(), offset as int, value.lanes()),
            final(self).spec_scalar_position() == old(self).spec_scalar_position(),
    ;

    /// Stores `value` at `offset`, which the caller has shown to be in
    /// bounds.
    fn store_unchecked(&mut self, value: Self::Vector, offset: usize)
        requires
            offset + <Self::Vector as Packed>::spec_width() <= old(self).elements().len(),
        ensures
            final(self).elements() == splice(old(self).elements(), offset as int, value.lanes()),
            final(self).spec_scalar_position() == old(self).spec_scalar_position(),
    ;

    /// Stores the scalar `value` at `offset`.
    fn store_scalar(&mut self, value: Self::Scalar, offset: usize)
        requires
            offset < old(self).elements().len(),
        ensures
            final(self).elements() == old(self).elements().update(offset as int, value),
            final(self).spec_scalar_position() == old(self).spec_scalar_position(),
    ;

    /// Stores the scalar `value` at `offset`, which the caller has shown to
    /// be in bounds.
    fn store_scalar_unchecked(&mut self, value: Self::Scalar, offset: usize)
        requires
            offset < old(self).elements().len(),
        ensures
            final(self).elements() == old(self).elements().update(offset as int, value),
            final(self).spec_scalar_position() == old(self).spec_scalar_position(),
    ;
}

impl<T: Packable> SIMDArray for SIMDIter<T> {
    open spec fn elements(&self) -> Seq<T> {
        self.data@
    }

    fn load(&self, offset: usize) -> (r: T::Vector) {
        T::Vector::load(self.data.as_slice(), offset)
    }

    fn load_unchecked(&self, offset: usize) -> (r: T::Vector) {
        T::Vector::load(self.data.as_slice(), offset)
    }

    fn load_scalar(&self, offset: usize) -> (r: T) {
        self.data[offset]
    }

    fn load_scalar_unchecked(&self, offset: usize) -> (r: T) {
        self.data[offset]
    }
}

impl<'a, T: Packable> SIMDArray for SIMDRefIter<'a, T> {
    open spec fn elements(&self) -> Seq<T> {
        self.data@
    }

    fn load(&self, offset: usize) -> (r: T::Vector) {
        T::Vector::load(self.data, offset)
    }

    fn load_unchecked(&self, offset: usize) -> (r: T::Vector) {
        T::Vector::load(self.data, offset)
    }

    fn load_scalar(&self, offset: usize) -> (r: T) {
        self.data[offset]
    }

    fn load_scalar_unchecked(&self, offset: usize) -> (r: T) {
        self.data[offset]
    }
}

impl<'a, T: Packable> SIMDArray for SIMDRefMutIter<'a, T> {
    open spec fn elements(&self) -> Seq<T> {
        self.data@
    }

    fn load(&self, offset: usize) -> (r: T::Vector) {
        T::Vector::load(&*self.data, offset)
    }

    fn load_unchecked(&self, offset: usize) -> (r: T::Vector) {
        T::Vector::load(&*self.data, offset)
    }

    fn load_scalar(&self, offset: usize) -> (r: T) {
        self.data[offset]
    }

    fn load_scalar_unchecked(&self, offset: usize) -> (r: T) {
        self.data[offset]
    }
}

impl<'a, T: Packable> SIMDArrayMut for SIMDRefMutIter<'a, T> {
    fn store(&mut self, value: T::Vector, offset: usize) {
        value.store(&mut *self.data, offset)
    }

    fn store_unchecked(&mut self, value: T::Vector, offset: usize) {
        value.store(&mut *self.data, offset)
    }

    fn store_scalar(&mut self, value: T, offset: usize) {
        self.data[offset] = value;
    }

    fn store_scalar_unchecked(&mut self, value: T, offset: usize) {
        self.data[offset] = value;
    }
}

} // verus!
