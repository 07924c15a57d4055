//! Iteration over scalar buffers as a stream of fixed-width vector registers,
//! with a padded, right-aligned tail for lengths that are not a multiple of
//! the vector width.
pub mod array;
pub mod iters;
pub mod laws;
pub mod map;
pub mod scalar;
pub mod transform;
pub mod unroll;
pub mod vecs;

pub use array::{SIMDArray, SIMDArrayMut};
pub use iters::{SIMDIter, SIMDIterator, SIMDIteratorExt, SIMDRefIter, SIMDRefMutIter};
pub use map::SIMDMap;
pub use scalar::IntoScalar;
pub use unroll::{PackedIter, Unroll};
pub use vecs::{Packable, Packed, Simd};
