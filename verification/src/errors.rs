//! Errors involving a shape mismatch.

use vstd::prelude::*;

verus! {

/// A buffer was rejected because its length disagrees with the product of the
/// declared shape.
///
/// The error is purely descriptive: it carries the rejected buffer and the
/// declared shape, which is enough to state the required length
/// (the product of the shape's extents) and the length actually provided.
#[derive(Debug)]
pub struct ShapeError<'s, T, const N: usize> {
    /// The rejected buffer.
    pub slice: &'s [T],
    /// The declared shape the buffer's length disagrees with.
    pub shape: [usize; N],
}

impl<'s, T, const N: usize> ShapeError<'s, T, N> {
    /// Create a new `ShapeError` given the rejected slice and the expected shape.
    pub fn new(slice: &'s [T], shape: [usize; N]) -> (e: Self)
        ensures
            e.slice@ == slice@,
            e.shape@ == shape@,
    {
        ShapeError { slice, shape }
    }
}

} // verus!
