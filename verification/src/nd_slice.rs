//! `NdSlice` wraps `&[T]` to represent an n-dimensional array.

use vstd::prelude::*;

use crate::addressing::{
    address, address_spec, check_in_bounds, checked_product, in_bounds, product, Order,
};
use crate::errors::ShapeError;

verus! {

/// `NdSlice` wraps `&[T]` to represent an n-dimensional array.
///
/// The view borrows its buffer read-only and never copies it; the shape and
/// the memory order are fixed at construction, where the buffer's length is
/// validated once against the product of the shape's extents.
#[derive(Debug, Clone)]
pub struct NdSlice<'s, T, const N: usize> {
    /// The borrowed buffer the view reinterprets.
    pub slice: &'s [T],
    /// The per-axis extents.
    pub shape: [usize; N],
    /// The memory order element accesses are resolved under.
    pub order: Order,
}

impl<'s, T, const N: usize> NdSlice<'s, T, N> {
    /// The buffer's length equals the product of the shape's extents: the
    /// invariant every constructor validates.
    pub open spec fn wf(self) -> bool {
        self.slice@.len() == product(self.shape@)
    }

    /// Creates a new `NdSlice` with the specified ordering from a given slice
    /// and the expected shape.
    ///
    /// Succeeds exactly when the slice's length equals the product of the
    /// shape's extents; otherwise returns a `ShapeError` carrying the slice
    /// and the shape, and constructs nothing.
    pub fn new(slice: &'s [T], shape: [usize; N], order: Order) -> (r: Result<
        Self,
        ShapeError<'s, T, N>,
    >)
        ensures
            r is Ok <==> slice@.len() == product(shape@),
            r is Ok ==> {
                &&& r->Ok_0.slice@ == slice@
                &&& r->Ok_0.shape@ == shape@
                &&& r->Ok_0.order == order
                &&& r->Ok_0.wf()
            },
            r is Err ==> r->Err_0.slice@ == slice@ && r->Err_0.shape@ == shape@,
    {
        let n = slice.len();
        let ok = match checked_product(shape.as_slice()) {
            Some(p) => n == p,
            None => false,
        };
        if ok {
            Ok(NdSlice { slice, shape, order })
        } else {
            Err(ShapeError::new(slice, shape))
        }
    }

    /// Creates a new `NdSlice` with row-major ordering from a given slice and
    /// the expected shape.
    pub fn new_row_ordered(slice: &'s [T], shape: [usize; N]) -> (r: Result<
        Self,
        ShapeError<'s, T, N>,
    >)
        ensures
            r is Ok <==> slice@.len() == product(shape@),
            r is Ok ==> {
                &&& r->Ok_0.slice@ == slice@
                &&& r->Ok_0.shape@ == shape@
                &&& r->Ok_0.order == Order::RowMajor
                &&& r->Ok_0.wf()
            },
            r is Err ==> r->Err_0.slice@ == slice@ && r->Err_0.shape@ == shape@,
    {
        NdSlice::new(slice, shape, Order::RowMajor)
    }

    /// Creates a new `NdSlice` with column-major ordering from a given slice
    /// and the expected shape.
    pub fn col_ordered(slice: &'s [T], shape: [usize; N]) -> (r: Result<
        Self,
        ShapeError<'s, T, N>,
    >)
        ensures
            r is Ok <==> slice@.len() == product(shape@),
            r is Ok ==> {
                &&& r->Ok_0.slice@ == slice@
                &&& r->Ok_0.shape@ == shape@
                &&& r->Ok_0.order == Order::ColumnMajor
                &&& r->Ok_0.wf()
            },
            r is Err ==> r->Err_0.slice@ == slice@ && r->Err_0.shape@ == shape@,
    {
        NdSlice::new(slice, shape, Order::ColumnMajor)
    }

    /// Borrows the element the multi-dimensional index denotes: the buffer
    /// element at the flat offset the view's order and shape assign to it.
    pub fn index(&self, index: [usize; N]) -> (r: &'s T)
        requires
            self.wf(),
            in_bounds(self.shape@, index@),
        ensures
            *r == self.slice@[address_spec(self.order, self.shape@, index@)],
    {
        proof {
            assert(self.slice.len() == self.slice@.len());
        }
        let a = address(&self.order, self.shape.as_slice(), index.as_slice());
        &self.slice[a]
    }

    /// Borrows the element the multi-dimensional index denotes, or `None`
    /// when some coordinate is not below the extent of its axis: the explicit
    /// per-axis bounds check ahead of the address computation.
    pub fn get(&self, index: [usize; N]) -> (r: Option<&'s T>)
        requires
            self.wf(),
        ensures
            r is Some <==> in_bounds(self.shape@, index@),
            r is Some ==> *r->Some_0 == self.slice@[
                address_spec(self.order, self.shape@, index@)
            ],
    {
        if check_in_bounds(self.shape.as_slice(), index.as_slice()) {
            Some(self.index(index))
        } else {
            None
        }
    }
}

} // verus!
