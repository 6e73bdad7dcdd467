//! `NdSliceMut` wraps `&mut [T]` to represent a mutable n-dimensional array.

use vstd::prelude::*;

use crate::addressing::{
    address, address_spec, check_in_bounds, checked_product, in_bounds, product, Order,
};
use crate::errors::ShapeError;

verus! {

/// `NdSliceMut` wraps `&mut [T]` to represent a mutable n-dimensional array.
///
/// The view holds its buffer with exclusive read/write access for its whole
/// lifetime; the shape and the memory order are fixed at construction, where
/// the buffer's length is validated once against the product of the shape's
/// extents. Element reads and writes both go through the same flat-offset
/// computation as `NdSlice`.
#[derive(Debug)]
pub struct NdSliceMut<'s, T, const N: usize> {
    /// The exclusively borrowed buffer the view reinterprets.
    pub slice: &'s mut [T],
    /// The per-axis extents.
    pub shape: [usize; N],
    /// The memory order element accesses are resolved under.
    pub order: Order,
}

impl<'s, T, const N: usize> NdSliceMut<'s, T, N> {
    /// The buffer as the sequence of elements it currently holds.
    pub open spec fn buf(self) -> Seq<T> {
        self.slice@
    }

    /// The buffer's length equals the product of the shape's extents: the
    /// invariant every constructor validates.
    pub open spec fn wf(self) -> bool {
        self.buf().len() == product(self.shape@)
    }

    /// Creates a new `NdSliceMut` with the specified ordering from a given
    /// slice and the expected shape.
    ///
    /// Succeeds exactly when the slice's length equals the product of the
    /// shape's extents; otherwise returns a `ShapeError` carrying the slice
    /// and the shape, constructs nothing, and leaves the buffer unchanged.
    pub fn new(slice: &'s mut [T], shape: [usize; N], order: Order) -> (r: Result<
        Self,
        ShapeError<'s, T, N>,
    >)
        ensures
            r is Ok <==> old(slice)@.len() == product(shape@),
            r is Ok ==> {
                &&& r->Ok_0.slice@ == old(slice)@
                &&& final(r->Ok_0.slice)@ == final(slice)@
                &&& r->Ok_0.shape@ == shape@
                &&& r->Ok_0.order == order
                &&& r->Ok_0.wf()
            },
            r is Err ==> {
                &&& r->Err_0.slice@ == old(slice)@
                &&& r->Err_0.shape@ == shape@
                &&& final(slice)@ == old(slice)@
            },
    {
        let n = slice.len();
        let ok = match checked_product(shape.as_slice()) {
            Some(p) => n == p,
            None => false,
        };
        if ok {
            Ok(NdSliceMut { slice, shape, order })
        } else {
            Err(ShapeError::new(slice, shape))
        }
    }

    /// Creates a new `NdSliceMut` with row-major ordering from a given slice
    /// and the expected shape.
    pub fn new_row_ordered(slice: &'s mut [T], shape: [usize; N]) -> (r: Result<
        Self,
        ShapeError<'s, T, N>,
    >)
        ensures
            r is Ok <==> old(slice)@.len() == product(shape@),
            r is Ok ==> {
                &&& r->Ok_0.slice@ == old(slice)@
                &&& final(r->Ok_0.slice)@ == final(slice)@
                &&& r->Ok_0.shape@ == shape@
                &&& r->Ok_0.order == Order::RowMajor
                &&& r->Ok_0.wf()
            },
            r is Err ==> {
                &&& r->Err_0.slice@ == old(slice)@
                &&& r->Err_0.shape@ == shape@
                &&& final(slice)@ == old(slice)@
            },
    {
        NdSliceMut::new(slice, shape, Order::RowMajor)
    }

    /// Creates a new `NdSliceMut` with column-major ordering from a given
    /// slice and the expected shape.
    pub fn col_ordered(slice: &'s mut [T], shape: [usize; N]) -> (r: Result<
        Self,
        ShapeError<'s, T, N>,
    >)
        ensures
            r is Ok <==> old(slice)@.len() == product(shape@),
            r is Ok ==> {
                &&& r->Ok_0.slice@ == old(slice)@
                &&& final(r->Ok_0.slice)@ == final(slice)@
                &&& r->Ok_0.shape@ == shape@
                &&& r->Ok_0.order == Order::ColumnMajor
                &&& r->Ok_0.wf()
            },
            r is Err ==> {
                &&& r->Err_0.slice@ == old(slice)@
                &&& r->Err_0.shape@ == shape@
                &&& final(slice)@ == old(slice)@
            },
    {
        NdSliceMut::new(slice, shape, Order::ColumnMajor)
    }

    /// Borrows the element the multi-dimensional index denotes: the buffer
    /// element at the flat offset the view's order and shape assign to it.
    pub fn index(&self, index: [usize; N]) -> (r: &T)
        requires
            self.wf(),
            in_bounds(self.shape@, index@),
        ensures
            *r == self.buf()[address_spec(self.order, self.shape@, index@)],
    {
        proof {
            assert(self.slice.len() == self.slice@.len());
        }
        let a = address(&self.order, self.shape.as_slice(), index.as_slice());
        &self.slice[a]
    }

    /// Mutably borrows the element the multi-dimensional index denotes.
    ///
    /// The buffer afterwards holds whatever the caller wrote through the
    /// returned reference at that element's flat offset, and is unchanged
    /// everywhere else; the shape and the order never change.
    pub fn index_mut(&mut self, index: [usize; N]) -> (r: &mut T)
        requires
            old(self).wf(),
            in_bounds(old(self).shape@, index@),
        ensures
            *r == old(self).buf()[address_spec(old(self).order, old(self).shape@, index@)],
            final(self).buf() == old(self).buf().update(
                address_spec(old(self).order, old(self).shape@, index@),
                *final(r),
            ),
            final(self).shape@ == old(self).shape@,
            final(self).order == old(self).order,
            final(self).wf(),
    {
        proof {
            assert(self.slice.len() == self.slice@.len());
        }
        let a = address(&self.order, self.shape.as_slice(), index.as_slice());
        &mut self.slice[a]
    }

    /// Borrows the element the multi-dimensional index denotes, or `None`
    /// when some coordinate is not below the extent of its axis: the explicit
    /// per-axis bounds check ahead of the address computation.
    pub fn get(&self, index: [usize; N]) -> (r: Option<&T>)
        requires
            self.wf(),
        ensures
            r is Some <==> in_bounds(self.shape@, index@),
            r is Some ==> *r->Some_0 == self.buf()[
                address_spec(self.order, self.shape@, index@)
            ],
    {
        if check_in_bounds(self.shape.as_slice(), index.as_slice()) {
            Some(self.index(index))
        } else {
            None
        }
    }

    /// Writes `value` into the buffer at the flat offset the view's order and
    /// shape assign to the multi-dimensional index, leaving every other
    /// element, the shape and the order unchanged.
    pub fn set(&mut self, index: [usize; N], value: T)
        requires
            old(self).wf(),
            in_bounds(old(self).shape@, index@),
        ensures
            final(self).buf() == old(self).buf().update(
                address_spec(old(self).order, old(self).shape@, index@),
                value,
            ),
            final(self).shape@ == old(self).shape@,
            final(self).order == old(self).order,
            final(self).wf(),
    {
        proof {
            assert(self.slice.len() == self.slice@.len());
        }
        let a = address(&self.order, self.shape.as_slice(), index.as_slice());
        self.slice[a] = value;
    }
}

} // verus!
