//! `nd_slice` wraps `std::slice` to represent n-dimensional arrays.
//!
//! A flat, linear buffer is reinterpreted as an n-dimensional array without
//! copying: a view binds a borrowed buffer, a per-axis shape, and a memory
//! order, and routes every element access through a flat-offset computation.

pub mod addressing;
pub mod errors;
mod nd_slice;
mod nd_slice_mut;

pub use crate::addressing::address;
pub use crate::addressing::Order;
pub use crate::nd_slice::NdSlice;
pub use crate::nd_slice_mut::NdSliceMut;
