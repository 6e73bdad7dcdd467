use nd_slice::{NdSlice, NdSliceMut, Order};

fn new_check<const N: usize>(arr: &[usize], shape: [usize; N]) {
    NdSlice::new_row_ordered(arr, shape).unwrap();
}

#[test]
fn new() {
    let arr: [usize; 8] = [1, 2, 3, 4, 5, 6, 7, 8];
    new_check(&arr, [8]);
    new_check(&arr, [4, 2]);
    new_check(&arr, [2, 2, 2]);
}

#[test]
#[should_panic]
fn new_err() {
    let arr: [usize; 8] = [1, 2, 3, 4, 5, 6, 7, 8];
    new_check(&arr, [9]);
    new_check(&arr, [4, 3]);
    new_check(&arr, [2, 2, 3]);
}

#[test]
fn index_test() {
    let rm = NdSlice::new_row_ordered(&[1, 2, 3, 4, 5, 6], [2, 3]).unwrap();
    let cm = NdSlice::col_ordered(&[1, 4, 2, 5, 3, 6], [2, 3]).unwrap();

    assert!(*rm.index([0, 0]) == 1 && rm.index([0, 0]) == cm.index([0, 0]));
    assert!(*rm.index([0, 1]) == 2 && rm.index([0, 1]) == cm.index([0, 1]));
    assert!(*rm.index([0, 2]) == 3 && rm.index([0, 2]) == cm.index([0, 2]));
    assert!(*rm.index([1, 0]) == 4 && rm.index([1, 0]) == cm.index([1, 0]));
    assert!(*rm.index([1, 1]) == 5 && rm.index([1, 1]) == cm.index([1, 1]));
    assert!(*rm.index([1, 2]) == 6 && rm.index([1, 2]) == cm.index([1, 2]));
}

#[test]
fn shape_product_invariant() {
    let arr: [u32; 8] = [1, 2, 3, 4, 5, 6, 7, 8];
    // succeeds exactly when the length equals the product of the shape
    assert!(NdSlice::new(&arr, [8], Order::RowMajor).is_ok());
    assert!(NdSlice::new(&arr, [2, 4], Order::ColumnMajor).is_ok());
    assert!(NdSlice::new(&arr, [9], Order::RowMajor).is_err());
    assert!(NdSlice::new(&arr, [4, 3], Order::RowMajor).is_err());
    assert!(NdSlice::new(&arr, [2, 2, 3], Order::ColumnMajor).is_err());
}

#[test]
fn shape_error_carries_slice_and_shape() {
    let arr: [u32; 8] = [1, 2, 3, 4, 5, 6, 7, 8];
    let e = NdSlice::new(&arr, [4, 3], Order::RowMajor).unwrap_err();
    assert_eq!(e.slice, &arr);
    assert_eq!(e.shape, [4, 3]);
}

#[test]
fn empty_product_is_one() {
    // a shape with no axes describes a single element
    let one = [42u8];
    let v = NdSlice::new(&one, [], Order::RowMajor).unwrap();
    assert_eq!(*v.index([]), 42);
    let none: [u8; 0] = [];
    assert!(NdSlice::new(&none, [], Order::RowMajor).is_err());
}

#[test]
fn zero_extent_needs_empty_buffer() {
    let none: [u8; 0] = [];
    assert!(NdSlice::new(&none, [0], Order::RowMajor).is_ok());
    assert!(NdSlice::new(&none, [2, 0, 3], Order::ColumnMajor).is_ok());
    let some = [1u8];
    assert!(NdSlice::new(&some, [2, 0, 3], Order::RowMajor).is_err());
}

#[test]
fn huge_shape_is_rejected_not_wrapped() {
    // the product overflows usize, so no buffer can match it
    let arr: [u8; 8] = [0; 8];
    assert!(NdSlice::new(&arr, [usize::MAX, 4], Order::RowMajor).is_err());
    // a zero extent still zeroes an otherwise overflowing product
    let none: [u8; 0] = [];
    assert!(NdSlice::new(&none, [usize::MAX, 4, 0], Order::RowMajor).is_ok());
}

#[test]
fn mut_new_and_index() {
    let mut arr = [1, 2, 3, 4, 5, 6];
    let m = NdSliceMut::new(&mut arr, [2, 3], Order::RowMajor).unwrap();
    assert_eq!(*m.index([0, 0]), 1);
    assert_eq!(*m.index([1, 2]), 6);
}

#[test]
fn mut_constructors_validate() {
    let mut arr = [1, 2, 3, 4, 5, 6];
    assert!(NdSliceMut::new_row_ordered(&mut arr, [2, 3]).is_ok());
    assert!(NdSliceMut::col_ordered(&mut arr, [3, 2]).is_ok());
    assert!(NdSliceMut::new(&mut arr, [2, 2], Order::RowMajor).is_err());
    assert!(NdSliceMut::new(&mut arr, [2, 4], Order::RowMajor).is_err());
}

#[test]
fn mutation_visibility() {
    let mut arr = [7, 2, 3, 4, 5, 8];
    let mut m = NdSliceMut::new(&mut arr, [2, 3], Order::RowMajor).unwrap();
    *m.index_mut([0, 0]) = 1;
    *m.index_mut([1, 2]) = 6;
    // the written value is read back at the written index
    assert_eq!(*m.index([0, 0]), 1);
    assert_eq!(*m.index([1, 2]), 6);
    // and every other index is untouched
    assert_eq!(*m.index([0, 1]), 2);
    assert_eq!(*m.index([0, 2]), 3);
    assert_eq!(*m.index([1, 0]), 4);
    assert_eq!(*m.index([1, 1]), 5);
    drop(m);
    assert_eq!(arr, [1, 2, 3, 4, 5, 6]);
}

#[test]
fn mutation_3d() {
    let mut arr = [9, 2, 3, 4, 5, 6, 7, 10];
    let mut m = NdSliceMut::new(&mut arr, [2, 2, 2], Order::RowMajor).unwrap();
    *m.index_mut([0, 0, 0]) = 1;
    *m.index_mut([1, 1, 1]) = 8;
    assert_eq!(*m.index([0, 0, 0]), 1);
    assert_eq!(*m.index([1, 1, 1]), 8);
}

#[test]
fn column_major_view_layout() {
    // shape [2, 3] over column-major data: offsets 0,2,4,1,3,5
    let cm = NdSlice::col_ordered(&[10, 20, 30, 40, 50, 60], [2, 3]).unwrap();
    assert_eq!(*cm.index([0, 0]), 10);
    assert_eq!(*cm.index([1, 0]), 20);
    assert_eq!(*cm.index([0, 1]), 30);
    assert_eq!(*cm.index([1, 1]), 40);
    assert_eq!(*cm.index([0, 2]), 50);
    assert_eq!(*cm.index([1, 2]), 60);
}

#[test]
fn get_checks_bounds() {
    let v = NdSlice::new(&[1, 2, 3, 4, 5, 6], [2, 3], Order::RowMajor).unwrap();
    assert_eq!(v.get([1, 2]), Some(&6));
    assert_eq!(v.get([0, 0]), Some(&1));
    assert_eq!(v.get([2, 0]), None);
    assert_eq!(v.get([0, 3]), None);
}

#[test]
fn get_and_set_on_mutable_view() {
    let mut arr = [1, 2, 3, 4, 5, 6];
    let mut m = NdSliceMut::col_ordered(&mut arr, [2, 3]).unwrap();
    assert_eq!(m.get([1, 1]), Some(&4));
    assert_eq!(m.get([1, 3]), None);
    m.set([1, 1], 40);
    assert_eq!(m.get([1, 1]), Some(&40));
    assert_eq!(*m.index([0, 1]), 3);
    drop(m);
    assert_eq!(arr, [1, 2, 3, 40, 5, 6]);
}
