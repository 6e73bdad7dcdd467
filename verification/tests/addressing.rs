use nd_slice::addressing::{col_major_address, row_major_address};
use nd_slice::{address, Order};

#[test]
fn row_major_test_2d() {
    assert_eq!(row_major_address(&[2, 3], &[0, 0]), 0);
    assert_eq!(row_major_address(&[2, 3], &[0, 1]), 1);
    assert_eq!(row_major_address(&[2, 3], &[0, 2]), 2);
    assert_eq!(row_major_address(&[2, 3], &[1, 0]), 3);
    assert_eq!(row_major_address(&[2, 3], &[1, 1]), 4);
    assert_eq!(row_major_address(&[2, 3], &[1, 2]), 5);
}

#[test]
fn col_major_test_2d() {
    assert_eq!(col_major_address(&[2, 3], &[0, 0]), 0);
    assert_eq!(col_major_address(&[2, 3], &[1, 0]), 1);
    assert_eq!(col_major_address(&[2, 3], &[0, 1]), 2);
    assert_eq!(col_major_address(&[2, 3], &[1, 1]), 3);
    assert_eq!(col_major_address(&[2, 3], &[0, 2]), 4);
    assert_eq!(col_major_address(&[2, 3], &[1, 2]), 5);
}

#[test]
fn address_dispatches_on_order() {
    assert_eq!(address(&Order::RowMajor, &[2, 3], &[1, 1]), 4);
    assert_eq!(address(&Order::ColumnMajor, &[2, 3], &[1, 1]), 3);
}

#[test]
fn address_is_deterministic() {
    let shape = [4, 5, 6];
    let index = [3, 2, 1];
    let first = address(&Order::RowMajor, &shape, &index);
    let second = address(&Order::RowMajor, &shape, &index);
    assert_eq!(first, second);
    let first = address(&Order::ColumnMajor, &shape, &index);
    let second = address(&Order::ColumnMajor, &shape, &index);
    assert_eq!(first, second);
    assert_eq!(shape, [4, 5, 6]);
    assert_eq!(index, [3, 2, 1]);
}

#[test]
fn address_3d() {
    // row-major: offset = (i * 3 + j) * 4 + k
    assert_eq!(row_major_address(&[2, 3, 4], &[1, 2, 3]), 23);
    assert_eq!(row_major_address(&[2, 3, 4], &[1, 0, 2]), 14);
    // column-major: offset = i + 2 * (j + 3 * k)
    assert_eq!(col_major_address(&[2, 3, 4], &[1, 2, 3]), 23);
    assert_eq!(col_major_address(&[2, 3, 4], &[1, 0, 2]), 13);
}

#[test]
fn address_no_axes() {
    // With no axes at all the unique address is 0.
    assert_eq!(address(&Order::RowMajor, &[], &[]), 0);
    assert_eq!(address(&Order::ColumnMajor, &[], &[]), 0);
}

#[test]
fn address_one_axis() {
    // With a single axis both orders agree on the identity mapping.
    for k in 0..7 {
        assert_eq!(row_major_address(&[7], &[k]), k);
        assert_eq!(col_major_address(&[7], &[k]), k);
    }
}
