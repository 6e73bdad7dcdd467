//! Flat-offset computation for indexing an n-dimensional array.
//!
//! In row-major order the last axis varies fastest (is contiguous); in
//! column-major order the first axis varies fastest. Either way the offset of
//! a multi-dimensional index accumulates as `offset = offset * shape[k] +
//! index[k]`, scanning the axes from first to last for row-major order and
//! from last to first for column-major order.

use vstd::arithmetic::div_mod::{
    lemma_fundamental_div_mod, lemma_mod_pos_bound,
};
use vstd::prelude::*;

verus! {

/// The memory order of an `NdSlice` or `NdSliceMut`.
///
/// In row-major order the last axis is contiguous; in column-major order the
/// first axis is contiguous. The order is fixed at construction of a view and
/// never changes afterwards.
#[derive(Debug, Clone)]
pub enum Order {
    RowMajor,
    ColumnMajor,
}

/// The number of elements a buffer must hold to be reshaped to `shape`: the
/// product of all extents, where the empty product is 1.
pub open spec fn product(shape: Seq<usize>) -> int
    decreases shape.len(),
{
    if shape.len() == 0 {
        1
    } else {
        product(shape.drop_last()) * shape.last()
    }
}

/// `index` has one coordinate per axis of `shape`, each strictly below the
/// extent of its axis.
pub open spec fn in_bounds(shape: Seq<usize>, index: Seq<usize>) -> bool {
    &&& shape.len() == index.len()
    &&& forall|k: int| 0 <= k < shape.len() ==> index[k] < shape[k]
}

/// The flat offset of `index` in row-major order: the offset of the first
/// `N - 1` coordinates, scaled by the last extent, plus the last coordinate.
/// An index with no axes addresses offset 0.
pub open spec fn row_major_spec(shape: Seq<usize>, index: Seq<usize>) -> int
    decreases shape.len(),
{
    if shape.len() == 0 {
        0
    } else {
        row_major_spec(shape.drop_last(), index.drop_last()) * shape.last() + index.last()
    }
}

/// The flat offset of `index` in column-major order: the offset of the last
/// `N - 1` coordinates, scaled by the first extent, plus the first coordinate.
/// An index with no axes addresses offset 0.
pub open spec fn col_major_spec(shape: Seq<usize>, index: Seq<usize>) -> int
    decreases shape.len(),
{
    if shape.len() == 0 {
        0
    } else {
        col_major_spec(shape.skip(1), index.skip(1)) * shape[0] + index[0]
    }
}

/// The flat offset of `index` under the given memory order.
pub open spec fn address_spec(order: Order, shape: Seq<usize>, index: Seq<usize>) -> int {
    match order {
        Order::RowMajor => row_major_spec(shape, index),
        Order::ColumnMajor => col_major_spec(shape, index),
    }
}

/// Given the shape and index, calculate the flat offset ("address") for a
/// given memory order.
///
/// An index is only meaningful when each coordinate lies below the extent of
/// its axis; requiring that here also keeps every intermediate product within
/// `usize`, given that the whole shape's product fits. With no axes at all
/// the unique address is 0.
pub fn address(order: &Order, shape: &[usize], index: &[usize]) -> (res: usize)
    requires
        in_bounds(shape@, index@),
        product(shape@) <= usize::MAX,
    ensures
        res == address_spec(*order, shape@, index@),
        res < product(shape@),
{
    match order {
        Order::RowMajor => row_major_address(shape, index),
        Order::ColumnMajor => col_major_address(shape, index),
    }
}

/// Row-major flat offset: scans the axes from first to last, so the last
/// coordinate varies fastest.
pub fn row_major_address(shape: &[usize], index: &[usize]) -> (res: usize)
    requires
        in_bounds(shape@, index@),
        product(shape@) <= usize::MAX,
    ensures
        res == row_major_spec(shape@, index@),
        res < product(shape@),
{
    let d = shape.len();
    if d == 0 {
        return 0;
    }
    let mut res = index[0];
    let mut k: usize = 1;
    proof {
        let s1 = shape@.take(1);
        let i1 = index@.take(1);
        assert(s1.drop_last() =~= Seq::<usize>::empty());
        assert(i1.drop_last() =~= Seq::<usize>::empty());
        assert(product(Seq::<usize>::empty()) == 1);
        assert(row_major_spec(Seq::<usize>::empty(), Seq::<usize>::empty()) == 0);
        assert(product(s1) == shape@[0]);
        assert(row_major_spec(s1, i1) == index@[0]);
        lemma_extents_positive(shape@, index@);
    }
    while k < d
        invariant
            1 <= k <= d,
            d == shape@.len(),
            in_bounds(shape@, index@),
            product(shape@) <= usize::MAX,
            forall|j: int| 0 <= j < d ==> shape@[j] >= 1,
            res == row_major_spec(shape@.take(k as int), index@.take(k as int)),
            res < product(shape@.take(k as int)),
        decreases d - k,
    {
        proof {
            lemma_product_take_succ(shape@, k as int);
            lemma_product_take_le(shape@, k as int + 1);
            assert(res * shape@[k as int] + index@[k as int] < product(
                shape@.take(k as int + 1),
            )) by (nonlinear_arith)
                requires
                    res < product(shape@.take(k as int)),
                    index@[k as int] < shape@[k as int],
                    0 <= res,
                    0 <= index@[k as int],
                    product(shape@.take(k as int + 1)) == product(shape@.take(k as int))
                        * shape@.index(k as int),
            ;
            assert(shape@.take(k as int + 1).drop_last() =~= shape@.take(k as int));
            assert(index@.take(k as int + 1).drop_last() =~= index@.take(k as int));
        }
        res = res * shape[k] + index[k];
        k += 1;
    }
    proof {
        assert(shape@.take(d as int) =~= shape@);
        assert(index@.take(d as int) =~= index@);
    }
    res
}

/// Column-major flat offset: scans the axes from last to first, so the first
/// coordinate varies fastest.
pub fn col_major_address(shape: &[usize], index: &[usize]) -> (res: usize)
    requires
        in_bounds(shape@, index@),
        product(shape@) <= usize::MAX,
    ensures
        res == col_major_spec(shape@, index@),
        res < product(shape@),
{
    let d = shape.len();
    if d == 0 {
        return 0;
    }
    let mut res = index[d - 1];
    let mut k: usize = d - 1;
    proof {
        let sd = shape@.skip(d - 1);
        let id = index@.skip(d - 1);
        assert(sd.skip(1) =~= Seq::<usize>::empty());
        assert(id.skip(1) =~= Seq::<usize>::empty());
        assert(product(Seq::<usize>::empty()) == 1);
        assert(col_major_spec(Seq::<usize>::empty(), Seq::<usize>::empty()) == 0);
        assert(col_major_spec(sd, id) == index@[d - 1]);
        assert(shape@.skip(d as int) =~= Seq::<usize>::empty());
        lemma_product_skip_pred(shape@, d - 1);
        assert(product(sd) == shape@[d - 1]);
        lemma_extents_positive(shape@, index@);
    }
    while k > 0
        invariant
            0 <= k <= shape@.len() - 1,
            d == shape@.len(),
            in_bounds(shape@, index@),
            product(shape@) <= usize::MAX,
            forall|j: int| 0 <= j < d ==> shape@[j] >= 1,
            res == col_major_spec(shape@.skip(k as int), index@.skip(k as int)),
            res < product(shape@.skip(k as int)),
        decreases k,
    {
        k -= 1;
        proof {
            lemma_product_skip_pred(shape@, k as int);
            lemma_product_skip_le(shape@, k as int);
            assert(shape@[k as int] * product(shape@.skip(k as int + 1)) == product(
                shape@.skip(k as int + 1),
            ) * shape@[k as int]) by (nonlinear_arith);
            assert(res * shape@[k as int] + index@[k as int] < product(
                shape@.skip(k as int),
            )) by (nonlinear_arith)
                requires
                    res < product(shape@.skip(k as int + 1)),
                    index@[k as int] < shape@[k as int],
                    0 <= res,
                    0 <= index@[k as int],
                    product(shape@.skip(k as int)) == product(shape@.skip(k as int + 1))
                        * shape@.index(k as int),
            ;
            assert(shape@.skip(k as int).skip(1) =~= shape@.skip(k as int + 1));
            assert(index@.skip(k as int).skip(1) =~= index@.skip(k as int + 1));
        }
        res = res * shape[k] + index[k];
    }
    proof {
        assert(shape@.skip(0) =~= shape@);
        assert(index@.skip(0) =~= index@);
    }
    res
}

/// Checks a multi-dimensional index against a shape: true exactly when the
/// index has one coordinate per axis, each strictly below the extent of its
/// axis.
pub fn check_in_bounds(shape: &[usize], index: &[usize]) -> (r: bool)
    ensures
        r == in_bounds(shape@, index@),
{
    let d = shape.len();
    if index.len() != d {
        return false;
    }
    let mut k: usize = 0;
    while k < d
        invariant
            0 <= k <= d,
            d == shape@.len(),
            d == index@.len(),
            forall|j: int| 0 <= j < k ==> index@[j] < shape@[j],
        decreases d - k,
    {
        if index[k] >= shape[k] {
            return false;
        }
        k += 1;
    }
    true
}

/// The product of a shape's extents, as a `usize`: `None` when the product
/// exceeds `usize::MAX` and so cannot be the length of any slice.
pub(crate) fn checked_product(shape: &[usize]) -> (r: Option<usize>)
    ensures
        r is Some ==> r->0 == product(shape@),
        r is None ==> product(shape@) > usize::MAX,
{
    let d = shape.len();
    let mut k: usize = 0;
    while k < d
        invariant
            0 <= k <= d,
            d == shape@.len(),
            forall|j: int| 0 <= j < k ==> shape@[j] >= 1,
        decreases d - k,
    {
        if shape[k] == 0 {
            proof {
                lemma_product_zero(shape@, k as int);
            }
            return Some(0);
        }
        k += 1;
    }
    let mut acc: usize = 1;
    let mut k: usize = 0;
    proof {
        assert(shape@.take(0) =~= Seq::<usize>::empty());
    }
    while k < d
        invariant
            0 <= k <= d,
            d == shape@.len(),
            forall|j: int| 0 <= j < d ==> shape@[j] >= 1,
            acc == product(shape@.take(k as int)),
        decreases d - k,
    {
        proof {
            lemma_product_take_succ(shape@, k as int);
        }
        match acc.checked_mul(shape[k]) {
            Some(v) => {
                acc = v;
            },
            None => {
                proof {
                    lemma_product_take_le(shape@, k as int + 1);
                }
                return None;
            },
        }
        k += 1;
    }
    proof {
        assert(shape@.take(d as int) =~= shape@);
    }
    Some(acc)
}

/// A shape with an extent of zero has a zero product.
proof fn lemma_product_zero(shape: Seq<usize>, k: int)
    requires
        0 <= k < shape.len(),
        shape[k] == 0,
    ensures
        product(shape) == 0,
    decreases shape.len(),
{
    if k == shape.len() - 1 {
        assert(product(shape.drop_last()) * shape.last() == 0) by (nonlinear_arith)
            requires
                shape.last() == 0,
        ;
    } else {
        lemma_product_zero(shape.drop_last(), k);
        assert(product(shape.drop_last()) * shape.last() == 0) by (nonlinear_arith)
            requires
                product(shape.drop_last()) == 0,
        ;
    }
}

/// An in-bounds index exists for an axis only if the axis has at least one
/// element.
proof fn lemma_extents_positive(shape: Seq<usize>, index: Seq<usize>)
    requires
        in_bounds(shape, index),
    ensures
        forall|j: int| 0 <= j < shape.len() ==> shape[j] >= 1,
{
}

/// Extending a prefix of a shape by one axis multiplies its product by that
/// axis's extent.
proof fn lemma_product_take_succ(shape: Seq<usize>, k: int)
    requires
        0 <= k < shape.len(),
    ensures
        product(shape.take(k + 1)) == product(shape.take(k)) * shape[k],
{
    assert(shape.take(k + 1).drop_last() =~= shape.take(k));
}

/// With every extent at least one, the product of a prefix of the shape is
/// at least one and at most the product of the whole shape.
proof fn lemma_product_take_le(shape: Seq<usize>, k: int)
    requires
        0 <= k <= shape.len(),
        forall|j: int| 0 <= j < shape.len() ==> shape[j] >= 1,
    ensures
        1 <= product(shape.take(k)),
        product(shape.take(k)) <= product(shape),
    decreases shape.len() - k,
{
    if k == shape.len() {
        assert(shape.take(k) =~= shape);
        lemma_product_positive(shape);
    } else {
        lemma_product_take_succ(shape, k);
        lemma_product_take_le(shape, k + 1);
        assert(1 <= product(shape.take(k)) && product(shape.take(k)) <= product(
            shape.take(k + 1),
        )) by (nonlinear_arith)
            requires
                product(shape.take(k + 1)) == product(shape.take(k)) * shape[k],
                shape[k] >= 1,
                1 <= product(shape.take(k + 1)),
        ;
    }
}

/// With every extent at least one, the product of the whole shape is at
/// least one.
proof fn lemma_product_positive(shape: Seq<usize>)
    requires
        forall|j: int| 0 <= j < shape.len() ==> shape[j] >= 1,
    ensures
        product(shape) >= 1,
    decreases shape.len(),
{
    if shape.len() > 0 {
        lemma_product_positive(shape.drop_last());
        assert(product(shape.drop_last()) * shape.last() >= 1) by (nonlinear_arith)
            requires
                product(shape.drop_last()) >= 1,
                shape.last() >= 1,
        ;
    }
}

/// The product of a shape splits at its first axis: it is the first extent
/// times the product of the remaining axes.
proof fn lemma_product_first(shape: Seq<usize>)
    requires
        shape.len() > 0,
    ensures
        product(shape) == shape[0] * product(shape.skip(1)),
    decreases shape.len(),
{
    if shape.len() == 1 {
        assert(shape.drop_last() =~= Seq::<usize>::empty());
        assert(shape.skip(1) =~= Seq::<usize>::empty());
        assert(product(Seq::<usize>::empty()) == 1);
    } else {
        let dl = shape.drop_last();
        lemma_product_first(dl);
        assert(dl.skip(1) =~= shape.skip(1).drop_last());
        assert(shape.skip(1).last() == shape.last());
        assert(product(shape.skip(1)) == product(dl.skip(1)) * shape.last());
        assert(product(shape) == shape[0] * product(shape.skip(1))) by (nonlinear_arith)
            requires
                product(shape) == product(dl) * shape.last(),
                product(dl) == shape[0] * product(dl.skip(1)),
                product(shape.skip(1)) == product(dl.skip(1)) * shape.last(),
        ;
    }
}

/// Dropping one more leading axis from a shape divides the product of the
/// remaining axes by that axis's extent.
proof fn lemma_product_skip_pred(shape: Seq<usize>, k: int)
    requires
        0 <= k < shape.len(),
    ensures
        product(shape.skip(k)) == shape[k] * product(shape.skip(k + 1)),
{
    lemma_product_first(shape.skip(k));
    assert(shape.skip(k).skip(1) =~= shape.skip(k + 1));
}

/// With every extent at least one, the product of a suffix of the shape is
/// at least one and at most the product of the whole shape.
proof fn lemma_product_skip_le(shape: Seq<usize>, k: int)
    requires
        0 <= k <= shape.len(),
        forall|j: int| 0 <= j < shape.len() ==> shape[j] >= 1,
    ensures
        1 <= product(shape.skip(k)),
        product(shape.skip(k)) <= product(shape),
    decreases k,
{
    if k == 0 {
        assert(shape.skip(0) =~= shape);
        lemma_product_positive(shape);
    } else {
        lemma_product_skip_le(shape, k - 1);
        lemma_product_skip_pred(shape, k - 1);
        assert(1 <= product(shape.skip(k)) && product(shape.skip(k)) <= product(
            shape.skip(k - 1),
        )) by (nonlinear_arith)
            requires
                product(shape.skip(k - 1)) == shape[k - 1] * product(shape.skip(k)),
                shape[k - 1] >= 1,
                1 <= product(shape.skip(k - 1)),
                product(shape.skip(k - 1)) >= 1,
        ;
    }
}

/// An in-bounds index addresses an offset inside the buffer: at least 0 and
/// strictly below the product of the shape's extents.
pub proof fn lemma_row_major_in_range(shape: Seq<usize>, index: Seq<usize>)
    requires
        in_bounds(shape, index),
    ensures
        0 <= row_major_spec(shape, index) < product(shape),
    decreases shape.len(),
{
    if shape.len() == 0 {
        assert(product(Seq::<usize>::empty()) == 1);
    } else {
        let ds = shape.drop_last();
        let di = index.drop_last();
        assert(in_bounds(ds, di));
        lemma_row_major_in_range(ds, di);
        assert(row_major_spec(ds, di) * shape.last() + index.last() < product(ds) * shape.last())
            by (nonlinear_arith)
            requires
                row_major_spec(ds, di) < product(ds),
                index.last() < shape.last(),
                0 <= row_major_spec(ds, di),
                0 <= index.last(),
        ;
    }
}

/// An in-bounds index addresses an offset inside the buffer: at least 0 and
/// strictly below the product of the shape's extents.
pub proof fn lemma_col_major_in_range(shape: Seq<usize>, index: Seq<usize>)
    requires
        in_bounds(shape, index),
    ensures
        0 <= col_major_spec(shape, index) < product(shape),
    decreases shape.len(),
{
    if shape.len() == 0 {
        assert(product(Seq::<usize>::empty()) == 1);
    } else {
        let ds = shape.skip(1);
        let di = index.skip(1);
        assert(in_bounds(ds, di));
        lemma_col_major_in_range(ds, di);
        lemma_product_first(shape);
        assert(col_major_spec(ds, di) * shape[0] + index[0] < shape[0] * product(ds))
            by (nonlinear_arith)
            requires
                col_major_spec(ds, di) < product(ds),
                index[0] < shape[0],
                0 <= col_major_spec(ds, di),
                0 <= index[0],
        ;
    }
}

/// An in-bounds index addresses an offset inside the buffer: at least 0 and
/// strictly below the product of the shape's extents, under either order.
pub proof fn lemma_address_in_range(order: Order, shape: Seq<usize>, index: Seq<usize>)
    requires
        in_bounds(shape, index),
    ensures
        0 <= address_spec(order, shape, index) < product(shape),
{
    match order {
        Order::RowMajor => lemma_row_major_in_range(shape, index),
        Order::ColumnMajor => lemma_col_major_in_range(shape, index),
    }
}

/// Distinct in-bounds indices address distinct row-major offsets.
pub proof fn lemma_row_major_injective(shape: Seq<usize>, i1: Seq<usize>, i2: Seq<usize>)
    requires
        in_bounds(shape, i1),
        in_bounds(shape, i2),
        row_major_spec(shape, i1) == row_major_spec(shape, i2),
    ensures
        i1 == i2,
    decreases shape.len(),
{
    if shape.len() == 0 {
        assert(i1 =~= i2);
    } else {
        let ds = shape.drop_last();
        let d1 = i1.drop_last();
        let d2 = i2.drop_last();
        assert(in_bounds(ds, d1));
        assert(in_bounds(ds, d2));
        lemma_row_major_in_range(ds, d1);
        lemma_row_major_in_range(ds, d2);
        let a1 = row_major_spec(ds, d1);
        let a2 = row_major_spec(ds, d2);
        assert(a1 == a2 && i1.last() == i2.last()) by (nonlinear_arith)
            requires
                a1 * shape.last() + i1.last() == a2 * shape.last() + i2.last(),
                0 <= i1.last() < shape.last(),
                0 <= i2.last() < shape.last(),
                0 <= a1,
                0 <= a2,
        ;
        lemma_row_major_injective(ds, d1, d2);
        assert forall|k: int| 0 <= k < i1.len() implies i1[k] == i2[k] by {
            if k < i1.len() - 1 {
                assert(i1[k] == d1[k]);
                assert(i2[k] == d2[k]);
            } else {
                assert(i1[k] == i1.last());
                assert(i2[k] == i2.last());
            }
        }
        assert(i1 =~= i2);
    }
}

/// Distinct in-bounds indices address distinct column-major offsets.
pub proof fn lemma_col_major_injective(shape: Seq<usize>, i1: Seq<usize>, i2: Seq<usize>)
    requires
        in_bounds(shape, i1),
        in_bounds(shape, i2),
        col_major_spec(shape, i1) == col_major_spec(shape, i2),
    ensures
        i1 == i2,
    decreases shape.len(),
{
    if shape.len() == 0 {
        assert(i1 =~= i2);
    } else {
        let ds = shape.skip(1);
        let d1 = i1.skip(1);
        let d2 = i2.skip(1);
        assert(in_bounds(ds, d1));
        assert(in_bounds(ds, d2));
        lemma_col_major_in_range(ds, d1);
        lemma_col_major_in_range(ds, d2);
        let a1 = col_major_spec(ds, d1);
        let a2 = col_major_spec(ds, d2);
        assert(a1 == a2 && i1[0] == i2[0]) by (nonlinear_arith)
            requires
                a1 * shape[0] + i1[0] == a2 * shape[0] + i2[0],
                0 <= i1[0] < shape[0],
                0 <= i2[0] < shape[0],
                0 <= a1,
                0 <= a2,
        ;
        lemma_col_major_injective(ds, d1, d2);
        assert forall|k: int| 0 <= k < i1.len() implies i1[k] == i2[k] by {
            if k >= 1 {
                assert(i1[k] == d1[k - 1]);
                assert(i2[k] == d2[k - 1]);
            }
        }
        assert(i1 =~= i2);
    }
}

/// Distinct in-bounds indices address distinct offsets, under either order.
pub proof fn lemma_address_injective(order: Order, shape: Seq<usize>, i1: Seq<usize>, i2: Seq<usize>)
    requires
        in_bounds(shape, i1),
        in_bounds(shape, i2),
        address_spec(order, shape, i1) == address_spec(order, shape, i2),
    ensures
        i1 == i2,
{
    match order {
        Order::RowMajor => lemma_row_major_injective(shape, i1, i2),
        Order::ColumnMajor => lemma_col_major_injective(shape, i1, i2),
    }
}

/// Writing a buffer at the offset of one in-bounds index and reading it back
/// at the same index yields the written value, and the value readable at
/// every other in-bounds index is unchanged.
pub proof fn lemma_mutation_visibility<T>(
    order: Order,
    shape: Seq<usize>,
    buf: Seq<T>,
    i: Seq<usize>,
    j: Seq<usize>,
    v: T,
)
    requires
        buf.len() == product(shape),
        in_bounds(shape, i),
        in_bounds(shape, j),
    ensures
        buf.update(address_spec(order, shape, i), v)[address_spec(order, shape, i)] == v,
        i != j ==> buf.update(address_spec(order, shape, i), v)[address_spec(order, shape, j)]
            == buf[address_spec(order, shape, j)],
{
    lemma_address_in_range(order, shape, i);
    lemma_address_in_range(order, shape, j);
    if i != j && address_spec(order, shape, i) == address_spec(order, shape, j) {
        lemma_address_injective(order, shape, i, j);
        assert(false);
    }
}

/// `row_buf` laid out row-major and `col_buf` laid out column-major hold the
/// same logical array over `shape`: every in-bounds index denotes the same
/// element through either view.
pub open spec fn corresponding_layouts<T>(
    shape: Seq<usize>,
    row_buf: Seq<T>,
    col_buf: Seq<T>,
) -> bool {
    &&& row_buf.len() == product(shape)
    &&& col_buf.len() == product(shape)
    &&& forall|index: Seq<usize>|
        #[trigger] in_bounds(shape, index) ==> row_buf[row_major_spec(shape, index)] == col_buf[
            col_major_spec(shape, index)
        ]
}

/// Round trip across memory orders: over correspondingly permuted buffers, a
/// row-major view and a column-major view agree on the element of every
/// in-bounds index.
pub proof fn lemma_order_round_trip<T>(
    shape: Seq<usize>,
    row_buf: Seq<T>,
    col_buf: Seq<T>,
    index: Seq<usize>,
)
    requires
        corresponding_layouts(shape, row_buf, col_buf),
        in_bounds(shape, index),
    ensures
        row_buf[address_spec(Order::RowMajor, shape, index)] == col_buf[
            address_spec(Order::ColumnMajor, shape, index)
        ],
{
}

/// Every offset below the product of the shape's extents is the column-major
/// address of some in-bounds index.
pub proof fn lemma_col_major_surjective(shape: Seq<usize>, k: int)
    requires
        0 <= k < product(shape),
    ensures
        exists|index: Seq<usize>|
            in_bounds(shape, index) && col_major_spec(shape, index) == k,
    decreases shape.len(),
{
    if shape.len() == 0 {
        let w = Seq::<usize>::empty();
        assert(product(Seq::<usize>::empty()) == 1);
        assert(in_bounds(shape, w) && col_major_spec(shape, w) == k);
    } else {
        lemma_product_first(shape);
        let l = shape[0] as int;
        if l == 0 {
            assert(product(shape) == 0) by (nonlinear_arith)
                requires
                    product(shape) == shape[0] * product(shape.skip(1)),
                    shape[0] == 0,
            ;
            assert(false);
        }
        let q = k / l;
        let r = k % l;
        lemma_fundamental_div_mod(k, l);
        lemma_mod_pos_bound(k, l);
        assert(0 <= q && q < product(shape.skip(1))) by (nonlinear_arith)
            requires
                k == l * q + r,
                0 <= r < l,
                0 <= k,
                k < l * product(shape.skip(1)),
                l >= 1,
        ;
        lemma_col_major_surjective(shape.skip(1), q);
        let tail = choose|index: Seq<usize>|
            in_bounds(shape.skip(1), index) && col_major_spec(shape.skip(1), index) == q;
        let w = seq![r as usize].add(tail);
        assert(w.skip(1) =~= tail);
        assert(in_bounds(shape, w));
        assert(col_major_spec(shape, w) == q * l + r);
        assert(q * l == l * q) by (nonlinear_arith);
        assert(col_major_spec(shape, w) == k);
    }
}

/// For every buffer there is a correspondingly permuted buffer in the other
/// order: reinterpreting data across memory orders never loses an element.
pub proof fn lemma_corresponding_layout_exists<T>(shape: Seq<usize>, row_buf: Seq<T>)
    requires
        row_buf.len() == product(shape),
    ensures
        exists|col_buf: Seq<T>| corresponding_layouts(shape, row_buf, col_buf),
{
    let col_buf = Seq::new(
        product(shape) as nat,
        |k: int|
            row_buf[row_major_spec(
                shape,
                choose|index: Seq<usize>|
                    in_bounds(shape, index) && col_major_spec(shape, index) == k,
            )],
    );
    assert forall|index: Seq<usize>| #[trigger] in_bounds(shape, index) implies row_buf[
        row_major_spec(shape, index)
    ] == col_buf[col_major_spec(shape, index)] by {
        lemma_col_major_in_range(shape, index);
        let k = col_major_spec(shape, index);
        let w = choose|index: Seq<usize>|
            in_bounds(shape, index) && col_major_spec(shape, index) == k;
        lemma_col_major_surjective(shape, k);
        lemma_col_major_injective(shape, w, index);
    }
    assert(corresponding_layouts(shape, row_buf, col_buf));
}

} // verus!
