use vstd::prelude::*;
use crate::tensor::shape::{compute_layout, contig_strides, layout_ok, shape_product,
    suffix_product, valid_dims, lemma_positive_product_positive_dims, lemma_product_nonneg,
    lemma_suffix_le_product, lemma_suffix_nonneg, lemma_suffix_step};
use vstd::slice::slice_to_vec;

verus! {

// Numpy-style shape broadcasting: two shapes are aligned at their trailing
// dimension; aligned dimensions are compatible when they are equal or one
// of them is 1, and a missing leading dimension counts as 1.

/// The dimension of `s` at position `i` counted from the back, with missing
/// leading dimensions read as 1.
pub open spec fn back_dim(s: Seq<i64>, i: int) -> i64 {
    if 0 <= i < s.len() {
        s[s.len() - 1 - i]
    } else {
        1
    }
}

pub open spec fn max_dims(a: Seq<i64>, b: Seq<i64>) -> int {
    if a.len() >= b.len() {
        a.len() as int
    } else {
        b.len() as int
    }
}

/// Whether the two shapes broadcast against each other.
pub open spec fn compatible(a: Seq<i64>, b: Seq<i64>) -> bool {
    forall|i: int|
        0 <= i < max_dims(a, b) ==> (#[trigger] back_dim(a, i) == back_dim(b, i) || back_dim(a, i)
            == 1 || back_dim(b, i) == 1)
}

/// The common shape two compatible shapes broadcast to: elementwise maximum
/// after aligning at the trailing dimension.
pub open spec fn broadcast_shape(a: Seq<i64>, b: Seq<i64>) -> Seq<i64> {
    Seq::new(
        max_dims(a, b) as nat,
        |j: int|
            {
                let i = max_dims(a, b) - 1 - j;
                if back_dim(a, i) >= back_dim(b, i) {
                    back_dim(a, i)
                } else {
                    back_dim(b, i)
                }
            },
    )
}

/// Broadcast compatibility does not depend on the order of the shapes.
///
/// This is the symmetry law of `is_broadcastable`: swapping the operands
/// changes neither whether they broadcast nor the shape they broadcast to.
pub proof fn lemma_broadcast_symmetric(a: Seq<i64>, b: Seq<i64>)
    ensures
        compatible(a, b) == compatible(b, a),
        broadcast_shape(a, b) == broadcast_shape(b, a),
{
    assert(max_dims(a, b) == max_dims(b, a));
    if compatible(a, b) {
        assert forall|i: int|
            0 <= i < max_dims(b, a) implies (#[trigger] back_dim(b, i) == back_dim(a, i)
            || back_dim(b, i) == 1 || back_dim(a, i) == 1) by {
            assert(back_dim(a, i) == back_dim(b, i) || back_dim(a, i) == 1 || back_dim(b, i) == 1);
        }
    }
    if compatible(b, a) {
        assert forall|i: int|
            0 <= i < max_dims(a, b) implies (#[trigger] back_dim(a, i) == back_dim(b, i)
            || back_dim(a, i) == 1 || back_dim(b, i) == 1) by {
            assert(back_dim(b, i) == back_dim(a, i) || back_dim(b, i) == 1 || back_dim(a, i) == 1);
        }
    }
    assert(broadcast_shape(a, b) =~= broadcast_shape(b, a));
}

/// Tests whether two shapes broadcast against each other.
pub fn is_broadcastable(shape1: &[i64], shape2: &[i64]) -> (r: bool)
    ensures
        r == compatible(shape1@, shape2@),
{
    let l1 = shape1.len();
    let l2 = shape2.len();
    let m = if l1 >= l2 {
        l1
    } else {
        l2
    };
    let mut i: usize = 0;
    while i < m
        invariant
            l1 == shape1@.len(),
            l2 == shape2@.len(),
            m == max_dims(shape1@, shape2@),
            i <= m,
            forall|j: int|
                0 <= j < i ==> (#[trigger] back_dim(shape1@, j) == back_dim(shape2@, j) || back_dim(
                    shape1@,
                    j,
                ) == 1 || back_dim(shape2@, j) == 1),
        decreases m - i,
    {
        let dim1 = if i < l1 {
            shape1[l1 - 1 - i]
        } else {
            1
        };
        let dim2 = if i < l2 {
            shape2[l2 - 1 - i]
        } else {
            1
        };
        if dim1 != dim2 && dim1 != 1 && dim2 != 1 {
            proof {
                assert(back_dim(shape1@, i as int) == dim1);
                assert(back_dim(shape2@, i as int) == dim2);
                assert(!(back_dim(shape1@, i as int) == back_dim(shape2@, i as int) || back_dim(
                    shape1@,
                    i as int,
                ) == 1 || back_dim(shape2@, i as int) == 1));
            }
            return false;
        }
        i += 1;
    }
    true
}

/// Computes the broadcast result shape, or fails when the shapes are not
/// compatible.
pub fn broadcast_shapes(shape1: &[i64], shape2: &[i64]) -> (r: Result<Vec<i64>, String>)
    ensures
        r is Ok <==> compatible(shape1@, shape2@),
        r matches Ok(v) ==> v@ == broadcast_shape(shape1@, shape2@),
{
    if !is_broadcastable(shape1, shape2) {
        return Err("Shapes are not broadcastable".to_owned());
    }
    let l1 = shape1.len();
    let l2 = shape2.len();
    let m = if l1 >= l2 {
        l1
    } else {
        l2
    };
    let mut result: Vec<i64> = Vec::new();
    let mut j: usize = 0;
    while j < m
        invariant
            l1 == shape1@.len(),
            l2 == shape2@.len(),
            m == max_dims(shape1@, shape2@),
            j <= m,
            result@.len() == j,
            forall|k: int| 0 <= k < j ==> result@[k] == broadcast_shape(shape1@, shape2@)[k],
        decreases m - j,
    {
        let i = m - 1 - j;
        let dim1 = if i < l1 {
            shape1[l1 - 1 - i]
        } else {
            1
        };
        let dim2 = if i < l2 {
            shape2[l2 - 1 - i]
        } else {
            1
        };
        let d = if dim1 >= dim2 {
            dim1
        } else {
            dim2
        };
        result.push(d);
        j += 1;
    }
    proof {
        assert(result@ =~= broadcast_shape(shape1@, shape2@));
    }
    Ok(result)
}

/// The flat index into the source data that feeds output position `i` when
/// materializing a broadcast from `from` to `to`: the output index is
/// decomposed into per-dimension coordinates against `to`'s contiguous
/// strides, and each coordinate is mapped back to the source (clamped to 0
/// on broadcast dimensions of size 1) and recombined with the source
/// strides.
pub open spec fn bcast_rec(from: Seq<i64>, to: Seq<i64>, d: int, rem: int) -> int
    decreases to.len() - d,
{
    if d < 0 || d >= to.len() {
        0
    } else {
        let stride = suffix_product(to, d + 1);
        let coord = rem / stride;
        let rem2 = rem % stride;
        let off = to.len() - from.len();
        let part_sum = if d >= off && from[d - off] != 1 {
            coord * suffix_product(from, d - off + 1)
        } else {
            0
        };
        part_sum + bcast_rec(from, to, d + 1, rem2)
    }
}

pub open spec fn bcast_src_index(from: Seq<i64>, to: Seq<i64>, i: int) -> int {
    bcast_rec(from, to, 0, i)
}

pub proof fn lemma_bcast_rec_nonneg(from: Seq<i64>, to: Seq<i64>, d: int, rem: int)
    requires
        valid_dims(from),
        valid_dims(to),
        forall|i: int| 0 <= i < to.len() ==> to[i] >= 1,
        0 <= rem,
        0 <= d,
    ensures
        0 <= bcast_rec(from, to, d, rem),
    decreases to.len() - d,
{
    if d < to.len() {
        let stride = suffix_product(to, d + 1);
        assert(stride >= 1) by {
            lemma_suffix_le_product(to, d + 1);
        }
        let coord = rem / stride;
        let rem2 = rem % stride;
        assert(coord >= 0 && rem2 >= 0) by (nonlinear_arith)
            requires
                rem >= 0,
                stride >= 1,
                coord == rem / stride,
                rem2 == rem % stride,
        ;
        let off = to.len() - from.len();
        if d >= off && 0 <= d - off < from.len() && from[d - off] != 1 {
            lemma_suffix_nonneg(from, d - off + 1);
            let sp = suffix_product(from, d - off + 1);
            assert(coord * sp >= 0) by (nonlinear_arith)
                requires
                    coord >= 0,
                    sp >= 0,
            ;
        }
        lemma_bcast_rec_nonneg(from, to, d + 1, rem2);
    }
}

/// When the shapes are compatible and the source holds one value per source
/// element, every computed source index is in bounds.
pub proof fn lemma_bcast_rec_bound(from: Seq<i64>, to: Seq<i64>, d: int, rem: int)
    requires
        compatible(from, to),
        from.len() <= to.len(),
        valid_dims(from),
        valid_dims(to),
        forall|i: int| 0 <= i < to.len() ==> to[i] >= 1,
        forall|i: int| 0 <= i < from.len() ==> from[i] >= 1,
        0 <= d <= to.len(),
        0 <= rem < suffix_product(to, d),
    ensures
        bcast_rec(from, to, d, rem) <= (if d >= to.len() - from.len() {
            suffix_product(from, d - (to.len() - from.len()))
        } else {
            shape_product(from)
        }) - 1,
    decreases to.len() - d,
{
    let off = to.len() - from.len();
    if d >= to.len() {
        assert(from.skip(from.len() as int) =~= Seq::<i64>::empty());
        assert(suffix_product(from, from.len() as int) == 1);
    } else {
        let stride = suffix_product(to, d + 1);
        assert(stride >= 1) by {
            lemma_suffix_le_product(to, d + 1);
        }
        let coord = rem / stride;
        let rem2 = rem % stride;
        lemma_suffix_step(to, d);
        assert(suffix_product(to, d) == to[d] * stride);
        assert(0 <= coord < to[d] && 0 <= rem2 < stride) by (nonlinear_arith)
            requires
                0 <= rem < to[d] * stride,
                stride >= 1,
                to[d] >= 1,
                coord == rem / stride,
                rem2 == rem % stride,
        ;
        lemma_bcast_rec_bound(from, to, d + 1, rem2);
        let tail = bcast_rec(from, to, d + 1, rem2);
        if d >= off {
            let fd = d - off;
            assert(back_dim(to, to.len() - 1 - d) == to[d]);
            assert(back_dim(from, to.len() - 1 - d) == from[fd]);
            assert(to[d] == from[fd] || to[d] == 1 || from[fd] == 1) by {
                let i = to.len() - 1 - d;
                assert(0 <= i < max_dims(from, to));
                assert(back_dim(from, i) == back_dim(to, i) || back_dim(from, i) == 1 || back_dim(
                    to,
                    i,
                ) == 1);
            }
            let sp = suffix_product(from, fd + 1);
            lemma_suffix_step(from, fd);
            assert(suffix_product(from, fd) == from[fd] * sp);
            lemma_suffix_le_product(from, fd + 1);
            assert(sp >= 1);
            assert(tail <= sp - 1);
            if from[fd] != 1 {
                assert(coord < from[fd]) by {
                    if to[d] == 1 {
                        assert(coord < 1);
                        assert(from[fd] >= 1);
                    }
                }
                lemma_bcast_rec_nonneg(from, to, d + 1, rem2);
                let part_sum = coord * sp;
                assert(part_sum + tail <= from[fd] * sp - 1) by (nonlinear_arith)
                    requires
                        0 <= coord < from[fd],
                        sp >= 1,
                        tail <= sp - 1,
                        0 <= tail,
                        part_sum == coord * sp,
                ;
            } else {
                assert(suffix_product(from, fd) == 1 * sp);
                assert(1 * sp == sp) by (nonlinear_arith);
                assert(tail <= suffix_product(from, fd) - 1);
            }
        } else {
            assert(tail <= (if d + 1 >= off {
                suffix_product(from, d + 1 - off)
            } else {
                shape_product(from)
            }) - 1);
            if d + 1 >= off {
                assert(d + 1 == off);
                assert(from.skip(0) =~= from);
                assert(suffix_product(from, 0) == shape_product(from));
            }
        }
    }
}

/// Every source index of a broadcast between compatible shapes with at
/// least one element lies inside the source data.
pub proof fn lemma_bcast_src_bound(from: Seq<i64>, to: Seq<i64>, i: int)
    requires
        compatible(from, to),
        from.len() <= to.len(),
        valid_dims(from),
        valid_dims(to),
        shape_product(from) >= 1,
        shape_product(to) >= 1,
        0 <= i < shape_product(to),
    ensures
        0 <= bcast_src_index(from, to, i) < shape_product(from),
{
    lemma_positive_product_positive_dims(from);
    lemma_positive_product_positive_dims(to);
    assert(to.skip(0) =~= to);
    assert(suffix_product(to, 0) == shape_product(to));
    lemma_bcast_rec_bound(from, to, 0, i);
    lemma_bcast_rec_nonneg(from, to, 0, i);
    if 0 >= to.len() - from.len() {
        assert(from.len() == to.len());
        assert(from.skip(0) =~= from);
    }
}

/// Each operand of a broadcast is itself compatible with the common result
/// shape, which is no shorter than either operand and has valid dimensions
/// whenever the operands do.
pub proof fn lemma_operand_compatible(a: Seq<i64>, b: Seq<i64>)
    requires
        compatible(a, b),
    ensures
        compatible(a, broadcast_shape(a, b)),
        compatible(b, broadcast_shape(a, b)),
        a.len() <= broadcast_shape(a, b).len(),
        b.len() <= broadcast_shape(a, b).len(),
        valid_dims(a) && valid_dims(b) ==> valid_dims(broadcast_shape(a, b)),
{
    let rs = broadcast_shape(a, b);
    let m = max_dims(a, b);
    assert(rs.len() == m);
    assert forall|i: int| 0 <= i < m implies #[trigger] back_dim(rs, i) == (if back_dim(a, i)
        >= back_dim(b, i) {
        back_dim(a, i)
    } else {
        back_dim(b, i)
    }) by {
        assert(rs[m - 1 - i] == (if back_dim(a, i) >= back_dim(b, i) {
            back_dim(a, i)
        } else {
            back_dim(b, i)
        }));
    }
    assert forall|i: int| 0 <= i < max_dims(a, rs) implies (#[trigger] back_dim(a, i) == back_dim(
        rs,
        i,
    ) || back_dim(a, i) == 1 || back_dim(rs, i) == 1) by {
        assert(back_dim(a, i) == back_dim(b, i) || back_dim(a, i) == 1 || back_dim(b, i) == 1);
    }
    assert forall|i: int| 0 <= i < max_dims(b, rs) implies (#[trigger] back_dim(b, i) == back_dim(
        rs,
        i,
    ) || back_dim(b, i) == 1 || back_dim(rs, i) == 1) by {
        assert(back_dim(a, i) == back_dim(b, i) || back_dim(a, i) == 1 || back_dim(b, i) == 1);
    }
    if valid_dims(a) && valid_dims(b) {
        assert forall|j: int| 0 <= j < rs.len() implies rs[j] >= 0 by {
            let i = m - 1 - j;
            assert(back_dim(a, i) >= 0);
            assert(back_dim(b, i) >= 0);
        }
    }
}

/// Whether a broadcast materialization from `from` to `to` over `data_len`
/// source values succeeds: both shapes must be representable, the source no
/// longer than the target, the target element count addressable, and every
/// computed source index in bounds.
pub open spec fn broadcast_data_ok(from: Seq<i64>, to: Seq<i64>, data_len: int) -> bool {
    &&& from.len() <= to.len()
    &&& layout_ok(from)
    &&& layout_ok(to)
    &&& shape_product(to) <= usize::MAX
    &&& forall|i: int|
        0 <= i < shape_product(to) ==> 0 <= #[trigger] bcast_src_index(from, to, i) < data_len
}

fn slices_equal(a: &[i64], b: &[i64]) -> (r: bool)
    ensures
        r == (a@ == b@),
{
    if a.len() != b.len() {
        proof {
            assert(a@.len() != b@.len());
        }
        return false;
    }
    let n = a.len();
    let mut i: usize = 0;
    while i < n
        invariant
            n == a@.len(),
            n == b@.len(),
            i <= n,
            forall|j: int| 0 <= j < i ==> a@[j] == b@[j],
        decreases n - i,
    {
        if a[i] != b[i] {
            return false;
        }
        i += 1;
    }
    proof {
        assert(a@ =~= b@);
    }
    true
}

/// Materializes a full dense buffer of the broadcast target shape by
/// mapping every output position back to its source element. When the
/// shapes are identical the data is returned unchanged; otherwise it fails
/// exactly when the shapes cannot address the data (see
/// `broadcast_data_ok`).
pub fn broadcast_tensor_data<T: Copy>(data: &[T], from_shape: &[i64], to_shape: &[i64]) -> (r:
    Result<Vec<T>, String>)
    ensures
        from_shape@ == to_shape@ ==> (r matches Ok(v) && v@ == data@),
        from_shape@ != to_shape@ ==> {
            &&& (r is Ok <==> broadcast_data_ok(from_shape@, to_shape@, data@.len() as int))
            &&& (r matches Ok(v) ==> v@ == Seq::new(
                shape_product(to_shape@) as nat,
                |i: int| data@[bcast_src_index(from_shape@, to_shape@, i)],
            ))
        },
{
    if slices_equal(from_shape, to_shape) {
        return Ok(slice_to_vec(data));
    }
    if from_shape.len() > to_shape.len() {
        return Err("Index out of bounds during broadcasting".to_owned());
    }
    let from_vec = slice_to_vec(from_shape);
    let to_vec = slice_to_vec(to_shape);
    let (from_strides, _numel_from) = match compute_layout(&from_vec) {
        None => {
            return Err("Index out of bounds during broadcasting".to_owned());
        },
        Some(p) => p,
    };
    let (to_strides, numel_to) = match compute_layout(&to_vec) {
        None => {
            return Err("Index out of bounds during broadcasting".to_owned());
        },
        Some(p) => p,
    };
    if from_shape.len() as u64 > 0x7fff_ffff_ffff_ffffu64
        || to_shape.len() as u64 > 0x7fff_ffff_ffff_ffffu64 {
        return Err("Index out of bounds during broadcasting".to_owned());
    }
    proof {
        lemma_product_nonneg(to_shape@);
        lemma_product_nonneg(from_shape@);
    }
    if numel_to as u64 > usize::MAX as u64 {
        return Err("Index out of bounds during broadcasting".to_owned());
    }
    let total = numel_to as usize;
    let data_len = data.len();
    let dims = to_shape.len();
    let off_dims = dims - from_shape.len();
    let mut result: Vec<T> = Vec::new();
    let ghost fromv = from_shape@;
    let ghost tov = to_shape@;
    proof {
        if total > 0 {
            lemma_positive_product_positive_dims(tov);
        }
    }
    let mut i: usize = 0;
    while i < total
        invariant
            fromv == from_shape@,
            tov == to_shape@,
            fromv != tov,
            valid_dims(fromv),
            valid_dims(tov),
            layout_ok(fromv),
            layout_ok(tov),
            fromv.len() <= tov.len(),
            dims == tov.len(),
            off_dims == tov.len() - fromv.len(),
            total == shape_product(tov),
            total <= usize::MAX,
            data_len == data@.len(),
            from_strides@ == contig_strides(fromv),
            to_strides@ == contig_strides(tov),
            total >= 1 ==> forall|k: int| 0 <= k < tov.len() ==> tov[k] >= 1,
            i <= total,
            result@.len() == i,
            forall|j: int|
                0 <= j < i ==> 0 <= #[trigger] bcast_src_index(fromv, tov, j) < data_len,
            forall|j: int|
                0 <= j < i ==> #[trigger] result@[j] == data@[bcast_src_index(fromv, tov, j)],
        decreases total - i,
    {
        let mut from_idx: u64 = 0;
        let mut temp: i64 = i as i64;
        let mut d: usize = 0;
        proof {
            assert(tov.skip(0) =~= tov);
            assert(suffix_product(tov, 0) == shape_product(tov));
        }
        while d < dims
            invariant
                fromv == from_shape@,
                tov == to_shape@,
                fromv != tov,
                valid_dims(fromv),
                valid_dims(tov),
                layout_ok(fromv),
                layout_ok(tov),
                fromv.len() <= tov.len(),
                dims == tov.len(),
                off_dims == tov.len() - fromv.len(),
                total == shape_product(tov),
                total <= usize::MAX,
                i < total,
                data_len == data@.len(),
                from_strides@ == contig_strides(fromv),
                to_strides@ == contig_strides(tov),
                forall|k: int| 0 <= k < tov.len() ==> tov[k] >= 1,
                0 <= d <= dims,
                0 <= temp,
                from_idx as int + bcast_rec(fromv, tov, d as int, temp as int) == bcast_src_index(
                    fromv,
                    tov,
                    i as int,
                ),
            decreases dims - d,
        {
            let ghost pre_rec = bcast_rec(fromv, tov, d as int, temp as int);
            let stride = to_strides[d];
            proof {
                assert(contig_strides(tov)[d as int] == suffix_product(tov, d + 1) as i64);
                lemma_suffix_le_product(tov, d + 1);
                assert(suffix_product(tov, d + 1) >= 1);
                assert(stride >= 1);
            }
            let coord = temp / stride;
            let rem2 = temp % stride;
            proof {
                assert(coord >= 0 && 0 <= rem2) by (nonlinear_arith)
                    requires
                        temp >= 0,
                        stride >= 1,
                        coord == temp as int / stride as int,
                        rem2 == temp as int % stride as int,
                ;
            }
            if d >= off_dims {
                let fd = d - off_dims;
                if from_shape[fd] != 1 {
                    let fs = from_strides[fd];
                    proof {
                        assert(contig_strides(fromv)[fd as int] == suffix_product(
                            fromv,
                            fd + 1,
                        ) as i64);
                        lemma_suffix_nonneg(fromv, fd + 1);
                        assert(fs >= 0);
                        lemma_bcast_rec_nonneg(fromv, tov, d + 1, rem2 as int);
                        assert(pre_rec == coord * fs + bcast_rec(fromv, tov, d + 1, rem2 as int));
                    }
                    let term = match (coord as u64).checked_mul(fs as u64) {
                        None => {
                            proof {
                                let rest = bcast_rec(fromv, tov, d + 1, rem2 as int);
                                assert((coord as u64) as int == coord as int);
                                assert((fs as u64) as int == fs as int);
                                assert(coord as int * fs as int > u64::MAX);
                                assert(rest >= 0);
                                assert(pre_rec == coord as int * fs as int + rest);
                                assert(bcast_src_index(fromv, tov, i as int) == from_idx as int
                                    + pre_rec);
                                assert(bcast_src_index(fromv, tov, i as int) > u64::MAX);
                                assert(data@.len() <= usize::MAX <= u64::MAX);
                                assert(broadcast_data_ok(fromv, tov, data@.len() as int)
                                    ==> bcast_src_index(fromv, tov, i as int) < data@.len());
                                assert(!broadcast_data_ok(fromv, tov, data@.len() as int));
                            }
                            return Err("Index out of bounds during broadcasting".to_owned());
                        },
                        Some(t) => t,
                    };
                    let new_idx = match from_idx.checked_add(term) {
                        None => {
                            proof {
                                let rest = bcast_rec(fromv, tov, d + 1, rem2 as int);
                                assert((coord as u64) as int == coord as int);
                                assert((fs as u64) as int == fs as int);
                                assert(term as int == coord as int * fs as int);
                                assert(rest >= 0);
                                assert(pre_rec == coord as int * fs as int + rest);
                                assert(from_idx as int + term as int > u64::MAX);
                                assert(bcast_src_index(fromv, tov, i as int) == from_idx as int
                                    + pre_rec);
                                assert(bcast_src_index(fromv, tov, i as int) > u64::MAX);
                                assert(data@.len() <= usize::MAX <= u64::MAX);
                                assert(broadcast_data_ok(fromv, tov, data@.len() as int)
                                    ==> bcast_src_index(fromv, tov, i as int) < data@.len());
                                assert(!broadcast_data_ok(fromv, tov, data@.len() as int));
                            }
                            return Err("Index out of bounds during broadcasting".to_owned());
                        },
                        Some(v) => v,
                    };
                    from_idx = new_idx;
                } else {
                    proof {
                        assert(pre_rec == 0 + bcast_rec(fromv, tov, d + 1, rem2 as int));
                    }
                }
            } else {
                proof {
                    assert(pre_rec == 0 + bcast_rec(fromv, tov, d + 1, rem2 as int));
                }
            }
            temp = rem2;
            d += 1;
        }
        proof {
            assert(bcast_rec(fromv, tov, dims as int, temp as int) == 0);
            assert(from_idx as int == bcast_src_index(fromv, tov, i as int));
        }
        if from_idx < data_len as u64 {
            result.push(data[from_idx as usize]);
        } else {
            proof {
                assert(broadcast_data_ok(fromv, tov, data@.len() as int) ==> bcast_src_index(
                    fromv,
                    tov,
                    i as int,
                ) < data@.len());
                assert(!broadcast_data_ok(fromv, tov, data@.len() as int));
            }
            return Err("Index out of bounds during broadcasting".to_owned());
        }
        i += 1;
    }
    proof {
        assert(result@ =~= Seq::new(
            shape_product(tov) as nat,
            |j: int| data@[bcast_src_index(fromv, tov, j)],
        ));
        assert(broadcast_data_ok(fromv, tov, data@.len() as int));
    }
    Ok(result)
}

/// Whether one operand can be brought to the broadcast result shape: a
/// tensor already of that shape only needs a storage to deep-copy, and any
/// other must be readable Float32 data materializable into an allocatable
/// result.
pub open spec fn materialize_ok(t: crate::tensor::tensor::Tensor, rs: Seq<i64>) -> bool {
    if t.spec_shape() == rs {
        t.impl_ matches Some(ti) && ti.spec_storage() is Some
    } else {
        &&& t.spec_readable_f32()
        &&& shape_product(rs) >= 1
        &&& shape_product(rs) * 4 <= usize::MAX
        &&& broadcast_data_ok(t.spec_shape(), rs, t.spec_numel() as int)
    }
}

/// Brings one operand to the result shape: an operand already of that
/// shape is deep-copied unchanged; any other is materialized into a dense
/// Float32 tensor of the result shape.
fn materialize_operand(t: &crate::tensor::tensor::Tensor, rs: &Vec<i64>) -> (r: Result<
    crate::tensor::tensor::Tensor,
    String,
>)
    requires
        t.wf(),
    ensures
        r is Ok <==> materialize_ok(*t, rs@),
        r matches Ok(out) ==> out.wf() && (if t.spec_shape() == rs@ {
            out.impl_ matches Some(ti) && t.impl_ matches Some(oi) && ti.spec_shape()
                == t.spec_shape() && ti.spec_storage() == oi.spec_storage() && ti.spec_offset()
                == oi.spec_offset() && ti.spec_numel() == oi.spec_numel() && ti.spec_options()
                == oi.spec_options() && crate::tensor::tensor::f32_data(*ti)
                == crate::tensor::tensor::f32_data(*oi)
        } else {
            out.impl_ matches Some(ti) && ti.spec_shape() == rs@
                && crate::tensor::tensor::readable_f32(*ti) && crate::tensor::tensor::f32_data(*ti)
                == crate::tensor::tensor::bcast_to(t.spec_f32_data(), t.spec_shape(), rs@)
        }),
{
    let ti: &crate::tensor::tensor_impl::TensorImpl = match &t.impl_ {
        None => {
            return Err("Cannot broadcast undefined tensors".to_owned());
        },
        Some(rc) => rc,
    };
    let sa = ti.shape();
    if slices_equal(sa.as_slice(), rs.as_slice()) {
        let c = t.clone();
        if c.defined() {
            return Ok(c);
        } else {
            return Err("Failed to create broadcasted tensor".to_owned());
        }
    }
    let va = match ti.to_list::<u32>() {
        Err(_) => {
            return Err("Failed to create broadcasted tensor".to_owned());
        },
        Ok(v) => v,
    };
    proof {
        crate::tensor::tensor::lemma_f32_list(va@, ti);
        lemma_product_nonneg(ti.spec_shape());
    }
    let da = match broadcast_tensor_data(va.as_slice(), sa.as_slice(), rs.as_slice()) {
        Err(e) => {
            return Err("Failed to create broadcasted tensor".to_owned());
        },
        Ok(v) => v,
    };
    proof {
        if layout_ok(rs@) {
            lemma_product_nonneg(rs@);
        }
    }
    let options = crate::tensor::options::Options::default();
    match crate::tensor::tensor_impl::TensorImpl::new_from_data(
        da.as_slice(),
        rs.as_slice(),
        options,
    ) {
        Ok(impl_) => {
            proof {
                crate::tensor::tensor::lemma_f32_data_of_elems(&impl_, da@);
                if ti.spec_shape() != rs@ {
                    assert(0 <= bcast_src_index(ti.spec_shape(), rs@, 0) < va@.len());
                }
            }
            Ok(crate::tensor::tensor::Tensor { impl_: Some(std::rc::Rc::new(impl_)) })
        },
        Err(_) => Err("Failed to create broadcasted tensor".to_owned()),
    }
}

/// Brings two tensors to their common broadcast shape: each operand whose
/// shape already equals the result shape is deep-copied unchanged, and any
/// other is re-materialized. Fails on undefined operands, incompatible
/// shapes, or an operand that cannot be materialized.
pub fn broadcast_tensors(tensor1: &crate::tensor::tensor::Tensor, tensor2: &crate::tensor::tensor::Tensor) -> (r:
    Result<(crate::tensor::tensor::Tensor, crate::tensor::tensor::Tensor), String>)
    requires
        tensor1.wf(),
        tensor2.wf(),
    ensures
        ({
            let rs = broadcast_shape(tensor1.spec_shape(), tensor2.spec_shape());
            &&& (r is Ok <==> tensor1.impl_ is Some && tensor2.impl_ is Some && compatible(
                tensor1.spec_shape(),
                tensor2.spec_shape(),
            ) && materialize_ok(*tensor1, rs) && materialize_ok(*tensor2, rs))
            &&& (r matches Ok(p) ==> p.0.wf() && p.1.wf() && (p.0.impl_ matches Some(a)
                && (if tensor1.spec_shape() == rs {
                tensor1.impl_ matches Some(o1) && a.spec_shape() == tensor1.spec_shape()
                    && a.spec_storage() == o1.spec_storage() && a.spec_offset()
                    == o1.spec_offset() && a.spec_numel() == o1.spec_numel()
                    && crate::tensor::tensor::f32_data(*a) == tensor1.spec_f32_data()
            } else {
                a.spec_shape() == rs && crate::tensor::tensor::f32_data(*a)
                    == crate::tensor::tensor::bcast_to(
                    tensor1.spec_f32_data(),
                    tensor1.spec_shape(),
                    rs,
                )
            })) && (p.1.impl_ matches Some(b) && (if tensor2.spec_shape() == rs {
                tensor2.impl_ matches Some(o2) && b.spec_shape() == tensor2.spec_shape()
                    && b.spec_storage() == o2.spec_storage() && b.spec_offset()
                    == o2.spec_offset() && b.spec_numel() == o2.spec_numel()
                    && crate::tensor::tensor::f32_data(*b) == tensor2.spec_f32_data()
            } else {
                b.spec_shape() == rs && crate::tensor::tensor::f32_data(*b)
                    == crate::tensor::tensor::bcast_to(
                    tensor2.spec_f32_data(),
                    tensor2.spec_shape(),
                    rs,
                )
            })))
        }),
{
    if !tensor1.defined() || !tensor2.defined() {
        return Err("Cannot broadcast undefined tensors".to_owned());
    }
    let shape1 = tensor1.shape();
    let shape2 = tensor2.shape();
    let result_shape = match broadcast_shapes(shape1.as_slice(), shape2.as_slice()) {
        Err(e) => {
            return Err(e);
        },
        Ok(v) => v,
    };
    let broadcasted1 = match materialize_operand(tensor1, &result_shape) {
        Err(e) => {
            return Err(e);
        },
        Ok(v) => v,
    };
    let broadcasted2 = match materialize_operand(tensor2, &result_shape) {
        Err(e) => {
            return Err(e);
        },
        Ok(v) => v,
    };
    Ok((broadcasted1, broadcasted2))
}

/// Materializing a broadcast of one row of three values into two rows
/// repeats the row: every output position reads source position `i % 3`,
/// so the result is the data followed by itself.
pub proof fn lemma_broadcast_row_repeats(data: Seq<u32>)
    requires
        data.len() == 3,
    ensures
        Seq::new(
            shape_product(seq![2i64, 3i64]) as nat,
            |i: int| data[bcast_src_index(seq![1i64, 3i64], seq![2i64, 3i64], i)],
        ) == data + data,
{
    let from = seq![1i64, 3i64];
    let to = seq![2i64, 3i64];
    assert(to.skip(2) =~= Seq::<i64>::empty());
    assert(to.skip(1) =~= seq![3i64]);
    assert(to.skip(0) =~= to);
    assert(seq![3i64].drop_first() =~= Seq::<i64>::empty());
    assert(shape_product(seq![3i64]) == 3i64 * shape_product(Seq::<i64>::empty()));
    assert(3i64 * 1 == 3) by (nonlinear_arith);
    assert(suffix_product(to, 1) == 3);
    assert(suffix_product(to, 2) == 1);
    assert(to.drop_first() =~= seq![3i64]);
    assert(shape_product(to) == 2i64 * 3);
    assert(from.skip(2) =~= Seq::<i64>::empty());
    assert(suffix_product(from, 2) == 1);
    assert forall|i: int| 0 <= i < 6 implies #[trigger] bcast_src_index(from, to, i) == i % 3 by {
        let r1 = i % 3;
        assert(0 <= r1 < 3) by (nonlinear_arith)
            requires
                0 <= i,
                r1 == i % 3,
        ;
        assert(bcast_src_index(from, to, i) == 0 + bcast_rec(from, to, 1, r1));
        assert(r1 / 1 == r1 && r1 % 1 == 0) by (nonlinear_arith)
            requires
                0 <= r1,
        ;
        assert(bcast_rec(from, to, 2, 0) == 0);
        assert(bcast_rec(from, to, 1, r1) == r1 * 1 + bcast_rec(from, to, 2, 0));
        assert(r1 * 1 == r1) by (nonlinear_arith);
    }
    assert forall|i: int| 0 <= i < 6 implies (#[trigger] (data + data)[i]) == data[i % 3] by {
        if i < 3 {
            assert(i % 3 == i) by (nonlinear_arith)
                requires
                    0 <= i < 3,
            ;
        } else {
            assert(i % 3 == i - 3) by (nonlinear_arith)
                requires
                    3 <= i < 6,
            ;
        }
    }
    assert(Seq::new(
        shape_product(seq![2i64, 3i64]) as nat,
        |i: int| data[bcast_src_index(seq![1i64, 3i64], seq![2i64, 3i64], i)],
    ) =~= data + data);
}

} // verus!
