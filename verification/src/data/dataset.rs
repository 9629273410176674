use vstd::prelude::*;
use std::rc::Rc;
use crate::tensor::Tensor;
use crate::tensor::options::Options;
use crate::tensor::scalar::Scalar;
use crate::tensor::shape::{shape_product, suffix_product};
use crate::tensor::tensor_impl::TensorImpl;

verus! {

/// A source of (features, target) samples addressed by index.
pub trait Dataset: Sized {
    /// The implementation's internal consistency condition; every method
    /// expects it.
    spec fn inv(&self) -> bool;

    /// The number of samples.
    spec fn spec_len(&self) -> usize;

    /// Whether `get_item` yields a sample at this index.
    spec fn spec_item_defined(&self, index: int) -> bool;

    /// The feature tensor's shape at this index.
    spec fn spec_feature_shape(&self, index: int) -> Seq<i64>;

    /// Whether the feature tensor's Float32 data can be read out.
    spec fn spec_feature_readable(&self, index: int) -> bool;

    /// The feature tensor's Float32 data at this index.
    spec fn spec_feature_data(&self, index: int) -> Seq<u32>;

    /// The target tensor's shape at this index.
    spec fn spec_target_shape(&self, index: int) -> Seq<i64>;

    /// Whether the target tensor's Float32 data can be read out.
    spec fn spec_target_readable(&self, index: int) -> bool;

    /// The target tensor's Float32 data at this index.
    spec fn spec_target_data(&self, index: int) -> Seq<u32>;

    fn len(&self) -> (r: usize)
        requires
            self.inv(),
        ensures
            r == self.spec_len(),
    ;

    /// The sample at `index`, or nothing when the index is out of range or
    /// the sample cannot be assembled.
    fn get_item(&self, index: usize) -> (r: Option<(Tensor, Tensor)>)
        requires
            self.inv(),
        ensures
            r matches Some(p) ==> p.0.wf() && p.1.wf(),
            index >= self.spec_len() ==> r is None,
            r is Some <==> self.spec_item_defined(index as int),
            r matches Some(p) ==> {
                &&& p.0.spec_shape() == self.spec_feature_shape(index as int)
                &&& p.0.spec_readable_f32() == self.spec_feature_readable(index as int)
                &&& (p.0.spec_readable_f32() ==> p.0.spec_f32_data() == self.spec_feature_data(
                    index as int,
                ))
                &&& p.1.spec_shape() == self.spec_target_shape(index as int)
                &&& p.1.spec_readable_f32() == self.spec_target_readable(index as int)
                &&& (p.1.spec_readable_f32() ==> p.1.spec_f32_data() == self.spec_target_data(
                    index as int,
                ))
            },
    ;

    fn is_empty(&self) -> (r: bool)
        requires
            self.inv(),
        ensures
            r == (self.spec_len() == 0),
    {
        self.len() == 0
    }
}

/// A dataset over two stacked tensors: row `i` of `features` paired with
/// row `i` of `targets`.
pub struct TensorDataset {
    features: Tensor,
    targets: Tensor,
    length: usize,
}

impl TensorDataset {
    pub closed spec fn spec_features(&self) -> Tensor {
        self.features
    }

    pub closed spec fn spec_targets(&self) -> Tensor {
        self.targets
    }

    pub open spec fn wf(&self) -> bool {
        &&& self.spec_features().wf()
        &&& self.spec_targets().wf()
        &&& self.spec_features().impl_ is Some
        &&& self.spec_targets().impl_ is Some
        &&& self.spec_features().spec_shape().len() >= 1
        &&& self.spec_targets().spec_shape().len() >= 1
        &&& self.spec_targets().spec_shape()[0] == self.spec_features().spec_shape()[0]
        &&& self.spec_len() == self.spec_features().spec_shape()[0]
    }

    /// Pairs two defined tensors whose leading dimensions agree. Fails
    /// exactly on an undefined operand, an empty shape on either side, a
    /// leading-dimension mismatch, or a leading dimension beyond `usize`.
    pub fn new(features: Tensor, targets: Tensor) -> (r: Result<Self, String>)
        requires
            features.wf(),
            targets.wf(),
        ensures
            r is Ok <==> features.impl_ is Some && targets.impl_ is Some && features.spec_shape().len()
                > 0 && targets.spec_shape().len() > 0 && features.spec_shape()[0]
                == targets.spec_shape()[0] && features.spec_shape()[0] <= usize::MAX,
            r matches Ok(ds) ==> ds.wf() && ds.spec_features() == features && ds.spec_targets()
                == targets && ds.spec_len() == features.spec_shape()[0],
    {
        if !features.defined() || !targets.defined() {
            return Err("Features and targets must be defined tensors".to_owned());
        }
        let features_shape = features.shape();
        let targets_shape = targets.shape();
        if features_shape.len() == 0 || targets_shape.len() == 0 {
            return Err("Features and targets must have at least one dimension".to_owned());
        }
        proof {
            match &features.impl_ {
                Some(ti) => {
                    assert(ti.spec_shape()[0] >= 0);
                },
                None => {},
            }
        }
        let flen = features_shape[0];
        let tlen = targets_shape[0];
        if flen != tlen {
            return Err("Features and targets must have same length".to_owned());
        }
        if flen as u64 > usize::MAX as u64 {
            return Err("Features and targets must have same length".to_owned());
        }
        Ok(TensorDataset { features, targets, length: flen as usize })
    }
}

impl Dataset for TensorDataset {
    open spec fn inv(&self) -> bool {
        self.wf()
    }

    closed spec fn spec_len(&self) -> usize {
        self.length
    }

    open spec fn spec_item_defined(&self, index: int) -> bool {
        let ft = self.spec_features();
        let tt = self.spec_targets();
        let fshape = ft.spec_shape();
        let tshape = tt.spec_shape();
        let frow = shape_product(fshape.drop_first());
        let trow = if tshape.len() > 1 {
            shape_product(tshape.drop_first())
        } else {
            1
        };
        &&& 0 <= index < self.spec_len()
        &&& fshape.len() >= 2
        &&& ft.spec_readable_f32()
        &&& tt.spec_readable_f32()
        &&& frow >= 1
        &&& frow * 4 <= usize::MAX
        &&& (tshape.len() > 1 ==> trow >= 1 && trow * 4 <= usize::MAX)
    }

    open spec fn spec_feature_shape(&self, index: int) -> Seq<i64> {
        self.spec_features().spec_shape().drop_first()
    }

    open spec fn spec_feature_readable(&self, index: int) -> bool {
        true
    }

    open spec fn spec_feature_data(&self, index: int) -> Seq<u32> {
        let frow = shape_product(self.spec_features().spec_shape().drop_first());
        self.spec_features().spec_f32_data().subrange(index * frow, index * frow + frow)
    }

    open spec fn spec_target_shape(&self, index: int) -> Seq<i64> {
        if self.spec_targets().spec_shape().len() > 1 {
            self.spec_targets().spec_shape().drop_first()
        } else {
            Seq::empty()
        }
    }

    open spec fn spec_target_readable(&self, index: int) -> bool {
        true
    }

    open spec fn spec_target_data(&self, index: int) -> Seq<u32> {
        let tshape = self.spec_targets().spec_shape();
        let trow = if tshape.len() > 1 {
            shape_product(tshape.drop_first())
        } else {
            1
        };
        if tshape.len() > 1 {
            self.spec_targets().spec_f32_data().subrange(index * trow, index * trow + trow)
        } else {
            seq![self.spec_targets().spec_f32_data()[index]]
        }
    }

    fn len(&self) -> (r: usize) {
        self.length
    }

    /// Slices row `index` out of both stacked tensors. The feature row
    /// keeps the trailing feature shape; a target row with no trailing
    /// dimensions becomes a Float32 scalar. A sample comes back exactly
    /// when the index is in range, the features have a row dimension and a
    /// trailing shape, both tensors are readable Float32 data, and the
    /// rows are non-empty and addressable.
    fn get_item(&self, index: usize) -> (r: Option<(Tensor, Tensor)>)
        ensures
            ({
                let ft = self.spec_features();
                let tt = self.spec_targets();
                let fshape = ft.spec_shape();
                let tshape = tt.spec_shape();
                let frow = shape_product(fshape.drop_first());
                let trow = if tshape.len() > 1 {
                    shape_product(tshape.drop_first())
                } else {
                    1
                };
                &&& (r is Some <==> index < self.spec_len() && fshape.len() >= 2
                    && ft.spec_readable_f32() && tt.spec_readable_f32() && frow >= 1 && frow * 4
                    <= usize::MAX && (tshape.len() > 1 ==> trow >= 1 && trow * 4 <= usize::MAX))
                &&& (r matches Some(p) ==> {
                    &&& (p.0.impl_ matches Some(fi) && fi.spec_shape() == fshape.drop_first()
                        && crate::tensor::tensor::readable_f32(*fi)
                        && crate::tensor::tensor::f32_data(*fi) == ft.spec_f32_data().subrange(
                        index * frow,
                        index * frow + frow,
                    ))
                    &&& (tshape.len() > 1 ==> (p.1.impl_ matches Some(tyi) && tyi.spec_shape()
                        == tshape.drop_first() && crate::tensor::tensor::f32_data(*tyi)
                        == tt.spec_f32_data().subrange(index * trow, index * trow + trow)))
                    &&& (tshape.len() == 1 ==> (p.1.impl_ matches Some(tyi) && tyi.spec_shape()
                        == Seq::<i64>::empty() && tyi.spec_storage() == Some(
                        crate::tensor::tensor::spec_scalar_bytes(
                            Scalar::Float32(tt.spec_f32_data()[index as int]),
                        ),
                    )))
                })
            }),
    {
        if index >= self.length {
            return None;
        }
        let fi: &TensorImpl = match &self.features.impl_ {
            None => {
                return None;
            },
            Some(rc) => rc,
        };
        let ti: &TensorImpl = match &self.targets.impl_ {
            None => {
                return None;
            },
            Some(rc) => rc,
        };
        if fi.shape().len() < 2 || ti.shape().len() < 1 {
            return None;
        }
        let features_data = match fi.to_list::<u32>() {
            Err(_) => {
                return None;
            },
            Ok(v) => v,
        };
        let targets_data = match ti.to_list::<u32>() {
            Err(_) => {
                return None;
            },
            Ok(v) => v,
        };
        proof {
            crate::tensor::tensor::lemma_f32_list(features_data@, fi);
            crate::tensor::tensor::lemma_f32_list(targets_data@, ti);
            lemma_tail_layout(fi.spec_shape());
            lemma_tail_layout(ti.spec_shape());
        }
        let feature_shape = tail_shape(fi.shape());
        let target_shape = tail_shape(ti.shape());
        let feature_size = match row_size(&feature_shape) {
            None => {
                proof {
                    assert(shape_product(fi.spec_shape().drop_first()) > usize::MAX);
                }
                return None;
            },
            Some(v) => v,
        };
        let target_size = match row_size(&target_shape) {
            None => {
                proof {
                    assert(shape_product(ti.spec_shape().drop_first()) > usize::MAX);
                    assert(ti.spec_shape().len() > 1) by {
                        if ti.spec_shape().len() == 1 {
                            assert(ti.spec_shape().drop_first() =~= Seq::<i64>::empty());
                        }
                    }
                }
                return None;
            },
            Some(v) => v,
        };
        proof {
            lemma_row_bound(fi.spec_shape(), index as int, feature_size as int);
            lemma_row_bound(ti.spec_shape(), index as int, target_size as int);
        }
        let feature_slice = match copy_row(&features_data, index, feature_size) {
            None => {
                proof {
                    assert(index * feature_size + feature_size > features_data@.len());
                }
                return None;
            },
            Some(v) => v,
        };
        let target_slice = match copy_row(&targets_data, index, target_size) {
            None => {
                proof {
                    assert(index * target_size + target_size > targets_data@.len());
                }
                return None;
            },
            Some(v) => v,
        };
        let options = Options::default();
        let feature_tensor = match TensorImpl::new_from_data(
            feature_slice.as_slice(),
            feature_shape.as_slice(),
            options,
        ) {
            Err(_) => {
                proof {
                    // The trailing shape is laid out and addressable, so
                    // only an empty or oversized row refuses allocation.
                    assert(!(shape_product(fi.spec_shape().drop_first()) >= 1 && shape_product(
                        fi.spec_shape().drop_first(),
                    ) * 4 <= usize::MAX));
                }
                return None;
            },
            Ok(impl_) => {
                proof {
                    crate::tensor::tensor::lemma_f32_data_of_elems(&impl_, feature_slice@);
                }
                Tensor { impl_: Some(Rc::new(impl_)) }
            },
        };
        let target_tensor = if target_shape.len() == 0 {
            proof {
                assert(ti.spec_shape().drop_first() =~= Seq::<i64>::empty());
                assert(target_size == 1);
                assert(targets_data@.subrange(
                    index as int * 1, index as int * 1 + 1,
                ) =~= seq![targets_data@[index as int]]) by {
                    assert(index as int * 1 == index as int) by (nonlinear_arith);
                }
                assert(target_slice@[0] == targets_data@[index as int]);
            }
            if target_slice.len() < 1 {
                return None;
            }
            let t_scalar = Tensor::scalar(Scalar::Float32(target_slice[0]));
            proof {
                match &t_scalar.impl_ {
                    Some(si) => {
                        crate::tensor::tensor::lemma_single_elem_bytes::<u32>(
                            target_slice@[0],
                        );
                        crate::tensor::tensor::lemma_f32_data_of_elems(
                            si,
                            seq![target_slice@[0]],
                        );
                        assert(crate::tensor::tensor::readable_f32(**si));
                        assert(crate::tensor::tensor::f32_data(**si) =~= seq![
                            targets_data@[index as int],
                        ]);
                    },
                    None => {},
                }
            }
            t_scalar
        } else {
            let options = Options::default();
            match TensorImpl::new_from_data(
                target_slice.as_slice(),
                target_shape.as_slice(),
                options,
            ) {
                Err(_) => {
                    proof {
                        assert(ti.spec_shape().len() > 1);
                        assert(!(shape_product(ti.spec_shape().drop_first()) >= 1
                            && shape_product(ti.spec_shape().drop_first()) * 4 <= usize::MAX));
                    }
                    return None;
                },
                Ok(impl_) => {
                    proof {
                        crate::tensor::tensor::lemma_f32_data_of_elems(&impl_, target_slice@);
                    }
                    Tensor { impl_: Some(Rc::new(impl_)) }
                },
            }
        };
        Some((feature_tensor, target_tensor))
    }
}


/// The trailing shape of a well-formed shape is itself well formed.
proof fn lemma_tail_layout(s: Seq<i64>)
    requires
        crate::tensor::shape::valid_dims(s),
        crate::tensor::shape::strides_fit(s),
        s.len() >= 1,
    ensures
        crate::tensor::shape::valid_dims(s.drop_first()),
        crate::tensor::shape::strides_fit(s.drop_first()),
{
    let t = s.drop_first();
    assert forall|i: int| 0 <= i < t.len() implies t[i] >= 0 by {
        assert(t[i] == s[i + 1]);
    }
    assert forall|k: int| 0 <= k <= t.len() implies #[trigger] suffix_product(t, k)
        <= i64::MAX by {
        assert(t.skip(k) =~= s.skip(k + 1));
        assert(suffix_product(s, k + 1) <= i64::MAX);
    }
}

/// A full row of index `i` fits inside the stacked data.
proof fn lemma_row_bound(s: Seq<i64>, index: int, row: int)
    requires
        crate::tensor::shape::valid_dims(s),
        s.len() >= 1,
        0 <= index < s[0],
        row == shape_product(s.drop_first()),
    ensures
        index * row + row <= shape_product(s),
        row >= 0,
        index * row >= 0,
{
    assert(crate::tensor::shape::valid_dims(s.drop_first())) by {
        assert(forall|i: int|
            0 <= i < s.drop_first().len() ==> #[trigger] s.drop_first()[i] == s[i + 1]);
    }
    crate::tensor::shape::lemma_product_nonneg(s.drop_first());
    assert(shape_product(s) == s[0] * row);
    assert(index * row + row <= s[0] * row && index * row >= 0) by (nonlinear_arith)
        requires
            0 <= index < s[0],
            row >= 0,
    ;
}

/// All dimensions after the first.
fn tail_shape(shape: &Vec<i64>) -> (r: Vec<i64>)
    requires
        shape@.len() >= 1,
    ensures
        r@ == shape@.drop_first(),
{
    let mut out: Vec<i64> = Vec::new();
    let mut i: usize = 1;
    while i < shape.len()
        invariant
            1 <= i <= shape@.len(),
            out@ == shape@.subrange(1, i as int),
        decreases shape@.len() - i,
    {
        out.push(shape[i]);
        proof {
            assert(shape@.subrange(1, i + 1) =~= shape@.subrange(1, i as int).push(
                shape@[i as int],
            ));
        }
        i += 1;
    }
    proof {
        assert(shape@.subrange(1, shape@.len() as int) =~= shape@.drop_first());
    }
    out
}

/// The number of elements per row, or nothing when it cannot be computed
/// in `usize`.
fn row_size(shape: &Vec<i64>) -> (r: Option<usize>)
    ensures
        r matches Some(v) ==> v == shape_product(shape@),
        (crate::tensor::shape::valid_dims(shape@) && crate::tensor::shape::strides_fit(shape@)
            && shape_product(shape@) <= usize::MAX) ==> r is Some,
{
    let mut acc: i64 = 1;
    let mut i: usize = shape.len();
    proof {
        crate::tensor::shape::lemma_suffix_end(shape@);
    }
    while i > 0
        invariant
            i <= shape@.len(),
            acc == suffix_product(shape@, i as int),
        decreases i,
    {
        i -= 1;
        let d = shape[i];
        match d.checked_mul(acc) {
            None => {
                proof {
                    crate::tensor::shape::lemma_suffix_step(shape@, i as int);
                    if crate::tensor::shape::valid_dims(shape@) && crate::tensor::shape::strides_fit(
                        shape@,
                    ) {
                        crate::tensor::shape::lemma_suffix_nonneg(shape@, i as int);
                        assert(suffix_product(shape@, i as int) <= i64::MAX);
                        assert(false);
                    }
                }
                return None;
            },
            Some(v) => {
                proof {
                    crate::tensor::shape::lemma_suffix_step(shape@, i as int);
                }
                acc = v;
            },
        }
    }
    proof {
        assert(shape@.skip(0) =~= shape@);
        if crate::tensor::shape::valid_dims(shape@) {
            crate::tensor::shape::lemma_product_nonneg(shape@);
        }
    }
    if acc < 0 {
        return None;
    }
    if acc as u64 > usize::MAX as u64 {
        return None;
    }
    Some(acc as usize)
}

/// Copies elements `index * size .. (index + 1) * size` out of `data`, or
/// nothing when the range does not fit.
fn copy_row(data: &Vec<u32>, index: usize, size: usize) -> (r: Option<Vec<u32>>)
    ensures
        r matches Some(v) ==> index * size + size <= data@.len() && v@ == data@.subrange(
            (index * size) as int,
            (index * size + size) as int,
        ),
        index * size + size <= data@.len() ==> r is Some,
{
    let data_len = data.len();
    let start = match index.checked_mul(size) {
        None => {
            proof {
                assert(index * size > usize::MAX >= data@.len());
            }
            return None;
        },
        Some(v) => v,
    };
    let end = match start.checked_add(size) {
        None => {
            proof {
                assert(index * size + size > usize::MAX >= data@.len());
            }
            return None;
        },
        Some(v) => v,
    };
    if end > data.len() {
        return None;
    }
    let mut out: Vec<u32> = Vec::new();
    let mut i: usize = 0;
    while i < size
        invariant
            start == index * size,
            end == start + size,
            end <= data@.len(),
            i <= size,
            out@ == data@.subrange(start as int, start + i),
        decreases size - i,
    {
        out.push(data[start + i]);
        proof {
            assert(data@.subrange(start as int, start + (i + 1)) =~= data@.subrange(
                start as int,
                start + i,
            ).push(data@[start + i]));
        }
        i += 1;
    }
    Some(out)
}

/// A dataset holding its samples directly in memory.
pub struct InMemoryDataset {
    data: Vec<(Tensor, Tensor)>,
}

impl InMemoryDataset {
    pub closed spec fn spec_data(&self) -> Seq<(Tensor, Tensor)> {
        self.data@
    }

    pub open spec fn wf(&self) -> bool {
        forall|i: int|
            0 <= i < self.spec_data().len() ==> (#[trigger] self.spec_data()[i]).0.wf()
                && self.spec_data()[i].1.wf()
    }

    pub fn new() -> (r: Self)
        ensures
            r.wf(),
            r.spec_data() == Seq::<(Tensor, Tensor)>::empty(),
    {
        let r = InMemoryDataset { data: Vec::new() };
        proof {
            assert(r.spec_data() =~= Seq::<(Tensor, Tensor)>::empty());
        }
        r
    }

    pub fn add_sample(&mut self, features: Tensor, target: Tensor)
        requires
            features.wf(),
            target.wf(),
        ensures
            final(self).spec_data() == old(self).spec_data().push((features, target)),
            old(self).wf() ==> final(self).wf(),
    {
        let ghost oldseq = self.data@;
        self.data.push((features, target));
        proof {
            if old(self).wf() {
                assert forall|i: int|
                    0 <= i < self.spec_data().len() implies (#[trigger] self.spec_data()[i]).0.wf()
                    && self.spec_data()[i].1.wf() by {
                    if i < oldseq.len() {
                        assert(self.spec_data()[i] == oldseq[i]);
                        assert(oldseq[i].0.wf() && oldseq[i].1.wf());
                    }
                }
            }
        }
    }

    pub fn from_vec(data: Vec<(Tensor, Tensor)>) -> (r: Self)
        ensures
            r.spec_data() == data@,
    {
        InMemoryDataset { data }
    }
}

impl Dataset for InMemoryDataset {
    open spec fn inv(&self) -> bool {
        self.wf()
    }

    open spec fn spec_len(&self) -> usize {
        self.spec_data().len() as usize
    }

    open spec fn spec_item_defined(&self, index: int) -> bool {
        0 <= index < self.spec_data().len()
    }

    open spec fn spec_feature_shape(&self, index: int) -> Seq<i64> {
        self.spec_data()[index].0.spec_shape()
    }

    open spec fn spec_feature_readable(&self, index: int) -> bool {
        self.spec_data()[index].0.spec_readable_f32()
    }

    open spec fn spec_feature_data(&self, index: int) -> Seq<u32> {
        self.spec_data()[index].0.spec_f32_data()
    }

    open spec fn spec_target_shape(&self, index: int) -> Seq<i64> {
        self.spec_data()[index].1.spec_shape()
    }

    open spec fn spec_target_readable(&self, index: int) -> bool {
        self.spec_data()[index].1.spec_readable_f32()
    }

    open spec fn spec_target_data(&self, index: int) -> Seq<u32> {
        self.spec_data()[index].1.spec_f32_data()
    }

    fn len(&self) -> (r: usize) {
        self.data.len()
    }

    /// Hands out new handles sharing the stored sample's views.
    fn get_item(&self, index: usize) -> (r: Option<(Tensor, Tensor)>) {
        if index >= self.data.len() {
            return None;
        }
        proof {
            assert((#[trigger] self.spec_data()[index as int]).0.wf());
        }
        let entry = &self.data[index];
        Some((entry.0.share(), entry.1.share()))
    }
}

} // verus!
