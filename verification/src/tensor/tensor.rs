use vstd::prelude::*;
use std::rc::Rc;
use crate::tensor::device::Device;
use crate::tensor::dtype::{Array1d, Array2d, Array3d, DType, Element, bytes_of_elems, flatten_2d, flatten_3d,
    lemma_bytes_of_elems_index, lemma_bytes_of_elems_len, spec_flatten_2d, spec_flatten_3d};
use crate::tensor::options::{Options, default_options};
use crate::tensor::scalar::Scalar;
use crate::tensor::shape::{contig_strides, layout_ok, lemma_product_pair, shape_product};
use crate::tensor::broadcasting::{bcast_src_index, broadcast_shape, compatible};
use crate::tensor::storage::Storage;
use crate::tensor::tensor_impl::TensorImpl;
use vstd::bytes::{spec_u32_from_le_bytes, spec_u32_to_le_bytes,
    lemma_auto_spec_u32_to_from_le_bytes};

verus! {

/// The public tensor handle: an optional shared reference to a view.
///
/// "No reference" is the first-class "undefined" sentinel state: most
/// operations propagate it silently instead of failing, and callers test
/// `defined()` before trusting a result.
///
/// Sharing and copying are deliberately two distinct operations, so a
/// caller can never get the wrong one by accident: `share` aliases the
/// same view (reference-counted), while `clone` allocates fresh storage
/// and bit-copies the data.
pub struct Tensor {
    pub impl_: Option<Rc<TensorImpl>>,
}

/// The Float32 elements of a view, as bit patterns, read row-major from the
/// storage starting at the view's offset.
pub open spec fn f32_data(ti: TensorImpl) -> Seq<u32> {
    Seq::new(
        ti.spec_numel() as nat,
        |i: int|
            spec_u32_from_le_bytes(
                ti.spec_storage().unwrap().subrange(
                    ti.spec_offset() + i * 4,
                    ti.spec_offset() + (i + 1) * 4,
                ),
            ),
    )
}

/// A view whose element bytes can be read out as Float32 values: well
/// formed, Float32, on the CPU, with a storage attached.
pub open spec fn readable_f32(ti: TensorImpl) -> bool {
    &&& ti.wf()
    &&& ti.spec_options().dtype == DType::Float32
    &&& ti.spec_options().device.spec_is_cpu()
    &&& ti.spec_storage() is Some
}

/// A freshly constructed view over exactly the Float32 elements `es`.
pub proof fn lemma_f32_data_of_elems(ti: &TensorImpl, es: Seq<u32>)
    requires
        ti.spec_storage() == Some(bytes_of_elems(es)),
        ti.spec_offset() == 0,
        ti.spec_numel() == es.len(),
    ensures
        f32_data(*ti) == es,
{
    lemma_auto_spec_u32_to_from_le_bytes();
    lemma_bytes_of_elems_len::<u32>(es);
    assert forall|i: int| 0 <= i < es.len() implies f32_data(*ti)[i] == es[i] by {
        lemma_bytes_of_elems_index::<u32>(es, i);
        assert(es[i].spec_to_bytes() == spec_u32_to_le_bytes(es[i]));
        assert(spec_u32_to_le_bytes(es[i]).len() == 4);
        assert(spec_u32_from_le_bytes(spec_u32_to_le_bytes(es[i])) == es[i]);
    }
    assert(f32_data(*ti) =~= es);
}

/// A list read out of a view with `to_list::<u32>` holds exactly the view's
/// Float32 elements.
pub proof fn lemma_f32_list(v: Seq<u32>, ti: &TensorImpl)
    requires
        v.len() == ti.spec_numel(),
        ti.spec_storage() is Some,
        forall|i: int|
            0 <= i < v.len() ==> (#[trigger] v[i]).spec_to_bytes()
                == ti.spec_storage().unwrap().subrange(
                ti.spec_offset() + i * 4,
                ti.spec_offset() + (i + 1) * 4,
            ),
    ensures
        v == f32_data(*ti),
{
    lemma_auto_spec_u32_to_from_le_bytes();
    assert forall|i: int| 0 <= i < v.len() implies v[i] == f32_data(*ti)[i] by {
        assert(v[i].spec_to_bytes() == spec_u32_to_le_bytes(v[i]));
        assert(spec_u32_to_le_bytes(v[i]).len() == 4);
        assert(spec_u32_from_le_bytes(spec_u32_to_le_bytes(v[i])) == v[i]);
    }
    assert(v =~= f32_data(*ti));
}

/// The byte encoding of a single element is the byte run of the one-element
/// sequence holding it.
pub proof fn lemma_single_elem_bytes<T: Element>(v: T)
    ensures
        bytes_of_elems(seq![v]) == v.spec_to_bytes(),
{
    let s = seq![v];
    let m = s.map_values(|e: T| e.spec_to_bytes());
    assert(m =~= seq![v.spec_to_bytes()]);
    assert(m.len() == 1);
    assert(m.first() == v.spec_to_bytes());
    assert(m.drop_first() =~= Seq::<Seq<u8>>::empty());
    assert(Seq::<Seq<u8>>::empty().flatten() =~= Seq::<u8>::empty());
    assert(bytes_of_elems(s) =~= v.spec_to_bytes());
}

/// Relies on std's `Rc::clone`: the returned handle is the same shared
/// pointer, so its spec value is the pointee itself.
#[verifier::external_body]
fn rc_share(rc: &Rc<TensorImpl>) -> (r: Rc<TensorImpl>)
    ensures
        r == *rc,
{
    Rc::clone(rc)
}

impl Tensor {
    pub open spec fn wf(&self) -> bool {
        match self.impl_ {
            Some(ti) => ti.wf(),
            None => true,
        }
    }

    /// The shape of the underlying view; the empty sequence when undefined.
    pub open spec fn spec_shape(&self) -> Seq<i64> {
        match self.impl_ {
            Some(ti) => ti.spec_shape(),
            None => Seq::empty(),
        }
    }

    /// The element count of the underlying view; 0 when undefined.
    pub open spec fn spec_numel(&self) -> i64 {
        match self.impl_ {
            Some(ti) => ti.spec_numel(),
            None => 0,
        }
    }

    /// Whether Float32 data can be read out of this tensor.
    pub open spec fn spec_readable_f32(&self) -> bool {
        match self.impl_ {
            Some(ti) => readable_f32(*ti),
            None => false,
        }
    }

    /// The Float32 elements of this tensor, as bit patterns.
    pub open spec fn spec_f32_data(&self) -> Seq<u32> {
        match self.impl_ {
            Some(ti) => f32_data(*ti),
            None => Seq::empty(),
        }
    }

    /// The undefined tensor.
    pub fn new() -> (r: Self)
        ensures
            r.impl_ is None,
    {
        Self { impl_: None }
    }

    pub fn defined(&self) -> (r: bool)
        ensures
            r == (self.impl_ is Some),
    {
        self.impl_.is_some()
    }

    /// Wraps an existing view.
    pub fn new_from_impl(impl_: Rc<TensorImpl>) -> (r: Self)
        ensures
            r.impl_ == Some(impl_),
    {
        Self { impl_: Some(impl_) }
    }

    /// A second handle to the same view: reference sharing, not a copy.
    pub fn share(&self) -> (r: Self)
        ensures
            r.impl_ == self.impl_,
    {
        match &self.impl_ {
            None => Self { impl_: None },
            Some(rc) => Self { impl_: Some(rc_share(rc)) },
        }
    }

    /// An uninitialized (zero-filled) tensor of the given shape with
    /// default options; undefined when the shape cannot be allocated.
    pub fn empty(shape: &[i64]) -> (r: Self)
        ensures
            r.wf(),
            r.impl_ is Some <==> TensorImpl::can_allocate(shape@, default_options()),
            r.impl_ matches Some(ti) ==> {
                &&& ti.spec_shape() == shape@
                &&& ti.spec_strides() == contig_strides(shape@)
                &&& ti.spec_numel() == shape_product(shape@)
                &&& ti.spec_offset() == 0
                &&& ti.spec_options() == default_options()
                &&& ti.spec_storage() is Some
            },
    {
        Self::empty_with_options(shape, Options::default())
    }

    /// An uninitialized (zero-filled) tensor of the given shape; undefined
    /// when the shape cannot be allocated under the given options.
    pub fn empty_with_options(shape: &[i64], options: Options) -> (r: Self)
        ensures
            r.wf(),
            r.impl_ is Some <==> TensorImpl::can_allocate(shape@, options),
            r.impl_ matches Some(ti) ==> {
                &&& ti.spec_shape() == shape@
                &&& ti.spec_strides() == contig_strides(shape@)
                &&& ti.spec_numel() == shape_product(shape@)
                &&& ti.spec_offset() == 0
                &&& ti.spec_options() == options
                &&& ti.spec_storage() is Some
                &&& ti.fresh_meta_for(options)
            },
    {
        match TensorImpl::new(shape, options) {
            Ok(impl_) => Self { impl_: Some(Rc::new(impl_)) },
            Err(_) => Self::new(),
        }
    }

    /// A zero-dimensional tensor holding the one given value, with the
    /// value's own dtype. Always defined.
    pub fn scalar(value: Scalar) -> (r: Self)
        ensures
            r.wf(),
            r.impl_ matches Some(ti) && {
                &&& ti.spec_shape() == Seq::<i64>::empty()
                &&& ti.spec_numel() == 1
                &&& ti.spec_offset() == 0
                &&& ti.spec_options() == (Options { dtype: value.spec_dtype(), ..default_options() })
                &&& ti.spec_storage() == Some(spec_scalar_bytes(value))
            },
    {
        let shape: Vec<i64> = Vec::new();
        proof {
            assert(shape@ =~= Seq::<i64>::empty());
            assert(shape_product(shape@) == 1);
            assert forall|k: int|
                0 <= k <= shape@.len() implies #[trigger] crate::tensor::shape::suffix_product(
                shape@,
                k,
            ) == 1 by {
                assert(shape@.skip(k) =~= Seq::<i64>::empty());
            }
            assert(layout_ok(shape@));
        }
        let r = match value {
            Scalar::Float32(v) => {
                let mut data: Vec<u32> = Vec::new();
                data.push(v);
                proof {
                    assert(data@ =~= seq![v]);
                    lemma_single_elem_bytes::<u32>(v);
                }
                let options = Options::default().dtype(DType::Float32);
                TensorImpl::new_from_data(data.as_slice(), shape.as_slice(), options)
            },
            Scalar::Float16(v) => {
                let mut data: Vec<u16> = Vec::new();
                data.push(v);
                proof {
                    assert(data@ =~= seq![v]);
                    lemma_single_elem_bytes::<u16>(v);
                }
                let options = Options::default().dtype(DType::Float16);
                TensorImpl::new_from_data(data.as_slice(), shape.as_slice(), options)
            },
            Scalar::BFloat16(v) => {
                let mut data: Vec<u16> = Vec::new();
                data.push(v);
                proof {
                    assert(data@ =~= seq![v]);
                    lemma_single_elem_bytes::<u16>(v);
                    v.lemma_bytes_len();
                }
                let options = Options::default().dtype(DType::Float16);
                match TensorImpl::new_from_data(data.as_slice(), shape.as_slice(), options) {
                    Ok(mut ti) => {
                        let opts = ti.options_mut();
                        *opts = Options::default().dtype(DType::BFloat16);
                        Ok(ti)
                    },
                    Err(e) => Err(e),
                }
            },
            Scalar::Int32(v) => {
                let mut data: Vec<i32> = Vec::new();
                data.push(v);
                proof {
                    assert(data@ =~= seq![v]);
                    lemma_single_elem_bytes::<i32>(v);
                }
                let options = Options::default().dtype(DType::Int32);
                TensorImpl::new_from_data(data.as_slice(), shape.as_slice(), options)
            },
            Scalar::Int64(v) => {
                let mut data: Vec<i64> = Vec::new();
                data.push(v);
                proof {
                    assert(data@ =~= seq![v]);
                    lemma_single_elem_bytes::<i64>(v);
                }
                let options = Options::default().dtype(DType::Int64);
                TensorImpl::new_from_data(data.as_slice(), shape.as_slice(), options)
            },
            Scalar::Bool(v) => {
                let e: u8 = if v {
                    1
                } else {
                    0
                };
                let mut data: Vec<u8> = Vec::new();
                data.push(e);
                proof {
                    assert(data@ =~= seq![e]);
                    lemma_single_elem_bytes::<u8>(e);
                }
                let options = Options::default().dtype(DType::Bool);
                TensorImpl::new_from_data(data.as_slice(), shape.as_slice(), options)
            },
        };
        match r {
            Ok(impl_) => Self { impl_: Some(Rc::new(impl_)) },
            Err(_) => Self::new(),
        }
    }

    /// A Float32 tensor of the given shape filled with 1.0; undefined when
    /// the shape cannot be allocated.
    pub fn ones(shape: &[i64]) -> (r: Self)
        ensures
            r.wf(),
            r.impl_ is Some <==> TensorImpl::can_allocate(shape@, default_options()),
            r.impl_ matches Some(ti) ==> {
                &&& ti.spec_shape() == shape@
                &&& ti.spec_strides() == contig_strides(shape@)
                &&& ti.spec_numel() == shape_product(shape@)
                &&& ti.spec_offset() == 0
                &&& ti.spec_options() == default_options()
                &&& readable_f32(*ti)
                &&& f32_data(*ti) == Seq::new(
                    shape_product(shape@) as nat,
                    |i: int| crate::fpbits::F32_ONE_BITS,
                )
            },
    {
        Self::filled_f32(shape, crate::fpbits::F32_ONE_BITS)
    }

    /// A Float32 tensor of the given shape filled with 0.0; undefined when
    /// the shape cannot be allocated.
    pub fn zeros(shape: &[i64]) -> (r: Self)
        ensures
            r.wf(),
            r.impl_ is Some <==> TensorImpl::can_allocate(shape@, default_options()),
            r.impl_ matches Some(ti) ==> {
                &&& ti.spec_shape() == shape@
                &&& ti.spec_strides() == contig_strides(shape@)
                &&& ti.spec_numel() == shape_product(shape@)
                &&& ti.spec_offset() == 0
                &&& ti.spec_options() == default_options()
                &&& readable_f32(*ti)
                &&& f32_data(*ti) == Seq::new(
                    shape_product(shape@) as nat,
                    |i: int| crate::fpbits::F32_ZERO_BITS,
                )
            },
    {
        Self::filled_f32(shape, crate::fpbits::F32_ZERO_BITS)
    }

    /// A Float32 tensor filled with one constant bit pattern.
    fn filled_f32(shape: &[i64], fill: u32) -> (r: Self)
        ensures
            r.wf(),
            r.impl_ is Some <==> TensorImpl::can_allocate(shape@, default_options()),
            r.impl_ matches Some(ti) ==> {
                &&& ti.spec_shape() == shape@
                &&& ti.spec_strides() == contig_strides(shape@)
                &&& ti.spec_numel() == shape_product(shape@)
                &&& ti.spec_offset() == 0
                &&& ti.spec_options() == default_options()
                &&& readable_f32(*ti)
                &&& f32_data(*ti) == Seq::new(shape_product(shape@) as nat, |i: int| fill)
            },
    {
        let shape_vec = vstd::slice::slice_to_vec(shape);
        let (numel, ok) = match crate::tensor::shape::compute_layout(&shape_vec) {
            None => (0i64, false),
            Some((_, n)) => (n, true),
        };
        if !ok {
            return Self::new();
        }
        proof {
            crate::tensor::shape::lemma_product_nonneg(shape@);
        }
        if numel as u64 > usize::MAX as u64 {
            proof {
                let n = shape_product(shape@);
                assert(n <= n * 4) by (nonlinear_arith)
                    requires
                        n >= 0,
                ;
            }
            return Self::new();
        }
        let count = numel as usize;
        let mut data: Vec<u32> = Vec::new();
        let mut i: usize = 0;
        while i < count
            invariant
                i <= count,
                data@ =~= Seq::new(i as nat, |j: int| fill),
            decreases count - i,
        {
            data.push(fill);
            i += 1;
        }
        let options = Options::default();
        match TensorImpl::new_from_data(data.as_slice(), shape, options) {
            Ok(impl_) => {
                proof {
                    lemma_f32_data_of_elems(&impl_, data@);
                }
                Self { impl_: Some(Rc::new(impl_)) }
            },
            Err(_) => Self::new(),
        }
    }

    /// A tensor of ones with the same shape as `other`.
    pub fn ones_like(other: &Self) -> (r: Self)
        requires
            other.wf(),
        ensures
            r.wf(),
            other.impl_ is None ==> r.impl_ is None,
            other.impl_ is Some ==> (r.impl_ is Some <==> TensorImpl::can_allocate(
                other.spec_shape(),
                default_options(),
            )),
            r.impl_ matches Some(ti) ==> ti.spec_shape() == other.spec_shape() && readable_f32(*ti)
                && f32_data(*ti) == Seq::new(
                shape_product(other.spec_shape()) as nat,
                |i: int| crate::fpbits::F32_ONE_BITS,
            ),
    {
        match &other.impl_ {
            Some(ti) => Self::ones(ti.shape().as_slice()),
            None => Self::new(),
        }
    }

    /// A tensor of zeros with the same shape as `other`.
    pub fn zeros_like(other: &Self) -> (r: Self)
        requires
            other.wf(),
        ensures
            r.wf(),
            other.impl_ is None ==> r.impl_ is None,
            other.impl_ is Some ==> (r.impl_ is Some <==> TensorImpl::can_allocate(
                other.spec_shape(),
                default_options(),
            )),
            r.impl_ matches Some(ti) ==> ti.spec_shape() == other.spec_shape() && readable_f32(*ti)
                && f32_data(*ti) == Seq::new(
                shape_product(other.spec_shape()) as nat,
                |i: int| crate::fpbits::F32_ZERO_BITS,
            ),
    {
        match &other.impl_ {
            Some(ti) => Self::zeros(ti.shape().as_slice()),
            None => Self::new(),
        }
    }

    /// A one-dimensional tensor over the given values.
    pub fn from_array_1d<T: Element>(data: Array1d<T>) -> (r: Self)
        ensures
            r.wf(),
            r.impl_ is Some <==> data@.len() <= i64::MAX && TensorImpl::can_allocate(
                seq![data@.len() as i64],
                (Options { dtype: T::spec_dtype(), ..default_options() }),
            ),
            r.impl_ matches Some(ti) ==> {
                &&& ti.spec_shape() == seq![data@.len() as i64]
                &&& ti.spec_strides() == contig_strides(seq![data@.len() as i64])
                &&& ti.spec_numel() == data@.len()
                &&& ti.spec_offset() == 0
                &&& ti.spec_options() == (Options { dtype: T::spec_dtype(), ..default_options() })
                &&& ti.spec_storage() == Some(bytes_of_elems(data@))
            },
    {
        if data.len() as u64 > 0x7fff_ffff_ffff_ffffu64 {
            return Self::new();
        }
        let n = data.len() as i64;
        let mut shape: Vec<i64> = Vec::new();
        shape.push(n);
        proof {
            assert(shape@ =~= seq![data@.len() as i64]);
            assert(shape@.drop_first() =~= Seq::<i64>::empty());
            assert(shape_product(shape@) == shape@[0] * shape_product(Seq::<i64>::empty()));
            assert(shape@[0] * 1 == shape@[0]) by (nonlinear_arith);
        }
        let options = Options::default().dtype(T::dtype());
        match TensorImpl::new_from_data(data.as_slice(), shape.as_slice(), options) {
            Ok(impl_) => Self { impl_: Some(Rc::new(impl_)) },
            Err(_) => Self::new(),
        }
    }

    /// A two-dimensional tensor over the given rows (all rows must have the
    /// first row's length, or the element count check fails and the result
    /// is undefined).
    pub fn from_array_2d<T: Element>(data: Array2d<T>) -> (r: Self)
        ensures
            r.wf(),
            ({
                let rows = data@.len() as i64;
                let cols = data@[0]@.len() as i64;
                let flat = spec_flatten_2d(data@.map_values(|row: Vec<T>| row@));
                &&& (r.impl_ is Some <==> data@.len() >= 1 && data@.len() <= i64::MAX
                    && data@[0]@.len() <= i64::MAX && flat.len() == shape_product(
                    seq![rows, cols],
                ) && TensorImpl::can_allocate(
                    seq![rows, cols],
                    (Options { dtype: T::spec_dtype(), ..default_options() }),
                ))
                &&& (r.impl_ matches Some(ti) ==> {
                    &&& ti.spec_shape() == seq![rows, cols]
                    &&& ti.spec_strides() == contig_strides(seq![rows, cols])
                    &&& ti.spec_numel() == shape_product(seq![rows, cols])
                    &&& ti.spec_offset() == 0
                    &&& ti.spec_options() == (Options {
                        dtype: T::spec_dtype(),
                        ..default_options()
                    })
                    &&& ti.spec_storage() == Some(bytes_of_elems(flat))
                })
            }),
    {
        if data.len() == 0 {
            return Self::new();
        }
        if data.len() as u64 > 0x7fff_ffff_ffff_ffffu64 {
            return Self::new();
        }
        if data[0].len() as u64 > 0x7fff_ffff_ffff_ffffu64 {
            return Self::new();
        }
        let rows = data.len() as i64;
        let cols = data[0].len() as i64;
        let mut shape: Vec<i64> = Vec::new();
        shape.push(rows);
        shape.push(cols);
        proof {
            assert(shape@ =~= seq![rows, cols]);
        }
        let flat = flatten_2d(&data);
        let options = Options::default().dtype(T::dtype());
        match TensorImpl::new_from_data(flat.as_slice(), shape.as_slice(), options) {
            Ok(impl_) => Self { impl_: Some(Rc::new(impl_)) },
            Err(_) => Self::new(),
        }
    }

    /// A three-dimensional tensor over the given planes of rows (all planes
    /// and rows must match the first ones in length, or the element count
    /// check fails and the result is undefined).
    pub fn from_array_3d<T: Element>(data: Array3d<T>) -> (r: Self)
        ensures
            r.wf(),
            ({
                let d0 = data@.len() as i64;
                let d1 = data@[0]@.len() as i64;
                let d2 = data@[0]@[0]@.len() as i64;
                let flat = spec_flatten_3d(
                    data@.map_values(|plane: Vec<Vec<T>>| plane@.map_values(|row: Vec<T>| row@)),
                );
                &&& (r.impl_ is Some <==> data@.len() >= 1 && data@[0]@.len() >= 1 && data@.len()
                    <= i64::MAX && data@[0]@.len() <= i64::MAX && data@[0]@[0]@.len() <= i64::MAX
                    && flat.len() == shape_product(seq![d0, d1, d2]) && TensorImpl::can_allocate(
                    seq![d0, d1, d2],
                    (Options { dtype: T::spec_dtype(), ..default_options() }),
                ))
                &&& (r.impl_ matches Some(ti) ==> {
                    &&& ti.spec_shape() == seq![d0, d1, d2]
                    &&& ti.spec_strides() == contig_strides(seq![d0, d1, d2])
                    &&& ti.spec_numel() == shape_product(seq![d0, d1, d2])
                    &&& ti.spec_offset() == 0
                    &&& ti.spec_options() == (Options {
                        dtype: T::spec_dtype(),
                        ..default_options()
                    })
                    &&& ti.spec_storage() == Some(bytes_of_elems(flat))
                })
            }),
    {
        if data.len() == 0 {
            return Self::new();
        }
        if data[0].len() == 0 {
            return Self::new();
        }
        if data.len() as u64 > 0x7fff_ffff_ffff_ffffu64 {
            return Self::new();
        }
        if data[0].len() as u64 > 0x7fff_ffff_ffff_ffffu64 {
            return Self::new();
        }
        if data[0][0].len() as u64 > 0x7fff_ffff_ffff_ffffu64 {
            return Self::new();
        }
        let d0 = data.len() as i64;
        let d1 = data[0].len() as i64;
        let d2 = data[0][0].len() as i64;
        let mut shape: Vec<i64> = Vec::new();
        shape.push(d0);
        shape.push(d1);
        shape.push(d2);
        proof {
            assert(shape@ =~= seq![d0, d1, d2]);
        }
        let flat = flatten_3d(&data);
        let options = Options::default().dtype(T::dtype());
        match TensorImpl::new_from_data(flat.as_slice(), shape.as_slice(), options) {
            Ok(impl_) => Self { impl_: Some(Rc::new(impl_)) },
            Err(_) => Self::new(),
        }
    }

    /// Number of dimensions; 0 for an undefined tensor.
    pub fn dim(&self) -> (r: i64)
        requires
            self.wf(),
        ensures
            r == self.spec_shape().len(),
    {
        match &self.impl_ {
            None => 0,
            Some(ti) => ti.dim(),
        }
    }

    /// Element count; 0 for an undefined tensor.
    pub fn numel(&self) -> (r: i64)
        ensures
            r == self.spec_numel(),
    {
        match &self.impl_ {
            None => 0,
            Some(ti) => ti.numel(),
        }
    }

    /// Alias of `numel`.
    pub fn size(&self) -> (r: i64)
        ensures
            r == self.spec_numel(),
    {
        self.numel()
    }

    /// A copy of the shape; empty for an undefined tensor.
    pub fn shape(&self) -> (r: Vec<i64>)
        ensures
            r@ == self.spec_shape(),
    {
        match &self.impl_ {
            None => {
                let v: Vec<i64> = Vec::new();
                proof {
                    assert(v@ =~= Seq::<i64>::empty());
                }
                v
            },
            Some(ti) => vstd::slice::slice_to_vec(ti.shape().as_slice()),
        }
    }

    /// The strides of the underlying view; empty for an undefined tensor.
    pub open spec fn spec_strides(&self) -> Seq<i64> {
        match self.impl_ {
            Some(ti) => ti.spec_strides(),
            None => Seq::empty(),
        }
    }

    /// A copy of the strides; empty for an undefined tensor.
    pub fn strides(&self) -> (r: Vec<i64>)
        ensures
            r@ == self.spec_strides(),
    {
        match &self.impl_ {
            None => {
                let v: Vec<i64> = Vec::new();
                proof {
                    assert(v@ =~= Seq::<i64>::empty());
                }
                v
            },
            Some(ti) => vstd::slice::slice_to_vec(ti.strides().as_slice()),
        }
    }

    /// The element type; Float32 for an undefined tensor.
    pub fn dtype(&self) -> (r: DType)
        ensures
            r == (match self.impl_ {
                Some(ti) => ti.spec_options().dtype,
                None => DType::Float32,
            }),
    {
        match &self.impl_ {
            None => DType::Float32,
            Some(ti) => ti.dtype(),
        }
    }

    /// The device; CPU for an undefined tensor.
    pub fn device(&self) -> (r: Device)
        ensures
            r == (match self.impl_ {
                Some(ti) => ti.spec_options().device,
                None => (Device { device_type: crate::tensor::device::DeviceType::CPU, index: 0 as i8 }),
            }),
    {
        match &self.impl_ {
            None => Device::cpu(),
            Some(ti) => ti.device(),
        }
    }

    /// The gradient-tracking flag; false for an undefined tensor.
    pub fn requires_grad(&self) -> (r: bool)
        ensures
            r == (match self.impl_ {
                Some(ti) => ti.spec_options().requires_grad,
                None => false,
            }),
    {
        match &self.impl_ {
            None => false,
            Some(ti) => ti.requires_grad(),
        }
    }

    /// Copies the elements out as the carrier type `T`, or the empty vector
    /// when the tensor is undefined, the dtype does not match, the device
    /// is not the CPU, or no storage is attached.
    pub fn to_list<T: Element>(&self) -> (r: Vec<T>)
        requires
            self.wf(),
        ensures
            match self.impl_ {
                None => r@ == Seq::<T>::empty(),
                Some(ti) => if T::spec_dtype() == ti.spec_options().dtype
                    && ti.spec_options().device.spec_is_cpu() && ti.spec_storage() is Some {
                    r@.len() == ti.spec_numel() && forall|i: int|
                        0 <= i < r@.len() ==> (#[trigger] r@[i]).spec_to_bytes()
                            == ti.spec_storage().unwrap().subrange(
                            ti.spec_offset() + i * T::spec_dtype().spec_size(),
                            ti.spec_offset() + (i + 1) * T::spec_dtype().spec_size(),
                        )
                } else {
                    r@ == Seq::<T>::empty()
                },
            },
    {
        match &self.impl_ {
            None => Vec::new(),
            Some(ti) => match ti.to_list::<T>() {
                Ok(v) => v,
                Err(_) => Vec::new(),
            },
        }
    }

    /// Copies out the single element of a one-element tensor, or the zero
    /// value of `T` under the same failure conditions as `to_list` or when
    /// the element count is not exactly 1.
    pub fn item<T: Element>(&self) -> (r: T)
        requires
            self.wf(),
        ensures
            match self.impl_ {
                None => r == T::spec_default(),
                Some(ti) => if ti.spec_numel() == 1 && T::spec_dtype() == ti.spec_options().dtype
                    && ti.spec_options().device.spec_is_cpu() && ti.spec_storage() is Some {
                    r.spec_to_bytes() == ti.spec_storage().unwrap().subrange(
                        ti.spec_offset() as int,
                        ti.spec_offset() + T::spec_dtype().spec_size(),
                    )
                } else {
                    r == T::spec_default()
                },
            },
    {
        match &self.impl_ {
            None => T::default_value(),
            Some(ti) => match ti.item::<T>() {
                Ok(v) => v,
                Err(_) => T::default_value(),
            },
        }
    }

    /// Reshapes the view in place. Fails on an undefined tensor, when the
    /// view is shared with another handle (an in-place rewrite would
    /// corrupt the other view), or when the new shape is unrepresentable or
    /// holds a different element count. Whether the view is shared is a
    /// runtime property of the reference count that the contract cannot
    /// see, so success is only promised negatively: the pure failure
    /// conditions guarantee an error, and on success the result is pinned.
    pub fn reshape_(&mut self, shape: &[i64]) -> (r: Result<(), String>)
        requires
            old(self).wf(),
        ensures
            final(self).wf(),
            old(self).impl_ is None ==> r is Err && final(self).impl_ is None,
            !(layout_ok(shape@) && shape_product(shape@) == old(self).spec_numel()) ==> r is Err,
            r is Ok ==> (final(self).impl_ matches Some(ti) && {
                &&& ti.spec_shape() == shape@
                &&& ti.spec_strides() == contig_strides(shape@)
                &&& (old(self).impl_ matches Some(oi) && ti.spec_numel() == oi.spec_numel()
                    && ti.spec_offset() == oi.spec_offset() && ti.spec_options()
                    == oi.spec_options() && ti.spec_storage() == oi.spec_storage()
                    && ti.spec_meta() == oi.spec_meta())
            }),
            r is Err ==> (final(self).impl_ is Some <==> old(self).impl_ is Some),
            r is Err ==> (final(self).impl_ matches Some(ti) ==> (old(self).impl_ matches Some(oi)
                && ti.spec_shape() == oi.spec_shape() && ti.spec_strides() == oi.spec_strides()
                && ti.spec_numel() == oi.spec_numel() && ti.spec_offset() == oi.spec_offset()
                && ti.spec_options() == oi.spec_options() && ti.spec_storage() == oi.spec_storage()
                && ti.spec_meta() == oi.spec_meta())),
    {
        match self.impl_.take() {
            None => Err("Cannot reshape undefined tensor".to_owned()),
            Some(rc) => match Rc::try_unwrap(rc) {
                Err(rc) => {
                    self.impl_ = Some(rc);
                    if shape.len() as u64 > 0x7fff_ffff_ffff_ffffu64 {
                        return Err(
                            "Cannot get mutable reference to tensor implementation".to_owned(),
                        );
                    }
                    Err("Cannot get mutable reference to tensor implementation".to_owned())
                },
                Ok(mut ti) => {
                    let r = ti.reshape_(shape);
                    self.impl_ = Some(Rc::new(ti));
                    r
                },
            },
        }
    }

    /// A deep copy: fresh storage holding the same bytes, the same shape
    /// with freshly computed contiguous strides, and fresh (empty) gradient
    /// metadata when the options track gradients. Undefined when this
    /// tensor is undefined or carries no storage.
    pub fn clone(&self) -> (r: Self)
        requires
            self.wf(),
        ensures
            r.wf(),
            self.impl_ is None ==> r.impl_ is None,
            match self.impl_ {
                Some(ti) => if ti.spec_storage() is Some {
                    r.impl_ matches Some(rt) && {
                        &&& rt.spec_shape() == ti.spec_shape()
                        &&& rt.spec_strides() == contig_strides(ti.spec_shape())
                        &&& rt.spec_numel() == ti.spec_numel()
                        &&& rt.spec_offset() == ti.spec_offset()
                        &&& rt.spec_options() == ti.spec_options()
                        &&& rt.spec_storage() == ti.spec_storage()
                        &&& rt.fresh_meta_for(ti.spec_options())
                    }
                } else {
                    r.impl_ is None
                },
                None => true,
            },
    {
        match &self.impl_ {
            None => Self::new(),
            Some(ti) => match ti.storage() {
                None => Self::new(),
                Some(st) => match Storage::clone(&**st) {
                    Err(_) => Self::new(),
                    Ok(new_storage) => {
                        match TensorImpl::new_with_storage(
                            ti.shape().as_slice(),
                            *ti.options(),
                            Rc::new(new_storage),
                            ti.storage_offset(),
                        ) {
                            Ok(new_impl) => Self { impl_: Some(Rc::new(new_impl)) },
                            Err(_) => Self::new(),
                        }
                    },
                },
            },
        }
    }

    /// A deep copy reshaped to the given shape; when the new shape is not
    /// usable the copy keeps the old shape, as a reshape that silently did
    /// nothing. Undefined when this tensor is undefined or carries no
    /// storage.
    pub fn reshape(&self, shape: &[i64]) -> (r: Self)
        requires
            self.wf(),
        ensures
            r.wf(),
            self.impl_ is None ==> r.impl_ is None,
            match self.impl_ {
                Some(ti) => if ti.spec_storage() is Some {
                    r.impl_ matches Some(rt) && {
                        &&& rt.spec_numel() == ti.spec_numel()
                        &&& rt.spec_offset() == ti.spec_offset()
                        &&& rt.spec_options() == ti.spec_options()
                        &&& rt.spec_storage() == ti.spec_storage()
                        &&& if layout_ok(shape@) && shape_product(shape@) == ti.spec_numel() {
                            rt.spec_shape() == shape@ && rt.spec_strides() == contig_strides(
                                shape@,
                            )
                        } else {
                            rt.spec_shape() == ti.spec_shape() && rt.spec_strides()
                                == contig_strides(ti.spec_shape())
                        }
                    }
                } else {
                    r.impl_ is None
                },
                None => true,
            },
    {
        match &self.impl_ {
            None => Self::new(),
            Some(ti) => match ti.storage() {
                None => Self::new(),
                Some(st) => match Storage::clone(&**st) {
                    Err(_) => Self::new(),
                    Ok(new_storage) => {
                        match TensorImpl::new_with_storage(
                            ti.shape().as_slice(),
                            *ti.options(),
                            Rc::new(new_storage),
                            ti.storage_offset(),
                        ) {
                            Ok(mut new_impl) => {
                                let _ = new_impl.reshape_(shape);
                                Self { impl_: Some(Rc::new(new_impl)) }
                            },
                            Err(_) => Self::new(),
                        }
                    },
                },
            },
        }
    }

    /// A deep copy flattened to one dimension, preserving the element
    /// order. Undefined when this tensor is undefined or carries no
    /// storage.
    pub fn flatten(&self) -> (r: Self)
        requires
            self.wf(),
        ensures
            r.wf(),
            self.impl_ is None ==> r.impl_ is None,
            match self.impl_ {
                Some(ti) => if ti.spec_storage() is Some {
                    r.impl_ matches Some(rt) && {
                        &&& rt.spec_shape() == seq![ti.spec_numel()]
                        &&& rt.spec_numel() == ti.spec_numel()
                        &&& rt.spec_offset() == ti.spec_offset()
                        &&& rt.spec_options() == ti.spec_options()
                        &&& rt.spec_storage() == ti.spec_storage()
                    }
                } else {
                    r.impl_ is None
                },
                None => true,
            },
    {
        match &self.impl_ {
            None => Self::new(),
            Some(ti) => {
                let n = ti.numel();
                let mut new_shape: Vec<i64> = Vec::new();
                new_shape.push(n);
                proof {
                    let s = new_shape@;
                    assert(s =~= seq![ti.spec_numel()]);
                    assert(s.drop_first() =~= Seq::<i64>::empty());
                    assert(shape_product(s) == s[0] * shape_product(Seq::<i64>::empty()));
                    assert(s[0] * 1 == s[0]) by (nonlinear_arith);
                    assert(shape_product(s) == ti.spec_numel());
                    assert forall|k: int|
                        0 <= k <= s.len() implies #[trigger] crate::tensor::shape::suffix_product(
                        s,
                        k,
                    ) <= i64::MAX by {
                        if k == 0 {
                            assert(s.skip(0) =~= s);
                        } else {
                            assert(s.skip(k) =~= Seq::<i64>::empty());
                        }
                    }
                    assert(layout_ok(s));
                }
                self.reshape(new_shape.as_slice())
            },
        }
    }

    /// The reduction of all elements into a single Float32 scalar by a
    /// left-to-right running sum, starting from +0.0. An undefined operand
    /// stays undefined; a tensor whose data cannot be read as Float32 sums
    /// an empty list and yields the 0.0 scalar.
    pub fn sum(&self) -> (r: Self)
        requires
            self.wf(),
        ensures
            r.wf(),
            self.impl_ is None ==> r.impl_ is None,
            self.impl_ is Some ==> (r.impl_ matches Some(rt) && {
                &&& rt.spec_shape() == Seq::<i64>::empty()
                &&& rt.spec_numel() == 1
                &&& rt.spec_options() == (Options { dtype: DType::Float32, ..default_options() })
                &&& rt.spec_storage() == Some(
                    spec_scalar_bytes(
                        Scalar::Float32(
                            crate::fpbits::f32_sum(
                                if self.spec_readable_f32() {
                                    self.spec_f32_data()
                                } else {
                                    Seq::<u32>::empty()
                                },
                            ),
                        ),
                    ),
                )
            }),
    {
        let rc = match &self.impl_ {
            None => {
                return Self::new();
            },
            Some(rc) => rc,
        };
        let ti: &TensorImpl = rc;
        let va = match ti.to_list::<u32>() {
            Ok(v) => v,
            Err(_) => Vec::new(),
        };
        let ghost vals = if self.spec_readable_f32() {
            self.spec_f32_data()
        } else {
            Seq::<u32>::empty()
        };
        proof {
            if self.spec_readable_f32() {
                lemma_f32_list(va@, ti);
            } else {
                assert(va@ =~= Seq::<u32>::empty());
            }
            assert(va@ == vals);
        }
        let n = va.len();
        let mut acc: u32 = 0;
        let mut i: usize = 0;
        proof {
            assert(vals.take(0) =~= Seq::<u32>::empty());
        }
        while i < n
            invariant
                n == vals.len(),
                va@ == vals,
                i <= n,
                acc == crate::fpbits::f32_sum(vals.take(i as int)),
            decreases n - i,
        {
            acc = crate::fpbits::f32_add_bits(acc, va[i]);
            proof {
                assert(vals.take(i + 1).drop_last() =~= vals.take(i as int));
                assert(vals.take(i + 1).last() == vals[i as int]);
            }
            i += 1;
        }
        proof {
            assert(vals.take(n as int) =~= vals);
        }
        Self::scalar(Scalar::Float32(acc))
    }

    /// Gradient flow at the tensor level is an explicit non-goal: there is
    /// no computation graph, so invoking backward propagation on a handle
    /// changes nothing.
    pub fn backward(&self) {
    }

    /// See `backward`: propagation with a seed gradient is equally inert.
    pub fn backward_with_grad(&self, _grad: &Self) {
    }

    /// The tensor-level tracking toggle is inert in this design; gradient
    /// state lives in `AutogradMeta` on the view.
    pub fn set_requires_grad(&mut self, _requires_grad: bool)
        ensures
            *final(self) == *old(self),
    {
    }

    /// The tensor-level gradient accessor always reports no gradient;
    /// accumulated gradients live in `AutogradMeta` on the view.
    pub fn grad(&self) -> (r: Self)
        ensures
            r.impl_ is None,
    {
        Self::new()
    }

    /// The tensor-level clear is inert; gradient state lives in
    /// `AutogradMeta` on the view.
    pub fn zero_grad(&mut self)
        ensures
            *final(self) == *old(self),
    {
    }
}


/// One of the elementwise binary Float32 operations.
#[derive(Clone, Copy)]
pub enum BinOp {
    Add,
    Sub,
    Mul,
    Div,
    Max,
}

/// The value of one elementwise binary operation on two Float32 bit
/// patterns. Division guards its divisor: a zero divisor yields 0.0 rather
/// than an IEEE infinity, as the elementwise division operator does.
pub open spec fn apply_bin(op: BinOp, x: u32, y: u32) -> u32 {
    match op {
        BinOp::Add => crate::fpbits::f32_add(x, y),
        BinOp::Sub => crate::fpbits::f32_sub(x, y),
        BinOp::Mul => crate::fpbits::f32_mul(x, y),
        BinOp::Div => if crate::fpbits::spec_f32_is_zero(y) {
            0u32
        } else {
            crate::fpbits::f32_div(x, y)
        },
        BinOp::Max => crate::fpbits::f32_max(x, y),
    }
}

fn apply_bin_exec(op: BinOp, x: u32, y: u32) -> (r: u32)
    ensures
        r == apply_bin(op, x, y),
{
    match op {
        BinOp::Add => crate::fpbits::f32_add_bits(x, y),
        BinOp::Sub => crate::fpbits::f32_sub_bits(x, y),
        BinOp::Mul => crate::fpbits::f32_mul_bits(x, y),
        BinOp::Div => {
            if crate::fpbits::f32_is_zero(y) {
                0
            } else {
                crate::fpbits::f32_div_bits(x, y)
            }
        },
        BinOp::Max => crate::fpbits::f32_max_bits(x, y),
    }
}

/// The elements of `data` (laid out as `from`) materialized into the
/// broadcast target shape `to`; the data itself when the shapes are equal.
pub open spec fn bcast_to(data: Seq<u32>, from: Seq<i64>, to: Seq<i64>) -> Seq<u32> {
    if from == to {
        data
    } else {
        Seq::new(shape_product(to) as nat, |i: int| data[bcast_src_index(from, to, i)])
    }
}

/// The broadcast result shape of two tensors' shapes.
pub open spec fn result_shape(a: Tensor, b: Tensor) -> Seq<i64> {
    broadcast_shape(a.spec_shape(), b.spec_shape())
}

/// When an elementwise binary operation produces a defined result: both
/// operands readable as Float32 and non-empty, shapes broadcast-compatible,
/// and the result shape representable and allocatable.
pub open spec fn bin_ok(a: Tensor, b: Tensor) -> bool {
    &&& a.spec_readable_f32()
    &&& b.spec_readable_f32()
    &&& compatible(a.spec_shape(), b.spec_shape())
    &&& layout_ok(result_shape(a, b))
    &&& shape_product(result_shape(a, b)) >= 1
    &&& shape_product(result_shape(a, b)) * 4 <= usize::MAX
    &&& a.spec_numel() >= 1
    &&& b.spec_numel() >= 1
}

/// The elementwise combination of both operands' data, each broadcast to
/// the common result shape.
pub open spec fn bin_result(a: Tensor, b: Tensor, op: BinOp) -> Seq<u32> {
    let rs = result_shape(a, b);
    Seq::new(
        shape_product(rs) as nat,
        |i: int|
            apply_bin(
                op,
                bcast_to(a.spec_f32_data(), a.spec_shape(), rs)[i],
                bcast_to(b.spec_f32_data(), b.spec_shape(), rs)[i],
            ),
    )
}

impl Tensor {
    /// The shared elementwise binary operation: broadcast both operands to
    /// their common shape, then combine them pairwise into a fresh Float32
    /// tensor. Undefined exactly when `bin_ok` fails.
    fn elementwise(&self, other: &Tensor, op: BinOp) -> (r: Tensor)
        requires
            self.wf(),
            other.wf(),
        ensures
            r.wf(),
            r.impl_ is Some <==> bin_ok(*self, *other),
            r.impl_ matches Some(ti) ==> {
                &&& ti.spec_shape() == result_shape(*self, *other)
                &&& ti.spec_strides() == contig_strides(result_shape(*self, *other))
                &&& ti.spec_numel() == shape_product(result_shape(*self, *other))
                &&& ti.spec_offset() == 0
                &&& ti.spec_options() == default_options()
                &&& readable_f32(*ti)
                &&& f32_data(*ti) == bin_result(*self, *other, op)
            },
    {
        let a_impl: &TensorImpl = match &self.impl_ {
            None => {
                return Self::new();
            },
            Some(rc) => rc,
        };
        let b_impl: &TensorImpl = match &other.impl_ {
            None => {
                return Self::new();
            },
            Some(rc) => rc,
        };
        let va = match a_impl.to_list::<u32>() {
            Err(_) => {
                return Self::new();
            },
            Ok(v) => v,
        };
        let vb = match b_impl.to_list::<u32>() {
            Err(_) => {
                return Self::new();
            },
            Ok(v) => v,
        };
        proof {
            lemma_f32_list(va@, a_impl);
            lemma_f32_list(vb@, b_impl);
        }
        let sa = a_impl.shape();
        let sb = b_impl.shape();
        let rs = match crate::tensor::broadcasting::broadcast_shapes(
            sa.as_slice(),
            sb.as_slice(),
        ) {
            Err(_) => {
                return Self::new();
            },
            Ok(v) => v,
        };
        let ghost rsv = result_shape(*self, *other);
        proof {
            assert(rs@ == rsv);
            crate::tensor::broadcasting::lemma_operand_compatible(
                a_impl.spec_shape(),
                b_impl.spec_shape(),
            );
            if bin_ok(*self, *other) {
                if a_impl.spec_shape() != rsv {
                    assert forall|i: int|
                        0 <= i < shape_product(rsv) implies 0 <= #[trigger] bcast_src_index(
                        a_impl.spec_shape(),
                        rsv,
                        i,
                    ) < va@.len() by {
                        crate::tensor::broadcasting::lemma_bcast_src_bound(
                            a_impl.spec_shape(),
                            rsv,
                            i,
                        );
                    }
                }
                if b_impl.spec_shape() != rsv {
                    assert forall|i: int|
                        0 <= i < shape_product(rsv) implies 0 <= #[trigger] bcast_src_index(
                        b_impl.spec_shape(),
                        rsv,
                        i,
                    ) < vb@.len() by {
                        crate::tensor::broadcasting::lemma_bcast_src_bound(
                            b_impl.spec_shape(),
                            rsv,
                            i,
                        );
                    }
                }
                let n = shape_product(rsv);
                assert(n <= n * 4) by (nonlinear_arith)
                    requires
                        n >= 0,
                ;
            }
        }
        let da = match crate::tensor::broadcasting::broadcast_tensor_data(
            va.as_slice(),
            sa.as_slice(),
            rs.as_slice(),
        ) {
            Err(_) => {
                return Self::new();
            },
            Ok(v) => v,
        };
        let db = match crate::tensor::broadcasting::broadcast_tensor_data(
            vb.as_slice(),
            sb.as_slice(),
            rs.as_slice(),
        ) {
            Err(_) => {
                return Self::new();
            },
            Ok(v) => v,
        };
        proof {
            crate::tensor::shape::lemma_product_nonneg(rsv);
            assert(da@ == bcast_to(va@, a_impl.spec_shape(), rsv));
            assert(db@ == bcast_to(vb@, b_impl.spec_shape(), rsv));
            if a_impl.spec_shape() == rsv {
                assert(shape_product(a_impl.spec_shape()) == shape_product(rsv));
            }
            if b_impl.spec_shape() == rsv {
                assert(shape_product(b_impl.spec_shape()) == shape_product(rsv));
            }
            assert(da@.len() == shape_product(rsv));
            assert(db@.len() == shape_product(rsv));
        }
        let n = da.len();
        let mut out: Vec<u32> = Vec::new();
        let mut i: usize = 0;
        while i < n
            invariant
                n == da@.len(),
                n == db@.len(),
                i <= n,
                out@ =~= Seq::new(
                    i as nat,
                    |j: int| apply_bin(op, da@[j], db@[j]),
                ),
            decreases n - i,
        {
            out.push(apply_bin_exec(op, da[i], db[i]));
            i += 1;
        }
        let options = Options::default();
        match TensorImpl::new_from_data(out.as_slice(), rs.as_slice(), options) {
            Ok(impl_) => {
                proof {
                    lemma_f32_data_of_elems(&impl_, out@);
                    if a_impl.spec_shape() != rsv {
                        assert(0 <= bcast_src_index(a_impl.spec_shape(), rsv, 0) < va@.len());
                    }
                    if b_impl.spec_shape() != rsv {
                        assert(0 <= bcast_src_index(b_impl.spec_shape(), rsv, 0) < vb@.len());
                    }
                    assert(va@ == self.spec_f32_data());
                    assert(vb@ == other.spec_f32_data());
                    assert(out@ =~= bin_result(*self, *other, op));
                    assert(bin_ok(*self, *other));
                }
                Self { impl_: Some(Rc::new(impl_)) }
            },
            Err(_) => Self::new(),
        }
    }

    /// Elementwise addition with broadcasting, into a fresh Float32 tensor.
    pub fn add(&self, other: &Tensor) -> (r: Tensor)
        requires
            self.wf(),
            other.wf(),
        ensures
            r.wf(),
            r.impl_ is Some <==> bin_ok(*self, *other),
            r.impl_ matches Some(ti) ==> ti.spec_shape() == result_shape(*self, *other)
                && readable_f32(*ti) && f32_data(*ti) == bin_result(*self, *other, BinOp::Add)
                && ti.spec_strides() == contig_strides(result_shape(*self, *other))
                && ti.spec_options() == default_options() && ti.spec_offset() == 0,
    {
        self.elementwise(other, BinOp::Add)
    }

    /// Elementwise subtraction with broadcasting, into a fresh Float32
    /// tensor.
    pub fn sub(&self, other: &Tensor) -> (r: Tensor)
        requires
            self.wf(),
            other.wf(),
        ensures
            r.wf(),
            r.impl_ is Some <==> bin_ok(*self, *other),
            r.impl_ matches Some(ti) ==> ti.spec_shape() == result_shape(*self, *other)
                && readable_f32(*ti) && f32_data(*ti) == bin_result(*self, *other, BinOp::Sub)
                && ti.spec_strides() == contig_strides(result_shape(*self, *other))
                && ti.spec_options() == default_options() && ti.spec_offset() == 0,
    {
        self.elementwise(other, BinOp::Sub)
    }

    /// Elementwise multiplication with broadcasting, into a fresh Float32
    /// tensor.
    pub fn mul(&self, other: &Tensor) -> (r: Tensor)
        requires
            self.wf(),
            other.wf(),
        ensures
            r.wf(),
            r.impl_ is Some <==> bin_ok(*self, *other),
            r.impl_ matches Some(ti) ==> ti.spec_shape() == result_shape(*self, *other)
                && readable_f32(*ti) && f32_data(*ti) == bin_result(*self, *other, BinOp::Mul)
                && ti.spec_strides() == contig_strides(result_shape(*self, *other))
                && ti.spec_options() == default_options() && ti.spec_offset() == 0,
    {
        self.elementwise(other, BinOp::Mul)
    }

    /// Elementwise division with broadcasting, into a fresh Float32 tensor;
    /// a zero divisor yields 0.0 at that position.
    pub fn div(&self, other: &Tensor) -> (r: Tensor)
        requires
            self.wf(),
            other.wf(),
        ensures
            r.wf(),
            r.impl_ is Some <==> bin_ok(*self, *other),
            r.impl_ matches Some(ti) ==> ti.spec_shape() == result_shape(*self, *other)
                && readable_f32(*ti) && f32_data(*ti) == bin_result(*self, *other, BinOp::Div)
                && ti.spec_strides() == contig_strides(result_shape(*self, *other))
                && ti.spec_options() == default_options() && ti.spec_offset() == 0,
    {
        self.elementwise(other, BinOp::Div)
    }

    /// Elementwise IEEE maxNum with broadcasting, into a fresh Float32
    /// tensor.
    pub fn max_elementwise(&self, other: &Tensor) -> (r: Tensor)
        requires
            self.wf(),
            other.wf(),
        ensures
            r.wf(),
            r.impl_ is Some <==> bin_ok(*self, *other),
            r.impl_ matches Some(ti) ==> ti.spec_shape() == result_shape(*self, *other)
                && readable_f32(*ti) && f32_data(*ti) == bin_result(*self, *other, BinOp::Max)
                && ti.spec_strides() == contig_strides(result_shape(*self, *other))
                && ti.spec_options() == default_options() && ti.spec_offset() == 0,
    {
        self.elementwise(other, BinOp::Max)
    }
}


/// The running inner-product accumulator of one matrix-multiplication
/// entry: the first `t` terms of row `i` of `a` against column `j` of `b`,
/// folded left-to-right with IEEE binary32 addition from +0.0.
pub open spec fn mm_elem(a: Seq<u32>, b: Seq<u32>, kdim: int, n: int, i: int, j: int, t: int) -> u32
    decreases t,
{
    if t <= 0 {
        0u32
    } else {
        crate::fpbits::f32_add(
            mm_elem(a, b, kdim, n, i, j, t - 1),
            crate::fpbits::f32_mul(a[i * kdim + (t - 1)], b[(t - 1) * n + j]),
        )
    }
}

/// The full matrix product data, row-major over an `m` by `n` result.
pub open spec fn mm_data(a: Seq<u32>, b: Seq<u32>, m: int, kdim: int, n: int) -> Seq<u32> {
    Seq::new((m * n) as nat, |p: int| mm_elem(a, b, kdim, n, p / n, p % n, kdim))
}

/// When a 2-D matrix multiplication produces a defined result.
pub open spec fn mm_ok(a: Tensor, b: Tensor) -> bool {
    &&& a.spec_readable_f32()
    &&& b.spec_readable_f32()
    &&& a.spec_shape().len() == 2
    &&& b.spec_shape().len() == 2
    &&& a.spec_shape()[1] == b.spec_shape()[0]
    &&& TensorImpl::can_allocate(
        seq![a.spec_shape()[0], b.spec_shape()[1]],
        default_options(),
    )
}

/// The transposition of row-major `rows` by `cols` data: output position
/// `p` (row-major in the `cols` by `rows` result) reads source row
/// `p % rows`, column `p / rows`.
pub open spec fn transpose_data(data: Seq<u32>, rows: int, cols: int) -> Seq<u32> {
    Seq::new((rows * cols) as nat, |p: int| data[(p % rows) * cols + p / rows])
}

impl Tensor {
    /// 2-D matrix multiplication into a fresh Float32 tensor; undefined on
    /// undefined or unreadable operands, non-2-D shapes, an inner-dimension
    /// mismatch, or an unallocatable result.
    pub fn matmul(&self, other: &Tensor) -> (r: Tensor)
        requires
            self.wf(),
            other.wf(),
        ensures
            r.wf(),
            r.impl_ is Some <==> mm_ok(*self, *other),
            r.impl_ matches Some(ti) ==> {
                &&& ti.spec_shape() == seq![self.spec_shape()[0], other.spec_shape()[1]]
                &&& ti.spec_offset() == 0
                &&& ti.spec_options() == default_options()
                &&& readable_f32(*ti)
                &&& f32_data(*ti) == mm_data(
                    self.spec_f32_data(),
                    other.spec_f32_data(),
                    self.spec_shape()[0] as int,
                    self.spec_shape()[1] as int,
                    other.spec_shape()[1] as int,
                )
            },
    {
        let a_impl: &TensorImpl = match &self.impl_ {
            None => {
                return Self::new();
            },
            Some(rc) => rc,
        };
        let b_impl: &TensorImpl = match &other.impl_ {
            None => {
                return Self::new();
            },
            Some(rc) => rc,
        };
        let sa = a_impl.shape();
        let sb = b_impl.shape();
        if sa.len() != 2 || sb.len() != 2 {
            return Self::new();
        }
        let m = sa[0];
        let kd = sa[1];
        let n = sb[1];
        if kd != sb[0] {
            return Self::new();
        }
        let va = match a_impl.to_list::<u32>() {
            Err(_) => {
                return Self::new();
            },
            Ok(v) => v,
        };
        let vb = match b_impl.to_list::<u32>() {
            Err(_) => {
                return Self::new();
            },
            Ok(v) => v,
        };
        proof {
            lemma_f32_list(va@, a_impl);
            lemma_f32_list(vb@, b_impl);
            lemma_product_pair(a_impl.spec_shape());
            lemma_product_pair(b_impl.spec_shape());
            assert(va@.len() == m * kd);
            assert(vb@.len() == kd * n);
        }
        let mut rshape: Vec<i64> = Vec::new();
        rshape.push(m);
        rshape.push(n);
        proof {
            assert(rshape@ =~= seq![m, n]);
            lemma_product_pair(rshape@);
        }
        proof {
            assert(a_impl.spec_shape()[0] >= 0);
            assert(a_impl.spec_shape()[1] >= 0);
            assert(b_impl.spec_shape()[1] >= 0);
        }
        let total64 = match m.checked_mul(n) {
            None => {
                proof {
                    assert(rshape@.skip(0) =~= rshape@);
                    assert(crate::tensor::shape::suffix_product(rshape@, 0) == shape_product(
                        rshape@,
                    ));
                    assert(shape_product(rshape@) > i64::MAX);
                    assert(!crate::tensor::shape::strides_fit(rshape@));
                }
                return Self::new();
            },
            Some(v) => v,
        };
        proof {
            assert(m * n >= 0) by (nonlinear_arith)
                requires
                    m >= 0,
                    n >= 0,
            ;
        }
        if total64 as u64 > usize::MAX as u64 {
            proof {
                let pr = shape_product(rshape@);
                assert(pr <= pr * 4) by (nonlinear_arith)
                    requires
                        pr >= 0,
                ;
            }
            return Self::new();
        }
        let total = total64 as usize;
        let va_len = va.len();
        let vb_len = vb.len();
        let ghost adata = va@;
        let ghost bdata = vb@;
        proof {
            if total >= 1 {
                assert(m >= 1 && n >= 1) by (nonlinear_arith)
                    requires
                        m * n >= 1,
                        m >= 0,
                        n >= 0,
                ;
                assert(n <= m * n) by (nonlinear_arith)
                    requires
                        m >= 1,
                        n >= 0,
                ;
                assert(kd <= m * kd) by (nonlinear_arith)
                    requires
                        m >= 1,
                        kd >= 0,
                ;
            }
        }
        let mut out: Vec<u32> = Vec::new();
        let mut p: usize = 0;
        while p < total
            invariant
                self.wf(),
                other.wf(),
                total == m * n,
                total <= usize::MAX,
                m >= 0,
                n >= 0,
                kd >= 0,
                total >= 1 ==> 1 <= m && 1 <= n && n <= usize::MAX && kd <= usize::MAX,
                va@ == adata,
                vb@ == bdata,
                adata.len() == m * kd,
                bdata.len() == kd * n,
                adata.len() <= usize::MAX,
                bdata.len() <= usize::MAX,
                p <= total,
                out@ =~= Seq::new(p as nat, |q: int| mm_elem(adata, bdata, kd as int, n as int, q / (n as int), q % (n as int), kd as int)),
            decreases total - p,
        {
            proof {
                assert(n >= 1) by (nonlinear_arith)
                    requires
                        m * n >= 1,
                        n >= 0,
                ;
            }
            let i = p / (n as usize);
            let j = p % (n as usize);
            proof {
                assert(0 <= i < m && 0 <= j < n) by (nonlinear_arith)
                    requires
                        0 <= p < m * n,
                        n >= 1,
                        i == p as int / n as int,
                        j == p as int % n as int,
                ;
            }
            let mut acc: u32 = 0;
            let mut t: usize = 0;
            while t < kd as usize
                invariant
                    va@ == adata,
                    vb@ == bdata,
                    adata.len() == m * kd,
                    bdata.len() == kd * n,
                    adata.len() <= usize::MAX,
                    bdata.len() <= usize::MAX,
                    m >= 1,
                    n >= 1,
                    n <= usize::MAX,
                    kd >= 0,
                    kd <= usize::MAX,
                    0 <= i < m,
                    0 <= j < n,
                    t <= kd,
                    acc == mm_elem(adata, bdata, kd as int, n as int, i as int, j as int, t as int),
                decreases kd - t,
            {
                proof {
                    assert(i * kd + t < m * kd && 0 <= i * kd + t) by (nonlinear_arith)
                        requires
                            0 <= i < m,
                            0 <= t < kd,
                    ;
                    assert(t * n + j < kd * n && 0 <= t * n + j) by (nonlinear_arith)
                        requires
                            0 <= t < kd,
                            0 <= j < n,
                    ;
                }
                let ia = i * (kd as usize) + t;
                let ib = t * (n as usize) + j;
                acc = crate::fpbits::f32_add_bits(
                    acc,
                    crate::fpbits::f32_mul_bits(va[ia], vb[ib]),
                );
                t += 1;
            }
            out.push(acc);
            p += 1;
        }
        let options = Options::default();
        match TensorImpl::new_from_data(out.as_slice(), rshape.as_slice(), options) {
            Ok(impl_) => {
                proof {
                    lemma_f32_data_of_elems(&impl_, out@);
                    assert(out@ =~= mm_data(adata, bdata, m as int, kd as int, n as int));
                }
                Self { impl_: Some(Rc::new(impl_)) }
            },
            Err(_) => Self::new(),
        }
    }

    /// 2-D transposition into a fresh Float32 tensor when called with
    /// dimensions (0, 1); any other dimensions or a non-2-D shape fall back
    /// to a deep copy, as a transposition that silently did nothing.
    /// Undefined on an undefined operand, and on an unreadable or
    /// unallocatable 2-D one.
    pub fn transpose(&self, dim0: i64, dim1: i64) -> (r: Tensor)
        requires
            self.wf(),
        ensures
            r.wf(),
            self.impl_ is None ==> r.impl_ is None,
            ({
                let general = self.spec_shape().len() != 2 || dim0 != 0 || dim1 != 1;
                match self.impl_ {
                    Some(ti) => if general {
                        if ti.spec_storage() is Some {
                            r.impl_ matches Some(rt) && rt.spec_shape() == ti.spec_shape()
                                && rt.spec_storage() == ti.spec_storage() && rt.spec_options()
                                == ti.spec_options()
                        } else {
                            r.impl_ is None
                        }
                    } else {
                        let rows = ti.spec_shape()[0] as int;
                        let cols = ti.spec_shape()[1] as int;
                        &&& (r.impl_ is Some <==> readable_f32(*ti) && TensorImpl::can_allocate(
                            seq![ti.spec_shape()[1], ti.spec_shape()[0]],
                            default_options(),
                        ))
                        &&& (r.impl_ matches Some(rt) ==> {
                            &&& rt.spec_shape() == seq![ti.spec_shape()[1], ti.spec_shape()[0]]
                            &&& rt.spec_offset() == 0
                            &&& rt.spec_options() == default_options()
                            &&& readable_f32(*rt)
                            &&& f32_data(*rt) == transpose_data(f32_data(*ti), rows, cols)
                        })
                    },
                    None => true,
                }
            }),
    {
        let ti: &TensorImpl = match &self.impl_ {
            None => {
                return Self::new();
            },
            Some(rc) => rc,
        };
        let sa = ti.shape();
        if sa.len() != 2 || dim0 != 0 || dim1 != 1 {
            return self.clone();
        }
        let rows = sa[0];
        let cols = sa[1];
        let va = match ti.to_list::<u32>() {
            Err(_) => {
                return Self::new();
            },
            Ok(v) => v,
        };
        proof {
            lemma_f32_list(va@, ti);
            lemma_product_pair(ti.spec_shape());
            assert(va@.len() == rows * cols);
        }
        let mut rshape: Vec<i64> = Vec::new();
        rshape.push(cols);
        rshape.push(rows);
        proof {
            assert(rshape@ =~= seq![cols, rows]);
            lemma_product_pair(rshape@);
        }
        proof {
            assert(ti.spec_shape()[0] >= 0);
            assert(ti.spec_shape()[1] >= 0);
        }
        let total64 = match cols.checked_mul(rows) {
            None => {
                proof {
                    assert(rshape@.skip(0) =~= rshape@);
                    assert(crate::tensor::shape::suffix_product(rshape@, 0) == shape_product(
                        rshape@,
                    ));
                    assert(shape_product(rshape@) > i64::MAX);
                    assert(!crate::tensor::shape::strides_fit(rshape@));
                }
                return Self::new();
            },
            Some(v) => v,
        };
        proof {
            assert(cols * rows >= 0) by (nonlinear_arith)
                requires
                    cols >= 0,
                    rows >= 0,
            ;
        }
        if total64 as u64 > usize::MAX as u64 {
            proof {
                let pr = shape_product(rshape@);
                assert(pr <= pr * 4) by (nonlinear_arith)
                    requires
                        pr >= 0,
                ;
            }
            return Self::new();
        }
        let total = total64 as usize;
        let va_len = va.len();
        let ghost data = va@;
        let mut out: Vec<u32> = Vec::new();
        let mut p: usize = 0;
        proof {
            assert(rows * cols == cols * rows) by (nonlinear_arith);
            if total >= 1 {
                assert(rows >= 1 && cols >= 1) by (nonlinear_arith)
                    requires
                        cols * rows >= 1,
                        rows >= 0,
                        cols >= 0,
                ;
                assert(rows <= cols * rows) by (nonlinear_arith)
                    requires
                        cols >= 1,
                        rows >= 0,
                ;
                assert(cols <= cols * rows) by (nonlinear_arith)
                    requires
                        rows >= 1,
                        cols >= 0,
                ;
            }
        }
        while p < total
            invariant
                total == cols * rows,
                total <= usize::MAX,
                rows >= 0,
                cols >= 0,
                total >= 1 ==> 1 <= rows && 1 <= cols && rows <= usize::MAX && cols <= usize::MAX,
                va@ == data,
                data.len() == rows * cols,
                data.len() <= usize::MAX,
                rows * cols == cols * rows,
                p <= total,
                out@ =~= Seq::new(p as nat, |q: int| data[(q % (rows as int)) * (cols as int) + q / (rows as int)]),
            decreases total - p,
        {
            proof {
                assert(rows >= 1) by (nonlinear_arith)
                    requires
                        cols * rows >= 1,
                        rows >= 0,
                ;
            }
            let j = p / (rows as usize);
            let i = p % (rows as usize);
            proof {
                assert(0 <= j < cols && 0 <= i < rows) by (nonlinear_arith)
                    requires
                        0 <= p < cols * rows,
                        rows >= 1,
                        j == p as int / rows as int,
                        i == p as int % rows as int,
                ;
                assert(i * cols + j < rows * cols && 0 <= i * cols + j) by (nonlinear_arith)
                    requires
                        0 <= i < rows,
                        0 <= j < cols,
                ;
            }
            let idx = i * (cols as usize) + j;
            out.push(va[idx]);
            p += 1;
        }
        let options = Options::default();
        match TensorImpl::new_from_data(out.as_slice(), rshape.as_slice(), options) {
            Ok(impl_) => {
                proof {
                    lemma_f32_data_of_elems(&impl_, out@);
                    assert(out@ =~= transpose_data(data, rows as int, cols as int));
                }
                Self { impl_: Some(Rc::new(impl_)) }
            },
            Err(_) => Self::new(),
        }
    }
}


/// The common difference of an evenly spaced sequence: the span divided by
/// the number of gaps, or 0.0 for a single step.
pub open spec fn linspace_step(start: u32, end: u32, steps: usize) -> u32 {
    if steps > 1 {
        crate::fpbits::f32_div(
            crate::fpbits::f32_sub(end, start),
            crate::fpbits::f32_of_uint((steps - 1) as u64),
        )
    } else {
        0u32
    }
}

/// The evenly spaced values: position `i` holds `start + i * step`, all in
/// IEEE binary32.
pub open spec fn linspace_data(start: u32, end: u32, steps: usize) -> Seq<u32> {
    Seq::new(
        steps as nat,
        |i: int|
            crate::fpbits::f32_add(
                start,
                crate::fpbits::f32_mul(
                    crate::fpbits::f32_of_uint(i as u64),
                    linspace_step(start, end, steps),
                ),
            ),
    )
}

impl Tensor {
    /// A one-dimensional Float32 tensor of `steps` evenly spaced values
    /// from `start` to `end` (both given as bit patterns); undefined when
    /// the step count is zero or not addressable.
    pub fn linspace(start: u32, end: u32, steps: usize) -> (r: Self)
        ensures
            r.wf(),
            r.impl_ is Some <==> steps >= 1 && steps <= i64::MAX && steps * 4 <= usize::MAX,
            r.impl_ matches Some(ti) ==> {
                &&& ti.spec_shape() == seq![steps as i64]
                &&& ti.spec_strides() == contig_strides(seq![steps as i64])
                &&& ti.spec_numel() == steps
                &&& ti.spec_offset() == 0
                &&& ti.spec_options() == default_options()
                &&& readable_f32(*ti)
                &&& f32_data(*ti) == linspace_data(start, end, steps)
            },
    {
        if steps as u64 > 0x7fff_ffff_ffff_ffffu64 {
            return Self::new();
        }
        let step_size: u32 = if steps > 1 {
            crate::fpbits::f32_div_bits(
                crate::fpbits::f32_sub_bits(end, start),
                crate::fpbits::f32_of_uint_bits((steps - 1) as u64),
            )
        } else {
            0
        };
        let mut data: Vec<u32> = Vec::new();
        let mut i: usize = 0;
        while i < steps
            invariant
                i <= steps,
                step_size == linspace_step(start, end, steps),
                data@ =~= linspace_data(start, end, steps).take(i as int),
            decreases steps - i,
        {
            data.push(
                crate::fpbits::f32_add_bits(
                    start,
                    crate::fpbits::f32_mul_bits(
                        crate::fpbits::f32_of_uint_bits(i as u64),
                        step_size,
                    ),
                ),
            );
            proof {
                assert(linspace_data(start, end, steps).take(i + 1) =~= linspace_data(
                    start,
                    end,
                    steps,
                ).take(i as int).push(linspace_data(start, end, steps)[i as int]));
            }
            i += 1;
        }
        let mut shape: Vec<i64> = Vec::new();
        shape.push(steps as i64);
        proof {
            assert(shape@ =~= seq![steps as i64]);
            assert(shape@.drop_first() =~= Seq::<i64>::empty());
            assert(shape_product(shape@) == shape@[0] * shape_product(Seq::<i64>::empty()));
            assert(shape@[0] * 1 == shape@[0]) by (nonlinear_arith);
            assert forall|k: int|
                0 <= k <= shape@.len() implies #[trigger] crate::tensor::shape::suffix_product(
                shape@,
                k,
            ) <= i64::MAX by {
                if k == 0 {
                    assert(shape@.skip(0) =~= shape@);
                } else {
                    assert(shape@.skip(k) =~= Seq::<i64>::empty());
                }
            }
            assert(layout_ok(shape@));
            assert(data@ =~= linspace_data(start, end, steps));
        }
        let options = Options::default();
        match TensorImpl::new_from_data(data.as_slice(), shape.as_slice(), options) {
            Ok(impl_) => {
                proof {
                    lemma_f32_data_of_elems(&impl_, data@);
                }
                Self { impl_: Some(Rc::new(impl_)) }
            },
            Err(_) => Self::new(),
        }
    }
}

/// The storage bytes of a scalar tensor holding the given value.
pub open spec fn spec_scalar_bytes(value: Scalar) -> Seq<u8> {
    match value {
        Scalar::Float32(v) => v.spec_to_bytes(),
        Scalar::Float16(v) => v.spec_to_bytes(),
        Scalar::BFloat16(v) => v.spec_to_bytes(),
        Scalar::Int32(v) => v.spec_to_bytes(),
        Scalar::Int64(v) => v.spec_to_bytes(),
        Scalar::Bool(v) => (if v {
            1u8
        } else {
            0u8
        }).spec_to_bytes(),
    }
}

impl Default for Tensor {
    fn default() -> (r: Self)
        ensures
            r.impl_ is None,
    {
        Self::new()
    }
}

} // verus!
