use vstd::prelude::*;
use std::rc::Rc;
use crate::autograd::AutogradMeta;
use crate::tensor::device::Device;
use crate::tensor::dtype::{DType, Element, bytes_of_elems, check_dtype_match,
    lemma_bytes_of_elems_len, lemma_bytes_of_elems_push};
use crate::tensor::options::Options;
use crate::tensor::shape::{compute_layout, contig_strides, flatten_shape, layout_ok,
    lemma_contig_remove_one, lemma_flatten_layout, lemma_product_append, lemma_product_nonneg,
    lemma_product_positive, lemma_product_push, lemma_product_remove_one, lemma_product_zero,
    lemma_squeeze_layout, lemma_squeeze_push, lemma_squeeze_strides_push, shape_product,
    squeeze_dims, squeeze_strides, strides_fit, valid_dims};
use crate::tensor::storage::Storage;
use vstd::slice::slice_to_vec;

verus! {

/// The concrete tensor view: a shape, strides and element count over a
/// shared `Storage`, together with the construction options and the
/// optional gradient metadata.
///
/// The storage offset is counted in bytes: element `i` of the view lives at
/// byte `storage_offset + i * dtype.size()` of the storage. Every
/// constructor produces offset 0 and a contiguous (row-major) stride
/// vector; only `unsqueeze_` can introduce a stride entry that differs from
/// the freshly computed contiguous one, on a dimension of size 1 where the
/// stride is never used to address an element.
pub struct TensorImpl {
    shape: Vec<i64>,
    strides: Vec<i64>,
    numel: i64,
    storage_offset: i64,
    options: Options,
    storage: Option<Rc<Storage>>,
    pub autograd_meta: Option<AutogradMeta>,
}

impl TensorImpl {
    pub closed spec fn spec_shape(&self) -> Seq<i64> {
        self.shape@
    }

    pub closed spec fn spec_strides(&self) -> Seq<i64> {
        self.strides@
    }

    pub closed spec fn spec_numel(&self) -> i64 {
        self.numel
    }

    pub closed spec fn spec_offset(&self) -> i64 {
        self.storage_offset
    }

    pub closed spec fn spec_options(&self) -> Options {
        self.options
    }

    /// The attached gradient metadata, if any.
    pub closed spec fn spec_meta(&self) -> Option<AutogradMeta> {
        self.autograd_meta
    }

    /// The bytes of the backing storage, if one is attached.
    pub closed spec fn spec_storage(&self) -> Option<Seq<u8>> {
        match self.storage {
            Some(rc) => Some(rc@),
            None => None,
        }
    }

    /// The attached storage, if any, is itself well formed (non-empty, on
    /// the CPU).
    pub closed spec fn spec_storage_wf(&self) -> bool {
        match self.storage {
            Some(rc) => rc.wf(),
            None => true,
        }
    }

    /// The bytes holding this view's elements: `numel * dtype.size()` bytes
    /// starting at the storage offset.
    pub open spec fn spec_data_bytes(&self) -> Seq<u8> {
        self.spec_storage().unwrap().subrange(
            self.spec_offset() as int,
            self.spec_offset() + self.spec_numel() * self.spec_options().dtype.spec_size(),
        )
    }

    pub open spec fn wf(&self) -> bool {
        &&& layout_ok(self.spec_shape())
        &&& self.spec_strides().len() == self.spec_shape().len()
        &&& self.spec_numel() == shape_product(self.spec_shape())
        &&& self.spec_numel() >= 0
        &&& 0 <= self.spec_offset()
        &&& self.spec_storage_wf()
        &&& match self.spec_storage() {
            Some(b) => self.spec_offset() + self.spec_numel()
                * self.spec_options().dtype.spec_size() <= b.len(),
            None => true,
        }
    }

    /// Conditions under which a fresh tensor of this shape can be allocated:
    /// a representable shape with at least one element whose byte size fits
    /// in `usize`, on the CPU.
    pub open spec fn can_allocate(s: Seq<i64>, options: Options) -> bool {
        &&& layout_ok(s)
        &&& shape_product(s) >= 1
        &&& shape_product(s) * options.dtype.spec_size() <= usize::MAX
        &&& options.device.spec_is_cpu()
    }

    /// The gradient metadata a constructor attaches: present exactly when
    /// the options ask for gradient tracking, and initially empty.
    pub open spec fn fresh_meta_for(&self, options: Options) -> bool {
        &&& self.spec_meta() is Some <==> options.requires_grad
        &&& match self.spec_meta() {
            Some(m) => m.spec_grad() is None && !m.spec_requires_grad(),
            None => true,
        }
    }

    /// Allocates a zero-filled tensor of the given shape.
    pub fn new(shape: &[i64], options: Options) -> (r: Result<Self, String>)
        ensures
            r is Ok <==> Self::can_allocate(shape@, options),
            r matches Ok(t) ==> {
                &&& t.wf()
                &&& t.spec_shape() == shape@
                &&& t.spec_strides() == contig_strides(shape@)
                &&& t.spec_numel() == shape_product(shape@)
                &&& t.spec_offset() == 0
                &&& t.spec_options() == options
                &&& t.spec_storage() matches Some(b) && b =~= Seq::new(
                    (shape_product(shape@) * options.dtype.spec_size()) as nat,
                    |i: int| 0u8,
                )
                &&& t.fresh_meta_for(options)
            },
    {
        if shape.len() as u64 > 0x7fff_ffff_ffff_ffffu64 {
            return Err("Tensor shape has too many dimensions".to_owned());
        }
        let shape_vec = slice_to_vec(shape);
        match compute_layout(&shape_vec) {
            None => Err("Invalid tensor shape".to_owned()),
            Some((strides, numel)) => {
                proof {
                    lemma_product_nonneg(shape@);
                }
                let width = options.dtype.size();
                let size64 = match (numel as u64).checked_mul(width as u64) {
                    None => {
                        proof {
                            assert(shape_product(shape@) * options.dtype.spec_size() > u64::MAX);
                        }
                        return Err("Failed to allocate memory".to_owned());
                    },
                    Some(v) => v,
                };
                if size64 > usize::MAX as u64 {
                    proof {
                        assert(shape_product(shape@) * options.dtype.spec_size() > usize::MAX);
                    }
                    return Err("Failed to allocate memory".to_owned());
                }
                {
                    let size = size64 as usize;
                        proof {
                            let n = shape_product(shape@);
                            let w = options.dtype.spec_size();
                            assert(n * w >= 1 <==> n >= 1) by (nonlinear_arith)
                                requires
                                    n >= 0,
                                    1 <= w,
                            ;
                        }
                        match Storage::new(size, options.device) {
                            Err(e) => {
                                proof {
                                    assert(!(size > 0 && options.device.spec_is_cpu()));
                                }
                                Err(e)
                            },
                            Ok(st) => {
                                let autograd_meta = if options.requires_grad_value() {
                                    Some(AutogradMeta::new())
                                } else {
                                    None
                                };
                                Ok(Self {
                                    shape: shape_vec,
                                    strides,
                                    numel,
                                    storage_offset: 0,
                                    options,
                                    storage: Some(Rc::new(st)),
                                    autograd_meta,
                                })
                            },
                        }
                }
            },
        }
    }

    /// Attaches a view to an existing storage without allocating. The
    /// caller is responsible for handing over a storage large enough for
    /// the view, which is expressed here as a precondition.
    pub fn new_with_storage(shape: &[i64], options: Options, storage: Rc<Storage>, offset: i64) -> (r:
        Result<Self, String>)
        requires
            0 <= offset,
            offset + shape_product(shape@) * options.dtype.spec_size() <= storage@.len(),
            storage.wf(),
        ensures
            r is Ok <==> layout_ok(shape@),
            r matches Ok(t) ==> {
                &&& t.wf()
                &&& t.spec_shape() == shape@
                &&& t.spec_strides() == contig_strides(shape@)
                &&& t.spec_numel() == shape_product(shape@)
                &&& t.spec_offset() == offset
                &&& t.spec_options() == options
                &&& t.spec_storage() == Some(storage@)
                &&& t.fresh_meta_for(options)
            },
    {
        if shape.len() as u64 > 0x7fff_ffff_ffff_ffffu64 {
            return Err("Tensor shape has too many dimensions".to_owned());
        }
        let shape_vec = slice_to_vec(shape);
        match compute_layout(&shape_vec) {
            None => Err("Invalid tensor shape".to_owned()),
            Some((strides, numel)) => {
                proof {
                    lemma_product_nonneg(shape@);
                }
                let autograd_meta = if options.requires_grad_value() {
                    Some(AutogradMeta::new())
                } else {
                    None
                };
                Ok(Self {
                    shape: shape_vec,
                    strides,
                    numel,
                    storage_offset: offset,
                    options,
                    storage: Some(storage),
                    autograd_meta,
                })
            },
        }
    }

    /// Builds a tensor of the given shape whose storage holds exactly the
    /// encodings of `data`, in order. Fails on a dtype mismatch, an
    /// unallocatable shape, or when `data` does not hold exactly one value
    /// per element.
    pub fn new_from_data<T: Element>(data: &[T], shape: &[i64], options: Options) -> (r: Result<
        Self,
        String,
    >)
        ensures
            r is Ok <==> T::spec_dtype() == options.dtype && Self::can_allocate(shape@, options)
                && data@.len() == shape_product(shape@),
            r matches Ok(t) ==> {
                &&& t.wf()
                &&& t.spec_shape() == shape@
                &&& t.spec_strides() == contig_strides(shape@)
                &&& t.spec_numel() == shape_product(shape@)
                &&& t.spec_offset() == 0
                &&& t.spec_options() == options
                &&& t.spec_storage() == Some(bytes_of_elems(data@))
                &&& t.fresh_meta_for(options)
            },
    {
        match check_dtype_match::<T>(options.dtype) {
            Err(e) => Err(e),
            Ok(()) => {
                if shape.len() as u64 > 0x7fff_ffff_ffff_ffffu64 {
                    return Err("Tensor shape has too many dimensions".to_owned());
                }
                let shape_vec = slice_to_vec(shape);
                match compute_layout(&shape_vec) {
                    None => Err("Invalid tensor shape".to_owned()),
                    Some((strides, numel)) => {
                        proof {
                            lemma_product_nonneg(shape@);
                        }
                        let width = options.dtype.size();
                        let size64 = match (numel as u64).checked_mul(width as u64) {
                            None => {
                                proof {
                                    assert(shape_product(shape@) * options.dtype.spec_size()
                                        > u64::MAX);
                                }
                                return Err("Failed to allocate memory".to_owned());
                            },
                            Some(v) => v,
                        };
                        if size64 > usize::MAX as u64 {
                            proof {
                                assert(shape_product(shape@) * options.dtype.spec_size()
                                    > usize::MAX);
                            }
                            return Err("Failed to allocate memory".to_owned());
                        }
                        {
                            let size = size64 as usize;
                                proof {
                                    let n = shape_product(shape@);
                                    let w = options.dtype.spec_size();
                                    assert(n * w >= 1 <==> n >= 1) by (nonlinear_arith)
                                        requires
                                            n >= 0,
                                            1 <= w,
                                    ;
                                }
                                match Storage::new(size, options.device) {
                                    Err(e) => {
                                        proof {
                                            assert(!(size > 0 && options.device.spec_is_cpu()));
                                        }
                                        Err(e)
                                    },
                                    Ok(mut st) => {
                                        if data.len() as u64 != numel as u64 {
                                            return Err(
                                                "Data length does not match tensor element count".to_owned(),
                                            );
                                        }
                                        let mut bytes: Vec<u8> = Vec::new();
                                        proof {
                                            assert(bytes_of_elems(data@.take(0))
                                                =~= Seq::<u8>::empty()) by {
                                                assert(data@.take(0).map_values(
                                                    |e: T| e.spec_to_bytes(),
                                                ) =~= Seq::<Seq<u8>>::empty());
                                            }
                                        }
                                        let n = data.len();
                                        let mut i: usize = 0;
                                        while i < n
                                            invariant
                                                i <= n,
                                                n == data@.len(),
                                                n * width == size,
                                                width == T::spec_dtype().spec_size(),
                                                size <= usize::MAX,
                                                bytes@ == bytes_of_elems(data@.take(i as int)),
                                            decreases n - i,
                                        {
                                            proof {
                                                lemma_bytes_of_elems_len::<T>(
                                                    data@.take(i as int),
                                                );
                                                assert(i * width + width == (i + 1) * width)
                                                    by (nonlinear_arith);
                                                assert((i + 1) * width <= n * width)
                                                    by (nonlinear_arith)
                                                    requires
                                                        i + 1 <= n,
                                                        width >= 0,
                                                ;
                                            }
                                            let e = data[i];
                                            e.append_bytes(&mut bytes);
                                            proof {
                                                lemma_bytes_of_elems_push(
                                                    data@.take(i as int),
                                                    data@[i as int],
                                                );
                                                assert(data@.take(i + 1) =~= data@.take(
                                                    i as int,
                                                ).push(data@[i as int]));
                                            }
                                            i += 1;
                                        }
                                        proof {
                                            assert(data@.take(n as int) =~= data@);
                                            lemma_bytes_of_elems_len::<T>(data@);
                                        }
                                        match st.copy_from_slice(bytes.as_slice()) {
                                            Err(e) => Err(e),
                                            Ok(()) => {
                                                proof {
                                                    assert(st@ =~= bytes_of_elems(data@));
                                                }
                                                let autograd_meta = if options.requires_grad_value() {
                                                    Some(AutogradMeta::new())
                                                } else {
                                                    None
                                                };
                                                Ok(Self {
                                                    shape: shape_vec,
                                                    strides,
                                                    numel,
                                                    storage_offset: 0,
                                                    options,
                                                    storage: Some(Rc::new(st)),
                                                    autograd_meta,
                                                })
                                            },
                                        }
                                    },
                                }
                        }
                    },
                }
            },
        }
    }

    pub fn dtype(&self) -> (r: DType)
        ensures
            r == self.spec_options().dtype,
    {
        self.options.dtype
    }

    pub fn device(&self) -> (r: Device)
        ensures
            r == self.spec_options().device,
    {
        self.options.device
    }

    pub fn pinned_memory(&self) -> (r: bool)
        ensures
            r == self.spec_options().pinned_memory,
    {
        self.options.pinned_memory
    }

    pub fn requires_grad(&self) -> (r: bool)
        ensures
            r == self.spec_options().requires_grad,
    {
        self.options.requires_grad
    }

    /// Number of dimensions.
    pub fn dim(&self) -> (r: i64)
        requires
            self.spec_shape().len() <= i64::MAX,
        ensures
            r == self.spec_shape().len(),
    {
        self.shape.len() as i64
    }

    pub fn numel(&self) -> (r: i64)
        ensures
            r == self.spec_numel(),
    {
        self.numel
    }

    pub fn storage_offset(&self) -> (r: i64)
        ensures
            r == self.spec_offset(),
    {
        self.storage_offset
    }

    pub fn is_scalar(&self) -> (r: bool)
        ensures
            r == (self.spec_shape().len() == 0),
    {
        self.shape.len() == 0
    }

    pub fn options(&self) -> (r: &Options)
        ensures
            *r == self.spec_options(),
    {
        &self.options
    }

    /// Mutable access to the options. The caller can change the dtype
    /// underneath the storage through this, so well-formedness must be
    /// re-established by whoever uses it.
    pub fn options_mut(&mut self) -> (r: &mut Options)
        ensures
            *r == old(self).spec_options(),
            final(self).spec_options() == *final(r),
            final(self).spec_shape() == old(self).spec_shape(),
            final(self).spec_strides() == old(self).spec_strides(),
            final(self).spec_numel() == old(self).spec_numel(),
            final(self).spec_offset() == old(self).spec_offset(),
            final(self).spec_storage() == old(self).spec_storage(),
            final(self).spec_storage_wf() == old(self).spec_storage_wf(),
            final(self).spec_meta() == old(self).spec_meta(),
    {
        &mut self.options
    }

    pub fn shape(&self) -> (r: &Vec<i64>)
        ensures
            r@ == self.spec_shape(),
    {
        &self.shape
    }

    pub fn strides(&self) -> (r: &Vec<i64>)
        ensures
            r@ == self.spec_strides(),
    {
        &self.strides
    }

    /// The size of one dimension, counted from the back when negative.
    pub fn shape_at(&self, dim: i64) -> (r: i64)
        requires
            self.spec_shape().len() <= i64::MAX,
            -(self.spec_shape().len() as int) <= dim < self.spec_shape().len(),
        ensures
            r == self.spec_shape()[if dim < 0 {
                dim + self.spec_shape().len()
            } else {
                dim as int
            }],
    {
        let d = self.shape.len() as i64;
        let idx = if dim < 0 {
            dim + d
        } else {
            dim
        };
        self.shape[idx as usize]
    }

    /// The stride of one dimension, counted from the back when negative.
    pub fn stride_at(&self, dim: i64) -> (r: i64)
        requires
            self.spec_shape().len() <= i64::MAX,
            self.spec_strides().len() == self.spec_shape().len(),
            -(self.spec_shape().len() as int) <= dim < self.spec_shape().len(),
        ensures
            r == self.spec_strides()[if dim < 0 {
                dim + self.spec_shape().len()
            } else {
                dim as int
            }],
    {
        let d = self.shape.len() as i64;
        let idx = if dim < 0 {
            dim + d
        } else {
            dim
        };
        self.strides[idx as usize]
    }

    pub fn storage(&self) -> (r: Option<&Rc<Storage>>)
        ensures
            match r {
                Some(st) => self.spec_storage() == Some(st@) && ((**st).wf()
                    <==> self.spec_storage_wf()),
                None => self.spec_storage() is None,
            },
    {
        self.storage.as_ref()
    }

    /// Replaces the backing storage and offset. The caller hands over a
    /// storage large enough for the view, as with `new_with_storage`.
    pub fn set_storage(&mut self, storage: Rc<Storage>, offset: i64)
        requires
            0 <= offset,
            offset + old(self).spec_numel() * old(self).spec_options().dtype.spec_size()
                <= storage@.len(),
            storage.wf(),
        ensures
            final(self).spec_storage() == Some(storage@),
            final(self).spec_offset() == offset,
            final(self).spec_shape() == old(self).spec_shape(),
            final(self).spec_strides() == old(self).spec_strides(),
            final(self).spec_numel() == old(self).spec_numel(),
            final(self).spec_options() == old(self).spec_options(),
            final(self).spec_meta() == old(self).spec_meta(),
            old(self).wf() ==> final(self).wf(),
    {
        self.storage = Some(storage);
        self.storage_offset = offset;
    }

    /// Replaces the shape in place with one holding the same number of
    /// elements, recomputing contiguous strides; no data moves. Fails
    /// exactly when the new shape is not representable or holds a different
    /// element count.
    pub fn reshape_(&mut self, shape: &[i64]) -> (r: Result<(), String>)
        requires
            old(self).wf(),
        ensures
            final(self).wf(),
            r is Ok <==> layout_ok(shape@) && shape_product(shape@) == old(self).spec_numel(),
            r is Ok ==> final(self).spec_shape() == shape@ && final(self).spec_strides()
                == contig_strides(shape@),
            r is Err ==> final(self).spec_shape() == old(self).spec_shape()
                && final(self).spec_strides() == old(self).spec_strides(),
            final(self).spec_numel() == old(self).spec_numel(),
            final(self).spec_offset() == old(self).spec_offset(),
            final(self).spec_options() == old(self).spec_options(),
            final(self).spec_storage() == old(self).spec_storage(),
            final(self).spec_meta() == old(self).spec_meta(),
    {
        if shape.len() as u64 > 0x7fff_ffff_ffff_ffffu64 {
            return Err("Cannot reshape tensor to the requested shape".to_owned());
        }
        let shape_vec = slice_to_vec(shape);
        match compute_layout(&shape_vec) {
            None => Err("Cannot reshape tensor to the requested shape".to_owned()),
            Some((strides, new_numel)) => {
                if new_numel != self.numel {
                    return Err("Cannot reshape tensor to a different element count".to_owned());
                }
                self.shape = shape_vec;
                self.strides = strides;
                Ok(())
            },
        }
    }

    /// Collapses the contiguous dimension range `start_dim..=end_dim`
    /// (negative positions count from the back) into a single dimension,
    /// recomputing contiguous strides; no data moves. Fails on out-of-range
    /// or inverted bounds, or when the collapsed dimension size would not
    /// fit in an `i64`.
    pub fn flatten_(&mut self, start_dim: i64, end_dim: i64) -> (r: Result<(), String>)
        requires
            old(self).wf(),
        ensures
            final(self).wf(),
            ({
                let len = old(self).spec_shape().len() as int;
                let a = if start_dim < 0 {
                    start_dim + len
                } else {
                    start_dim as int
                };
                let b = if end_dim < 0 {
                    end_dim + len
                } else {
                    end_dim as int
                };
                &&& (r is Ok <==> 0 <= a <= b < len && shape_product(
                    old(self).spec_shape().subrange(a, b + 1),
                ) <= i64::MAX)
                &&& (r is Ok ==> final(self).spec_shape() == flatten_shape(
                    old(self).spec_shape(),
                    a,
                    b,
                ) && final(self).spec_strides() == contig_strides(final(self).spec_shape()))
                &&& (r is Err ==> final(self).spec_shape() == old(self).spec_shape()
                    && final(self).spec_strides() == old(self).spec_strides())
            }),
            final(self).spec_numel() == old(self).spec_numel(),
            final(self).spec_offset() == old(self).spec_offset(),
            final(self).spec_options() == old(self).spec_options(),
            final(self).spec_storage() == old(self).spec_storage(),
            final(self).spec_meta() == old(self).spec_meta(),
    {
        let d = self.shape.len() as i64;
        let start = if start_dim < 0 {
            start_dim + d
        } else {
            start_dim
        };
        let end = if end_dim < 0 {
            end_dim + d
        } else {
            end_dim
        };
        if start < 0 || end >= d || start > end {
            return Err("Invalid flatten dimensions".to_owned());
        }
        let a = start as usize;
        let b = end as usize;
        let shape_len = self.shape.len();
        let ghost mid_seq = self.shape@.subrange(a as int, b + 1);

        // The collapsed dimension size: zero if any dimension in the range
        // is zero, else the (overflow-checked) product of the range.
        let mut has_zero = false;
        let mut i: usize = a;
        while i <= b
            invariant
                old(self).wf(),
                self == old(self),
                a <= i <= b + 1,
                b < shape_len,
                shape_len == self.shape@.len(),
                mid_seq == self.shape@.subrange(a as int, b + 1),
                has_zero ==> exists|j: int| a <= j <= b && self.shape@[j] == 0,
                !has_zero ==> forall|j: int| a <= j < i ==> self.shape@[j] != 0,
            decreases b + 1 - i,
        {
            if self.shape[i] == 0 {
                has_zero = true;
                proof {
                    assert(a <= i <= b && self.shape@[i as int] == 0);
                }
            }
            i += 1;
        }
        let mut flat: i64 = 1;
        if has_zero {
            flat = 0;
            proof {
                let j = choose|j: int| a <= j <= b && self.shape@[j] == 0;
                assert(mid_seq[j - a] == 0);
                lemma_product_zero(mid_seq, j - a);
            }
        } else {
            proof {
                assert(forall|j: int|
                    0 <= j < mid_seq.len() ==> #[trigger] mid_seq[j] == self.shape@[a + j]);
                assert(forall|j: int| 0 <= j < mid_seq.len() ==> #[trigger] mid_seq[j] >= 1);
                assert(mid_seq.subrange(0, 0) =~= Seq::<i64>::empty());
            }
            let mut i: usize = a;
            while i <= b
                invariant
                    old(self).wf(),
                    self == old(self),
                    a <= i <= b + 1,
                    b < shape_len,
                    shape_len == self.shape@.len(),
                    a as int == (if start_dim < 0 { start_dim + shape_len as int } else { start_dim as int }),
                    b as int == (if end_dim < 0 { end_dim + shape_len as int } else { end_dim as int }),
                    mid_seq == self.shape@.subrange(a as int, b + 1),
                    forall|j: int| 0 <= j < mid_seq.len() ==> #[trigger] mid_seq[j] >= 1,
                    flat == shape_product(mid_seq.subrange(0, i - a)),
                    flat >= 1,
                decreases b + 1 - i,
            {
                let ghost done = mid_seq.subrange(0, i - a);
                let ghost step = mid_seq.subrange(0, i + 1 - a);
                let x = self.shape[i];
                proof {
                    assert(mid_seq[i - a] == self.shape@[i as int]);
                    assert(step =~= done.push(mid_seq[i - a]));
                    lemma_product_push(done, mid_seq[i - a]);
                    assert(flat * x >= 1) by (nonlinear_arith)
                        requires
                            flat >= 1,
                            x >= 1,
                    ;
                }
                match flat.checked_mul(x) {
                    None => {
                        proof {
                            let rest = mid_seq.subrange(i + 1 - a, mid_seq.len() as int);
                            assert(mid_seq =~= step + rest);
                            lemma_product_append(step, rest);
                            assert(forall|j: int|
                                0 <= j < rest.len() ==> #[trigger] rest[j] == mid_seq[
                                    j + (i + 1 - a)
                                ]);
                            lemma_product_positive(rest);
                            let pp = shape_product(step);
                            let q = shape_product(rest);
                            assert(pp > i64::MAX);
                            assert(pp * q >= pp) by (nonlinear_arith)
                                requires
                                    pp >= 0,
                                    q >= 1,
                            ;
                            assert(shape_product(mid_seq) > i64::MAX);
                        }
                        return Err("Invalid flatten dimensions".to_owned());
                    },
                    Some(v) => {
                        flat = v;
                    },
                }
                i += 1;
            }
            proof {
                assert(mid_seq.subrange(0, b + 1 - a) =~= mid_seq);
            }
        }
        proof {
            assert(flat == shape_product(mid_seq));
        }

        let mut new_shape: Vec<i64> = Vec::new();
        let mut i: usize = 0;
        while i < a
            invariant
                old(self).wf(),
                self == old(self),
                a < shape_len,
                shape_len == self.shape@.len(),
                i <= a,
                new_shape@ == self.shape@.subrange(0, i as int),
            decreases a - i,
        {
            new_shape.push(self.shape[i]);
            proof {
                assert(self.shape@.subrange(0, i + 1) =~= self.shape@.subrange(0, i as int).push(
                    self.shape@[i as int],
                ));
            }
            i += 1;
        }
        new_shape.push(flat);
        proof {
            assert(new_shape@ =~= self.shape@.subrange(0, a as int) + seq![flat]
                + self.shape@.subrange(b + 1, b + 1));
        }
        let mut i: usize = b + 1;
        while i < shape_len
            invariant
                old(self).wf(),
                self == old(self),
                b + 1 <= i <= shape_len,
                a <= b < shape_len,
                shape_len == self.shape@.len(),
                flat == shape_product(mid_seq),
                mid_seq == self.shape@.subrange(a as int, b + 1),
                new_shape@ == self.shape@.subrange(0, a as int) + seq![flat]
                    + self.shape@.subrange(b + 1, i as int),
            decreases shape_len - i,
        {
            new_shape.push(self.shape[i]);
            proof {
                assert(self.shape@.subrange(b + 1, i + 1) =~= self.shape@.subrange(
                    b + 1,
                    i as int,
                ).push(self.shape@[i as int]));
                assert(new_shape@ =~= self.shape@.subrange(0, a as int) + seq![flat]
                    + self.shape@.subrange(b + 1, i + 1));
            }
            i += 1;
        }
        proof {
            assert(new_shape@ =~= flatten_shape(self.shape@, a as int, b as int));
            lemma_flatten_layout(self.shape@, a as int, b as int);
        }
        match compute_layout(&new_shape) {
            None => {
                proof {
                    assert(false);
                }
                Err("Invalid flatten dimensions".to_owned())
            },
            Some((strides, new_numel)) => {
                proof {
                    assert(new_numel == shape_product(self.shape@));
                }
                self.shape = new_shape;
                self.strides = strides;
                Ok(())
            },
        }
    }

    /// Removes dimensions of size 1: the given one (if its size is 1), or
    /// all of them when no dimension is given. The stride entries of the
    /// removed dimensions are dropped alongside.
    pub fn squeeze_(&mut self, dim: Option<i64>) -> (r: Result<(), String>)
        requires
            old(self).wf(),
        ensures
            final(self).wf(),
            final(self).spec_numel() == old(self).spec_numel(),
            final(self).spec_offset() == old(self).spec_offset(),
            final(self).spec_options() == old(self).spec_options(),
            final(self).spec_storage() == old(self).spec_storage(),
            final(self).spec_meta() == old(self).spec_meta(),
            match dim {
                Some(d) => {
                    let len = old(self).spec_shape().len() as int;
                    let idx = if d < 0 {
                        d + len
                    } else {
                        d as int
                    };
                    &&& (r is Ok <==> -len <= d < len)
                    &&& (r is Ok && old(self).spec_shape()[idx] == 1 ==> final(self).spec_shape()
                        == old(self).spec_shape().remove(idx) && final(self).spec_strides() == old(self).spec_strides().remove(idx))
                    &&& (r is Ok && old(self).spec_shape()[idx] != 1 ==> final(self).spec_shape()
                        == old(self).spec_shape() && final(self).spec_strides() == old(self).spec_strides())
                    &&& (r is Err ==> final(self).spec_shape() == old(self).spec_shape() && final(self).spec_strides() == old(self).spec_strides())
                },
                None => r is Ok && final(self).spec_shape() == squeeze_dims(old(self).spec_shape())
                    && final(self).spec_strides() == squeeze_strides(
                    old(self).spec_shape(),
                    old(self).spec_strides(),
                ),
            },
    {
        match dim {
            Some(d) => {
                let len = self.shape.len() as i64;
                let idx_i = if d < 0 {
                    d + len
                } else {
                    d
                };
                if idx_i < 0 || idx_i >= len {
                    return Err("Dimension out of range".to_owned());
                }
                let idx = idx_i as usize;
                if self.shape[idx] == 1 {
                    proof {
                        lemma_product_remove_one(self.shape@, idx as int);
                        lemma_contig_remove_one(self.shape@, idx as int);
                    }
                    self.shape.remove(idx);
                    self.strides.remove(idx);
                }
                Ok(())
            },
            None => {
                let ghost orig_shape = self.shape@;
                let ghost orig_strides = self.strides@;
                let mut i: usize = 0;
                let ghost c: int = 0;
                proof {
                    assert(orig_shape.take(0) =~= Seq::<i64>::empty());
                    assert(orig_strides.take(0) =~= Seq::<i64>::empty());
                    assert(squeeze_dims(Seq::<i64>::empty()) =~= Seq::<i64>::empty());
                    assert(squeeze_strides(Seq::<i64>::empty(), Seq::<i64>::empty())
                        =~= Seq::<i64>::empty());
                    assert(self.shape@ =~= squeeze_dims(orig_shape.take(0)) + orig_shape.skip(0));
                    assert(self.strides@ =~= squeeze_strides(
                        orig_shape.take(0),
                        orig_strides.take(0),
                    ) + orig_strides.skip(0));
                }
                while i < self.shape.len()
                    invariant
                        orig_shape.len() == orig_strides.len(),
                        0 <= c <= orig_shape.len(),
                        i == squeeze_dims(orig_shape.take(c)).len(),
                        squeeze_strides(orig_shape.take(c), orig_strides.take(c)).len() == i,
                        self.shape@ == squeeze_dims(orig_shape.take(c)) + orig_shape.skip(c),
                        self.strides@ == squeeze_strides(orig_shape.take(c), orig_strides.take(c))
                            + orig_strides.skip(c),
                        self.numel == old(self).spec_numel(),
                        self.storage_offset == old(self).spec_offset(),
                        self.options == old(self).spec_options(),
                        self.storage == old(self).storage,
                        self.autograd_meta == old(self).autograd_meta,
                        i >= self.shape@.len() ==> c == orig_shape.len(),
                    decreases orig_shape.len() - c,
                {
                    proof {
                        assert(c < orig_shape.len());
                        assert(self.shape@[i as int] == orig_shape[c]);
                        assert(self.strides@[i as int] == orig_strides[c]);
                        assert(orig_shape.take(c + 1) =~= orig_shape.take(c).push(orig_shape[c]));
                        assert(orig_strides.take(c + 1) =~= orig_strides.take(c).push(
                            orig_strides[c],
                        ));
                        lemma_squeeze_push(orig_shape.take(c), orig_shape[c]);
                        lemma_squeeze_strides_push(
                            orig_shape.take(c),
                            orig_strides.take(c),
                            orig_shape[c],
                            orig_strides[c],
                        );
                    }
                    if self.shape[i] == 1 {
                        self.shape.remove(i);
                        self.strides.remove(i);
                        proof {
                            assert(self.shape@ =~= squeeze_dims(orig_shape.take(c + 1))
                                + orig_shape.skip(c + 1));
                            assert(self.strides@ =~= squeeze_strides(
                                orig_shape.take(c + 1),
                                orig_strides.take(c + 1),
                            ) + orig_strides.skip(c + 1));
                        }
                    } else {
                        proof {
                            assert(self.shape@ =~= squeeze_dims(orig_shape.take(c + 1))
                                + orig_shape.skip(c + 1));
                            assert(self.strides@ =~= squeeze_strides(
                                orig_shape.take(c + 1),
                                orig_strides.take(c + 1),
                            ) + orig_strides.skip(c + 1));
                        }
                        i += 1;
                    }
                    proof {
                        c = c + 1;
                    }
                }
                proof {
                    assert(c == orig_shape.len());
                    assert(orig_shape.take(c) =~= orig_shape);
                    assert(orig_strides.take(c) =~= orig_strides);
                    assert(orig_shape.skip(c) =~= Seq::<i64>::empty());
                    assert(orig_strides.skip(c) =~= Seq::<i64>::empty());
                    assert(self.shape@ =~= squeeze_dims(orig_shape));
                    assert(self.strides@ =~= squeeze_strides(orig_shape, orig_strides));
                    lemma_squeeze_layout(orig_shape);
                }
                Ok(())
            },
        }
    }

    /// Inserts a dimension of size 1 at the given position (counted with
    /// the new dimension included when negative). The inserted stride entry
    /// is the one its right neighbor had, or 1 at the end.
    pub fn unsqueeze_(&mut self, dim: i64) -> (r: Result<(), String>)
        requires
            old(self).wf(),
        ensures
            final(self).wf(),
            final(self).spec_numel() == old(self).spec_numel(),
            final(self).spec_offset() == old(self).spec_offset(),
            final(self).spec_options() == old(self).spec_options(),
            final(self).spec_storage() == old(self).spec_storage(),
            final(self).spec_meta() == old(self).spec_meta(),
            ({
                let len = old(self).spec_shape().len() as int;
                let idx = if dim < 0 {
                    dim + len + 1
                } else {
                    dim as int
                };
                &&& (r is Ok <==> 0 <= idx <= len && len + 1 <= i64::MAX)
                &&& (r is Ok ==> final(self).spec_shape() == old(self).spec_shape().insert(
                    idx,
                    1i64,
                ) && final(self).spec_strides() == old(self).spec_strides().insert(
                    idx,
                    if idx == len {
                        1i64
                    } else {
                        old(self).spec_strides()[idx]
                    },
                ))
                &&& (r is Err ==> final(self).spec_shape() == old(self).spec_shape() && final(self).spec_strides() == old(self).spec_strides())
            }),
    {
        if self.shape.len() as u64 + 1 > 0x7fff_ffff_ffff_ffffu64 {
            return Err("Dimension out of range".to_owned());
        }
        let len = self.shape.len() as i64;
        let idx_i = if dim < 0 {
            dim + len + 1
        } else {
            dim
        };
        if idx_i < 0 || idx_i > len {
            return Err("Dimension out of range".to_owned());
        }
        let idx = idx_i as usize;
        proof {
            crate::tensor::shape::lemma_insert_one_dims(self.shape@, idx as int);
        }
        self.shape.insert(idx, 1);
        let stride = if idx == self.strides.len() {
            1
        } else {
            self.strides[idx]
        };
        self.strides.insert(idx, stride);
        Ok(())
    }

    /// Copies the elements out as a vector of the carrier type `T`. Fails
    /// exactly on a dtype mismatch, a non-CPU device, or a missing storage.
    pub fn to_list<T: Element>(&self) -> (r: Result<Vec<T>, String>)
        requires
            self.wf(),
        ensures
            r is Ok <==> T::spec_dtype() == self.spec_options().dtype
                && self.spec_options().device.spec_is_cpu() && self.spec_storage() is Some,
            r matches Ok(v) ==> {
                &&& v@.len() == self.spec_numel()
                &&& forall|i: int|
                    0 <= i < v@.len() ==> (#[trigger] v@[i]).spec_to_bytes()
                        == self.spec_storage().unwrap().subrange(
                        self.spec_offset() + i * T::spec_dtype().spec_size(),
                        self.spec_offset() + (i + 1) * T::spec_dtype().spec_size(),
                    )
            },
    {
        match check_dtype_match::<T>(self.options.dtype) {
            Err(e) => {
                return Err(e);
            },
            Ok(()) => {},
        }
        if !self.options.device.is_cpu() {
            return Err("CUDA tensor to_list not yet implemented".to_owned());
        }
        let rc = match &self.storage {
            None => {
                return Err("Null data pointer".to_owned());
            },
            Some(rc) => rc,
        };
        let buf = rc.bytes();
        let buf_len = buf.len();
        let width = self.options.dtype.size();
        let ghost w = T::spec_dtype().spec_size();
        proof {
            let nn = self.spec_numel() as int;
            assert(nn <= nn * w) by (nonlinear_arith)
                requires
                    nn >= 0,
                    w >= 1,
            ;
            assert(self.spec_offset() + self.spec_numel() * w <= buf_len);
        }
        let n = self.numel as usize;
        let off = self.storage_offset as usize;
        let mut out: Vec<T> = Vec::new();
        let mut i: usize = 0;
        let mut pos: usize = off;
        while i < n
            invariant
                self.wf(),
                T::spec_dtype() == self.spec_options().dtype,
                width == w,
                w == T::spec_dtype().spec_size(),
                n == self.spec_numel(),
                off == self.spec_offset(),
                buf@ == self.spec_storage().unwrap(),
                buf_len == buf@.len(),
                off + n * w <= buf_len,
                i <= n,
                pos == off + i * w,
                out@.len() == i,
                forall|j: int|
                    0 <= j < i ==> (#[trigger] out@[j]).spec_to_bytes() == buf@.subrange(
                        off + j * w,
                        off + (j + 1) * w,
                    ),
            decreases n - i,
        {
            proof {
                assert((i + 1) * w == i * w + w) by (nonlinear_arith);
                assert((i + 1) * w <= n * w) by (nonlinear_arith)
                    requires
                        i + 1 <= n,
                        w >= 0,
                ;
            }
            let e = T::read_at(buf.as_slice(), pos);
            out.push(e);
            pos += width;
            i += 1;
        }
        Ok(out)
    }

    /// Copies out the single element of a one-element tensor. Fails when
    /// the tensor holds more or fewer elements, and otherwise exactly as
    /// `to_list` does.
    pub fn item<T: Element>(&self) -> (r: Result<T, String>)
        requires
            self.wf(),
        ensures
            r is Ok <==> self.spec_numel() == 1 && T::spec_dtype() == self.spec_options().dtype
                && self.spec_options().device.spec_is_cpu() && self.spec_storage() is Some,
            r matches Ok(v) ==> v.spec_to_bytes() == self.spec_storage().unwrap().subrange(
                self.spec_offset() as int,
                self.spec_offset() + T::spec_dtype().spec_size(),
            ),
    {
        if self.numel != 1 {
            return Err("item() can only be called on tensors with exactly one element".to_owned());
        }
        match check_dtype_match::<T>(self.options.dtype) {
            Err(e) => {
                return Err(e);
            },
            Ok(()) => {},
        }
        if !self.options.device.is_cpu() {
            return Err("CUDA tensor item not yet implemented".to_owned());
        }
        let rc = match &self.storage {
            None => {
                return Err("Null data pointer".to_owned());
            },
            Some(rc) => rc,
        };
        let buf = rc.bytes();
        let buf_len = buf.len();
        let ghost w = T::spec_dtype().spec_size();
        proof {
            assert(self.spec_numel() * w == w) by (nonlinear_arith)
                requires
                    self.spec_numel() == 1,
            ;
            assert(self.spec_offset() + w <= buf_len);
        }
        let off = self.storage_offset as usize;
        let e = T::read_at(buf.as_slice(), off);
        Ok(e)
    }

    /// Switches gradient tracking on or off. Turning it on installs fresh
    /// metadata when none is attached; turning it off keeps any accumulated
    /// gradient, in case tracking is later re-enabled.
    pub fn set_requires_grad(&mut self, requires_grad: bool)
        ensures
            final(self).spec_shape() == old(self).spec_shape(),
            final(self).spec_strides() == old(self).spec_strides(),
            final(self).spec_numel() == old(self).spec_numel(),
            final(self).spec_offset() == old(self).spec_offset(),
            final(self).spec_options() == old(self).spec_options(),
            final(self).spec_storage() == old(self).spec_storage(),
            old(self).spec_meta() is None && !requires_grad ==> final(self).spec_meta() is None,
            old(self).spec_meta() is None && requires_grad ==> (final(self).spec_meta() matches Some(
                m,
            ) && m.spec_requires_grad() == requires_grad && m.spec_grad() is None),
            old(self).spec_meta() matches Some(om) ==> (final(self).spec_meta() matches Some(m)
                && m.spec_requires_grad() == requires_grad && m.spec_grad() == om.spec_grad()),
            old(self).wf() ==> final(self).wf(),
    {
        if requires_grad && self.autograd_meta.is_none() {
            self.autograd_meta = Some(AutogradMeta::new());
        }
        match &mut self.autograd_meta {
            Some(m) => {
                m.set_requires_grad(requires_grad);
            },
            None => {},
        }
    }
}

impl Default for TensorImpl {
    /// An empty placeholder view: no storage, no elements. Note that such a
    /// view is not well formed (its element count is 0 while the empty
    /// shape's product is 1); it only serves as an inert default value.
    fn default() -> (r: Self)
        ensures
            r.spec_shape() == Seq::<i64>::empty(),
            r.spec_strides() == Seq::<i64>::empty(),
            r.spec_numel() == 0,
            r.spec_offset() == 0,
            r.spec_options() == crate::tensor::options::default_options(),
            r.spec_storage() is None,
            r.spec_meta() is None,
    {
        Self {
            shape: Vec::new(),
            strides: Vec::new(),
            numel: 0,
            storage_offset: 0,
            options: Options::default(),
            storage: None,
            autograd_meta: None,
        }
    }
}

} // verus!
