pub mod broadcasting;
pub mod device;
pub mod dtype;
pub mod options;
pub mod scalar;
pub mod shape;
pub mod storage;
pub mod tensor;
pub mod tensor_impl;

pub use broadcasting::{back_dim, bcast_rec, bcast_src_index, broadcast_data_ok, broadcast_shape,
    broadcast_shapes, broadcast_tensor_data, compatible, is_broadcastable,
    lemma_bcast_src_bound, lemma_broadcast_symmetric, max_dims};
pub use device::{Device, DeviceIndex, DeviceType};
pub use options::{Options, default_options};
pub use scalar::Scalar;
pub use storage::Storage;
pub use tensor::Tensor;
pub use tensor_impl::TensorImpl;
pub use shape::{
    compute_layout, contig_strides, flatten_shape, layout_ok, shape_product, squeeze_dims,
    squeeze_strides, strides_fit, suffix_product, valid_dims, lemma_flatten_layout,
    lemma_product_append, lemma_product_push, lemma_squeeze_layout,
    lemma_fits_of_positive, lemma_positive_product_positive_dims, lemma_product_nonneg,
    lemma_product_pair, lemma_suffix_end, lemma_suffix_le_product, lemma_suffix_nonneg,
    lemma_suffix_step,
};
pub use dtype::{
    Array1d, Array2d, Array3d, DType, Dim2D, Element, MAX_TENSOR_DIM, bytes_of_elems,
    check_dtype_match, flatten_2d, flatten_3d, lemma_bytes_of_elems_index,
    lemma_bytes_of_elems_len, lemma_bytes_of_elems_push, spec_flatten_2d, spec_flatten_3d,
};
