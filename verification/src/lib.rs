pub mod fpbits;
pub mod tensor;
pub mod autograd;
pub mod data;
pub mod functions;
pub mod operations;
pub mod serialization;

pub use tensor::{
    Array1d, Array2d, Array3d, DType, Device, DeviceIndex, DeviceType, Dim2D, Element,
    MAX_TENSOR_DIM, Options, Scalar, Storage, Tensor, TensorImpl, check_dtype_match, flatten_2d,
    flatten_3d,
};
pub use autograd::AutogradMeta;
