use vstd::prelude::*;
use crate::tensor::Tensor;
use crate::tensor::options::default_options;
use crate::tensor::tensor_impl::TensorImpl;

verus! {

/// The rectifier; see `crate::autograd::function::relu`.
pub fn relu(x: &Tensor) -> (r: Tensor)
    requires
        x.wf(),
    ensures
        r.wf(),
        r.impl_ is Some <==> x.spec_readable_f32() && TensorImpl::can_allocate(
            x.spec_shape(),
            default_options(),
        ),
        r.impl_ matches Some(ti) ==> ti.spec_shape() == x.spec_shape()
            && crate::tensor::tensor::f32_data(*ti) == Seq::new(
            x.spec_numel() as nat,
            |i: int| crate::fpbits::f32_max(x.spec_f32_data()[i], 0u32),
        ),
{
    crate::autograd::function::relu(x)
}

} // verus!
