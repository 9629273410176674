use vstd::prelude::*;
use crate::tensor::Tensor;

verus! {

/// A deep copy of `x` reshaped to `shape`; the copy keeps the old shape
/// when the new one is unusable. See `Tensor::reshape`.
pub fn reshape(x: &Tensor, shape: &[i64]) -> (r: Tensor)
    requires
        x.wf(),
    ensures
        r.wf(),
        x.impl_ is None ==> r.impl_ is None,
        x.impl_ matches Some(ti) ==> (if ti.spec_storage() is Some {
            r.impl_ matches Some(rt) && rt.spec_storage() == ti.spec_storage()
                && rt.spec_numel() == ti.spec_numel()
        } else {
            r.impl_ is None
        }),
{
    x.reshape(shape)
}

/// A deep copy of `x` collapsed to one dimension; see `Tensor::flatten`.
pub fn flatten(x: &Tensor) -> (r: Tensor)
    requires
        x.wf(),
    ensures
        r.wf(),
        x.impl_ is None ==> r.impl_ is None,
        x.impl_ matches Some(ti) ==> (if ti.spec_storage() is Some {
            r.impl_ matches Some(rt) && rt.spec_shape() == seq![ti.spec_numel()]
                && rt.spec_storage() == ti.spec_storage()
        } else {
            r.impl_ is None
        }),
{
    x.flatten()
}

} // verus!
