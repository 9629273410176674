use vstd::prelude::*;
use crate::tensor::Tensor;

verus! {

/// Per-tensor gradient accumulator.
///
/// The state machine has two states: untracked (`requires_grad` false) and
/// tracking (`requires_grad` true, `grad` optionally populated). There is no
/// computation graph: every tensor carrying this metadata is a leaf, and
/// gradients only ever arrive by explicit accumulation.
pub struct AutogradMeta {
    grad: Option<Tensor>,
    requires_grad: bool,
}

impl AutogradMeta {
    pub closed spec fn spec_grad(&self) -> Option<Tensor> {
        self.grad
    }

    pub closed spec fn spec_requires_grad(&self) -> bool {
        self.requires_grad
    }

    pub open spec fn wf(&self) -> bool {
        match self.spec_grad() {
            Some(g) => g.wf(),
            None => true,
        }
    }

    pub fn new() -> (r: Self)
        ensures
            r.spec_grad() is None,
            !r.spec_requires_grad(),
    {
        Self { grad: None, requires_grad: false }
    }

    pub fn grad(&self) -> (r: Option<&Tensor>)
        ensures
            match r {
                Some(g) => self.spec_grad() == Some(*g),
                None => self.spec_grad() is None,
            },
    {
        self.grad.as_ref()
    }

    /// Installs `grad`, replacing any gradient held before.
    pub fn set_grad(&mut self, grad: Tensor)
        ensures
            final(self).spec_grad() == Some(grad),
            final(self).spec_requires_grad() == old(self).spec_requires_grad(),
    {
        self.grad = Some(grad);
    }

    /// Clears the accumulated gradient; the tracking flag is untouched.
    pub fn zero_grad(&mut self)
        ensures
            final(self).spec_grad() is None,
            final(self).spec_requires_grad() == old(self).spec_requires_grad(),
    {
        self.grad = None;
    }

    pub fn requires_grad(&self) -> (r: bool)
        ensures
            r == self.spec_requires_grad(),
    {
        self.requires_grad
    }

    /// Flips the tracking flag. An accumulated gradient is deliberately not
    /// cleared when tracking is switched off: it is carried forward in case
    /// tracking is later re-enabled.
    pub fn set_requires_grad(&mut self, requires_grad: bool)
        ensures
            final(self).spec_requires_grad() == requires_grad,
            final(self).spec_grad() == old(self).spec_grad(),
    {
        self.requires_grad = requires_grad;
    }

    /// Accumulates an incoming gradient: the first gradient is installed as
    /// it is; every further one is added elementwise (with broadcasting)
    /// into the existing gradient, producing a fresh tensor.
    pub fn add_grad(&mut self, grad: Tensor)
        requires
            old(self).wf(),
            grad.wf(),
        ensures
            final(self).wf(),
            final(self).spec_requires_grad() == old(self).spec_requires_grad(),
            old(self).spec_grad() is None ==> final(self).spec_grad() == Some(grad),
            old(self).spec_grad() matches Some(g) ==> (final(self).spec_grad() matches Some(ng)
                && ng.wf() && (ng.impl_ is Some <==> crate::tensor::tensor::bin_ok(g, grad)) && (
            ng.impl_ matches Some(ti) ==> ti.spec_shape()
                == crate::tensor::tensor::result_shape(g, grad)
                && crate::tensor::tensor::f32_data(*ti) == crate::tensor::tensor::bin_result(
                g,
                grad,
                crate::tensor::tensor::BinOp::Add,
            ))),
    {
        match &mut self.grad {
            Some(existing) => {
                let updated = existing.add(&grad);
                *existing = updated;
            },
            None => {
                self.grad = Some(grad);
            },
        }
    }

    /// Accumulates the given gradient exactly when tracking is enabled;
    /// with tracking off the gradient state is left untouched. The incoming
    /// tensor is deep-copied before accumulation.
    pub fn backward(&mut self, grad: &Tensor)
        requires
            old(self).wf(),
            grad.wf(),
        ensures
            final(self).wf(),
            final(self).spec_requires_grad() == old(self).spec_requires_grad(),
            !old(self).spec_requires_grad() ==> *final(self) == *old(self),
            old(self).spec_requires_grad() && old(self).spec_grad() is None ==> (final(self).spec_grad() matches Some(g) && g.wf() && (grad.impl_ is None ==> g.impl_ is None) && (
            grad.impl_ matches Some(gi) ==> (if gi.spec_storage() is Some {
                g.impl_ matches Some(ci) && ci.spec_shape() == gi.spec_shape()
                    && ci.spec_storage() == gi.spec_storage() && ci.spec_options()
                    == gi.spec_options()
            } else {
                g.impl_ is None
            }))),
            old(self).spec_requires_grad() && old(self).spec_grad() is Some ==> final(self).spec_grad() is Some,
            old(self).spec_requires_grad() ==> (old(self).spec_grad() matches Some(g)
                ==> (grad.impl_ matches Some(gi) ==> (gi.spec_storage() is Some ==> (final(self).spec_grad() matches Some(ng) && ng.wf() && (ng.impl_ is Some
                <==> crate::tensor::tensor::bin_ok(g, *grad)) && (ng.impl_ matches Some(ti)
                ==> ti.spec_shape() == crate::tensor::tensor::result_shape(g, *grad)
                && crate::tensor::tensor::f32_data(*ti) == crate::tensor::tensor::bin_result(
                g,
                *grad,
                crate::tensor::tensor::BinOp::Add,
            )))))),
            old(self).spec_requires_grad() ==> (old(self).spec_grad() is Some ==> ((grad.impl_
                is None || (grad.impl_ matches Some(gi) && gi.spec_storage() is None)) ==> (final(self).spec_grad() matches Some(ng) && ng.impl_ is None))),
    {
        if !self.requires_grad {
            return ;
        }
        let copy = grad.clone();
        proof {
            match (&self.grad, &grad.impl_) {
                (Some(g), Some(gi)) => {
                    if gi.spec_storage() is Some {
                        // The deep copy carries the same shape, data,
                        // element count and readability as the incoming
                        // gradient, so the accumulate result is the same
                        // as accumulating the incoming gradient itself.
                        assert(copy.spec_shape() == grad.spec_shape());
                        assert(copy.spec_f32_data() == grad.spec_f32_data());
                        assert(copy.spec_numel() == grad.spec_numel());
                        assert(copy.spec_readable_f32() == grad.spec_readable_f32());
                        assert(crate::tensor::tensor::result_shape(*g, copy)
                            == crate::tensor::tensor::result_shape(*g, *grad));
                        assert(crate::tensor::tensor::bin_ok(*g, copy)
                            == crate::tensor::tensor::bin_ok(*g, *grad));
                        assert(crate::tensor::tensor::bin_result(
                            *g,
                            copy,
                            crate::tensor::tensor::BinOp::Add,
                        ) =~= crate::tensor::tensor::bin_result(
                            *g,
                            *grad,
                            crate::tensor::tensor::BinOp::Add,
                        ));
                    } else {
                        assert(!copy.spec_readable_f32());
                        assert(!crate::tensor::tensor::bin_ok(*g, copy));
                    }
                },
                _ => {},
            }
        }
        self.add_grad(copy);
    }

    /// Every tensor with gradient metadata is a leaf: there is no graph.
    pub fn is_leaf(&self) -> (r: bool)
        ensures
            r == true,
    {
        true
    }
}

impl Default for AutogradMeta {
    fn default() -> (r: Self)
        ensures
            r.spec_grad() is None,
            !r.spec_requires_grad(),
    {
        Self::new()
    }
}

} // verus!
