use vstd::prelude::*;
use crate::tensor::tensor::{BinOp, Tensor, bin_ok, bin_result, f32_data, lemma_f32_data_of_elems,
    lemma_f32_list, readable_f32, result_shape};
use crate::tensor::tensor_impl::TensorImpl;
use crate::tensor::options::{Options, default_options};
use crate::tensor::shape::{contig_strides, shape_product};
use std::rc::Rc;

verus! {

/// A differentiable operation: a forward computation over operand tensors
/// and a backward rule distributing an incoming gradient to them. The
/// backward rules here are leaf-level stubs, since no computation graph is
/// built.
pub trait Function {
    fn forward(&self, inputs: &[Tensor]) -> (r: Tensor)
        requires
            forall|i: int| 0 <= i < inputs@.len() ==> (#[trigger] inputs@[i]).wf(),
        ensures
            r.wf(),
    ;

    fn backward(&self, grad_output: &Tensor) -> (r: Vec<Tensor>)
        requires
            grad_output.wf(),
        ensures
            forall|i: int| 0 <= i < r@.len() ==> (#[trigger] r@[i]).wf(),
    ;
}

/// Elementwise addition as a two-operand `Function`.
pub struct AddFunction;

impl Function for AddFunction {
    fn forward(&self, inputs: &[Tensor]) -> (r: Tensor) {
        if inputs.len() != 2 {
            return Tensor::new();
        }
        inputs[0].add(&inputs[1])
    }

    /// Addition passes an incoming gradient through to both operands.
    fn backward(&self, grad_output: &Tensor) -> (r: Vec<Tensor>) {
        let mut out: Vec<Tensor> = Vec::new();
        out.push(grad_output.share());
        out.push(grad_output.share());
        out
    }
}

/// Elementwise multiplication as a two-operand `Function`.
pub struct MulFunction;

impl MulFunction {
    /// No operands are retained between forward and backward: there is no
    /// graph to keep them alive.
    fn get_saved_inputs(&self) -> (r: Option<Vec<Tensor>>)
        ensures
            r is None,
    {
        None
    }
}

impl Function for MulFunction {
    fn forward(&self, inputs: &[Tensor]) -> (r: Tensor) {
        if inputs.len() != 2 {
            return Tensor::new();
        }
        inputs[0].mul(&inputs[1])
    }

    /// Without saved operands, multiplication also passes the incoming
    /// gradient through to both positions.
    fn backward(&self, grad_output: &Tensor) -> (r: Vec<Tensor>) {
        match self.get_saved_inputs() {
            Some(_) => {
                let mut out: Vec<Tensor> = Vec::new();
                out.push(grad_output.share());
                out.push(grad_output.share());
                out
            },
            None => {
                let mut out: Vec<Tensor> = Vec::new();
                out.push(grad_output.share());
                out.push(grad_output.share());
                out
            },
        }
    }
}

/// Elementwise subtraction with broadcasting; see `Tensor::sub`.
pub fn sub(a: &Tensor, b: &Tensor) -> (r: Tensor)
    requires
        a.wf(),
        b.wf(),
    ensures
        r.wf(),
        r.impl_ is Some <==> bin_ok(*a, *b),
        r.impl_ matches Some(ti) ==> ti.spec_shape() == result_shape(*a, *b) && f32_data(*ti)
            == bin_result(*a, *b, BinOp::Sub),
{
    a.sub(b)
}

/// Elementwise multiplication with broadcasting; see `Tensor::mul`.
pub fn mul(a: &Tensor, b: &Tensor) -> (r: Tensor)
    requires
        a.wf(),
        b.wf(),
    ensures
        r.wf(),
        r.impl_ is Some <==> bin_ok(*a, *b),
        r.impl_ matches Some(ti) ==> ti.spec_shape() == result_shape(*a, *b) && f32_data(*ti)
            == bin_result(*a, *b, BinOp::Mul),
{
    a.mul(b)
}

/// Elementwise division with broadcasting; see `Tensor::div`.
pub fn div(a: &Tensor, b: &Tensor) -> (r: Tensor)
    requires
        a.wf(),
        b.wf(),
    ensures
        r.wf(),
        r.impl_ is Some <==> bin_ok(*a, *b),
        r.impl_ matches Some(ti) ==> ti.spec_shape() == result_shape(*a, *b) && f32_data(*ti)
            == bin_result(*a, *b, BinOp::Div),
{
    a.div(b)
}

/// Reduction of all elements into one scalar; see `Tensor::sum`.
pub fn sum(x: &Tensor) -> (r: Tensor)
    requires
        x.wf(),
    ensures
        r.wf(),
        x.impl_ is None ==> r.impl_ is None,
        x.impl_ is Some ==> r.impl_ is Some,
{
    x.sum()
}

/// The rectifier: every element is replaced by its IEEE maxNum against
/// +0.0, so negative values clamp to zero. Undefined exactly when the
/// operand is not a readable, allocatable Float32 tensor.
pub fn relu(x: &Tensor) -> (r: Tensor)
    requires
        x.wf(),
    ensures
        r.wf(),
        r.impl_ is Some <==> x.spec_readable_f32() && TensorImpl::can_allocate(
            x.spec_shape(),
            default_options(),
        ),
        r.impl_ matches Some(ti) ==> {
            &&& ti.spec_shape() == x.spec_shape()
            &&& ti.spec_strides() == contig_strides(x.spec_shape())
            &&& ti.spec_offset() == 0
            &&& ti.spec_options() == default_options()
            &&& readable_f32(*ti)
            &&& f32_data(*ti) == Seq::new(
                x.spec_numel() as nat,
                |i: int| crate::fpbits::f32_max(x.spec_f32_data()[i], 0u32),
            )
        },
{
    let ti: &TensorImpl = match &x.impl_ {
        None => {
            return Tensor::new();
        },
        Some(rc) => rc,
    };
    let va = match ti.to_list::<u32>() {
        Err(_) => {
            return Tensor::new();
        },
        Ok(v) => v,
    };
    proof {
        lemma_f32_list(va@, ti);
    }
    let n = va.len();
    let mut out: Vec<u32> = Vec::new();
    let mut i: usize = 0;
    while i < n
        invariant
            n == va@.len(),
            i <= n,
            out@ =~= Seq::new(i as nat, |j: int| crate::fpbits::f32_max(va@[j], 0u32)),
        decreases n - i,
    {
        out.push(crate::fpbits::f32_max_bits(va[i], 0));
        i += 1;
    }
    let shape = ti.shape();
    let options = Options::default();
    match TensorImpl::new_from_data(out.as_slice(), shape.as_slice(), options) {
        Ok(impl_) => {
            proof {
                lemma_f32_data_of_elems(&impl_, out@);
                assert(out@ =~= Seq::new(
                    x.spec_numel() as nat,
                    |i: int| crate::fpbits::f32_max(x.spec_f32_data()[i], 0u32),
                ));
            }
            Tensor { impl_: Some(Rc::new(impl_)) }
        },
        Err(_) => Tensor::new(),
    }
}

} // verus!
