use vstd::prelude::*;
use std::rc::Rc;
use crate::fpbits::{f32_add_bits, f32_div, f32_div_bits, f32_mul, f32_mul_bits, f32_neg,
    f32_neg_bits, f32_of_uint, f32_of_uint_bits, f32_sub, f32_sub_bits, f32_sum, f32_abs,
    f32_abs_bits};
use crate::tensor::Tensor;
use crate::tensor::dtype::Element;
use crate::tensor::options::{Options, default_options};
use crate::tensor::scalar::Scalar;
use crate::tensor::shape::{lemma_product_pair, shape_product};
use crate::tensor::tensor::{lemma_f32_data_of_elems, lemma_f32_list, spec_scalar_bytes};
use crate::tensor::tensor_impl::TensorImpl;

verus! {

/// How a per-element loss is reduced: kept elementwise, averaged, or
/// summed.
#[derive(Debug, Clone, Copy)]
pub enum LossReduction {
    NoReduction,
    Mean,
    Sum,
}

/// The per-element squared errors of the zipped operands (the shorter
/// operand truncates the zip, as the elementwise loss does).
pub open spec fn mse_elems(a: Seq<u32>, b: Seq<u32>) -> Seq<u32> {
    let n = if a.len() <= b.len() {
        a.len() as int
    } else {
        b.len() as int
    };
    Seq::new(n as nat, |i: int| f32_mul(f32_sub(a[i], b[i]), f32_sub(a[i], b[i])))
}

/// The average of a Float32 value sequence: running sum divided by the
/// count.
pub open spec fn f32_mean(s: Seq<u32>) -> u32 {
    f32_div(f32_sum(s), f32_of_uint(s.len() as u64))
}

/// Builds the reduced loss tensor from per-element losses: the elements
/// themselves under `None` (with the given shape), their average under
/// `Mean`, their sum under `Sum`.
fn reduce_losses(losses: Vec<u32>, shape: &[i64], reduction: LossReduction) -> (r: Tensor)
    requires
        losses@.len() <= u64::MAX,
    ensures
        r.wf(),
        match reduction {
            LossReduction::NoReduction => {
                &&& (r.impl_ is Some <==> TensorImpl::can_allocate(shape@, default_options())
                    && losses@.len() == shape_product(shape@))
                &&& (r.impl_ matches Some(ti) ==> ti.spec_shape() == shape@
                    && crate::tensor::tensor::f32_data(*ti) == losses@)
            },
            LossReduction::Mean => r.impl_ matches Some(ti) && ti.spec_shape()
                == Seq::<i64>::empty() && ti.spec_storage() == Some(
                spec_scalar_bytes(Scalar::Float32(f32_mean(losses@))),
            ),
            LossReduction::Sum => r.impl_ matches Some(ti) && ti.spec_shape()
                == Seq::<i64>::empty() && ti.spec_storage() == Some(
                spec_scalar_bytes(Scalar::Float32(f32_sum(losses@))),
            ),
        },
{
    match reduction {
        LossReduction::NoReduction => {
            let options = Options::default();
            match TensorImpl::new_from_data(losses.as_slice(), shape, options) {
                Ok(impl_) => {
                    proof {
                        lemma_f32_data_of_elems(&impl_, losses@);
                    }
                    Tensor { impl_: Some(Rc::new(impl_)) }
                },
                Err(_) => Tensor::new(),
            }
        },
        LossReduction::Mean => {
            let s = sum_bits(&losses);
            let count = f32_of_uint_bits(losses.len() as u64);
            Tensor::scalar(Scalar::Float32(f32_div_bits(s, count)))
        },
        LossReduction::Sum => {
            let s = sum_bits(&losses);
            Tensor::scalar(Scalar::Float32(s))
        },
    }
}

/// The left-to-right running sum of a vector of Float32 bit patterns.
fn sum_bits(v: &Vec<u32>) -> (r: u32)
    ensures
        r == f32_sum(v@),
{
    let n = v.len();
    let mut acc: u32 = 0;
    let mut i: usize = 0;
    proof {
        assert(v@.take(0) =~= Seq::<u32>::empty());
    }
    while i < n
        invariant
            n == v@.len(),
            i <= n,
            acc == f32_sum(v@.take(i as int)),
        decreases n - i,
    {
        acc = f32_add_bits(acc, v[i]);
        proof {
            assert(v@.take(i + 1).drop_last() =~= v@.take(i as int));
            assert(v@.take(i + 1).last() == v@[i as int]);
        }
        i += 1;
    }
    proof {
        assert(v@.take(n as int) =~= v@);
    }
    acc
}

/// The mean squared error loss: squared differences of the zipped
/// operands, reduced as requested. An undefined operand yields the
/// undefined tensor; unreadable data zips as empty.
pub fn mse_loss(input: &Tensor, target: &Tensor, reduction: LossReduction) -> (r: Tensor)
    requires
        input.wf(),
        target.wf(),
    ensures
        r.wf(),
        (input.impl_ is None || target.impl_ is None) ==> r.impl_ is None,
        input.impl_ is Some && target.impl_ is Some ==> {
            let a = if input.spec_readable_f32() {
                input.spec_f32_data()
            } else {
                Seq::<u32>::empty()
            };
            let b = if target.spec_readable_f32() {
                target.spec_f32_data()
            } else {
                Seq::<u32>::empty()
            };
            let losses = mse_elems(a, b);
            match reduction {
                LossReduction::NoReduction => {
                    &&& (r.impl_ is Some <==> TensorImpl::can_allocate(
                        input.spec_shape(),
                        default_options(),
                    ) && losses.len() == shape_product(input.spec_shape()))
                    &&& (r.impl_ matches Some(ti) ==> ti.spec_shape() == input.spec_shape()
                        && crate::tensor::tensor::f32_data(*ti) == losses)
                },
                LossReduction::Mean => r.impl_ matches Some(ti) && ti.spec_shape()
                    == Seq::<i64>::empty() && ti.spec_storage() == Some(
                    spec_scalar_bytes(Scalar::Float32(f32_mean(losses))),
                ),
                LossReduction::Sum => r.impl_ matches Some(ti) && ti.spec_shape()
                    == Seq::<i64>::empty() && ti.spec_storage() == Some(
                    spec_scalar_bytes(Scalar::Float32(f32_sum(losses))),
                ),
            }
        },
    {
    if !input.defined() || !target.defined() {
        return Tensor::new();
    }
    let input_data = input.to_list::<u32>();
    let target_data = target.to_list::<u32>();
    proof {
        match &input.impl_ {
            Some(rc) => {
                if input.spec_readable_f32() {
                    lemma_f32_list(input_data@, rc);
                } else {
                    assert(input_data@ =~= Seq::<u32>::empty());
                }
            },
            None => {},
        }
        match &target.impl_ {
            Some(rc) => {
                if target.spec_readable_f32() {
                    lemma_f32_list(target_data@, rc);
                } else {
                    assert(target_data@ =~= Seq::<u32>::empty());
                }
            },
            None => {},
        }
    }
    let n = if input_data.len() <= target_data.len() {
        input_data.len()
    } else {
        target_data.len()
    };
    let mut losses: Vec<u32> = Vec::new();
    let mut i: usize = 0;
    while i < n
        invariant
            n <= input_data@.len(),
            n <= target_data@.len(),
            i <= n,
            losses@ =~= Seq::new(
                i as nat,
                |j: int|
                    f32_mul(
                        f32_sub(input_data@[j], target_data@[j]),
                        f32_sub(input_data@[j], target_data@[j]),
                    ),
            ),
        decreases n - i,
    {
        let d = f32_sub_bits(input_data[i], target_data[i]);
        losses.push(f32_mul_bits(d, d));
        i += 1;
    }
    proof {
        assert(losses@ =~= mse_elems(input_data@, target_data@));
    }
    let shape = input.shape();
    reduce_losses(losses, shape.as_slice(), reduction)
}

/// The per-sample negative log likelihood values: for each row whose
/// target class index is in range, the negated value at that class (rows
/// with an out-of-range class are skipped).
pub open spec fn nll_rec(data: Seq<u32>, tgt: Seq<i64>, c: int, i: int) -> Seq<u32>
    decreases i,
{
    if i <= 0 {
        Seq::empty()
    } else {
        nll_rec(data, tgt, c, i - 1) + (if 0 <= tgt[i - 1] < c {
            seq![f32_neg(data[(i - 1) * c + tgt[i - 1]])]
        } else {
            Seq::empty()
        })
    }
}


/// When the negative log likelihood loss produces a defined result: a
/// readable 2-D Float32 input whose batch dimension is addressable, a
/// defined target holding at least one Int64 class index per row, and —
/// when the per-row losses are kept — every index in range and the result
/// allocatable.
pub open spec fn nll_loss_ok(input: Tensor, target: Tensor, reduction: LossReduction) -> bool {
    let b = input.spec_shape()[0] as int;
    let c = input.spec_shape()[1] as int;
    &&& input.spec_readable_f32()
    &&& target.impl_ is Some
    &&& input.spec_shape().len() == 2
    &&& input.spec_shape()[0] <= usize::MAX
    &&& tensor_i64_data(target).len() >= b
    &&& (match reduction {
        LossReduction::NoReduction => nll_rec(
            input.spec_f32_data(),
            tensor_i64_data(target),
            c,
            b,
        ).len() == b && TensorImpl::can_allocate(
            seq![input.spec_shape()[0]],
            crate::tensor::options::default_options(),
        ),
        LossReduction::Mean => true,
        LossReduction::Sum => true,
    })
}

/// The negative log likelihood loss over a 2-D batch of per-class values
/// and a 1-D vector of class indices, reduced as requested. Undefined
/// operands, a non-2-D input, unreadable data, or too few targets yield
/// the undefined tensor.
pub fn nll_loss(input: &Tensor, target: &Tensor, reduction: LossReduction) -> (r: Tensor)
    requires
        input.wf(),
        target.wf(),
    ensures
        r.wf(),
        r.impl_ is Some <==> nll_loss_ok(*input, *target, reduction),
        r.impl_ is Some ==> input.spec_readable_f32() && input.spec_shape().len() == 2 && {
            let b = input.spec_shape()[0] as int;
            let c = input.spec_shape()[1] as int;
            let losses = nll_rec(input.spec_f32_data(), tensor_i64_data(*target), c, b);
            match reduction {
                LossReduction::NoReduction => r.impl_ matches Some(ti) && ti.spec_shape() == seq![
                    input.spec_shape()[0],
                ] && crate::tensor::tensor::f32_data(*ti) == losses,
                LossReduction::Mean => r.impl_ matches Some(ti) && ti.spec_shape()
                    == Seq::<i64>::empty() && ti.spec_storage() == Some(
                    spec_scalar_bytes(Scalar::Float32(f32_mean(losses))),
                ),
                LossReduction::Sum => r.impl_ matches Some(ti) && ti.spec_shape()
                    == Seq::<i64>::empty() && ti.spec_storage() == Some(
                    spec_scalar_bytes(Scalar::Float32(f32_sum(losses))),
                ),
            }
        },
{
    if !input.defined() || !target.defined() {
        return Tensor::new();
    }
    let ii: &TensorImpl = match &input.impl_ {
        None => {
            return Tensor::new();
        },
        Some(rc) => rc,
    };
    let input_data = match ii.to_list::<u32>() {
        Err(_) => {
            return Tensor::new();
        },
        Ok(v) => v,
    };
    let target_data = target.to_list::<i64>();
    let input_shape = ii.shape();
    if input_shape.len() != 2 {
        return Tensor::new();
    }
    proof {
        lemma_f32_list(input_data@, ii);
        lemma_product_pair(ii.spec_shape());
        assert(ii.spec_shape()[0] >= 0);
        assert(ii.spec_shape()[1] >= 0);
    }
    let bsz = input_shape[0];
    let classes = input_shape[1];
    if bsz as u64 > usize::MAX as u64 {
        return Tensor::new();
    }
    let batch = bsz as usize;
    let ghost tvals = tensor_i64_data(*target);
    proof {
        match &target.impl_ {
            Some(rc) => {
                if rc.spec_options().dtype == crate::tensor::dtype::DType::Int64
                    && rc.spec_options().device.spec_is_cpu() && rc.spec_storage() is Some {
                    lemma_i64_list(target_data@, rc);
                } else {
                    assert(target_data@ =~= Seq::<i64>::empty());
                    assert(tvals =~= Seq::<i64>::empty());
                }
            },
            None => {},
        }
        assert(target_data@ == tvals);
    }
    if target_data.len() < batch {
        return Tensor::new();
    }
    let ilen = input_data.len();
    let mut losses: Vec<u32> = Vec::new();
    let mut i: usize = 0;
    while i < batch
        invariant
            input.wf(),
            batch <= target_data@.len(),
            ii.spec_shape().len() == 2,
            batch == ii.spec_shape()[0],
            classes == ii.spec_shape()[1],
            classes >= 0,
            ilen == input_data@.len(),
            input_data@.len() == ii.spec_numel(),
            ii.spec_numel() == batch * classes,
            target_data@ == tvals,
            i <= batch,
            losses@ == nll_rec(input_data@, target_data@, classes as int, i as int),
        decreases batch - i,
    {
        let tc = target_data[i];
        if 0 <= tc && tc < classes {
            proof {
                assert(i * classes + tc < batch * classes && 0 <= i * classes + tc
                    && classes <= batch * classes && i * classes >= 0) by (nonlinear_arith)
                    requires
                        0 <= i < batch,
                        0 <= tc < classes,
                ;
            }
            let idx = i * (classes as usize) + (tc as usize);
            losses.push(f32_neg_bits(input_data[idx]));
        }
        proof {
            assert(nll_rec(input_data@, target_data@, classes as int, i + 1) == nll_rec(
                input_data@,
                target_data@,
                classes as int,
                i as int,
            ) + (if 0 <= target_data@[i as int] < classes {
                seq![
                    f32_neg(
                        input_data@[i as int * classes as int + target_data@[i as int]],
                    ),
                ]
            } else {
                Seq::<u32>::empty()
            }));
            assert(losses@ =~= nll_rec(input_data@, target_data@, classes as int, i + 1));
        }
        i += 1;
    }
    let mut out_shape: Vec<i64> = Vec::new();
    out_shape.push(bsz);
    proof {
        assert(out_shape@ =~= seq![ii.spec_shape()[0]]);
        assert(out_shape@.drop_first() =~= Seq::<i64>::empty());
        assert(shape_product(out_shape@) == out_shape@[0] * shape_product(Seq::<i64>::empty()));
        assert(out_shape@[0] * 1 == out_shape@[0]) by (nonlinear_arith);
        assert(shape_product(out_shape@) == bsz);
    }
    match reduction {
        LossReduction::NoReduction => {
            let options = Options::default();
            match TensorImpl::new_from_data(losses.as_slice(), out_shape.as_slice(), options) {
                Ok(impl_) => {
                    proof {
                        lemma_f32_data_of_elems(&impl_, losses@);
                        assert(nll_loss_ok(*input, *target, reduction));
                    }
                    Tensor { impl_: Some(Rc::new(impl_)) }
                },
                Err(_) => {
                    proof {
                        assert(!nll_loss_ok(*input, *target, reduction));
                    }
                    Tensor::new()
                },
            }
        },
        LossReduction::Mean => {
            proof {
                assert(nll_loss_ok(*input, *target, reduction));
            }
            let s = sum_bits(&losses);
            let count = f32_of_uint_bits(losses.len() as u64);
            Tensor::scalar(Scalar::Float32(f32_div_bits(s, count)))
        },
        LossReduction::Sum => {
            proof {
                assert(nll_loss_ok(*input, *target, reduction));
            }
            let s = sum_bits(&losses);
            Tensor::scalar(Scalar::Float32(s))
        },
    }
}

/// The Int64 elements of a tensor, or the empty sequence when they cannot
/// be read out.
pub open spec fn tensor_i64_data(t: Tensor) -> Seq<i64> {
    match t.impl_ {
        Some(ti) => if ti.spec_options().dtype == crate::tensor::dtype::DType::Int64
            && ti.spec_options().device.spec_is_cpu() && ti.spec_storage() is Some {
            i64_data(*ti)
        } else {
            Seq::<i64>::empty()
        },
        None => Seq::<i64>::empty(),
    }
}

/// The Int64 elements of a view, read row-major from its storage.
pub open spec fn i64_data(ti: TensorImpl) -> Seq<i64> {
    Seq::new(
        ti.spec_numel() as nat,
        |i: int|
            vstd::bytes::spec_u64_from_le_bytes(
                ti.spec_storage().unwrap().subrange(
                    ti.spec_offset() + i * 8,
                    ti.spec_offset() + (i + 1) * 8,
                ),
            ) as i64,
    )
}

/// A list read out of a view with `to_list::<i64>` holds exactly the
/// view's Int64 elements.
pub proof fn lemma_i64_list(v: Seq<i64>, ti: &TensorImpl)
    requires
        v.len() == ti.spec_numel(),
        ti.spec_storage() is Some,
        forall|i: int|
            0 <= i < v.len() ==> (#[trigger] v[i]).spec_to_bytes()
                == ti.spec_storage().unwrap().subrange(
                ti.spec_offset() + i * 8,
                ti.spec_offset() + (i + 1) * 8,
            ),
    ensures
        v == i64_data(*ti),
{
    vstd::bytes::lemma_auto_spec_u64_to_from_le_bytes();
    assert forall|i: int| 0 <= i < v.len() implies v[i] == i64_data(*ti)[i] by {
        let x = v[i];
        assert(x.spec_to_bytes() == vstd::bytes::spec_u64_to_le_bytes(x as u64));
        assert(vstd::bytes::spec_u64_to_le_bytes(x as u64).len() == 8);
        assert(vstd::bytes::spec_u64_from_le_bytes(vstd::bytes::spec_u64_to_le_bytes(x as u64))
            == x as u64);
        assert((x as u64) as i64 == x) by (bit_vector);
    }
    assert(v =~= i64_data(*ti));
}

/// The per-element absolute errors of the operands.
pub open spec fn l1_elems(a: Seq<u32>, b: Seq<u32>) -> Seq<u32> {
    Seq::new(a.len(), |i: int| f32_abs(f32_sub(a[i], b[i])))
}

/// The mean absolute error loss over equally long operands, reduced as
/// requested. Undefined operands or an element-count mismatch yield the
/// undefined tensor.
pub fn l1_loss(input: &Tensor, target: &Tensor, reduction: LossReduction) -> (r: Tensor)
    requires
        input.wf(),
        target.wf(),
    ensures
        r.wf(),
        (input.impl_ is None || target.impl_ is None) ==> r.impl_ is None,
        input.impl_ is Some && target.impl_ is Some ==> {
            let a = if input.spec_readable_f32() {
                input.spec_f32_data()
            } else {
                Seq::<u32>::empty()
            };
            let b = if target.spec_readable_f32() {
                target.spec_f32_data()
            } else {
                Seq::<u32>::empty()
            };
            &&& (a.len() != b.len() ==> r.impl_ is None)
            &&& (a.len() == b.len() ==> {
                let losses = l1_elems(a, b);
                match reduction {
                    LossReduction::NoReduction => {
                        &&& (r.impl_ is Some <==> TensorImpl::can_allocate(
                            input.spec_shape(),
                            default_options(),
                        ) && losses.len() == shape_product(input.spec_shape()))
                        &&& (r.impl_ matches Some(ti) ==> ti.spec_shape() == input.spec_shape()
                            && crate::tensor::tensor::f32_data(*ti) == losses)
                    },
                    LossReduction::Mean => r.impl_ matches Some(ti) && ti.spec_shape()
                        == Seq::<i64>::empty() && ti.spec_storage() == Some(
                        spec_scalar_bytes(Scalar::Float32(f32_mean(losses))),
                    ),
                    LossReduction::Sum => r.impl_ matches Some(ti) && ti.spec_shape()
                        == Seq::<i64>::empty() && ti.spec_storage() == Some(
                        spec_scalar_bytes(Scalar::Float32(f32_sum(losses))),
                    ),
                }
            })
        },
{
    if !input.defined() || !target.defined() {
        return Tensor::new();
    }
    let input_data = input.to_list::<u32>();
    let target_data = target.to_list::<u32>();
    proof {
        match &input.impl_ {
            Some(rc) => {
                if input.spec_readable_f32() {
                    lemma_f32_list(input_data@, rc);
                } else {
                    assert(input_data@ =~= Seq::<u32>::empty());
                }
            },
            None => {},
        }
        match &target.impl_ {
            Some(rc) => {
                if target.spec_readable_f32() {
                    lemma_f32_list(target_data@, rc);
                } else {
                    assert(target_data@ =~= Seq::<u32>::empty());
                }
            },
            None => {},
        }
    }
    if input_data.len() != target_data.len() {
        return Tensor::new();
    }
    let n = input_data.len();
    let mut losses: Vec<u32> = Vec::new();
    let mut i: usize = 0;
    while i < n
        invariant
            n == input_data@.len(),
            n == target_data@.len(),
            i <= n,
            losses@ =~= Seq::new(
                i as nat,
                |j: int| f32_abs(f32_sub(input_data@[j], target_data@[j])),
            ),
        decreases n - i,
    {
        losses.push(f32_abs_bits(f32_sub_bits(input_data[i], target_data[i])));
        i += 1;
    }
    proof {
        assert(losses@ =~= l1_elems(input_data@, target_data@));
    }
    let shape = input.shape();
    reduce_losses(losses, shape.as_slice(), reduction)
}

} // verus!
