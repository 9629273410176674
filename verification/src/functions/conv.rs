use vstd::prelude::*;
use std::rc::Rc;
use crate::fpbits::{F32_NEG_INFINITY_BITS, f32_max, f32_max_bits};
use crate::tensor::Tensor;
use crate::tensor::options::{Options, default_options};
use crate::tensor::shape::shape_product;
use crate::tensor::tensor::{f32_data, lemma_f32_data_of_elems, lemma_f32_list, readable_f32};
use crate::tensor::tensor_impl::TensorImpl;

verus! {

/// The running maximum over the first `t` positions of a pooling window
/// (row-major over a `k1`-wide kernel), starting from negative infinity;
/// window positions that fall outside the input plane are skipped.
pub open spec fn pool_acc(
    data: Seq<u32>,
    ih: int,
    iw: int,
    k1: int,
    s0: int,
    s1: int,
    p0: int,
    p1: int,
    base: int,
    oy: int,
    ox: int,
    t: int,
) -> u32
    decreases t,
{
    if t <= 0 {
        F32_NEG_INFINITY_BITS
    } else {
        let prev = pool_acc(data, ih, iw, k1, s0, s1, p0, p1, base, oy, ox, t - 1);
        let ky = (t - 1) / k1;
        let kx = (t - 1) % k1;
        let in_y = oy * s0 - p0 + ky;
        let in_x = ox * s1 - p1 + kx;
        if 0 <= in_y < ih && 0 <= in_x < iw {
            f32_max(prev, data[base + in_y * iw + in_x])
        } else {
            prev
        }
    }
}

/// The full max-pooling output data, row-major over a
/// `batch, ch, oh, ow` result.
pub open spec fn pool_data(
    data: Seq<u32>,
    batch: int,
    ch: int,
    ih: int,
    iw: int,
    k0: int,
    k1: int,
    s0: int,
    s1: int,
    p0: int,
    p1: int,
    oh: int,
    ow: int,
) -> Seq<u32> {
    Seq::new(
        (batch * ch * oh * ow) as nat,
        |p: int|
            {
                let b = p / (ch * oh * ow);
                let r1 = p % (ch * oh * ow);
                let c = r1 / (oh * ow);
                let r2 = r1 % (oh * ow);
                let oy = r2 / ow;
                let ox = r2 % ow;
                pool_acc(
                    data,
                    ih,
                    iw,
                    k1,
                    s0,
                    s1,
                    p0,
                    p1,
                    (b * ch + c) * (ih * iw),
                    oy,
                    ox,
                    k0 * k1,
                )
            },
    )
}


/// When 2-D max pooling produces a defined result: a readable 4-D Float32
/// input, positive strides, non-negative padding and kernel extents, a
/// window no larger than the padded input, intermediate arithmetic that
/// fits the machine integers, and an allocatable output.
pub open spec fn max_pool2d_ok(
    input: Tensor,
    kernel_size: (i64, i64),
    stride: Option<(i64, i64)>,
    padding: (i64, i64),
) -> bool {
    let st = match stride {
        Some(s) => s,
        None => kernel_size,
    };
    let batch = input.spec_shape()[0] as int;
    let ch = input.spec_shape()[1] as int;
    let ih = input.spec_shape()[2] as int;
    let iw = input.spec_shape()[3] as int;
    let num_h = ih + 2 * (padding.0 as int) - (kernel_size.0 as int);
    let num_w = iw + 2 * (padding.1 as int) - (kernel_size.1 as int);
    let oh = num_h / (st.0 as int) + 1;
    let ow = num_w / (st.1 as int) + 1;
    &&& input.spec_readable_f32()
    &&& input.spec_shape().len() == 4
    &&& st.0 >= 1 && st.1 >= 1 && padding.0 >= 0 && padding.1 >= 0 && kernel_size.0 >= 0
        && kernel_size.1 >= 0
    &&& 2 * (padding.0 as int) <= i64::MAX && 2 * (padding.0 as int) + ih <= i64::MAX
    &&& 2 * (padding.1 as int) <= i64::MAX && 2 * (padding.1 as int) + iw <= i64::MAX
    &&& num_h >= 0 && num_w >= 0
    &&& num_h / (st.0 as int) < i64::MAX && num_w / (st.1 as int) < i64::MAX
    &&& ch * oh <= i64::MAX && ch * oh * ow <= i64::MAX && batch * (ch * oh * ow) <= i64::MAX
    &&& batch * (ch * oh * ow) <= usize::MAX
    &&& (kernel_size.0 as int) * (kernel_size.1 as int) <= i64::MAX
    &&& TensorImpl::can_allocate(
        seq![input.spec_shape()[0], input.spec_shape()[1], oh as i64, ow as i64],
        default_options(),
    )
}

/// 2-D max pooling over a `batch, channels, height, width` tensor: each
/// output position holds the maximum of its kernel window, with
/// out-of-range window positions skipped. The stride defaults to the
/// kernel size. Undefined on an undefined or unreadable operand, a
/// non-4-D shape, a non-positive stride, negative padding, a window
/// larger than the padded input, or an unallocatable result.
pub fn max_pool2d(
    input: &Tensor,
    kernel_size: (i64, i64),
    stride: Option<(i64, i64)>,
    padding: (i64, i64),
) -> (r: Tensor)
    requires
        input.wf(),
    ensures
        r.wf(),
        r.impl_ is Some <==> max_pool2d_ok(*input, kernel_size, stride, padding),
        r.impl_ matches Some(ti) ==> input.spec_readable_f32() && input.spec_shape().len() == 4
            && {
            let st = match stride {
                Some(s) => s,
                None => kernel_size,
            };
            let batch = input.spec_shape()[0] as int;
            let ch = input.spec_shape()[1] as int;
            let ih = input.spec_shape()[2] as int;
            let iw = input.spec_shape()[3] as int;
            let oh = (ih + 2 * (padding.0 as int) - (kernel_size.0 as int)) / (st.0 as int) + 1;
            let ow = (iw + 2 * (padding.1 as int) - (kernel_size.1 as int)) / (st.1 as int) + 1;
            &&& ti.spec_shape() == seq![
                input.spec_shape()[0],
                input.spec_shape()[1],
                oh as i64,
                ow as i64,
            ]
            &&& ti.spec_offset() == 0
            &&& ti.spec_options() == default_options()
            &&& readable_f32(*ti)
            &&& f32_data(*ti) == pool_data(
                input.spec_f32_data(),
                batch,
                ch,
                ih,
                iw,
                kernel_size.0 as int,
                kernel_size.1 as int,
                st.0 as int,
                st.1 as int,
                padding.0 as int,
                padding.1 as int,
                oh,
                ow,
            )
        },
{
    let ti: &TensorImpl = match &input.impl_ {
        None => {
            return Tensor::new();
        },
        Some(rc) => rc,
    };
    let shape = ti.shape();
    if shape.len() != 4 {
        return Tensor::new();
    }
    let st = match stride {
        Some(s) => s,
        None => kernel_size,
    };
    let (k0, k1) = kernel_size;
    let (s0, s1) = st;
    let (p0, p1) = padding;
    if s0 < 1 || s1 < 1 || p0 < 0 || p1 < 0 || k0 < 0 || k1 < 0 {
        return Tensor::new();
    }
    let batch = shape[0];
    let ch = shape[1];
    let ih = shape[2];
    let iw = shape[3];
    proof {
        assert(ti.spec_shape()[0] >= 0);
        assert(ti.spec_shape()[1] >= 0);
        assert(ti.spec_shape()[2] >= 0);
        assert(ti.spec_shape()[3] >= 0);
    }
    let va = match ti.to_list::<u32>() {
        Err(_) => {
            return Tensor::new();
        },
        Ok(v) => v,
    };
    proof {
        lemma_f32_list(va@, ti);
    }
    // Output extents, with every intermediate checked.
    let two_p0 = match p0.checked_mul(2) {
        None => {
            return Tensor::new();
        },
        Some(v) => v,
    };
    let pad_h = match two_p0.checked_add(ih) {
        None => {
            return Tensor::new();
        },
        Some(v) => v,
    };
    let num_h = match pad_h.checked_sub(k0) {
        None => {
            return Tensor::new();
        },
        Some(v) => v,
    };
    if num_h < 0 {
        return Tensor::new();
    }
    let oh = match (num_h / s0).checked_add(1) {
        None => {
            return Tensor::new();
        },
        Some(v) => v,
    };
    let two_p1 = match p1.checked_mul(2) {
        None => {
            return Tensor::new();
        },
        Some(v) => v,
    };
    let pad_w = match two_p1.checked_add(iw) {
        None => {
            return Tensor::new();
        },
        Some(v) => v,
    };
    let num_w = match pad_w.checked_sub(k1) {
        None => {
            return Tensor::new();
        },
        Some(v) => v,
    };
    if num_w < 0 {
        return Tensor::new();
    }
    let ow = match (num_w / s1).checked_add(1) {
        None => {
            return Tensor::new();
        },
        Some(v) => v,
    };
    proof {
        assert(oh >= 1 && ow >= 1) by (nonlinear_arith)
            requires
                num_h >= 0,
                num_w >= 0,
                s0 >= 1,
                s1 >= 1,
                oh == num_h as int / s0 as int + 1,
                ow == num_w as int / s1 as int + 1,
        ;
    }
    let ch_oh = match ch.checked_mul(oh) {
        None => {
            return Tensor::new();
        },
        Some(v) => v,
    };
    let chw = match ch_oh.checked_mul(ow) {
        None => {
            return Tensor::new();
        },
        Some(v) => v,
    };
    let total64 = match batch.checked_mul(chw) {
        None => {
            return Tensor::new();
        },
        Some(v) => v,
    };
    proof {
        assert(chw >= 0 && total64 >= 0) by (nonlinear_arith)
            requires
                ch >= 0,
                oh >= 1,
                ow >= 1,
                batch >= 0,
                chw == ch * oh * ow,
                total64 == batch * chw,
        ;
    }
    if total64 as u64 > usize::MAX as u64 {
        return Tensor::new();
    }
    let total = total64 as usize;
    let kk = match k0.checked_mul(k1) {
        None => {
            return Tensor::new();
        },
        Some(v) => v,
    };
    let ghost data = va@;
    let ghost ohg = oh as int;
    let ghost owg = ow as int;
    let va_len = va.len();
    proof {
        crate::tensor::shape::lemma_product_pair(seq![ti.spec_shape()[0], ti.spec_shape()[1]]);
        assert(ti.spec_shape() =~= seq![ti.spec_shape()[0]] + seq![ti.spec_shape()[1]] + seq![
            ti.spec_shape()[2],
            ti.spec_shape()[3],
        ]);
        crate::tensor::shape::lemma_product_append(
            seq![ti.spec_shape()[0]] + seq![ti.spec_shape()[1]],
            seq![ti.spec_shape()[2], ti.spec_shape()[3]],
        );
        crate::tensor::shape::lemma_product_append(
            seq![ti.spec_shape()[0]],
            seq![ti.spec_shape()[1]],
        );
        crate::tensor::shape::lemma_product_pair(seq![ti.spec_shape()[2], ti.spec_shape()[3]]);
        assert(seq![ti.spec_shape()[0]].len() == 1);
        assert(seq![ti.spec_shape()[1]].len() == 1);
        assert(seq![ti.spec_shape()[0]][0] == batch);
        assert(seq![ti.spec_shape()[1]][0] == ch);
        assert(seq![ti.spec_shape()[0]].drop_first() =~= Seq::<i64>::empty());
        assert(seq![ti.spec_shape()[1]].drop_first() =~= Seq::<i64>::empty());
        assert(shape_product(seq![ti.spec_shape()[0]]) == batch * shape_product(
            Seq::<i64>::empty(),
        ));
        assert(shape_product(seq![ti.spec_shape()[1]]) == ch * shape_product(
            Seq::<i64>::empty(),
        ));
        assert(batch * 1 == batch) by (nonlinear_arith);
        assert(ch * 1 == ch) by (nonlinear_arith);
        assert(data.len() == (batch * ch) * (ih * iw));
    }
    let mut out: Vec<u32> = Vec::new();
    let mut p: usize = 0;
    while p < total
        invariant
            input.wf(),
            va@ == data,
            data.len() == (batch * ch) * (ih * iw),
            data.len() <= usize::MAX,
            data.len() <= i64::MAX,
            va_len == data.len(),
            batch >= 0,
            ch >= 0,
            ih >= 0,
            iw >= 0,
            k0 >= 0,
            k1 >= 0,
            s0 >= 1,
            s1 >= 1,
            p0 >= 0,
            p1 >= 0,
            kk == k0 * k1,
            ohg == oh,
            owg == ow,
            oh >= 1,
            ow >= 1,
            num_h >= 0,
            num_w >= 0,
            num_h == ih + 2 * p0 - k0,
            num_w == iw + 2 * p1 - k1,
            ih + 2 * p0 <= i64::MAX,
            iw + 2 * p1 <= i64::MAX,
            oh == num_h as int / s0 as int + 1,
            ow == num_w as int / s1 as int + 1,
            chw == ch * oh * ow,
            total == batch * chw,
            total <= usize::MAX,
            total <= i64::MAX,
            p <= total,
            out@ =~= Seq::new(
                p as nat,
                |q: int|
                    {
                        let b = q / (ch as int * ohg * owg);
                        let r1 = q % (ch as int * ohg * owg);
                        let c = r1 / (ohg * owg);
                        let r2 = r1 % (ohg * owg);
                        let oy = r2 / owg;
                        let ox = r2 % owg;
                        pool_acc(
                            data,
                            ih as int,
                            iw as int,
                            k1 as int,
                            s0 as int,
                            s1 as int,
                            p0 as int,
                            p1 as int,
                            (b * ch + c) * (ih as int * iw as int),
                            oy,
                            ox,
                            kk as int,
                        )
                    },
            ),
        decreases total - p,
    {
        proof {
            assert(batch >= 1 && chw >= 1) by (nonlinear_arith)
                requires
                    batch * chw >= 1,
                    batch >= 0,
                    chw >= 0,
            ;
            assert(ch >= 1) by (nonlinear_arith)
                requires
                    ch * oh * ow >= 1,
                    ch >= 0,
            ;
            assert(chw <= total && ch * oh * ow == chw && oh * ow <= chw && chw <= i64::MAX
                && oh <= chw && ow <= chw && oh * ow >= 1 && ch <= chw) by (nonlinear_arith)
                requires
                    batch >= 1,
                    chw >= 1,
                    total == batch * chw,
                    chw == ch * oh * ow,
                    oh >= 1,
                    ow >= 1,
                    ch >= 1,
                    chw <= i64::MAX,
            ;
        }
        let b = p / (chw as usize);
        let r1 = p % (chw as usize);
        let ohw = (oh as usize) * (ow as usize);
        proof {
            assert(oh * ow <= chw) by (nonlinear_arith)
                requires
                    ch >= 1,
                    oh >= 1,
                    ow >= 1,
                    chw == ch * oh * ow,
            ;
            assert(0 <= b < batch && 0 <= r1 < chw) by (nonlinear_arith)
                requires
                    0 <= p < batch * chw,
                    chw >= 1,
                    b == p as int / chw as int,
                    r1 == p as int % chw as int,
            ;
        }
        proof {
            assert(ohw as int == oh * ow && ohw >= 1) by (nonlinear_arith)
                requires
                    oh >= 1,
                    ow >= 1,
                    oh * ow <= usize::MAX,
                    ohw as int == (oh as usize) as int * (ow as usize) as int,
                    (oh as usize) as int == oh as int,
                    (ow as usize) as int == ow as int,
            ;
        }
        let c = r1 / ohw;
        let r2 = r1 % ohw;
        proof {
            assert(0 <= (c as int) && (c as int) < ch && 0 <= r2 && r2 < oh * ow)
                by (nonlinear_arith)
                requires
                    0 <= r1,
                    r1 < chw,
                    chw == ch * oh * ow,
                    oh * ow >= 1,
                    ch >= 1,
                    c == r1 as int / (ohw as int),
                    r2 == r1 as int % (ohw as int),
                    ohw as int == oh * ow,
            ;
        }
        let oy = r2 / (ow as usize);
        let ox = r2 % (ow as usize);
        proof {
            assert(0 <= oy < oh && 0 <= ox < ow) by (nonlinear_arith)
                requires
                    0 <= r2 < oh * ow,
                    ow >= 1,
                    oy == r2 as int / ow as int,
                    ox == r2 as int % ow as int,
            ;
        }
        proof {
            assert(0 <= (b as int * ch + c as int) && (b as int * ch + c as int) < batch * ch
                && (b as int * ch + c as int) * (ih * iw) + ih * iw <= (batch * ch) * (ih * iw)
                && (b as int * ch + c as int) * (ih * iw) >= 0 && ih * iw >= 0 && b as int * ch
                <= batch * ch && batch * ch <= batch * chw && 1 <= batch * ch && ih * iw <= (batch
                * ch) * (ih * iw)) by (nonlinear_arith)
                requires
                    0 <= (b as int) && (b as int) < batch,
                    0 <= (c as int) && (c as int) < ch,
                    ch >= 1,
                    ih >= 0,
                    iw >= 0,
                    ch <= chw,
                    batch >= 1,
                    chw >= 1,
            ;
            assert(batch * chw == total);
            assert((batch * ch) * (ih * iw) == data.len());
            assert(p as int / (ohw as int) == b as int * ch + c as int) by (nonlinear_arith)
                requires
                    b as int == p as int / (chw as int),
                    r1 as int == p as int % (chw as int),
                    c as int == r1 as int / (ohw as int),
                    r2 as int == r1 as int % (ohw as int),
                    chw == ch * oh * ow,
                    0 <= p,
                    ohw >= 1,
                    ch >= 1,
                    0 <= r2 && r2 < oh * ow,
                    ohw as int == oh * ow,
            ;
        }
        let plane = p / ohw;
        proof {
            assert((plane as int) == b as int * ch + c as int);
            assert(0 <= (plane as int) && (plane as int) < batch * ch);
            assert(batch * ch <= total);
            assert(plane as int * (ih * iw) + ih * iw <= data.len() && plane as int * (ih * iw)
                >= 0) by (nonlinear_arith)
                requires
                    plane as int == b as int * ch + c as int,
                    0 <= (plane as int) && (plane as int) < batch * ch,
                    ih * iw >= 0,
                    (batch * ch) * (ih * iw) == data.len(),
            ;
        }
        let pl = plane as i64;
        proof {
            assert(pl as int == plane as int);
        }
        let base64 = pl * (ih * iw);
        let mut acc: u32 = F32_NEG_INFINITY_BITS;
        let mut ky: i64 = 0;
        while ky < k0
            invariant
                va@ == data,
                va_len == data.len(),
                data.len() == (batch * ch) * (ih * iw),
                data.len() <= usize::MAX,
                data.len() <= i64::MAX,
                ih >= 0,
                iw >= 0,
                k0 >= 0,
                k1 >= 0,
                s0 >= 1,
                s1 >= 1,
                p0 >= 0,
                p1 >= 0,
                num_h >= 0,
                num_w >= 0,
                num_h == ih + 2 * p0 - k0,
                num_w == iw + 2 * p1 - k1,
                ih + 2 * p0 <= i64::MAX,
                iw + 2 * p1 <= i64::MAX,
                0 <= oy < ohg,
                0 <= ox < owg,
                ohg == num_h as int / s0 as int + 1,
                owg == num_w as int / s1 as int + 1,
                base64 == (b as int * ch + c as int) * (ih * iw),
                0 <= base64,
                base64 + ih * iw <= data.len(),
                0 <= ky <= k0,
                acc == pool_acc(
                    data,
                    ih as int,
                    iw as int,
                    k1 as int,
                    s0 as int,
                    s1 as int,
                    p0 as int,
                    p1 as int,
                    base64 as int,
                    oy as int,
                    ox as int,
                    ky * k1,
                ),
            decreases k0 - ky,
        {
            let mut kx: i64 = 0;
            while kx < k1
                invariant
                    va@ == data,
                    va_len == data.len(),
                    data.len() == (batch * ch) * (ih * iw),
                    data.len() <= usize::MAX,
                    data.len() <= i64::MAX,
                    ih >= 0,
                    iw >= 0,
                    k0 >= 0,
                    k1 >= 0,
                    s0 >= 1,
                    s1 >= 1,
                    p0 >= 0,
                    p1 >= 0,
                    num_h >= 0,
                    num_w >= 0,
                    num_h == ih + 2 * p0 - k0,
                    num_w == iw + 2 * p1 - k1,
                    ih + 2 * p0 <= i64::MAX,
                    iw + 2 * p1 <= i64::MAX,
                    0 <= oy < ohg,
                    0 <= ox < owg,
                    ohg == num_h as int / s0 as int + 1,
                    owg == num_w as int / s1 as int + 1,
                    base64 == (b as int * ch + c as int) * (ih * iw),
                    0 <= base64,
                    base64 + ih * iw <= data.len(),
                    0 <= ky < k0,
                    0 <= kx <= k1,
                    acc == pool_acc(
                        data,
                        ih as int,
                        iw as int,
                        k1 as int,
                        s0 as int,
                        s1 as int,
                        p0 as int,
                        p1 as int,
                        base64 as int,
                        oy as int,
                        ox as int,
                        ky * k1 + kx,
                    ),
                decreases k1 - kx,
            {
                let ghost t = ky * k1 + kx;
                proof {
                    assert(0 <= t && t + 1 <= k0 * k1 && t / (k1 as int) == ky && t % (k1 as int)
                        == kx) by (nonlinear_arith)
                        requires
                            0 <= ky < k0,
                            0 <= kx < k1,
                            k1 >= 1,
                            t == ky * k1 + kx,
                    ;
                    // The output coordinate times the stride stays within
                    // the padded input extent.
                    assert(oy * s0 <= num_h && ox * s1 <= num_w) by (nonlinear_arith)
                        requires
                            0 <= oy <= num_h as int / s0 as int,
                            0 <= ox <= num_w as int / s1 as int,
                            s0 >= 1,
                            s1 >= 1,
                            num_h >= 0,
                            num_w >= 0,
                            ohg == num_h as int / s0 as int + 1,
                            owg == num_w as int / s1 as int + 1,
                            oy < ohg,
                            ox < owg,
                    ;
                }
                proof {
                    assert(0 - p0 <= oy * s0 - p0 + ky && oy * s0 - p0 + ky <= num_h + k0 && 0
                        - p1 <= ox * s1 - p1 + kx && ox * s1 - p1 + kx <= num_w + k1)
                        by (nonlinear_arith)
                        requires
                            0 <= oy * s0 <= num_h,
                            0 <= ox * s1 <= num_w,
                            0 <= ky < k0,
                            0 <= kx < k1,
                            p0 >= 0,
                            p1 >= 0,
                    ;
                    assert(num_h + k0 == ih + 2 * p0);
                    assert(num_w + k1 == iw + 2 * p1);
                }
                let in_y = (oy as i64) * s0 - p0 + ky;
                let in_x = (ox as i64) * s1 - p1 + kx;
                if 0 <= in_y && in_y < ih && 0 <= in_x && in_x < iw {
                    proof {
                        assert(0 <= in_y * iw + in_x && in_y * iw + in_x < ih * iw)
                            by (nonlinear_arith)
                            requires
                                0 <= in_y < ih,
                                0 <= in_x < iw,
                                iw >= 1,
                        ;
                    }
                    let idx = (base64 + in_y * iw + in_x) as usize;
                    acc = f32_max_bits(acc, va[idx]);
                } else {
                }
                proof {
                    assert(acc == pool_acc(
                        data,
                        ih as int,
                        iw as int,
                        k1 as int,
                        s0 as int,
                        s1 as int,
                        p0 as int,
                        p1 as int,
                        base64 as int,
                        oy as int,
                        ox as int,
                        ky * k1 + kx + 1,
                    ));
                }
                kx += 1;
            }
            proof {
                assert(ky * k1 + k1 == (ky + 1) * k1) by (nonlinear_arith);
            }
            ky += 1;
        }
        out.push(acc);
        p += 1;
    }
    let mut rshape: Vec<i64> = Vec::new();
    rshape.push(batch);
    rshape.push(ch);
    rshape.push(oh);
    rshape.push(ow);
    let options = Options::default();
    proof {
        assert(batch as int * (ch as int) * ohg * owg == total) by (nonlinear_arith)
            requires
                total == batch * chw,
                chw == ch * ohg * owg,
        ;
        assert(rshape@ =~= seq![
            ti.spec_shape()[0],
            ti.spec_shape()[1],
            ohg as i64,
            owg as i64,
        ]);
        assert(shape_product(rshape@) == total) by {
            crate::tensor::shape::lemma_product_pair(seq![rshape@[0], rshape@[1]]);
            crate::tensor::shape::lemma_product_pair(seq![rshape@[2], rshape@[3]]);
            assert(rshape@ =~= seq![rshape@[0], rshape@[1]] + seq![rshape@[2], rshape@[3]]);
            crate::tensor::shape::lemma_product_append(
                seq![rshape@[0], rshape@[1]],
                seq![rshape@[2], rshape@[3]],
            );
            assert((batch * ch) * (ohg * owg) == total) by (nonlinear_arith)
                requires
                    total == batch as int * (ch as int) * ohg * owg,
            ;
        }
    }
    match TensorImpl::new_from_data(out.as_slice(), rshape.as_slice(), options) {
        Ok(impl_) => {
            proof {
                lemma_f32_data_of_elems(&impl_, out@);
                assert(out@ =~= pool_data(
                    input.spec_f32_data(),
                    batch as int,
                    ch as int,
                    ih as int,
                    iw as int,
                    k0 as int,
                    k1 as int,
                    s0 as int,
                    s1 as int,
                    p0 as int,
                    p1 as int,
                    ohg,
                    owg,
                ));
                assert(max_pool2d_ok(*input, kernel_size, stride, padding));
            }
            Tensor { impl_: Some(Rc::new(impl_)) }
        },
        Err(_) => {
            proof {
                assert(!max_pool2d_ok(*input, kernel_size, stride, padding));
            }
            Tensor::new()
        },
    }
}


/// The running sum over the first `t` positions of a convolution window
/// (row-major over the input channels and the `kh` by `kw` kernel),
/// folded left-to-right with IEEE binary32 arithmetic from +0.0; window
/// positions that fall outside the input plane are skipped.
pub open spec fn conv_acc(
    idata: Seq<u32>,
    wdata: Seq<u32>,
    ih: int,
    iw: int,
    kh: int,
    kw: int,
    s0: int,
    s1: int,
    p0: int,
    p1: int,
    d0: int,
    d1: int,
    ibase: int,
    wbase: int,
    oy: int,
    ox: int,
    t: int,
) -> u32
    decreases t,
{
    if t <= 0 {
        0u32
    } else {
        let prev = conv_acc(
            idata,
            wdata,
            ih,
            iw,
            kh,
            kw,
            s0,
            s1,
            p0,
            p1,
            d0,
            d1,
            ibase,
            wbase,
            oy,
            ox,
            t - 1,
        );
        let ic = (t - 1) / (kh * kw);
        let rr = (t - 1) % (kh * kw);
        let ky = rr / kw;
        let kx = rr % kw;
        let in_y = oy * s0 - p0 + ky * d0;
        let in_x = ox * s1 - p1 + kx * d1;
        if 0 <= in_y < ih && 0 <= in_x < iw {
            crate::fpbits::f32_add(
                prev,
                crate::fpbits::f32_mul(
                    idata[ibase + ic * (ih * iw) + in_y * iw + in_x],
                    wdata[wbase + ic * (kh * kw) + ky * kw + kx],
                ),
            )
        } else {
            prev
        }
    }
}

/// One finished convolution output element: the window sum, plus the
/// output channel's bias when one is supplied.
pub open spec fn conv_elem(
    idata: Seq<u32>,
    wdata: Seq<u32>,
    bias: Option<Seq<u32>>,
    in_ch: int,
    ih: int,
    iw: int,
    kh: int,
    kw: int,
    s0: int,
    s1: int,
    p0: int,
    p1: int,
    d0: int,
    d1: int,
    ibase: int,
    wbase: int,
    oc: int,
    oy: int,
    ox: int,
) -> u32 {
    let acc = conv_acc(
        idata,
        wdata,
        ih,
        iw,
        kh,
        kw,
        s0,
        s1,
        p0,
        p1,
        d0,
        d1,
        ibase,
        wbase,
        oy,
        ox,
        in_ch * (kh * kw),
    );
    match bias {
        Some(bv) => crate::fpbits::f32_add(acc, bv[oc]),
        None => acc,
    }
}

/// The full convolution output data, row-major over a
/// `batch, out_ch, oh, ow` result.
pub open spec fn conv_data(
    idata: Seq<u32>,
    wdata: Seq<u32>,
    bias: Option<Seq<u32>>,
    batch: int,
    in_ch: int,
    out_ch: int,
    ih: int,
    iw: int,
    kh: int,
    kw: int,
    s0: int,
    s1: int,
    p0: int,
    p1: int,
    d0: int,
    d1: int,
    oh: int,
    ow: int,
) -> Seq<u32> {
    Seq::new(
        (batch * out_ch * oh * ow) as nat,
        |p: int|
            {
                let b = p / (out_ch * oh * ow);
                let r1 = p % (out_ch * oh * ow);
                let oc = r1 / (oh * ow);
                let r2 = r1 % (oh * ow);
                let oy = r2 / ow;
                let ox = r2 % ow;
                conv_elem(
                    idata,
                    wdata,
                    bias,
                    in_ch,
                    ih,
                    iw,
                    kh,
                    kw,
                    s0,
                    s1,
                    p0,
                    p1,
                    d0,
                    d1,
                    b * (in_ch * (ih * iw)),
                    oc * (in_ch * (kh * kw)),
                    oc,
                    oy,
                    ox,
                )
            },
    )
}


/// When 2-D convolution produces a defined result: readable 4-D Float32
/// input and weight with matching channel counts, positive strides and
/// kernel extents, non-negative padding and dilation, a bias (when given)
/// readable and covering the output channels, a window no larger than the
/// padded input, intermediate arithmetic that fits the machine integers,
/// and an allocatable output.
pub open spec fn conv2d_ok(
    input: Tensor,
    weight: Tensor,
    bias: Option<Tensor>,
    stride: (i64, i64),
    padding: (i64, i64),
    dilation: (i64, i64),
) -> bool {
    let batch = input.spec_shape()[0] as int;
    let in_ch = input.spec_shape()[1] as int;
    let ih = input.spec_shape()[2] as int;
    let iw = input.spec_shape()[3] as int;
    let out_ch = weight.spec_shape()[0] as int;
    let kh = weight.spec_shape()[2] as int;
    let kw = weight.spec_shape()[3] as int;
    let num_h = ih + 2 * (padding.0 as int) - (dilation.0 as int) * (kh - 1) - 1;
    let num_w = iw + 2 * (padding.1 as int) - (dilation.1 as int) * (kw - 1) - 1;
    let oh = num_h / (stride.0 as int) + 1;
    let ow = num_w / (stride.1 as int) + 1;
    &&& input.spec_readable_f32()
    &&& weight.spec_readable_f32()
    &&& input.spec_shape().len() == 4
    &&& weight.spec_shape().len() == 4
    &&& weight.spec_shape()[1] == input.spec_shape()[1]
    &&& stride.0 >= 1 && stride.1 >= 1 && padding.0 >= 0 && padding.1 >= 0 && dilation.0 >= 0
        && dilation.1 >= 0 && kh >= 1 && kw >= 1
    &&& (match bias {
        Some(b) => b.spec_readable_f32() && b.spec_numel() >= out_ch,
        None => true,
    })
    &&& 2 * (padding.0 as int) <= i64::MAX && 2 * (padding.0 as int) + ih <= i64::MAX
    &&& (dilation.0 as int) * (kh - 1) <= i64::MAX && (dilation.0 as int) * (kh - 1) + 1
        <= i64::MAX
    &&& 2 * (padding.1 as int) <= i64::MAX && 2 * (padding.1 as int) + iw <= i64::MAX
    &&& (dilation.1 as int) * (kw - 1) <= i64::MAX && (dilation.1 as int) * (kw - 1) + 1
        <= i64::MAX
    &&& num_h >= 0 && num_w >= 0
    &&& num_h / (stride.0 as int) < i64::MAX && num_w / (stride.1 as int) < i64::MAX
    &&& out_ch * oh <= i64::MAX && out_ch * oh * ow <= i64::MAX && batch * (out_ch * oh * ow)
        <= i64::MAX
    &&& batch * (out_ch * oh * ow) <= usize::MAX
    &&& kh * kw <= i64::MAX && in_ch * (kh * kw) <= i64::MAX
    &&& ih * iw <= i64::MAX && in_ch * (ih * iw) <= i64::MAX
    &&& TensorImpl::can_allocate(
        seq![input.spec_shape()[0], weight.spec_shape()[0], oh as i64, ow as i64],
        default_options(),
    )
}

/// 2-D convolution of a `batch, in_ch, height, width` tensor with an
/// `out_ch, in_ch, kh, kw` weight tensor, with stride, zero padding and
/// dilation; window positions outside the input plane contribute nothing.
/// Undefined on undefined or unreadable operands, non-4-D shapes, a
/// channel mismatch, non-positive strides or kernel extents, negative
/// padding or dilation, a window larger than the padded input, a bias
/// shorter than the output channels, or an unallocatable result.
pub fn conv2d(
    input: &Tensor,
    weight: &Tensor,
    bias: Option<&Tensor>,
    stride: (i64, i64),
    padding: (i64, i64),
    dilation: (i64, i64),
) -> (r: Tensor)
    requires
        input.wf(),
        weight.wf(),
        match bias {
            Some(b) => b.wf(),
            None => true,
        },
    ensures
        r.wf(),
        r.impl_ is Some <==> conv2d_ok(
            *input,
            *weight,
            (match bias {
                Some(b) => Some(*b),
                None => None,
            }),
            stride,
            padding,
            dilation,
        ),
        r.impl_ matches Some(ti) ==> input.spec_readable_f32() && weight.spec_readable_f32()
            && input.spec_shape().len() == 4 && weight.spec_shape().len() == 4
            && weight.spec_shape()[1] == input.spec_shape()[1] && {
            let batch = input.spec_shape()[0] as int;
            let in_ch = input.spec_shape()[1] as int;
            let ih = input.spec_shape()[2] as int;
            let iw = input.spec_shape()[3] as int;
            let out_ch = weight.spec_shape()[0] as int;
            let kh = weight.spec_shape()[2] as int;
            let kw = weight.spec_shape()[3] as int;
            let num_h = ih + 2 * (padding.0 as int) - (dilation.0 as int) * (kh - 1) - 1;
            let num_w = iw + 2 * (padding.1 as int) - (dilation.1 as int) * (kw - 1) - 1;
            let oh = num_h / (stride.0 as int) + 1;
            let ow = num_w / (stride.1 as int) + 1;
            let bdata = match bias {
                Some(b) => Some(b.spec_f32_data()),
                None => None,
            };
            &&& stride.0 >= 1 && stride.1 >= 1 && padding.0 >= 0 && padding.1 >= 0
                && dilation.0 >= 0 && dilation.1 >= 0 && kh >= 1 && kw >= 1
            &&& num_h >= 0 && num_w >= 0
            &&& (match bias {
                Some(b) => b.spec_readable_f32() && b.spec_numel() > weight.spec_shape()[0] - 1,
                None => true,
            })
            &&& ti.spec_shape() == seq![
                input.spec_shape()[0],
                weight.spec_shape()[0],
                oh as i64,
                ow as i64,
            ]
            &&& ti.spec_offset() == 0
            &&& ti.spec_options() == default_options()
            &&& readable_f32(*ti)
            &&& f32_data(*ti) == conv_data(
                input.spec_f32_data(),
                weight.spec_f32_data(),
                bdata,
                batch,
                in_ch,
                out_ch,
                ih,
                iw,
                kh,
                kw,
                stride.0 as int,
                stride.1 as int,
                padding.0 as int,
                padding.1 as int,
                dilation.0 as int,
                dilation.1 as int,
                oh,
                ow,
            )
        },
{
    let iti: &TensorImpl = match &input.impl_ {
        None => {
            return Tensor::new();
        },
        Some(rc) => rc,
    };
    let wti: &TensorImpl = match &weight.impl_ {
        None => {
            return Tensor::new();
        },
        Some(rc) => rc,
    };
    let ishape = iti.shape();
    let wshape = wti.shape();
    if ishape.len() != 4 || wshape.len() != 4 {
        return Tensor::new();
    }
    let (s0, s1) = stride;
    let (p0, p1) = padding;
    let (d0, d1) = dilation;
    let batch = ishape[0];
    let in_ch = ishape[1];
    let ih = ishape[2];
    let iw = ishape[3];
    let out_ch = wshape[0];
    let kh = wshape[2];
    let kw = wshape[3];
    if wshape[1] != in_ch {
        return Tensor::new();
    }
    if s0 < 1 || s1 < 1 || p0 < 0 || p1 < 0 || d0 < 0 || d1 < 0 || kh < 1 || kw < 1 {
        return Tensor::new();
    }
    proof {
        assert(iti.spec_shape()[0] >= 0);
        assert(iti.spec_shape()[1] >= 0);
        assert(iti.spec_shape()[2] >= 0);
        assert(iti.spec_shape()[3] >= 0);
        assert(wti.spec_shape()[0] >= 0);
    }
    let va = match iti.to_list::<u32>() {
        Err(_) => {
            return Tensor::new();
        },
        Ok(v) => v,
    };
    let vw = match wti.to_list::<u32>() {
        Err(_) => {
            return Tensor::new();
        },
        Ok(v) => v,
    };
    proof {
        lemma_f32_list(va@, iti);
        lemma_f32_list(vw@, wti);
    }
    let vb: Option<Vec<u32>> = match bias {
        Some(b) => match &b.impl_ {
            None => {
                return Tensor::new();
            },
            Some(brc) => {
                let bti: &TensorImpl = brc;
                match bti.to_list::<u32>() {
                    Err(_) => {
                        return Tensor::new();
                    },
                    Ok(v) => {
                        proof {
                            lemma_f32_list(v@, bti);
                        }
                        if (v.len() as u64) < (out_ch as u64) {
                            return Tensor::new();
                        }
                        Some(v)
                    },
                }
            },
        },
        None => None,
    };
    // Output extents, with every intermediate checked.
    let two_p0 = match p0.checked_mul(2) {
        None => {
            return Tensor::new();
        },
        Some(v) => v,
    };
    let pad_h = match two_p0.checked_add(ih) {
        None => {
            return Tensor::new();
        },
        Some(v) => v,
    };
    let reach_h = match d0.checked_mul(kh - 1) {
        None => {
            return Tensor::new();
        },
        Some(v) => v,
    };
    let span_h = match reach_h.checked_add(1) {
        None => {
            return Tensor::new();
        },
        Some(v) => v,
    };
    let num_h = match pad_h.checked_sub(span_h) {
        None => {
            return Tensor::new();
        },
        Some(v) => v,
    };
    if num_h < 0 {
        return Tensor::new();
    }
    let oh = match (num_h / s0).checked_add(1) {
        None => {
            return Tensor::new();
        },
        Some(v) => v,
    };
    let two_p1 = match p1.checked_mul(2) {
        None => {
            return Tensor::new();
        },
        Some(v) => v,
    };
    let pad_w = match two_p1.checked_add(iw) {
        None => {
            return Tensor::new();
        },
        Some(v) => v,
    };
    let reach_w = match d1.checked_mul(kw - 1) {
        None => {
            return Tensor::new();
        },
        Some(v) => v,
    };
    let span_w = match reach_w.checked_add(1) {
        None => {
            return Tensor::new();
        },
        Some(v) => v,
    };
    let num_w = match pad_w.checked_sub(span_w) {
        None => {
            return Tensor::new();
        },
        Some(v) => v,
    };
    if num_w < 0 {
        return Tensor::new();
    }
    let ow = match (num_w / s1).checked_add(1) {
        None => {
            return Tensor::new();
        },
        Some(v) => v,
    };
    proof {
        assert(oh >= 1 && ow >= 1) by (nonlinear_arith)
            requires
                num_h >= 0,
                num_w >= 0,
                s0 >= 1,
                s1 >= 1,
                oh == num_h as int / s0 as int + 1,
                ow == num_w as int / s1 as int + 1,
        ;
    }
    let oc_oh = match out_ch.checked_mul(oh) {
        None => {
            return Tensor::new();
        },
        Some(v) => v,
    };
    let chw = match oc_oh.checked_mul(ow) {
        None => {
            return Tensor::new();
        },
        Some(v) => v,
    };
    let total64 = match batch.checked_mul(chw) {
        None => {
            return Tensor::new();
        },
        Some(v) => v,
    };
    proof {
        assert(chw >= 0 && total64 >= 0) by (nonlinear_arith)
            requires
                out_ch >= 0,
                oh >= 1,
                ow >= 1,
                batch >= 0,
                chw == out_ch * oh * ow,
                total64 == batch * chw,
        ;
    }
    if total64 as u64 > usize::MAX as u64 {
        return Tensor::new();
    }
    let total = total64 as usize;
    let kk = match kh.checked_mul(kw) {
        None => {
            return Tensor::new();
        },
        Some(v) => v,
    };
    let ickk = match in_ch.checked_mul(kk) {
        None => {
            return Tensor::new();
        },
        Some(v) => v,
    };
    let ih_iw = match ih.checked_mul(iw) {
        None => {
            return Tensor::new();
        },
        Some(v) => v,
    };
    let ic_ihiw = match in_ch.checked_mul(ih_iw) {
        None => {
            return Tensor::new();
        },
        Some(v) => v,
    };
    let ghost idata = va@;
    let ghost wdata = vw@;
    let ghost bdata: Option<Seq<u32>> = match &vb {
        Some(v) => Some(v@),
        None => None,
    };
    let ghost ohg = oh as int;
    let ghost owg = ow as int;
    let va_len = va.len();
    let vw_len = vw.len();
    proof {
        lemma_len_of_quad(iti, batch as int, in_ch as int, ih as int, iw as int);
        lemma_len_of_quad(wti, out_ch as int, in_ch as int, kh as int, kw as int);
        assert(idata.len() == (batch * in_ch) * (ih * iw));
        assert(wdata.len() == (out_ch * in_ch) * (kh * kw));
    }
    let mut out: Vec<u32> = Vec::new();
    let mut p: usize = 0;
    while p < total
        invariant
            input.wf(),
            weight.wf(),
            va@ == idata,
            vw@ == wdata,
            (match &vb {
                Some(v) => bdata == Some(v@) && v@.len() >= out_ch,
                None => bdata is None,
            }),
            idata.len() == (batch * in_ch) * (ih * iw),
            wdata.len() == (out_ch * in_ch) * (kh * kw),
            idata.len() <= usize::MAX,
            idata.len() <= i64::MAX,
            wdata.len() <= usize::MAX,
            wdata.len() <= i64::MAX,
            va_len == idata.len(),
            vw_len == wdata.len(),
            batch >= 0,
            in_ch >= 0,
            out_ch >= 0,
            ih >= 0,
            iw >= 0,
            kh >= 1,
            kw >= 1,
            s0 >= 1,
            s1 >= 1,
            p0 >= 0,
            p1 >= 0,
            d0 >= 0,
            d1 >= 0,
            kk == kh * kw,
            ickk == in_ch * kk,
            ih_iw == ih * iw,
            ic_ihiw == in_ch * (ih_iw as int),
            ohg == oh,
            owg == ow,
            oh >= 1,
            ow >= 1,
            num_h >= 0,
            num_w >= 0,
            num_h == ih + 2 * p0 - d0 * (kh - 1) - 1,
            num_w == iw + 2 * p1 - d1 * (kw - 1) - 1,
            ih + 2 * p0 <= i64::MAX,
            iw + 2 * p1 <= i64::MAX,
            oh == num_h as int / s0 as int + 1,
            ow == num_w as int / s1 as int + 1,
            chw == out_ch * oh * ow,
            total == batch * chw,
            total <= usize::MAX,
            total <= i64::MAX,
            p <= total,
            out@ =~= Seq::new(
                p as nat,
                |q: int|
                    {
                        let b = q / (out_ch as int * ohg * owg);
                        let r1 = q % (out_ch as int * ohg * owg);
                        let oc = r1 / (ohg * owg);
                        let r2 = r1 % (ohg * owg);
                        let oy = r2 / owg;
                        let ox = r2 % owg;
                        conv_elem(
                            idata,
                            wdata,
                            bdata,
                            in_ch as int,
                            ih as int,
                            iw as int,
                            kh as int,
                            kw as int,
                            s0 as int,
                            s1 as int,
                            p0 as int,
                            p1 as int,
                            d0 as int,
                            d1 as int,
                            b * (in_ch as int * (ih as int * iw as int)),
                            oc * (in_ch as int * (kh as int * kw as int)),
                            oc,
                            oy,
                            ox,
                        )
                    },
            ),
        decreases total - p,
    {
        proof {
            assert(batch >= 1 && chw >= 1) by (nonlinear_arith)
                requires
                    batch * chw >= 1,
                    batch >= 0,
                    chw >= 0,
            ;
            assert(out_ch >= 1) by (nonlinear_arith)
                requires
                    out_ch * oh * ow >= 1,
                    out_ch >= 0,
            ;
            assert(chw <= total && out_ch * oh * ow == chw && oh * ow <= chw && chw <= i64::MAX
                && oh <= chw && ow <= chw && oh * ow >= 1 && out_ch <= chw) by (nonlinear_arith)
                requires
                    batch >= 1,
                    chw >= 1,
                    total == batch * chw,
                    chw == out_ch * oh * ow,
                    oh >= 1,
                    ow >= 1,
                    out_ch >= 1,
                    chw <= i64::MAX,
            ;
        }
        let b = p / (chw as usize);
        let r1 = p % (chw as usize);
        let ohw = (oh as usize) * (ow as usize);
        proof {
            assert(0 <= (b as int) && (b as int) < batch && 0 <= r1 && r1 < chw)
                by (nonlinear_arith)
                requires
                    0 <= p && p < batch * chw,
                    chw >= 1,
                    b == p as int / chw as int,
                    r1 == p as int % chw as int,
            ;
            assert(ohw as int == oh * ow && ohw >= 1) by (nonlinear_arith)
                requires
                    oh >= 1,
                    ow >= 1,
                    oh * ow <= usize::MAX,
                    ohw as int == (oh as usize) as int * (ow as usize) as int,
                    (oh as usize) as int == oh as int,
                    (ow as usize) as int == ow as int,
            ;
        }
        let oc = r1 / ohw;
        let r2 = r1 % ohw;
        proof {
            assert(0 <= (oc as int) && (oc as int) < out_ch && 0 <= r2 && r2 < oh * ow)
                by (nonlinear_arith)
                requires
                    0 <= r1,
                    r1 < chw,
                    chw == out_ch * oh * ow,
                    oh * ow >= 1,
                    out_ch >= 1,
                    oc == r1 as int / (ohw as int),
                    r2 == r1 as int % (ohw as int),
                    ohw as int == oh * ow,
            ;
        }
        let oy = r2 / (ow as usize);
        let ox = r2 % (ow as usize);
        proof {
            assert(0 <= (oy as int) && (oy as int) < oh && 0 <= (ox as int) && (ox as int) < ow)
                by (nonlinear_arith)
                requires
                    0 <= r2 && r2 < oh * ow,
                    ow >= 1,
                    oy == r2 as int / ow as int,
                    ox == r2 as int % ow as int,
            ;
            assert(b as int * (ic_ihiw as int) + ic_ihiw <= idata.len() && b as int * (
            ic_ihiw as int) >= 0 && ic_ihiw >= 0 && ic_ihiw <= idata.len() && ic_ihiw == in_ch * (
            ih * iw)) by (nonlinear_arith)
                requires
                    0 <= (b as int) && (b as int) < batch,
                    in_ch >= 0,
                    ih >= 0,
                    iw >= 0,
                    batch >= 1,
                    ic_ihiw == in_ch * (ih_iw as int),
                    ih_iw == ih * iw,
                    idata.len() == (batch * in_ch) * (ih * iw),
            ;
            assert(oc as int * (ickk as int) + ickk <= wdata.len() && oc as int * (ickk as int)
                >= 0 && ickk >= 0 && ickk <= wdata.len() && ickk == in_ch * (kh * kw))
                by (nonlinear_arith)
                requires
                    0 <= (oc as int) && (oc as int) < out_ch,
                    in_ch >= 0,
                    kh >= 1,
                    kw >= 1,
                    out_ch >= 1,
                    ickk == in_ch * (kk as int),
                    kk == kh * kw,
                    wdata.len() == (out_ch * in_ch) * (kh * kw),
            ;
        }
        let ibase = (b as i64) * ic_ihiw;
        let wbase = (oc as i64) * ickk;
        let mut acc: u32 = 0;
        let mut ic: i64 = 0;
        while ic < in_ch
            invariant
                va@ == idata,
                vw@ == wdata,
                va_len == idata.len(),
                vw_len == wdata.len(),
                idata.len() == (batch * in_ch) * (ih * iw),
                wdata.len() == (out_ch * in_ch) * (kh * kw),
                idata.len() <= i64::MAX,
                wdata.len() <= i64::MAX,
                ih >= 0,
                iw >= 0,
                kh >= 1,
                kw >= 1,
                s0 >= 1,
                s1 >= 1,
                p0 >= 0,
                p1 >= 0,
                d0 >= 0,
                d1 >= 0,
                in_ch >= 0,
                kk == kh * kw,
                ih_iw == ih * iw,
                num_h >= 0,
                num_w >= 0,
                num_h == ih + 2 * p0 - d0 * (kh - 1) - 1,
                num_w == iw + 2 * p1 - d1 * (kw - 1) - 1,
                ih + 2 * p0 <= i64::MAX,
                iw + 2 * p1 <= i64::MAX,
                0 <= (oy as int) && (oy as int) < ohg,
                0 <= (ox as int) && (ox as int) < owg,
                ohg == num_h as int / s0 as int + 1,
                owg == num_w as int / s1 as int + 1,
                ibase == b as int * (in_ch * (ih * iw)),
                wbase == oc as int * (in_ch * (kh * kw)),
                0 <= ibase,
                0 <= wbase,
                ibase + in_ch * (ih * iw) <= idata.len(),
                wbase + in_ch * (kh * kw) <= wdata.len(),
                0 <= ic && ic <= in_ch,
                acc == conv_acc(
                    idata,
                    wdata,
                    ih as int,
                    iw as int,
                    kh as int,
                    kw as int,
                    s0 as int,
                    s1 as int,
                    p0 as int,
                    p1 as int,
                    d0 as int,
                    d1 as int,
                    ibase as int,
                    wbase as int,
                    oy as int,
                    ox as int,
                    ic * (kh * kw),
                ),
            decreases in_ch - ic,
        {
            let mut ky: i64 = 0;
            while ky < kh
                invariant
                    va@ == idata,
                    vw@ == wdata,
                    va_len == idata.len(),
                    vw_len == wdata.len(),
                    idata.len() == (batch * in_ch) * (ih * iw),
                    wdata.len() == (out_ch * in_ch) * (kh * kw),
                    idata.len() <= i64::MAX,
                    wdata.len() <= i64::MAX,
                    ih >= 0,
                    iw >= 0,
                    kh >= 1,
                    kw >= 1,
                    s0 >= 1,
                    s1 >= 1,
                    p0 >= 0,
                    p1 >= 0,
                    d0 >= 0,
                    d1 >= 0,
                    in_ch >= 0,
                    kk == kh * kw,
                    ih_iw == ih * iw,
                    num_h >= 0,
                    num_w >= 0,
                    num_h == ih + 2 * p0 - d0 * (kh - 1) - 1,
                    num_w == iw + 2 * p1 - d1 * (kw - 1) - 1,
                    ih + 2 * p0 <= i64::MAX,
                    iw + 2 * p1 <= i64::MAX,
                    0 <= (oy as int) && (oy as int) < ohg,
                    0 <= (ox as int) && (ox as int) < owg,
                    ohg == num_h as int / s0 as int + 1,
                    owg == num_w as int / s1 as int + 1,
                    ibase == b as int * (in_ch * (ih * iw)),
                    wbase == oc as int * (in_ch * (kh * kw)),
                    0 <= ibase,
                    0 <= wbase,
                    ibase + in_ch * (ih * iw) <= idata.len(),
                    wbase + in_ch * (kh * kw) <= wdata.len(),
                    0 <= ic && ic < in_ch,
                    0 <= ky && ky <= kh,
                    acc == conv_acc(
                        idata,
                        wdata,
                        ih as int,
                        iw as int,
                        kh as int,
                        kw as int,
                        s0 as int,
                        s1 as int,
                        p0 as int,
                        p1 as int,
                        d0 as int,
                        d1 as int,
                        ibase as int,
                        wbase as int,
                        oy as int,
                        ox as int,
                        ic * (kh * kw) + ky * kw,
                    ),
                decreases kh - ky,
            {
                let mut kx: i64 = 0;
                while kx < kw
                    invariant
                        va@ == idata,
                        vw@ == wdata,
                        va_len == idata.len(),
                        vw_len == wdata.len(),
                        idata.len() == (batch * in_ch) * (ih * iw),
                        wdata.len() == (out_ch * in_ch) * (kh * kw),
                        idata.len() <= i64::MAX,
                        wdata.len() <= i64::MAX,
                        ih >= 0,
                        iw >= 0,
                        kh >= 1,
                        kw >= 1,
                        s0 >= 1,
                        s1 >= 1,
                        p0 >= 0,
                        p1 >= 0,
                        d0 >= 0,
                        d1 >= 0,
                        in_ch >= 0,
                        kk == kh * kw,
                        ih_iw == ih * iw,
                        num_h >= 0,
                        num_w >= 0,
                        num_h == ih + 2 * p0 - d0 * (kh - 1) - 1,
                        num_w == iw + 2 * p1 - d1 * (kw - 1) - 1,
                        ih + 2 * p0 <= i64::MAX,
                        iw + 2 * p1 <= i64::MAX,
                        0 <= (oy as int) && (oy as int) < ohg,
                        0 <= (ox as int) && (ox as int) < owg,
                        ohg == num_h as int / s0 as int + 1,
                        owg == num_w as int / s1 as int + 1,
                        ibase == b as int * (in_ch * (ih * iw)),
                        wbase == oc as int * (in_ch * (kh * kw)),
                        0 <= ibase,
                        0 <= wbase,
                        ibase + in_ch * (ih * iw) <= idata.len(),
                        wbase + in_ch * (kh * kw) <= wdata.len(),
                        0 <= ic && ic < in_ch,
                        0 <= ky && ky < kh,
                        0 <= kx && kx <= kw,
                        acc == conv_acc(
                            idata,
                            wdata,
                            ih as int,
                            iw as int,
                            kh as int,
                            kw as int,
                            s0 as int,
                            s1 as int,
                            p0 as int,
                            p1 as int,
                            d0 as int,
                            d1 as int,
                            ibase as int,
                            wbase as int,
                            oy as int,
                            ox as int,
                            ic * (kh * kw) + ky * kw + kx,
                        ),
                    decreases kw - kx,
                {
                    let ghost t = ic * (kh * kw) + ky * kw + kx;
                    proof {
                        assert(0 <= t && t + 1 <= in_ch * (kh * kw) && t / (kh as int * kw as int)
                            == ic && (t % (kh as int * kw as int)) / (kw as int) == ky && (t % (
                        kh as int * kw as int)) % (kw as int) == kx && ky * kw + kx < kh * kw && 0
                            <= ky * kw + kx) by (nonlinear_arith)
                            requires
                                0 <= ic && ic < in_ch,
                                0 <= ky && ky < kh,
                                0 <= kx && kx < kw,
                                kh >= 1,
                                kw >= 1,
                                t == ic * (kh * kw) + ky * kw + kx,
                        ;
                        assert(oy * s0 <= num_h && ox * s1 <= num_w) by (nonlinear_arith)
                            requires
                                0 <= (oy as int) && (oy as int) <= num_h as int / s0 as int,
                                0 <= (ox as int) && (ox as int) <= num_w as int / s1 as int,
                                s0 >= 1,
                                s1 >= 1,
                                num_h >= 0,
                                num_w >= 0,
                                ohg == num_h as int / s0 as int + 1,
                                owg == num_w as int / s1 as int + 1,
                                (oy as int) < ohg,
                                (ox as int) < owg,
                        ;
                        assert(0 <= ky * d0 && ky * d0 <= d0 * (kh - 1) && 0 <= kx * d1 && kx * d1
                            <= d1 * (kw - 1)) by (nonlinear_arith)
                            requires
                                0 <= ky && ky < kh,
                                0 <= kx && kx < kw,
                                d0 >= 0,
                                d1 >= 0,
                        ;
                        assert(0 - p0 <= oy * s0 - p0 + ky * d0 && oy * s0 - p0 + ky * d0 <= num_h
                            + d0 * (kh - 1) && num_h + d0 * (kh - 1) == ih + 2 * p0 - 1 && 0 - p1
                            <= ox * s1 - p1 + kx * d1 && ox * s1 - p1 + kx * d1 <= iw + 2 * p1
                            - 1) by (nonlinear_arith)
                            requires
                                0 <= oy * s0 && oy * s0 <= num_h,
                                0 <= ox * s1 && ox * s1 <= num_w,
                                0 <= ky * d0 && ky * d0 <= d0 * (kh - 1),
                                0 <= kx * d1 && kx * d1 <= d1 * (kw - 1),
                                p0 >= 0,
                                p1 >= 0,
                                num_h == ih + 2 * p0 - d0 * (kh - 1) - 1,
                                num_w == iw + 2 * p1 - d1 * (kw - 1) - 1,
                        ;
                    }
                    let in_y = (oy as i64) * s0 - p0 + ky * d0;
                    let in_x = (ox as i64) * s1 - p1 + kx * d1;
                    if 0 <= in_y && in_y < ih && 0 <= in_x && in_x < iw {
                        proof {
                            assert(0 <= ic * (ih * iw) + in_y * iw + in_x && ic * (ih * iw) + in_y
                                * iw + in_x < in_ch * (ih * iw) && 0 <= ic * (kh * kw) + ky * kw
                                + kx && ic * (kh * kw) + ky * kw + kx < in_ch * (kh * kw))
                                by (nonlinear_arith)
                                requires
                                    0 <= in_y && in_y < ih,
                                    0 <= in_x && in_x < iw,
                                    0 <= ic && ic < in_ch,
                                    0 <= ky && ky < kh,
                                    0 <= kx && kx < kw,
                                    iw >= 1,
                                    kw >= 1,
                                    kh >= 1,
                            ;
                        }
                        let ii = (ibase + ic * ih_iw + in_y * iw + in_x) as usize;
                        let wi = (wbase + ic * kk + ky * kw + kx) as usize;
                        acc = crate::fpbits::f32_add_bits(
                            acc,
                            crate::fpbits::f32_mul_bits(va[ii], vw[wi]),
                        );
                    } else {
                    }
                    proof {
                        assert(acc == conv_acc(
                            idata,
                            wdata,
                            ih as int,
                            iw as int,
                            kh as int,
                            kw as int,
                            s0 as int,
                            s1 as int,
                            p0 as int,
                            p1 as int,
                            d0 as int,
                            d1 as int,
                            ibase as int,
                            wbase as int,
                            oy as int,
                            ox as int,
                            ic * (kh * kw) + ky * kw + kx + 1,
                        ));
                    }
                    kx += 1;
                }
                proof {
                    assert(ic * (kh * kw) + ky * kw + kw == ic * (kh * kw) + (ky + 1) * kw)
                        by (nonlinear_arith);
                }
                ky += 1;
            }
            proof {
                assert(ic * (kh * kw) + kh * kw == (ic + 1) * (kh * kw)) by (nonlinear_arith);
            }
            ic += 1;
        }
        let final_val = match &vb {
            Some(bv) => crate::fpbits::f32_add_bits(acc, bv[oc]),
            None => acc,
        };
        proof {
            assert(ic * (kh * kw) == in_ch * (kh * kw));
        }
        out.push(final_val);
        p += 1;
    }
    let mut rshape: Vec<i64> = Vec::new();
    rshape.push(batch);
    rshape.push(out_ch);
    rshape.push(oh);
    rshape.push(ow);
    let options = Options::default();
    proof {
        assert(batch as int * (out_ch as int) * ohg * owg == total) by (nonlinear_arith)
            requires
                total == batch * chw,
                chw == out_ch * ohg * owg,
        ;
        assert(rshape@ =~= seq![
            iti.spec_shape()[0],
            wti.spec_shape()[0],
            ohg as i64,
            owg as i64,
        ]);
        assert(shape_product(rshape@) == total) by {
            crate::tensor::shape::lemma_product_pair(seq![rshape@[0], rshape@[1]]);
            crate::tensor::shape::lemma_product_pair(seq![rshape@[2], rshape@[3]]);
            assert(rshape@ =~= seq![rshape@[0], rshape@[1]] + seq![rshape@[2], rshape@[3]]);
            crate::tensor::shape::lemma_product_append(
                seq![rshape@[0], rshape@[1]],
                seq![rshape@[2], rshape@[3]],
            );
            assert((batch * out_ch) * (ohg * owg) == total) by (nonlinear_arith)
                requires
                    total == batch as int * (out_ch as int) * ohg * owg,
            ;
        }
    }
    match TensorImpl::new_from_data(out.as_slice(), rshape.as_slice(), options) {
        Ok(impl_) => {
            proof {
                lemma_f32_data_of_elems(&impl_, out@);
                assert(out@ =~= conv_data(
                    input.spec_f32_data(),
                    weight.spec_f32_data(),
                    bdata,
                    batch as int,
                    in_ch as int,
                    out_ch as int,
                    ih as int,
                    iw as int,
                    kh as int,
                    kw as int,
                    s0 as int,
                    s1 as int,
                    p0 as int,
                    p1 as int,
                    d0 as int,
                    d1 as int,
                    ohg,
                    owg,
                ));
            }
            Tensor { impl_: Some(Rc::new(impl_)) }
        },
        Err(_) => {
            proof {
                assert(!conv2d_ok(
                    *input,
                    *weight,
                    (match bias {
                        Some(b) => Some(*b),
                        None => None,
                    }),
                    stride,
                    padding,
                    dilation,
                ));
            }
            Tensor::new()
        },
    }
}

/// A four-dimensional view holds one Float32 element per position of its
/// shape, grouped as (leading two) by (trailing two) dimensions.
proof fn lemma_len_of_quad(ti: &TensorImpl, a: int, b: int, c: int, d: int)
    requires
        ti.wf(),
        ti.spec_shape().len() == 4,
        ti.spec_shape()[0] == a,
        ti.spec_shape()[1] == b,
        ti.spec_shape()[2] == c,
        ti.spec_shape()[3] == d,
    ensures
        ti.spec_numel() == (a * b) * (c * d),
{
    let s = ti.spec_shape();
    crate::tensor::shape::lemma_product_pair(seq![s[0], s[1]]);
    crate::tensor::shape::lemma_product_pair(seq![s[2], s[3]]);
    assert(s =~= (seq![s[0], s[1]]) + (seq![s[2], s[3]]));
    crate::tensor::shape::lemma_product_append(seq![s[0], s[1]], seq![s[2], s[3]]);
}

} // verus!
