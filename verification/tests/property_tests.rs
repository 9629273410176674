use rtorch::operations::{flatten, reshape};
use rtorch::tensor::broadcasting::broadcast_tensor_data;
use rtorch::{DType, Device, Scalar, Storage, Tensor, TensorImpl};

fn bits(v: Vec<f32>) -> Vec<u32> {
    v.into_iter().map(|x| x.to_bits()).collect()
}

fn floats(v: Vec<u32>) -> Vec<f32> {
    v.into_iter().map(f32::from_bits).collect()
}

#[test]
fn test_numel_is_shape_product() {
    assert_eq!(Tensor::empty(&[2, 3, 4]).numel(), 24);
    assert_eq!(Tensor::empty(&[7]).numel(), 7);
    // The empty shape is the scalar shape and holds one element.
    assert_eq!(Tensor::scalar(Scalar::Float32(1.0f32.to_bits())).numel(), 1);
}

#[test]
fn test_contiguous_strides_are_suffix_products() {
    assert_eq!(Tensor::empty(&[2, 3, 4]).strides(), vec![12, 4, 1]);
    assert_eq!(Tensor::empty(&[5]).strides(), vec![1]);
    assert_eq!(
        Tensor::scalar(Scalar::Float32(0.0f32.to_bits())).strides(),
        Vec::<i64>::new()
    );
}

#[test]
fn test_row_major_readback() {
    let data = bits(vec![1.5, -2.25, 3.0, 0.0, 42.0, -0.5]);
    let t = Tensor::from_array_1d(data.clone());
    assert_eq!(t.to_list::<u32>(), data);
}

#[test]
fn test_reshape_succeeds_iff_count_matches() {
    let t = Tensor::from_array_1d(bits(vec![1.0, 2.0, 3.0, 4.0, 5.0, 6.0]));

    let mut ok = t.clone();
    assert!(ok.reshape_(&[2, 3]).is_ok());
    assert_eq!(ok.shape(), vec![2, 3]);
    assert_eq!(ok.strides(), vec![3, 1]);
    // The flattened element sequence is unchanged.
    assert_eq!(floats(ok.to_list::<u32>()), vec![1.0, 2.0, 3.0, 4.0, 5.0, 6.0]);

    let mut bad = t.clone();
    assert!(bad.reshape_(&[4, 2]).is_err());
    assert_eq!(bad.shape(), vec![6]);
}

#[test]
fn test_reshape_copy_keeps_old_shape_on_mismatch() {
    let t = Tensor::from_array_1d(bits(vec![1.0, 2.0, 3.0]));
    let r = reshape(&t, &[5]);
    assert!(r.defined());
    assert_eq!(r.shape(), vec![3]);
}

#[test]
fn test_reshape_on_shared_view_fails() {
    let mut t = Tensor::from_array_1d(bits(vec![1.0, 2.0]));
    let alias = t.share();
    assert!(t.reshape_(&[2, 1]).is_err());
    assert_eq!(alias.shape(), vec![2]);
}

#[test]
fn test_broadcast_materialization_repeats_row() {
    let data = bits(vec![1.0, 2.0, 3.0]);
    let out = broadcast_tensor_data(data.as_slice(), &[1, 3], &[2, 3]).unwrap();
    assert_eq!(
        floats(out),
        vec![1.0, 2.0, 3.0, 1.0, 2.0, 3.0]
    );
}

#[test]
fn test_end_to_end_shape_engine() {
    let t = Tensor::from_array_2d(vec![bits(vec![1.0, 2.0, 3.0]), bits(vec![4.0, 5.0, 6.0])]);
    assert_eq!(t.shape(), vec![2, 3]);
    assert_eq!(t.numel(), 6);
    assert_eq!(t.strides(), vec![3, 1]);

    let f = flatten(&t);
    assert_eq!(f.shape(), vec![6]);
    assert_eq!(floats(f.to_list::<u32>()), vec![1.0, 2.0, 3.0, 4.0, 5.0, 6.0]);

    let tr = t.transpose(0, 1);
    assert_eq!(tr.shape(), vec![3, 2]);
    assert_eq!(floats(tr.to_list::<u32>()), vec![1.0, 4.0, 2.0, 5.0, 3.0, 6.0]);
}

#[test]
fn test_matmul_2x2() {
    let a = Tensor::from_array_2d(vec![bits(vec![1.0, 2.0]), bits(vec![3.0, 4.0])]);
    let b = Tensor::from_array_2d(vec![bits(vec![5.0, 6.0]), bits(vec![7.0, 8.0])]);
    let c = a.matmul(&b);
    assert_eq!(c.shape(), vec![2, 2]);
    assert_eq!(floats(c.to_list::<u32>()), vec![19.0, 22.0, 43.0, 50.0]);

    let bad = a.matmul(&Tensor::from_array_1d(bits(vec![1.0])));
    assert!(!bad.defined());
}

#[test]
fn test_storage_rejects_zero_size_and_cuda() {
    assert!(Storage::new(0, Device::cpu()).is_err());
    assert!(Storage::new(16, Device::cuda(0)).is_err());
    let s = Storage::new(16, Device::cpu()).unwrap();
    assert_eq!(s.size(), 16);
    assert!(s.device().is_cpu());
}

#[test]
fn test_storage_copy_bounds() {
    let mut s = Storage::new(4, Device::cpu()).unwrap();
    assert!(s.copy_from_slice(&[1, 2, 3, 4, 5]).is_err());
    assert!(s.copy_from_slice(&[9, 8]).is_ok());
    let mut out = vec![0u8; 2];
    assert!(s.copy_to_slice(&mut out).is_ok());
    assert_eq!(out, vec![9, 8]);
}

#[test]
fn test_tensor_impl_data_length_mismatch() {
    let data: Vec<u32> = bits(vec![1.0, 2.0, 3.0]);
    let opts = rtorch::Options::default();
    assert!(TensorImpl::new_from_data(data.as_slice(), &[2, 2], opts).is_err());
}

#[test]
fn test_tensor_impl_dtype_mismatch() {
    let data: Vec<i64> = vec![1, 2, 3];
    let opts = rtorch::Options::default();
    // Default options ask for Float32; i64 data does not match.
    assert!(TensorImpl::new_from_data(data.as_slice(), &[3], opts).is_err());
}

#[test]
fn test_item_requires_single_element() {
    let t = Tensor::from_array_1d(bits(vec![1.0, 2.0]));
    // Falls back to the zero value: item() needs exactly one element.
    assert_eq!(t.item::<u32>(), 0);
    let s = Tensor::scalar(Scalar::Float32(3.5f32.to_bits()));
    assert_eq!(f32::from_bits(s.item::<u32>()), 3.5);
}

#[test]
fn test_to_list_dtype_mismatch_is_empty() {
    let t = Tensor::from_array_1d(vec![1i64, 2, 3]);
    assert_eq!(t.dtype(), DType::Int64);
    assert_eq!(t.to_list::<u32>(), Vec::<u32>::new());
    assert_eq!(t.to_list::<i64>(), vec![1, 2, 3]);
}

#[test]
fn test_flatten_family() {
    let mut t = Tensor::from_array_3d(vec![vec![
        bits(vec![1.0, 2.0]),
        bits(vec![3.0, 4.0]),
    ]]);
    assert_eq!(t.shape(), vec![1, 2, 2]);

    // Collapse the trailing two dimensions in place.
    let ti = std::rc::Rc::get_mut(t.impl_.as_mut().unwrap()).unwrap();
    assert!(ti.flatten_(1, 2).is_ok());
    assert_eq!(t.shape(), vec![1, 4]);

    let ti = std::rc::Rc::get_mut(t.impl_.as_mut().unwrap()).unwrap();
    assert!(ti.flatten_(5, 6).is_err());
    assert!(ti.squeeze_(Some(0)).is_ok());
    assert_eq!(t.shape(), vec![4]);

    let ti = std::rc::Rc::get_mut(t.impl_.as_mut().unwrap()).unwrap();
    assert!(ti.unsqueeze_(0).is_ok());
    assert_eq!(t.shape(), vec![1, 4]);
    assert!(Tensor::new().defined() == false);
}

#[test]
fn test_squeeze_all_removes_unit_dims() {
    let mut t = Tensor::empty(&[1, 2, 1, 3]);
    let ti = std::rc::Rc::get_mut(t.impl_.as_mut().unwrap()).unwrap();
    assert!(ti.squeeze_(None).is_ok());
    assert_eq!(t.shape(), vec![2, 3]);
    assert_eq!(t.numel(), 6);
}

#[test]
fn test_share_versus_clone() {
    let t = Tensor::from_array_1d(bits(vec![1.0, 2.0]));
    let shared = t.share();
    let copied = t.clone();
    assert!(shared.defined() && copied.defined());
    assert_eq!(shared.to_list::<u32>(), t.to_list::<u32>());
    assert_eq!(copied.to_list::<u32>(), t.to_list::<u32>());
}

#[test]
fn test_sum_and_scalar() {
    let t = Tensor::from_array_1d(bits(vec![1.5, 2.5, 3.0]));
    let s = t.sum();
    assert_eq!(s.shape(), Vec::<i64>::new());
    assert_eq!(f32::from_bits(s.item::<u32>()), 7.0);
    assert!(!Tensor::new().sum().defined());
}

#[test]
fn test_relu_clamps_negative() {
    let t = Tensor::from_array_1d(bits(vec![-3.0, 0.0, 3.0]));
    let r = rtorch::functions::relu(&t);
    assert_eq!(floats(r.to_list::<u32>()), vec![0.0, 0.0, 3.0]);
}

#[test]
fn test_l1_loss_values() {
    let a = Tensor::from_array_1d(bits(vec![1.0, -2.0]));
    let b = Tensor::from_array_1d(bits(vec![3.0, 1.0]));
    let l = rtorch::functions::l1_loss(&a, &b, rtorch::functions::LossReduction::NoReduction);
    assert_eq!(floats(l.to_list::<u32>()), vec![2.0, 3.0]);
    let m = rtorch::functions::l1_loss(&a, &b, rtorch::functions::LossReduction::Mean);
    assert_eq!(f32::from_bits(m.item::<u32>()), 2.5);
    let mismatch = rtorch::functions::l1_loss(&a, &Tensor::from_array_1d(bits(vec![1.0])), rtorch::functions::LossReduction::NoReduction);
    assert!(!mismatch.defined());
}

#[test]
fn test_options_builders() {
    let o = rtorch::Options::new()
        .dtype(DType::Int64)
        .requires_grad(true)
        .pinned_memory(true);
    assert_eq!(o.dtype, DType::Int64);
    assert!(o.requires_grad);
    assert!(o.pinned_memory);
    let ng = o.no_grad();
    assert!(!ng.requires_grad);
    let ix = rtorch::Options::new().indices();
    assert_eq!(ix.dtype, DType::Int64);
}

#[test]
fn test_device_flags() {
    assert!(Device::cpu().is_cpu());
    assert!(Device::cuda(1).is_cuda());
    assert!(!Device::cuda(1).is_cpu());
}

#[test]
fn test_max_pool2d_values() {
    let t = Tensor::from_array_3d(vec![vec![
        bits(vec![1.0, 2.0, 5.0, 6.0]),
        bits(vec![3.0, 4.0, 7.0, 8.0]),
        bits(vec![-1.0, 0.0, 2.0, 1.0]),
        bits(vec![9.0, -2.0, 0.0, 3.0]),
    ]]);
    let t = reshape(&t, &[1, 1, 4, 4]);
    let pooled = rtorch::functions::max_pool2d(&t, (2, 2), None, (0, 0));
    assert_eq!(pooled.shape(), vec![1, 1, 2, 2]);
    assert_eq!(floats(pooled.to_list::<u32>()), vec![4.0, 8.0, 9.0, 3.0]);

    let not_4d = rtorch::functions::max_pool2d(&Tensor::from_array_1d(bits(vec![1.0])), (1, 1), None, (0, 0));
    assert!(!not_4d.defined());
}

#[test]
fn test_conv2d_values() {
    let input = Tensor::from_array_3d(vec![vec![
        bits(vec![1.0, 2.0, 3.0]),
        bits(vec![4.0, 5.0, 6.0]),
        bits(vec![7.0, 8.0, 9.0]),
    ]]);
    let input = reshape(&input, &[1, 1, 3, 3]);
    let weight = Tensor::from_array_2d(vec![bits(vec![1.0, 0.0]), bits(vec![0.0, -1.0])]);
    let weight = reshape(&weight, &[1, 1, 2, 2]);
    let out = rtorch::functions::conv2d(&input, &weight, None, (1, 1), (0, 0), (1, 1));
    assert_eq!(out.shape(), vec![1, 1, 2, 2]);
    // Each window computes top-left minus bottom-right.
    assert_eq!(floats(out.to_list::<u32>()), vec![-4.0, -4.0, -4.0, -4.0]);

    let bias = Tensor::from_array_1d(bits(vec![10.0]));
    let with_bias = rtorch::functions::conv2d(&input, &weight, Some(&bias), (1, 1), (0, 0), (1, 1));
    assert_eq!(floats(with_bias.to_list::<u32>()), vec![6.0, 6.0, 6.0, 6.0]);

    let self_window = rtorch::functions::conv2d(&input, &input, None, (1, 1), (0, 0), (1, 1));
    assert_eq!(self_window.shape(), vec![1, 1, 1, 1]);
    assert_eq!(floats(self_window.to_list::<u32>()), vec![285.0]);
}

#[test]
fn test_linspace_values() {
    let t = Tensor::linspace(0.0f32.to_bits(), 1.0f32.to_bits(), 5);
    assert_eq!(t.shape(), vec![5]);
    assert_eq!(floats(t.to_list::<u32>()), vec![0.0, 0.25, 0.5, 0.75, 1.0]);

    let single = Tensor::linspace(3.0f32.to_bits(), 9.0f32.to_bits(), 1);
    assert_eq!(floats(single.to_list::<u32>()), vec![3.0]);

    assert!(!Tensor::linspace(0, 0, 0).defined());
}
