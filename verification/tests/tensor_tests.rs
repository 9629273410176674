use rtorch::tensor::broadcasting::{broadcast_shapes, is_broadcastable};
use rtorch::{Scalar, Tensor};

fn bits(v: Vec<f32>) -> Vec<u32> {
    v.into_iter().map(|x| x.to_bits()).collect()
}

fn floats(v: Vec<u32>) -> Vec<f32> {
    v.into_iter().map(f32::from_bits).collect()
}

#[test]
fn test_constructor_default() {
    let x = Tensor::new();
    assert!(!x.defined());
}

#[test]
fn test_constructor_shape() {
    let x = Tensor::empty(&[2, 3]);
    assert!(x.defined());
    assert_eq!(x.dim(), 2);
    assert_eq!(x.numel(), 6);
    assert_eq!(x.shape(), vec![2, 3]);
    assert_eq!(x.strides(), vec![3, 1]);
}

#[test]
fn test_constructor_scalar() {
    let x = Tensor::scalar(Scalar::Float32(2.0f32.to_bits()));
    assert!(x.defined());
    assert_eq!(x.dim(), 0);
    assert_eq!(x.numel(), 1);
    assert_eq!(floats(x.to_list::<u32>()), vec![2.0]);
}

#[test]
fn test_constructor_ones() {
    let x = Tensor::ones(&[2, 3]);
    assert_eq!(x.dim(), 2);
    assert_eq!(x.numel(), 6);
    assert_eq!(x.shape(), vec![2, 3]);
    assert_eq!(x.strides(), vec![3, 1]);
    assert_eq!(floats(x.to_list::<u32>()), vec![1.0, 1.0, 1.0, 1.0, 1.0, 1.0]);
}

#[test]
fn test_constructor_zeros() {
    let x = Tensor::zeros(&[2, 3]);
    assert_eq!(x.dim(), 2);
    assert_eq!(x.numel(), 6);
    assert_eq!(x.shape(), vec![2, 3]);
    assert_eq!(x.strides(), vec![3, 1]);
    assert_eq!(floats(x.to_list::<u32>()), vec![0.0, 0.0, 0.0, 0.0, 0.0, 0.0]);
}

#[test]
fn test_constructor_1d() {
    let x = Tensor::from_array_1d(bits(vec![1.0, 2.0, 3.0]));
    assert_eq!(x.dim(), 1);
    assert_eq!(x.numel(), 3);
    assert_eq!(x.shape(), vec![3]);
    assert_eq!(x.strides(), vec![1]);
    assert_eq!(floats(x.to_list::<u32>()), vec![1.0, 2.0, 3.0]);
}

#[test]
fn test_constructor_2d() {
    let x = Tensor::from_array_2d(vec![
        bits(vec![1.0, 2.0]),
        bits(vec![3.0, 4.0]),
        bits(vec![5.0, 6.0]),
    ]);
    assert_eq!(x.dim(), 2);
    assert_eq!(x.numel(), 6);
    assert_eq!(x.shape(), vec![3, 2]);
    assert_eq!(x.strides(), vec![2, 1]);
    assert_eq!(floats(x.to_list::<u32>()), vec![1.0, 2.0, 3.0, 4.0, 5.0, 6.0]);
}

#[test]
fn test_constructor_3d() {
    let x = Tensor::from_array_3d(vec![
        vec![bits(vec![4.0, 2.0, 3.0]), bits(vec![1.0, 0.0, 3.0])],
        vec![bits(vec![4.0, 2.0, 3.0]), bits(vec![1.0, 0.0, 3.0])],
    ]);
    assert_eq!(x.dim(), 3);
    assert_eq!(x.numel(), 12);
    assert_eq!(x.shape(), vec![2, 2, 3]);
    assert_eq!(x.strides(), vec![6, 3, 1]);
    assert_eq!(
        floats(x.to_list::<u32>()),
        vec![4.0, 2.0, 3.0, 1.0, 0.0, 3.0, 4.0, 2.0, 3.0, 1.0, 0.0, 3.0]
    );
}

#[test]
fn test_broadcasting_scalar_tensor() {
    let scalar = Tensor::scalar(Scalar::Float32(5.0f32.to_bits()));
    let tensor = Tensor::from_array_1d(bits(vec![1.0, 2.0, 3.0]));
    let result = scalar.add(&tensor);

    assert!(result.defined());
    assert_eq!(result.shape(), vec![3]);
    assert_eq!(floats(result.to_list::<u32>()), vec![6.0, 7.0, 8.0]);
}

#[test]
fn test_broadcasting_different_shapes() {
    let a = Tensor::from_array_2d(vec![bits(vec![1.0, 2.0, 3.0])]);
    let b = Tensor::from_array_2d(vec![bits(vec![4.0]), bits(vec![5.0])]);
    let result = a.add(&b);

    assert!(result.defined());
    assert_eq!(result.shape(), vec![2, 3]);
    assert_eq!(floats(result.to_list::<u32>()), vec![5.0, 6.0, 7.0, 6.0, 7.0, 8.0]);
}

#[test]
fn test_broadcasting_incompatible_shapes() {
    let a = Tensor::from_array_1d(bits(vec![1.0, 2.0]));
    let b = Tensor::from_array_1d(bits(vec![1.0, 2.0, 3.0]));
    let result = a.add(&b);

    assert!(!result.defined());
}

#[test]
fn test_broadcasting_all_operations() {
    let a = Tensor::from_array_2d(vec![bits(vec![2.0, 4.0])]);
    let b = Tensor::from_array_2d(vec![bits(vec![1.0]), bits(vec![2.0])]);

    let add_result = a.add(&b);
    assert_eq!(add_result.shape(), vec![2, 2]);
    assert_eq!(floats(add_result.to_list::<u32>()), vec![3.0, 5.0, 4.0, 6.0]);

    let mul_result = a.mul(&b);
    assert_eq!(mul_result.shape(), vec![2, 2]);
    assert_eq!(floats(mul_result.to_list::<u32>()), vec![2.0, 4.0, 4.0, 8.0]);

    let sub_result = a.sub(&b);
    assert_eq!(sub_result.shape(), vec![2, 2]);
    assert_eq!(floats(sub_result.to_list::<u32>()), vec![1.0, 3.0, 0.0, 2.0]);

    let div_result = a.div(&b);
    assert_eq!(div_result.shape(), vec![2, 2]);
    assert_eq!(floats(div_result.to_list::<u32>()), vec![2.0, 4.0, 1.0, 2.0]);
}

#[test]
fn test_broadcasting_1d_to_2d() {
    let a = Tensor::from_array_1d(bits(vec![1.0, 2.0, 3.0]));
    let b = Tensor::from_array_2d(vec![bits(vec![1.0, 1.0, 1.0]), bits(vec![2.0, 2.0, 2.0])]);
    let result = a.add(&b);

    assert!(result.defined());
    assert_eq!(result.shape(), vec![2, 3]);
    assert_eq!(floats(result.to_list::<u32>()), vec![2.0, 3.0, 4.0, 3.0, 4.0, 5.0]);
}

#[test]
fn test_broadcasting_utilities() {
    assert!(is_broadcastable(&[3], &[1, 3]));
    assert!(is_broadcastable(&[1, 3], &[2, 1]));
    assert!(!is_broadcastable(&[2], &[3]));

    assert_eq!(broadcast_shapes(&[3], &[1, 3]).unwrap(), vec![1, 3]);
    assert_eq!(broadcast_shapes(&[1, 3], &[2, 1]).unwrap(), vec![2, 3]);
    assert!(broadcast_shapes(&[2], &[3]).is_err());
}
