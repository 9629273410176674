use rtorch::autograd::function;
use rtorch::functions::{mse_loss, nll_loss, LossReduction};
use rtorch::Tensor;

fn bits(v: Vec<f32>) -> Vec<u32> {
    v.into_iter().map(|x| x.to_bits()).collect()
}

fn floats(v: Vec<u32>) -> Vec<f32> {
    v.into_iter().map(f32::from_bits).collect()
}

fn assert_vec_near(actual: &[f32], expected: &[f32], tolerance: f32) {
    assert_eq!(actual.len(), expected.len());
    for (a, e) in actual.iter().zip(expected.iter()) {
        assert!((a - e).abs() < tolerance, "Expected {}, got {}", e, a);
    }
}

#[test]
fn test_func_add() {
    let a = Tensor::from_array_1d(bits(vec![1.0, 2.0, 3.0]));
    let b = Tensor::from_array_1d(bits(vec![4.0, 5.0, 6.0]));
    let y = a.add(&b);
    assert_eq!(floats(y.to_list::<u32>()), vec![5.0, 7.0, 9.0]);
}

#[test]
fn test_func_sub() {
    let a = Tensor::from_array_1d(bits(vec![1.0, 2.0, 3.0]));
    let b = Tensor::from_array_1d(bits(vec![4.0, 5.0, 6.0]));
    let y = function::sub(&a, &b);
    assert_eq!(floats(y.to_list::<u32>()), vec![-3.0, -3.0, -3.0]);
}

#[test]
fn test_func_mul() {
    let a = Tensor::from_array_1d(bits(vec![1.0, 2.0, 3.0]));
    let b = Tensor::from_array_1d(bits(vec![4.0, 5.0, 6.0]));
    let y = function::mul(&a, &b);
    assert_eq!(floats(y.to_list::<u32>()), vec![4.0, 10.0, 18.0]);
}

#[test]
fn test_func_div() {
    let a = Tensor::from_array_1d(bits(vec![1.0, 2.0, 3.0]));
    let b = Tensor::from_array_1d(bits(vec![4.0, 5.0, 6.0]));
    let y = function::div(&a, &b);
    assert_vec_near(&floats(y.to_list::<u32>()), &[0.25, 0.4, 0.5], 1e-6);
}

#[test]
fn test_func_sum() {
    let x = Tensor::from_array_1d(bits(vec![1.0, 2.0, 3.0]));
    let y = function::sum(&x);
    assert_eq!(floats(y.to_list::<u32>()), vec![6.0]);
}

#[test]
fn test_func_relu() {
    let x = Tensor::from_array_2d(vec![bits(vec![-1.0, 2.0]), bits(vec![3.0, -4.0])]);
    let y = function::relu(&x);
    assert_eq!(floats(y.to_list::<u32>()), vec![0.0, 2.0, 3.0, 0.0]);
}

#[test]
fn test_func_mse_loss_none() {
    let x = Tensor::from_array_2d(vec![
        bits(vec![-0.3089, 0.5301, -0.0245]),
        bits(vec![1.5852, 0.8954, 0.7485]),
    ]);
    let y = Tensor::from_array_2d(vec![
        bits(vec![0.8397, 1.7990, -0.2738]),
        bits(vec![-0.8910, -0.6746, 0.3419]),
    ]);
    let loss = mse_loss(&x, &y, LossReduction::NoReduction);
    assert_vec_near(
        &floats(loss.to_list::<u32>()),
        &[1.31928194, 1.6101073, 0.0621504858, 6.13156557, 2.46489978, 0.165323555],
        1e-3,
    );
}

#[test]
fn test_func_mse_loss_mean() {
    let x = Tensor::from_array_2d(vec![
        bits(vec![-0.3089, 0.5301, -0.0245]),
        bits(vec![1.5852, 0.8954, 0.7485]),
    ]);
    let y = Tensor::from_array_2d(vec![
        bits(vec![0.8397, 1.7990, -0.2738]),
        bits(vec![-0.8910, -0.6746, 0.3419]),
    ]);
    let loss = mse_loss(&x, &y, LossReduction::Mean);
    assert!((f32::from_bits(loss.item::<u32>()) - 1.95888805).abs() < 1e-3);
}

#[test]
fn test_func_nll_loss() {
    let input = Tensor::from_array_2d(vec![bits(vec![0.1, 0.2, 0.7]), bits(vec![0.3, 0.4, 0.3])]);
    let target = Tensor::from_array_1d(vec![2i64, 1]);
    let loss = nll_loss(&input, &target, LossReduction::NoReduction);
    assert_vec_near(&floats(loss.to_list::<u32>()), &[-0.7, -0.4], 1e-6);
}
