use rtorch::AutogradMeta;
use rtorch::Tensor;

fn bits(v: Vec<f32>) -> Vec<u32> {
    v.into_iter().map(|x| x.to_bits()).collect()
}

fn floats(v: Vec<u32>) -> Vec<f32> {
    v.into_iter().map(f32::from_bits).collect()
}

#[test]
fn test_backward_flatten() {
    let x1 = Tensor::from_array_2d(vec![bits(vec![1.0, 2.0]), bits(vec![3.0, 4.0])]);
    let x2 = Tensor::from_array_2d(vec![bits(vec![1.0, 2.0]), bits(vec![3.0, 4.0])]);
    let x3 = x1.mul(&x2);
    let y = x3.flatten();

    assert_eq!(floats(y.to_list::<u32>()), vec![1.0, 4.0, 9.0, 16.0]);
}

#[test]
fn test_grad_accumulation() {
    let mut meta = AutogradMeta::new();
    assert!(meta.grad().is_none());

    let g1 = Tensor::from_array_1d(bits(vec![1.0, 2.0, 3.0]));
    let g2 = Tensor::from_array_1d(bits(vec![10.0, 20.0, 30.0]));

    meta.add_grad(g1);
    assert_eq!(
        floats(meta.grad().unwrap().to_list::<u32>()),
        vec![1.0, 2.0, 3.0]
    );

    meta.add_grad(g2);
    assert_eq!(
        floats(meta.grad().unwrap().to_list::<u32>()),
        vec![11.0, 22.0, 33.0]
    );

    meta.zero_grad();
    assert!(meta.grad().is_none());
}

#[test]
fn test_backward_without_tracking_is_inert() {
    let mut meta = AutogradMeta::new();
    meta.set_requires_grad(false);

    let g = Tensor::from_array_1d(bits(vec![1.0, 2.0]));
    meta.backward(&g);
    assert!(meta.grad().is_none());
}

#[test]
fn test_backward_with_tracking_accumulates() {
    let mut meta = AutogradMeta::new();
    meta.set_requires_grad(true);
    assert!(meta.requires_grad());
    assert!(meta.is_leaf());

    let g = Tensor::from_array_1d(bits(vec![1.0, 2.0]));
    meta.backward(&g);
    assert_eq!(floats(meta.grad().unwrap().to_list::<u32>()), vec![1.0, 2.0]);

    meta.backward(&g);
    assert_eq!(floats(meta.grad().unwrap().to_list::<u32>()), vec![2.0, 4.0]);
}

#[test]
fn test_set_grad_replaces() {
    let mut meta = AutogradMeta::new();
    meta.add_grad(Tensor::from_array_1d(bits(vec![5.0])));
    meta.set_grad(Tensor::from_array_1d(bits(vec![7.0])));
    assert_eq!(floats(meta.grad().unwrap().to_list::<u32>()), vec![7.0]);
}
