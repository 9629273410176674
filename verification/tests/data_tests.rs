use rtorch::data::{DataLoader, Dataset, InMemoryDataset, TensorDataset};
use rtorch::{Scalar, Tensor};

fn bits(v: Vec<f32>) -> Vec<u32> {
    v.into_iter().map(|x| x.to_bits()).collect()
}

fn floats(v: Vec<u32>) -> Vec<f32> {
    v.into_iter().map(f32::from_bits).collect()
}

#[test]
fn test_tensor_dataset_creation() {
    let features = Tensor::from_array_2d(vec![
        bits(vec![1.0, 2.0, 3.0]),
        bits(vec![4.0, 5.0, 6.0]),
        bits(vec![7.0, 8.0, 9.0]),
    ]);
    let targets = Tensor::from_array_1d(bits(vec![0.0, 1.0, 2.0]));

    let dataset = TensorDataset::new(features, targets).unwrap();
    assert_eq!(dataset.len(), 3);
    assert!(!dataset.is_empty());
}

#[test]
fn test_tensor_dataset_get_item() {
    let features = Tensor::from_array_2d(vec![
        bits(vec![1.0, 2.0, 3.0]),
        bits(vec![4.0, 5.0, 6.0]),
    ]);
    let targets = Tensor::from_array_1d(bits(vec![0.0, 1.0]));

    let dataset = TensorDataset::new(features, targets).unwrap();

    let (feature, target) = dataset.get_item(0).unwrap();
    assert_eq!(feature.shape(), vec![3]);
    assert_eq!(floats(feature.to_list::<u32>()), vec![1.0, 2.0, 3.0]);
    assert_eq!(floats(target.to_list::<u32>()), vec![0.0]);

    let (feature, target) = dataset.get_item(1).unwrap();
    assert_eq!(floats(feature.to_list::<u32>()), vec![4.0, 5.0, 6.0]);
    assert_eq!(floats(target.to_list::<u32>()), vec![1.0]);

    assert!(dataset.get_item(2).is_none());
}

#[test]
fn test_tensor_dataset_mismatched_lengths() {
    let features = Tensor::from_array_2d(vec![
        bits(vec![1.0, 2.0, 3.0]),
        bits(vec![4.0, 5.0, 6.0]),
    ]);
    let targets = Tensor::from_array_1d(bits(vec![0.0]));

    let result = TensorDataset::new(features, targets);
    assert!(result.is_err());
}

#[test]
fn test_in_memory_dataset() {
    let mut dataset = InMemoryDataset::new();
    assert_eq!(dataset.len(), 0);
    assert!(dataset.is_empty());

    let feature1 = Tensor::from_array_1d(bits(vec![1.0, 2.0, 3.0]));
    let target1 = Tensor::scalar(Scalar::Float32(0.0f32.to_bits()));
    dataset.add_sample(feature1, target1);

    let feature2 = Tensor::from_array_1d(bits(vec![4.0, 5.0, 6.0]));
    let target2 = Tensor::scalar(Scalar::Float32(1.0f32.to_bits()));
    dataset.add_sample(feature2, target2);

    assert_eq!(dataset.len(), 2);
    assert!(!dataset.is_empty());

    let (feature, target) = dataset.get_item(0).unwrap();
    assert_eq!(floats(feature.to_list::<u32>()), vec![1.0, 2.0, 3.0]);
    assert_eq!(floats(target.to_list::<u32>()), vec![0.0]);
}

#[test]
fn test_dataloader_basic() {
    let features = Tensor::from_array_2d(vec![
        bits(vec![1.0, 2.0]),
        bits(vec![3.0, 4.0]),
        bits(vec![5.0, 6.0]),
        bits(vec![7.0, 8.0]),
    ]);
    let targets = Tensor::from_array_1d(bits(vec![0.0, 1.0, 0.0, 1.0]));

    let dataset = TensorDataset::new(features, targets).unwrap();
    let mut dataloader = DataLoader::new(dataset, 2);

    assert_eq!(dataloader.len(), 2);
    assert!(!dataloader.is_empty());

    let (batch_features, batch_targets) = dataloader.next_batch().unwrap();
    assert_eq!(batch_features.shape(), vec![2, 2]);
    assert_eq!(batch_targets.shape(), vec![2]);

    let (batch_features, batch_targets) = dataloader.next_batch().unwrap();
    assert_eq!(batch_features.shape(), vec![2, 2]);
    assert_eq!(batch_targets.shape(), vec![2]);

    assert!(dataloader.next_batch().is_none());
}

#[test]
fn test_dataloader_drop_last() {
    let features = Tensor::from_array_2d(vec![
        bits(vec![1.0, 2.0]),
        bits(vec![3.0, 4.0]),
        bits(vec![5.0, 6.0]),
    ]);
    let targets = Tensor::from_array_1d(bits(vec![0.0, 1.0, 0.0]));

    let dataset = TensorDataset::new(features, targets).unwrap();
    let mut dataloader = DataLoader::new(dataset, 2).drop_last(true);

    assert_eq!(dataloader.len(), 1);

    let (batch_features, batch_targets) = dataloader.next_batch().unwrap();
    assert_eq!(batch_features.shape(), vec![2, 2]);
    assert_eq!(batch_targets.shape(), vec![2]);

    assert!(dataloader.next_batch().is_none());
}

#[test]
fn test_dataloader_iterator() {
    let features = Tensor::from_array_2d(vec![bits(vec![1.0, 2.0]), bits(vec![3.0, 4.0])]);
    let targets = Tensor::from_array_1d(bits(vec![0.0, 1.0]));

    let dataset = TensorDataset::new(features, targets).unwrap();
    let mut dataloader = DataLoader::new(dataset, 1);

    let mut batches = Vec::new();
    while let Some(batch) = dataloader.next_batch() {
        batches.push(batch);
    }
    assert_eq!(batches.len(), 2);

    let (features, targets) = &batches[0];
    assert_eq!(features.shape(), vec![1, 2]);
    assert_eq!(targets.shape(), vec![1]);
}

#[test]
fn test_dataloader_reset() {
    let features = Tensor::from_array_2d(vec![bits(vec![1.0, 2.0]), bits(vec![3.0, 4.0])]);
    let targets = Tensor::from_array_1d(bits(vec![0.0, 1.0]));

    let dataset = TensorDataset::new(features, targets).unwrap();
    let mut dataloader = DataLoader::new(dataset, 1);

    let _batch1 = dataloader.next_batch().unwrap();
    let _batch2 = dataloader.next_batch().unwrap();
    assert!(dataloader.next_batch().is_none());

    dataloader.reset();
    let _batch1 = dataloader.next_batch().unwrap();
    let _batch2 = dataloader.next_batch().unwrap();
    assert!(dataloader.next_batch().is_none());
}

#[test]
fn test_dataloader_shuffle_keeps_samples() {
    let features = Tensor::from_array_2d(vec![
        bits(vec![1.0]),
        bits(vec![2.0]),
        bits(vec![3.0]),
        bits(vec![4.0]),
    ]);
    let targets = Tensor::from_array_1d(bits(vec![1.0, 2.0, 3.0, 4.0]));

    let dataset = TensorDataset::new(features, targets).unwrap();
    let mut dataloader = DataLoader::new(dataset, 1).shuffle(true);

    let mut seen = Vec::new();
    while let Some((_, t)) = dataloader.next_batch() {
        seen.push(floats(t.to_list::<u32>())[0]);
    }
    seen.sort_by(|a, b| a.partial_cmp(b).unwrap());
    assert_eq!(seen, vec![1.0, 2.0, 3.0, 4.0]);
}
