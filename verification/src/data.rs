pub mod dataloader;
pub mod dataset;

pub use dataloader::DataLoader;
pub use dataset::{Dataset, InMemoryDataset, TensorDataset};
