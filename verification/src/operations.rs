pub mod transform;

pub use transform::{flatten, reshape};
