pub mod activation;
pub mod conv;
pub mod linear;
pub mod loss;

pub use activation::relu;
pub use conv::{conv2d, max_pool2d};
pub use linear::linear;
pub use loss::{LossReduction, l1_loss, mse_loss, nll_loss};
