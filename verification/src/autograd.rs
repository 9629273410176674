pub mod autograd_meta;
pub mod function;

pub use autograd_meta::AutogradMeta;
pub use function::{AddFunction, Function, MulFunction};
