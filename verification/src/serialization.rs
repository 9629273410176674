pub mod model_state;

pub use model_state::ModelState;
