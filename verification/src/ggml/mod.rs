//! Reading models from GGML files.

pub mod error;
pub mod format;
pub mod laws;
pub mod loader;
pub mod model;
pub mod tensor;
