//! Layout, loading and dispatch rules of a small GPU tensor runtime.

pub mod bytes;
pub mod device;
pub mod ggml;
pub mod kernel;
pub mod matmul;
pub mod op;
pub mod operation;
pub mod shape;
pub mod tensor;
