//! Operations that a tensor records before it is computed.

use crate::tensor::Tensor;
use vstd::prelude::*;

verus! {

/// An element-wise operation on two tensors.
#[derive(Debug)]
pub enum BinaryOp {
    Add,
    Sub,
    Mul,
    Div,
}

/// An element-wise operation on one tensor.
#[derive(Debug)]
pub enum UnaryOp {
    Gelu,
}

/// A recorded operation with its operands.
#[derive(Debug)]
pub enum LazyOp {
    Empty,
    Binary(Tensor, Tensor, BinaryOp),
    Unary(Tensor, UnaryOp),
}

} // verus!
