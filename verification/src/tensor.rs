//! What the runtime's rules read of a tensor: its shape and its element type.

use crate::shape::Shape;
use vstd::prelude::*;

verus! {

/// The type of a tensor's elements.
#[derive(Debug, Clone, Copy, PartialEq, Eq, Structural)]
pub enum DType {
    F32,
    F16,
    I32,
    U32,
    Q8,
}

/// How a tensor's storage is to be read.
#[derive(Debug)]
pub struct StorageView {
    pub shape: Shape,
    pub dt: DType,
}

impl Clone for StorageView {
    fn clone(&self) -> (copy: Self)
        ensures
            copy.shape@ == self.shape@,
            copy.dt == self.dt,
    {
        StorageView { shape: self.shape.clone(), dt: self.dt }
    }
}

/// A tensor.
#[derive(Debug)]
pub struct Tensor {
    pub storage: StorageView,
}

impl Clone for Tensor {
    fn clone(&self) -> (copy: Self)
        ensures
            copy.dims() == self.dims(),
            copy.storage.dt == self.storage.dt,
    {
        Tensor { storage: self.storage.clone() }
    }
}

impl Tensor {
    /// The extents of the tensor's shape.
    pub open spec fn dims(self) -> Seq<usize> {
        self.storage.shape@
    }

    /// A tensor of the given shape and element type.
    pub fn new(shape: Shape, dt: DType) -> (tensor: Self)
        ensures
            tensor.dims() == shape@,
            tensor.storage.dt == dt,
    {
        Tensor { storage: StorageView { shape, dt } }
    }

    /// The tensor's shape.
    pub fn shape(&self) -> (shape: &Shape)
        ensures
            shape@ == self.dims(),
    {
        &self.storage.shape
    }

    /// The type of the tensor's elements.
    pub fn dt(&self) -> (dt: DType)
        ensures
            dt == self.storage.dt,
    {
        self.storage.dt
    }

    /// How the tensor's storage is to be read.
    pub fn storage_view(&self) -> (storage: &StorageView)
        ensures
            *storage == self.storage,
    {
        &self.storage
    }
}

} // verus!
