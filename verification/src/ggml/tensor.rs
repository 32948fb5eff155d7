//! The tensors of a GGML file.

use crate::ggml::error::{LoadError, LoadFailure};
use crate::shape::{product, product_fits, Shape};
use vstd::prelude::*;
use vstd::slice::{slice_subrange, slice_to_vec};

verus! {

/// A type of tensor data: the number that stands for it in a file, and how elements are packed,
/// `block_size` of them into `type_size` bytes.
#[derive(Debug, Copy, Clone, PartialEq, Eq, Structural)]
pub struct GgmlDType {
    pub code: u32,
    pub type_size: usize,
    pub block_size: usize,
}

/// The first type in a list that `code` stands for.
pub open spec fn find_dtype(dtypes: Seq<GgmlDType>, code: u32) -> Option<GgmlDType>
    decreases dtypes.len(),
{
    if dtypes.len() == 0 {
        None
    } else if dtypes[0].code == code {
        Some(dtypes[0])
    } else {
        find_dtype(dtypes.drop_first(), code)
    }
}

impl GgmlDType {
    /// The first of `dtypes` that `code` stands for.
    pub fn find(dtypes: &[GgmlDType], code: u32) -> (dtype: Option<GgmlDType>)
        ensures
            dtype == find_dtype(dtypes@, code),
            match dtype {
                Some(found) => exists|i: int|
                    {
                        &&& 0 <= i < dtypes@.len()
                        &&& #[trigger] dtypes@[i] == found
                        &&& found.code == code
                        &&& forall|j: int| 0 <= j < i ==> (#[trigger] dtypes@[j]).code != code
                    },
                None => forall|j: int|
                    0 <= j < dtypes@.len() ==> (#[trigger] dtypes@[j]).code != code,
            },
    {
        let mut i: usize = 0;
        assert(dtypes@.skip(0) =~= dtypes@);
        while i < dtypes.len()
            invariant
                i <= dtypes@.len(),
                find_dtype(dtypes@, code) == find_dtype(dtypes@.skip(i as int), code),
                forall|j: int| 0 <= j < i ==> (#[trigger] dtypes@[j]).code != code,
            decreases dtypes@.len() - i,
        {
            if dtypes[i].code == code {
                return Some(dtypes[i]);
            }
            assert(dtypes@.skip(i as int).drop_first() =~= dtypes@.skip(i + 1));
            i = i + 1;
        }
        None
    }
}

/// What a `TensorHeader` says, with text and shape as sequences.
pub struct TensorView {
    pub name: Seq<char>,
    pub dims: Seq<usize>,
    pub dtype: GgmlDType,
    pub start_offset: u64,
    pub numel: usize,
}

impl TensorView {
    /// Whether the header's count of elements is that of its shape.
    pub open spec fn wf(self) -> bool {
        self.numel == product(self.dims)
    }

    /// Whether the size of the tensor's data can be computed in `usize`.
    pub open spec fn size_fits(self) -> bool {
        self.dtype.block_size > 0 && self.numel * self.dtype.type_size <= usize::MAX
    }

    /// The size of the tensor's data in bytes.
    pub open spec fn byte_size(self) -> nat {
        (self.numel as nat * self.dtype.type_size as nat) / self.dtype.block_size as nat
    }

    /// The tensor's data in a file with the given contents, if all of it is there.
    pub open spec fn data_in(self, file: Seq<u8>) -> Option<Seq<u8>> {
        if self.byte_size() == 0 {
            Some(Seq::empty())
        } else if self.start_offset + self.byte_size() <= file.len() {
            Some(
                file.subrange(
                    self.start_offset as int,
                    self.start_offset + self.byte_size(),
                ),
            )
        } else {
            None
        }
    }
}

/// What a file says of one of its tensors, and where its data starts.
#[derive(Debug)]
pub struct TensorHeader {
    pub name: String,
    pub shape: Shape,
    pub dtype: GgmlDType,
    pub start_offset: u64,
    pub numel: usize,
}

impl View for TensorHeader {
    type V = TensorView;

    open spec fn view(&self) -> TensorView {
        TensorView {
            name: self.name@,
            dims: self.shape@,
            dtype: self.dtype,
            start_offset: self.start_offset,
            numel: self.numel,
        }
    }
}

impl Clone for TensorHeader {
    fn clone(&self) -> (copy: Self)
        ensures
            copy@ == self@,
    {
        TensorHeader {
            name: self.name.clone(),
            shape: self.shape.clone(),
            dtype: self.dtype,
            start_offset: self.start_offset,
            numel: self.numel,
        }
    }
}

impl TensorHeader {
    /// The header of a tensor with the given name, shape, type and place.
    pub fn new(name: String, shape: Shape, dtype: GgmlDType, start_offset: u64) -> (header: Self)
        requires
            product_fits(shape@),
        ensures
            header@ == (TensorView {
                name: name@,
                dims: shape@,
                dtype,
                start_offset,
                numel: product(shape@) as usize,
            }),
            header@.wf(),
            header.name@ == name@,
            header.shape@ == shape@,
            header.dtype == dtype,
            header.start_offset == start_offset,
            header.numel == product(shape@),
    {
        let numel = shape.numel();
        TensorHeader { name, shape, dtype, start_offset, numel }
    }

    /// The size of the tensor's data in bytes.
    pub fn data_size(&self) -> (size: usize)
        requires
            self@.size_fits(),
        ensures
            size == self@.byte_size(),
            ({
                let block = self.dtype.block_size;
                size * block <= self.numel * self.dtype.type_size < (size + 1) * block
            }),
            self.dtype.block_size == 1 ==> size == self.numel * self.dtype.type_size,
    {
        proof {
            law_data_size_counts_blocks(self@, 0);
        }
        assert(0 <= self.numel * self.dtype.type_size) by (nonlinear_arith);
        self.numel * self.dtype.type_size / self.dtype.block_size
    }

    /// The tensor's data in a file with the given contents.
    pub fn read_data(&self, file: &[u8]) -> (res: Result<Vec<u8>, LoadError>)
        requires
            self@.size_fits(),
        ensures
            match (res, self@.data_in(file@)) {
                (Ok(bytes), Some(data)) => bytes@ == data,
                (Err(e), None) => e@ == LoadFailure::UnexpectedEof,
                _ => false,
            },
            res matches Ok(bytes) ==> {
                let block = self.dtype.block_size;
                let n = bytes@.len();
                &&& n * block <= self.numel * self.dtype.type_size < (n + 1) * block
                &&& n == 0 || self.start_offset + n <= file@.len()
                &&& forall|i: int|
                    0 <= i < n ==> #[trigger] bytes@[i] == file@[self.start_offset + i]
            },
            res matches Err(e) ==> e is UnexpectedEof,
    {
        let n_bytes = self.data_size();
        if n_bytes == 0 {
            return Ok(Vec::new());
        }
        let len = file.len() as u64;
        if self.start_offset > len || n_bytes as u64 > len - self.start_offset {
            return Err(LoadError::UnexpectedEof);
        }
        let start = self.start_offset as usize;
        Ok(slice_to_vec(slice_subrange(file, start, start + n_bytes)))
    }
}

/// The type that is found is the first in the list that the code stands for, and none is found
/// only where there is none.
pub proof fn law_dtype_is_first_match(dtypes: Seq<GgmlDType>, code: u32)
    ensures
        match find_dtype(dtypes, code) {
            Some(dtype) => exists|i: int|
                {
                    &&& 0 <= i < dtypes.len()
                    &&& #[trigger] dtypes[i] == dtype
                    &&& dtype.code == code
                    &&& forall|j: int| 0 <= j < i ==> (#[trigger] dtypes[j]).code != code
                },
            None => forall|j: int| 0 <= j < dtypes.len() ==> (#[trigger] dtypes[j]).code != code,
        },
    decreases dtypes.len(),
{
    if dtypes.len() > 0 && dtypes[0].code != code {
        let rest = dtypes.drop_first();
        law_dtype_is_first_match(rest, code);
        assert forall|j: int| 0 < j < dtypes.len() implies #[trigger] dtypes[j] == rest[j - 1] by {}
        if let Some(dtype) = find_dtype(rest, code) {
            let i = choose|i: int|
                {
                    &&& 0 <= i < rest.len()
                    &&& #[trigger] rest[i] == dtype
                    &&& dtype.code == code
                    &&& forall|j: int| 0 <= j < i ==> (#[trigger] rest[j]).code != code
                };
            assert(dtypes[i + 1] == dtype);
        }
    }
}

proof fn lemma_quotient(x: int, div: int, q: int)
    requires
        div > 0,
    ensures
        (x / div) * div <= x < (x / div + 1) * div,
        q * div <= x < (q + 1) * div ==> q == x / div,
        div == 1 ==> x / div == x,
{
    vstd::arithmetic::div_mod::lemma_fundamental_div_mod(x, div);
    vstd::arithmetic::div_mod::lemma_mod_bound(x, div);
    let d = x / div;
    assert(d * div == div * d) by (nonlinear_arith);
    assert((d + 1) * div == div * d + div) by (nonlinear_arith);
    if q * div <= x < (q + 1) * div {
        if q < d {
            assert((q + 1) * div <= d * div) by (nonlinear_arith)
                requires
                    q + 1 <= d,
                    div > 0,
            ;
        }
        if d < q {
            assert((d + 1) * div <= q * div) by (nonlinear_arith)
                requires
                    d + 1 <= q,
                    div > 0,
            ;
        }
    }
}

/// The size of a tensor's data is the greatest number of bytes that, times the elements of a block,
/// is at most the number of elements times the bytes of a block. Where a block is one element, the
/// size is the number of elements times the bytes of each. No other number has this property.
pub proof fn law_data_size_counts_blocks(tensor: TensorView, size: int)
    requires
        tensor.dtype.block_size > 0,
    ensures
        ({
            let block = tensor.dtype.block_size;
            let bytes = tensor.numel * tensor.dtype.type_size;
            &&& tensor.byte_size() * block <= bytes < (tensor.byte_size() + 1) * block
            &&& block == 1 ==> tensor.byte_size() == bytes
            &&& size * block <= bytes < (size + 1) * block ==> size == tensor.byte_size()
        }),
{
    let bytes = tensor.numel * tensor.dtype.type_size;
    assert(0 <= bytes) by (nonlinear_arith)
        requires
            bytes == tensor.numel * tensor.dtype.type_size,
    ;
    lemma_quotient(bytes, tensor.dtype.block_size as int, size);
}

/// A tensor's data, where it has `size` bytes, is the part of the file that starts at its offset.
/// It can be read unless there is some and the file ends before it does.
pub proof fn law_data_is_in_place(tensor: TensorView, file: Seq<u8>, size: int)
    requires
        tensor.dtype.block_size > 0,
        ({
            let block = tensor.dtype.block_size;
            size * block <= tensor.numel * tensor.dtype.type_size < (size + 1) * block
        }),
    ensures
        match tensor.data_in(file) {
            Some(data) => {
                &&& data.len() == size
                &&& size == 0 || tensor.start_offset + size <= file.len()
                &&& forall|i: int|
                    0 <= i < size ==> #[trigger] data[i] == file[tensor.start_offset + i]
            },
            None => size > 0 && tensor.start_offset + size > file.len(),
        },
{
    law_data_size_counts_blocks(tensor, size);
}

} // verus!
