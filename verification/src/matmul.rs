//! Matrix multiplication: how the operands are stacked, and what is dispatched to multiply them.

use crate::kernel::{
    ceil_quotient, law_groups_cover, lemma_ceil_quotient, low32, truncate_u32, KernelElement,
    WorkgroupCount,
};
use crate::operation::{is_first_dtype_mismatch, Enforcer, InvariantError, OperationError};
use crate::shape::{
    law_padding_with_ones_keeps_product, law_product_fits_step_by_step, law_product_of_at_most_one,
    law_product_of_concat, left_padded, lemma_padding_with_ones_keeps_fit, product, product_fits,
    Shape,
};
use crate::tensor::{DType, StorageView, Tensor};
use vstd::prelude::*;

verus! {

/// A list of extents, with a one in front if it has a single extent.
pub open spec fn as_matrix(dims: Seq<usize>) -> Seq<usize> {
    if dims.len() == 1 {
        seq![1usize, dims[0]]
    } else {
        dims
    }
}

/// The extents of one operand once the shorter of the two is padded with ones on the left.
pub open spec fn aligned(own: Seq<usize>, other: Seq<usize>) -> Seq<usize> {
    left_padded(own, 1, other.len() as int)
}

/// How many leading dimensions of the destination are stacked: all but the last two.
pub open spec fn stack_dims(c: Seq<usize>) -> int {
    c.len() - 2
}

/// The number of matrices stacked in an operand with (aligned) extents `dims`.
pub open spec fn stack_of(dims: Seq<usize>, c: Seq<usize>) -> nat {
    product(dims.take(stack_dims(c)))
}

/// The operands that can be multiplied into a destination: all have at least two dimensions, the
/// destination has no more stacked dimensions than the operands have dimensions, the numbers of
/// stacked matrices fit in `usize`, and either one operand is a single matrix or all three have
/// the same number of matrices.
pub open spec fn operands_accepted(a: Seq<usize>, b: Seq<usize>, c: Seq<usize>) -> bool {
    let n = stack_dims(c);
    let pa = aligned(a, b);
    let pb = aligned(b, a);
    &&& a.len() >= 2
    &&& b.len() >= 2
    &&& c.len() >= 2
    &&& n <= pa.len()
    &&& product_fits(pa.take(n))
    &&& product_fits(pb.take(n))
    &&& product_fits(c.take(n))
    &&& stack_of(pa, c) == 1 || stack_of(pb, c) == 1 || stack_of(pa, c) == stack_of(pb, c)
        == stack_of(c, c)
}

/// A multiplication's operands, split into stacks of matrices.
pub struct MatmulLayout {
    pub a_dt: DType,
    pub b_dt: DType,
    pub a_shape: Seq<usize>,
    pub b_shape: Seq<usize>,
    pub c_shape: Seq<usize>,
    pub a_stack: usize,
    pub b_stack: usize,
    pub c_stack: usize,
    pub stack_shape: Seq<usize>,
}

/// The layout of `a` times `b` into `c`: the leading dimensions, all but the destination's last
/// two, are stacked, and what is left of each operand is a matrix.
pub open spec fn matmul_layout(a: Tensor, b: Tensor, c: Tensor) -> MatmulLayout {
    let n = stack_dims(c.dims());
    let pa = aligned(a.dims(), b.dims());
    let pb = aligned(b.dims(), a.dims());
    MatmulLayout {
        a_dt: a.storage.dt,
        b_dt: b.storage.dt,
        a_shape: as_matrix(pa.skip(n)),
        b_shape: as_matrix(pb.skip(n)),
        c_shape: c.dims().skip(n),
        a_stack: stack_of(pa, c.dims()) as usize,
        b_stack: stack_of(pb, c.dims()) as usize,
        c_stack: stack_of(c.dims(), c.dims()) as usize,
        stack_shape: c.dims().take(n),
    }
}

impl MatmulLayout {
    /// What holds of every layout of accepted operands.
    pub open spec fn wf(self) -> bool {
        &&& self.c_shape.len() == 2
        &&& product_fits(self.stack_shape)
        &&& self.c_stack == product(self.stack_shape)
        &&& self.a_stack == 1 || self.b_stack == 1 || self.a_stack == self.b_stack
            == self.c_stack
    }

    /// Whether both operands have the two extents that a multiplication reads.
    pub open spec fn has_matrices(self) -> bool {
        self.a_shape.len() >= 2 && self.b_shape.len() >= 2
    }

    /// Whether the element counts of the three matrices fit in `usize`.
    pub open spec fn counts_fit(self) -> bool {
        product_fits(self.a_shape) && product_fits(self.b_shape) && product_fits(self.c_shape)
    }

    /// The rows of the left matrix.
    pub open spec fn m(self) -> usize {
        self.a_shape[0]
    }

    /// The columns of the left matrix.
    pub open spec fn k(self) -> usize {
        self.a_shape[1]
    }

    /// The columns of the right matrix.
    pub open spec fn n(self) -> usize {
        self.b_shape[1]
    }

    /// Whether `width` divides the inner and the output extent and all three element counts.
    pub open spec fn divisible_by(self, width: int) -> bool {
        &&& self.k() as int % width == 0
        &&& self.n() as int % width == 0
        &&& product(self.a_shape) as int % width == 0
        &&& product(self.b_shape) as int % width == 0
        &&& product(self.c_shape) as int % width == 0
    }

    /// The widest element in which every row and every matrix can be read without remainder.
    pub open spec fn kernel_element(self) -> KernelElement {
        if self.divisible_by(4) {
            KernelElement::Vec4
        } else if self.divisible_by(2) {
            KernelElement::Vec2
        } else {
            KernelElement::Scalar
        }
    }
}

/// The side of the larger square tile, of 32 and 16, that divides both extents.
pub open spec fn tile_size(rows: usize, cols: usize) -> Option<usize> {
    if rows % 32 == 0 && cols % 32 == 0 {
        Some(32usize)
    } else if rows % 16 == 0 && cols % 16 == 0 {
        Some(16usize)
    } else {
        None
    }
}

/// The larger of 32 and 16 that divides both extents, if any.
fn find_tile_size(rows: usize, cols: usize) -> (size: Option<usize>)
    ensures
        size == tile_size(rows, cols),
{
    if rows % 32 == 0 && cols % 32 == 0 {
        Some(32)
    } else if rows % 16 == 0 && cols % 16 == 0 {
        Some(16)
    } else {
        None
    }
}

/// The layout of a matrix multiplication. Multiplications of more than two dimensions are handled
/// by stacking all dimensions but the last two.
#[derive(Debug)]
pub struct MatmulSpec {
    a_dt: DType,
    b_dt: DType,
    a_shape: Shape,
    b_shape: Shape,
    c_shape: Shape,
    a_stack: usize,
    b_stack: usize,
    c_stack: usize,
    stack_shape: Shape,
}

impl View for MatmulSpec {
    type V = MatmulLayout;

    closed spec fn view(&self) -> MatmulLayout {
        MatmulLayout {
            a_dt: self.a_dt,
            b_dt: self.b_dt,
            a_shape: self.a_shape@,
            b_shape: self.b_shape@,
            c_shape: self.c_shape@,
            a_stack: self.a_stack,
            b_stack: self.b_stack,
            c_stack: self.c_stack,
            stack_shape: self.stack_shape@,
        }
    }
}

impl Clone for MatmulSpec {
    fn clone(&self) -> (copy: Self)
        ensures
            copy@ == self@,
    {
        MatmulSpec {
            a_dt: self.a_dt,
            b_dt: self.b_dt,
            a_shape: self.a_shape.clone(),
            b_shape: self.b_shape.clone(),
            c_shape: self.c_shape.clone(),
            a_stack: self.a_stack,
            b_stack: self.b_stack,
            c_stack: self.c_stack,
            stack_shape: self.stack_shape.clone(),
        }
    }
}

#[allow(non_snake_case)]
impl MatmulSpec {
    /// The layout of `A` times `B` into `C`.
    pub fn new(A: &Tensor, B: &Tensor, C: &Tensor) -> (spec: Self)
        requires
            operands_accepted(A.dims(), B.dims(), C.dims()),
        ensures
            spec@ == matmul_layout(*A, *B, *C),
            spec@.wf(),
    {
        Self::try_new(A, B, C).unwrap()
    }

    /// The layout of `A` times `B` into `C`, or nothing if the operands are not accepted.
    pub fn try_new(A: &Tensor, B: &Tensor, C: &Tensor) -> (spec: Option<Self>)
        ensures
            spec is Some <==> operands_accepted(A.dims(), B.dims(), C.dims()),
            spec matches Some(s) ==> s@ == matmul_layout(*A, *B, *C) && s@.wf(),
    {
        let mut a_shape = A.shape().clone();
        let mut b_shape = B.shape().clone();
        let mut c_shape = C.shape().clone();

        if a_shape.rank() < 2 || b_shape.rank() < 2 || c_shape.rank() < 2 {
            return None;
        }
        let a_rank = a_shape.rank();
        let b_rank = b_shape.rank();
        if a_rank < b_rank {
            a_shape.left_pad_to(1, b_rank);
        } else if b_rank < a_rank {
            b_shape.left_pad_to(1, a_rank);
        }
        let ghost pa = aligned(A.dims(), B.dims());
        let ghost pb = aligned(B.dims(), A.dims());
        assert(a_shape@ =~= pa);
        assert(b_shape@ =~= pb);

        let stack_dims = c_shape.rank() - 2;
        if a_shape.rank() < stack_dims {
            return None;
        }
        let stack_shape = c_shape.slice(0, stack_dims);
        assert(stack_shape@ =~= C.dims().take(stack_dims as int));

        let a_stack = match a_shape.drain(stack_dims).checked_numel() {
            Some(n) => n,
            None => {
                return None;
            },
        };
        let b_stack = match b_shape.drain(stack_dims).checked_numel() {
            Some(n) => n,
            None => {
                return None;
            },
        };
        let c_stack = match c_shape.drain(stack_dims).checked_numel() {
            Some(n) => n,
            None => {
                return None;
            },
        };

        if a_stack != 1 && b_stack != 1 {
            // All stacks are equal, or one operand is a single matrix.
            if a_stack != b_stack || b_stack != c_stack {
                return None;
            }
        }
        if a_shape.rank() == 1 {
            a_shape.insert(0, 1);
        }
        if b_shape.rank() == 1 {
            b_shape.insert(0, 1);
        }
        assert(a_shape@ =~= as_matrix(pa.skip(stack_dims as int)));
        assert(b_shape@ =~= as_matrix(pb.skip(stack_dims as int)));
        Some(
            MatmulSpec {
                a_dt: A.dt(),
                b_dt: B.dt(),
                a_shape,
                b_shape,
                c_shape,
                a_stack,
                b_stack,
                c_stack,
                stack_shape,
            },
        )
    }

    /// The widest element in which the inner extent, the output extent and all three matrices can
    /// be read without remainder.
    pub fn select_kernel_element(&self) -> (element: KernelElement)
        requires
            self@.has_matrices(),
            self@.counts_fit(),
        ensures
            element == self@.kernel_element(),
            self@.a_shape[1] as int % element.size() as int == 0,
            self@.b_shape[1] as int % element.size() as int == 0,
            product(self@.a_shape) as int % element.size() as int == 0,
            product(self@.b_shape) as int % element.size() as int == 0,
            product(self@.c_shape) as int % element.size() as int == 0,
            ({
                &&& self@.a_shape[1] % 4 == 0
                &&& self@.b_shape[1] % 4 == 0
                &&& product(self@.a_shape) % 4 == 0
                &&& product(self@.b_shape) % 4 == 0
                &&& product(self@.c_shape) % 4 == 0
            }) ==> element == KernelElement::Vec4,
            ({
                &&& self@.a_shape[1] % 2 == 0
                &&& self@.b_shape[1] % 2 == 0
                &&& product(self@.a_shape) % 2 == 0
                &&& product(self@.b_shape) % 2 == 0
                &&& product(self@.c_shape) % 2 == 0
            }) ==> element != KernelElement::Scalar,
    {
        let k = self.k();
        let n = self.n();
        let a_numel = self.a_shape.numel();
        let b_numel = self.b_shape.numel();
        let c_numel = self.c_shape.numel();
        if k % 4 == 0 && n % 4 == 0 && a_numel % 4 == 0 && b_numel % 4 == 0 && c_numel % 4 == 0 {
            KernelElement::Vec4
        } else if k % 2 == 0 && n % 2 == 0 && a_numel % 2 == 0 && b_numel % 2 == 0 && c_numel % 2
            == 0 {
            KernelElement::Vec2
        } else {
            KernelElement::Scalar
        }
    }

    /// The tile sides for the left and for the right matrix.
    pub fn tile_sizes(&self) -> (sizes: (Option<usize>, Option<usize>))
        requires
            self@.has_matrices(),
        ensures
            sizes.0 == tile_size(self@.m(), self@.k()),
            sizes.1 == tile_size(self@.k(), self@.n()),
    {
        (find_tile_size(self.m(), self.k()), find_tile_size(self.k(), self.n()))
    }

    /// The rows of the left matrix.
    pub fn m(&self) -> (m: usize)
        requires
            self@.a_shape.len() > 0,
        ensures
            m == self@.m(),
    {
        self.a_shape.dim(0)
    }

    /// The columns of the left matrix.
    pub fn k(&self) -> (k: usize)
        requires
            self@.a_shape.len() > 1,
        ensures
            k == self@.k(),
    {
        self.a_shape.dim(1)
    }

    /// The columns of the right matrix.
    pub fn n(&self) -> (n: usize)
        requires
            self@.b_shape.len() > 1,
        ensures
            n == self@.n(),
    {
        self.b_shape.dim(1)
    }

    /// The number of matrices in the left operand.
    pub fn a_stack(&self) -> (stack: usize)
        ensures
            stack == self@.a_stack,
    {
        self.a_stack
    }

    /// The number of matrices in the right operand.
    pub fn b_stack(&self) -> (stack: usize)
        ensures
            stack == self@.b_stack,
    {
        self.b_stack
    }

    /// The number of matrices in the destination.
    pub fn c_stack(&self) -> (stack: usize)
        ensures
            stack == self@.c_stack,
    {
        self.c_stack
    }

    /// The number of matrix products to compute.
    pub fn stacks(&self) -> (stacks: usize)
        requires
            self@.wf(),
        ensures
            stacks == product(self@.stack_shape),
            stacks == self@.c_stack,
    {
        self.stack_shape.numel()
    }

    /// The element type of the right operand.
    pub fn b_dt(&self) -> (dt: DType)
        ensures
            dt == self@.b_dt,
    {
        self.b_dt
    }

    /// The three shapes, each with the number of stacked matrices in front.
    pub fn stacked_shapes(&self) -> (shapes: (Shape, Shape, Shape))
        requires
            self@.wf(),
        ensures
            shapes.0@ == seq![self@.c_stack] + self@.a_shape,
            shapes.1@ == seq![self@.c_stack] + self@.b_shape,
            shapes.2@ == seq![self@.c_stack] + self@.c_shape,
    {
        let mut a_shape = self.a_shape.clone();
        let mut b_shape = self.b_shape.clone();
        let mut c_shape = self.c_shape.clone();
        a_shape.insert(0, self.stacks());
        b_shape.insert(0, self.stacks());
        c_shape.insert(0, self.stacks());
        assert(a_shape@ =~= seq![self@.c_stack] + self@.a_shape);
        assert(b_shape@ =~= seq![self@.c_stack] + self@.b_shape);
        assert(c_shape@ =~= seq![self@.c_stack] + self@.c_shape);
        (a_shape, b_shape, c_shape)
    }

    /// The element counts of the three matrices fit in `usize`, and both operands have the two
    /// extents that a multiplication reads.
    fn is_readable(&self) -> (readable: bool)
        ensures
            readable == (self@.has_matrices() && self@.counts_fit()),
    {
        if self.a_shape.rank() < 2 || self.b_shape.rank() < 2 {
            return false;
        }
        let a = self.a_shape.checked_numel();
        let b = self.b_shape.checked_numel();
        let c = self.c_shape.checked_numel();
        a.is_some() && b.is_some() && c.is_some()
    }
}

/// The uniform parameters of the multiplication kernels. Extents are in scalars; the fields that
/// end in `D2` and `D4` hold them halved and quartered. The offsets from one stacked matrix to the
/// next are in kernel elements.
#[allow(non_snake_case)]
#[derive(Debug, Clone, Copy, PartialEq, Eq, Structural)]
pub struct MatmulMeta {
    pub M: u32,
    pub N: u32,
    pub K: u32,
    pub MD2: u32,
    pub ND2: u32,
    pub KD2: u32,
    pub MD4: u32,
    pub ND4: u32,
    pub KD4: u32,
    pub A_OFFSET: u32,
    pub B_OFFSET: u32,
    pub C_OFFSET: u32,
}

#[allow(non_snake_case)]
impl MatmulMeta {
    /// The parameters for the given extents and offsets.
    pub fn new(
        M: u32,
        N: u32,
        K: u32,
        A_OFFSET: u32,
        B_OFFSET: u32,
        C_OFFSET: u32,
    ) -> (meta: Self)
        ensures
            meta.M == M,
            meta.N == N,
            meta.K == K,
            meta.MD2 == M as int / 2,
            meta.ND2 == N as int / 2,
            meta.KD2 == K as int / 2,
            meta.MD4 == M as int / 4,
            meta.ND4 == N as int / 4,
            meta.KD4 == K as int / 4,
            meta.A_OFFSET == A_OFFSET,
            meta.B_OFFSET == B_OFFSET,
            meta.C_OFFSET == C_OFFSET,
    {
        MatmulMeta {
            M,
            N,
            K,
            MD2: M / 2,
            ND2: N / 2,
            KD2: K / 2,
            MD4: M / 4,
            ND4: N / 4,
            KD4: K / 4,
            A_OFFSET,
            B_OFFSET,
            C_OFFSET,
        }
    }
}

/// The distance between two stacked matrices, in kernel elements. A single matrix is not offset.
pub open spec fn batch_offset(stack: u32, dim1: u32, dim2: u32, element: KernelElement) -> int {
    if stack == 1 {
        0
    } else {
        (dim1 * dim2) / element.size() as int
    }
}

/// Whether the distance between two stacked matrices can be computed in 32 bits.
pub open spec fn batch_offset_fits(stack: u32, dim1: u32, dim2: u32) -> bool {
    stack == 1 || dim1 * dim2 <= u32::MAX
}

/// The distance between two stacked matrices, in kernel elements.
pub fn calculate_offset(stack: u32, dim1: u32, dim2: u32, element: &KernelElement) -> (offset: u32)
    requires
        batch_offset_fits(stack, dim1, dim2),
    ensures
        offset == batch_offset(stack, dim1, dim2, *element),
        stack == 1 ==> offset == 0,
        stack != 1 ==> offset * element.size() <= dim1 * dim2 < (offset + 1) * element.size(),
{
    proof {
        lemma_quotient_bounds(dim1 as int, dim2 as int, element.size() as int);
    }
    if stack == 1 {
        0
    } else {
        assert(0 <= dim1 * dim2) by (nonlinear_arith);
        (dim1 * dim2) / (element.as_size() as u32)
    }
}

/// Whether the distance between two stacked matrices can be computed in 32 bits.
fn check_offset(stack: u32, dim1: u32, dim2: u32) -> (fits: bool)
    ensures
        fits == batch_offset_fits(stack, dim1, dim2),
{
    stack == 1 || dim1.checked_mul(dim2).is_some()
}

impl MatmulLayout {
    /// Whether the distances between stacked matrices can be computed in 32 bits.
    pub open spec fn offsets_fit(self) -> bool {
        let m = low32(self.m() as int);
        let n = low32(self.n() as int);
        let k = low32(self.k() as int);
        &&& batch_offset_fits(low32(self.a_stack as int), m, k)
        &&& batch_offset_fits(low32(self.b_stack as int), k, n)
        &&& batch_offset_fits(low32(self.c_stack as int), m, n)
    }

    /// Whether a kernel can be dispatched for this layout.
    pub open spec fn dispatchable(self) -> bool {
        self.has_matrices() && self.counts_fit() && self.offsets_fit()
    }

    /// Whether `meta` holds the kernel parameters of this layout.
    pub open spec fn is_metadata(self, meta: MatmulMeta) -> bool {
        let m = low32(self.m() as int);
        let n = low32(self.n() as int);
        let k = low32(self.k() as int);
        let element = self.kernel_element();
        &&& meta.M == m
        &&& meta.N == n
        &&& meta.K == k
        &&& meta.MD2 == m as int / 2
        &&& meta.ND2 == n as int / 2
        &&& meta.KD2 == k as int / 2
        &&& meta.MD4 == m as int / 4
        &&& meta.ND4 == n as int / 4
        &&& meta.KD4 == k as int / 4
        &&& meta.A_OFFSET == batch_offset(low32(self.a_stack as int), m, k, element)
        &&& meta.B_OFFSET == batch_offset(low32(self.b_stack as int), k, n, element)
        &&& meta.C_OFFSET == batch_offset(low32(self.c_stack as int), m, n, element)
    }

    /// The workgroups of a dispatch for this layout: one for every 8 rows, one for every 8 kernel
    /// elements of a row, and one layer for each stacked matrix.
    pub open spec fn workgroups(self) -> WorkgroupCount {
        WorkgroupCount {
            x: low32(ceil_quotient(self.m() as int, 8)),
            y: low32(ceil_quotient(self.n() as int, 8 * self.kernel_element().size() as int)),
            z: low32(self.c_stack as int),
        }
    }
}

/// All that a compute pipeline needs to be told to run a multiplication.
#[derive(Debug)]
pub struct MatmulPlan {
    pub kernel_key: &'static str,
    pub kernel_element: KernelElement,
    pub metadata: MatmulMeta,
    pub workgroup_count: WorkgroupCount,
}

impl MatmulPlan {
    /// Whether this is the plan for `layout`.
    pub open spec fn plans(self, layout: MatmulLayout) -> bool {
        &&& self.kernel_key@ == "qgemm"@
        &&& self.kernel_element == layout.kernel_element()
        &&& layout.is_metadata(self.metadata)
        &&& self.workgroup_count == layout.workgroups()
    }
}

/// The product of two tensors.
#[derive(Debug)]
pub struct Matmul {
    lhs: Tensor,
    rhs: Tensor,
}

impl Clone for Matmul {
    fn clone(&self) -> (copy: Self)
        ensures
            copy.left().dims() == self.left().dims(),
            copy.left().storage.dt == self.left().storage.dt,
            copy.right().dims() == self.right().dims(),
            copy.right().storage.dt == self.right().storage.dt,
    {
        Matmul { lhs: self.lhs.clone(), rhs: self.rhs.clone() }
    }
}

impl Matmul {
    /// The left operand.
    pub closed spec fn left(self) -> Tensor {
        self.lhs
    }

    /// The right operand.
    pub closed spec fn right(self) -> Tensor {
        self.rhs
    }

    /// Whether this product can be dispatched into `dst`.
    pub open spec fn dispatchable(self, dst: Tensor) -> bool {
        &&& operands_accepted(self.left().dims(), self.right().dims(), dst.dims())
        &&& matmul_layout(self.left(), self.right(), dst).dispatchable()
    }

    /// The product of `lhs` and `rhs`.
    pub fn new(lhs: Tensor, rhs: Tensor) -> (op: Self)
        ensures
            op.left() == lhs,
            op.right() == rhs,
    {
        Matmul { lhs, rhs }
    }

    /// The operation's name.
    pub fn name(&self) -> (name: &'static str)
        ensures
            name@ == "Matmul"@,
    {
        "Matmul"
    }

    /// The operands, left to right.
    pub fn srcs(&self) -> (srcs: Vec<&Tensor>)
        ensures
            srcs@.len() == 2,
            *srcs@[0] == self.left(),
            *srcs@[1] == self.right(),
    {
        let mut srcs: Vec<&Tensor> = Vec::new();
        srcs.push(&self.lhs);
        srcs.push(&self.rhs);
        srcs
    }

    /// What to dispatch to compute the product into `dst`.
    pub fn compile(&self, dst: &Tensor) -> (plan: MatmulPlan)
        requires
            self.dispatchable(*dst),
        ensures
            plan.plans(matmul_layout(self.left(), self.right(), *dst)),
    {
        self.try_compile(dst).unwrap()
    }

    /// What to dispatch to compute the product into `dst`, or nothing if it cannot be dispatched.
    #[allow(non_snake_case)]
    pub fn try_compile(&self, dst: &Tensor) -> (plan: Option<MatmulPlan>)
        ensures
            plan is Some <==> self.dispatchable(*dst),
            plan matches Some(p) ==> p.plans(matmul_layout(self.left(), self.right(), *dst)),
    {
        let spec = match MatmulSpec::try_new(&self.lhs, &self.rhs, dst) {
            Some(spec) => spec,
            None => {
                return None;
            },
        };
        if !spec.is_readable() {
            return None;
        }
        let kernel_element = spec.select_kernel_element();

        let M = truncate_u32(spec.m());
        let N = truncate_u32(spec.n());
        let K = truncate_u32(spec.k());
        let a_stack = truncate_u32(spec.a_stack());
        let b_stack = truncate_u32(spec.b_stack());
        let c_stack = truncate_u32(spec.c_stack());
        if !check_offset(a_stack, M, K) || !check_offset(b_stack, K, N) || !check_offset(
            c_stack,
            M,
            N,
        ) {
            return None;
        }
        let a_offset = calculate_offset(a_stack, M, K, &kernel_element);
        let b_offset = calculate_offset(b_stack, K, N, &kernel_element);
        let c_offset = calculate_offset(c_stack, M, N, &kernel_element);
        let metadata = MatmulMeta::new(M, N, K, a_offset, b_offset, c_offset);

        let group_x = WorkgroupCount::div_ceil(spec.m(), 8);
        let group_y = WorkgroupCount::div_ceil(spec.n(), 8 * kernel_element.as_size());
        let workgroup_count = WorkgroupCount::new(
            truncate_u32(group_x),
            truncate_u32(group_y),
            truncate_u32(spec.stacks()),
        );
        Some(MatmulPlan { kernel_key: "qgemm", kernel_element, metadata, workgroup_count })
    }

    /// The view of the output: that of the first input.
    pub fn infer_output(&self, srcs: &[&Tensor]) -> (res: Result<StorageView, OperationError>)
        requires
            srcs@.len() > 0,
        ensures
            res is Ok,
            res->Ok_0.shape@ == srcs@[0].dims(),
            res->Ok_0.dt == srcs@[0].storage.dt,
    {
        Ok(srcs[0].storage_view().clone())
    }

    /// Accepts two inputs of the same element type.
    pub fn check_invariants(srcs: &[&Tensor]) -> (res: Result<(), OperationError>)
        ensures
            res == (if srcs@.len() != 2 {
                Err::<(), OperationError>(
                    OperationError::Invariant(
                        InvariantError::InputArity { accepted: 2, given: srcs@.len() as usize },
                    ),
                )
            } else if srcs@[0].storage.dt != srcs@[1].storage.dt {
                Err(
                    OperationError::Invariant(
                        InvariantError::DTypeMismatch {
                            expected: srcs@[0].storage.dt,
                            actual: srcs@[1].storage.dt,
                        },
                    ),
                )
            } else {
                Ok(())
            }),
    {
        match Enforcer::check_input_arity(srcs, 2) {
            Ok(_) => {},
            Err(e) => {
                return Err(OperationError::Invariant(e));
            },
        }
        match Enforcer::check_dtype_match(srcs) {
            Ok(_) => {
                assert(srcs@[1].storage.dt == srcs@[0].storage.dt);
                Ok(())
            },
            Err(e) => {
                assert(forall|i: int| #[trigger]
                    is_first_dtype_mismatch(srcs@, i) && i < srcs@.len() ==> i == 1);
                Err(OperationError::Invariant(e))
            },
        }
    }
}

/// Taking `dims` apart into a stack of matrices keeps the number of elements.
proof fn lemma_split_keeps_product(own: Seq<usize>, other: Seq<usize>, n: int)
    requires
        0 <= n <= aligned(own, other).len(),
    ensures
        product(aligned(own, other).take(n)) * product(as_matrix(aligned(own, other).skip(n)))
            == product(own),
{
    let p = aligned(own, other);
    let rest = p.skip(n);
    law_padding_with_ones_keeps_product(own, other.len() as int);
    assert(p.take(n) + rest =~= p);
    law_product_of_concat(p.take(n), rest);
    if rest.len() == 1 {
        assert(left_padded(rest, 1, 2) =~= as_matrix(rest));
        law_padding_with_ones_keeps_product(rest, 2);
    }
}

/// Stacking keeps the elements of all three tensors: the number of matrices times the elements of
/// one matrix is the number of elements of the tensor.
pub proof fn law_stacking_keeps_elements(a: Tensor, b: Tensor, c: Tensor)
    requires
        operands_accepted(a.dims(), b.dims(), c.dims()),
    ensures
        ({
            let l = matmul_layout(a, b, c);
            &&& l.a_stack * product(l.a_shape) == product(a.dims())
            &&& l.b_stack * product(l.b_shape) == product(b.dims())
            &&& l.c_stack * product(l.c_shape) == product(c.dims())
        }),
{
    let n = stack_dims(c.dims());
    lemma_stacks_fit(a.dims(), b.dims(), c.dims());
    lemma_split_keeps_product(a.dims(), b.dims(), n);
    lemma_split_keeps_product(b.dims(), a.dims(), n);
    assert(c.dims().take(n) + c.dims().skip(n) =~= c.dims());
    law_product_of_concat(c.dims().take(n), c.dims().skip(n));
}

proof fn lemma_stacks_fit(a: Seq<usize>, b: Seq<usize>, c: Seq<usize>)
    requires
        operands_accepted(a, b, c),
    ensures
        stack_of(aligned(a, b), c) <= usize::MAX,
        stack_of(aligned(b, a), c) <= usize::MAX,
        stack_of(c, c) <= usize::MAX,
{
    let n = stack_dims(c);
    let pa = aligned(a, b).take(n);
    let pb = aligned(b, a).take(n);
    let pc = c.take(n);
    assert(pa.take(pa.len() as int) =~= pa);
    assert(pb.take(pb.len() as int) =~= pb);
    assert(pc.take(pc.len() as int) =~= pc);
}

/// The layout of accepted operands is well formed: the destination is a stack of as many matrices
/// as there are products, and the operands' stacks agree with it or hold a single matrix.
pub proof fn law_layout_is_well_formed(a: Tensor, b: Tensor, c: Tensor)
    requires
        operands_accepted(a.dims(), b.dims(), c.dims()),
    ensures
        matmul_layout(a, b, c).wf(),
{
    lemma_stacks_fit(a.dims(), b.dims(), c.dims());
}

/// Where the destination has as many dimensions as the operands, every dimension but the last two
/// is stacked, and the multiplied matrices have the last two extents of each tensor.
pub proof fn law_matrices_are_trailing_extents(a: Tensor, b: Tensor, c: Tensor)
    requires
        operands_accepted(a.dims(), b.dims(), c.dims()),
        c.dims().len() == aligned(a.dims(), b.dims()).len(),
    ensures
        ({
            let l = matmul_layout(a, b, c);
            &&& l.a_shape == a.dims().skip(a.dims().len() - 2)
            &&& l.b_shape == b.dims().skip(b.dims().len() - 2)
            &&& l.c_shape == c.dims().skip(c.dims().len() - 2)
            &&& l.has_matrices()
            &&& l.m() == a.dims()[a.dims().len() - 2]
            &&& l.k() == a.dims().last()
            &&& l.n() == b.dims().last()
        }),
{
    let l = matmul_layout(a, b, c);
    assert(l.a_shape =~= a.dims().skip(a.dims().len() - 2));
    assert(l.b_shape =~= b.dims().skip(b.dims().len() - 2));
}

/// The kernel element divides every extent and count that is checked, and no wider one does.
pub proof fn law_kernel_element_is_widest(layout: MatmulLayout, other: KernelElement)
    ensures
        layout.divisible_by(layout.kernel_element().size() as int),
        layout.divisible_by(other.size() as int) ==> other.size()
            <= layout.kernel_element().size(),
{
}

/// A tile side divides both extents, and it is the larger of the two sides that can.
pub proof fn law_tile_divides(rows: usize, cols: usize)
    ensures
        tile_size(rows, cols) matches Some(t) ==> (t == 16 || t == 32) && rows % t == 0 && cols % t
            == 0,
        rows % 32 == 0 && cols % 32 == 0 ==> tile_size(rows, cols) == Some(32usize),
        tile_size(rows, cols) is None ==> rows % 16 != 0 || cols % 16 != 0,
{
}

proof fn lemma_exact_quotient(x: int, y: int, size: int)
    requires
        size > 0,
        y % size == 0,
    ensures
        ((x * y) / size) * size == x * y,
{
    let q = y / size;
    vstd::arithmetic::div_mod::lemma_fundamental_div_mod(y, size);
    assert(x * y == size * (x * q)) by (nonlinear_arith)
        requires
            y == size * q,
    ;
    vstd::arithmetic::div_mod::lemma_div_multiples_vanish(x * q, size);
    assert(size * (x * q) == (x * q) * size) by (nonlinear_arith);
}

/// For extents of at most 32 bits, an offset counted in kernel elements lands exactly on the next
/// matrix, and an operand that is a single matrix is not offset.
pub proof fn law_offsets_land_on_matrices(layout: MatmulLayout, meta: MatmulMeta)
    requires
        layout.dispatchable(),
        layout.is_metadata(meta),
        layout.m() <= u32::MAX,
        layout.n() <= u32::MAX,
        layout.k() <= u32::MAX,
        layout.a_stack <= u32::MAX,
        layout.b_stack <= u32::MAX,
        layout.c_stack <= u32::MAX,
    ensures
        ({
            let size = layout.kernel_element().size();
            let (m, n, k) = (layout.m(), layout.n(), layout.k());
            &&& meta.A_OFFSET * size == if layout.a_stack == 1 { 0 } else { m * k }
            &&& meta.B_OFFSET * size == if layout.b_stack == 1 { 0 } else { k * n }
            &&& meta.C_OFFSET * size == if layout.c_stack == 1 { 0 } else { m * n }
        }),
{
    let size = layout.kernel_element().size() as int;
    law_kernel_element_is_widest(layout, KernelElement::Scalar);
    lemma_exact_quotient(layout.m() as int, layout.k() as int, size);
    lemma_exact_quotient(layout.k() as int, layout.n() as int, size);
    lemma_exact_quotient(layout.m() as int, layout.n() as int, size);
}

/// For extents of at most 32 bits, the workgroups cover every row and every column of the
/// destination, and one workgroup fewer along either axis would not.
pub proof fn law_workgroups_cover_destination(layout: MatmulLayout)
    requires
        layout.m() <= u32::MAX,
        layout.n() <= u32::MAX,
        layout.c_stack <= u32::MAX,
    ensures
        ({
            let groups = layout.workgroups();
            let width = 8 * layout.kernel_element().size() as int;
            &&& groups.x * 8 >= layout.m()
            &&& layout.m() > 0 ==> (groups.x - 1) * 8 < layout.m()
            &&& groups.y * width >= layout.n()
            &&& layout.n() > 0 ==> (groups.y - 1) * width < layout.n()
            &&& groups.z == layout.c_stack
        }),
{
    let width = 8 * layout.kernel_element().size() as int;
    lemma_ceil_quotient(layout.m() as int, 8);
    lemma_ceil_quotient(layout.n() as int, width);
    law_groups_cover(layout.m() as int, 8);
    law_groups_cover(layout.n() as int, width);
}

/// Putting the number of stacked matrices in front of the destination's matrix shape keeps the
/// number of elements.
pub proof fn law_stacked_destination_keeps_elements(a: Tensor, b: Tensor, c: Tensor)
    requires
        operands_accepted(a.dims(), b.dims(), c.dims()),
    ensures
        ({
            let l = matmul_layout(a, b, c);
            product(seq![l.c_stack] + l.c_shape) == product(c.dims())
        }),
{
    let l = matmul_layout(a, b, c);
    law_stacking_keeps_elements(a, b, c);
    law_product_of_concat(seq![l.c_stack], l.c_shape);
    assert(seq![l.c_stack].drop_last() =~= Seq::<usize>::empty());
    assert(product(Seq::<usize>::empty()) == 1);
    assert(product(seq![l.c_stack]) == 1 * l.c_stack as nat);
}

/// What the extents of one operand come to, once aligned with the other and taken apart after the
/// first `n` of them.
proof fn lemma_operand_is_split(own: Seq<usize>, other: Seq<usize>, n: int)
    requires
        own.len() >= 2,
        0 <= n <= aligned(own, other).len(),
    ensures
        ({
            let pad = if own.len() < other.len() { other.len() - own.len() } else { 0 };
            let lead = own.take(if n <= pad { 0 } else { n - pad });
            let rest = own.len() + pad - n;
            let shape = as_matrix(aligned(own, other).skip(n));
            &&& aligned(own, other).len() == own.len() + pad
            &&& product(aligned(own, other).take(n)) == product(lead)
            &&& product_fits(aligned(own, other).take(n)) <==> product_fits(lead)
            &&& shape.len() == (if rest == 1 { 2 } else { rest })
            &&& rest == 1 ==> shape[0] == 1 && shape[1] == own.last()
            &&& rest != 1 ==> forall|i: int|
                0 <= i < rest ==> #[trigger] shape[i] == (if n + i < pad {
                    1
                } else {
                    own[n + i - pad]
                })
        }),
{
    let pad = if own.len() < other.len() { other.len() - own.len() } else { 0 };
    let lead = own.take(if n <= pad { 0 } else { n - pad });
    assert(aligned(own, other).take(n) =~= left_padded(lead, 1, n));
    law_padding_with_ones_keeps_product(lead, n);
    lemma_padding_with_ones_keeps_fit(lead, n);
}

/// Operands are accepted exactly if all three tensors have at least two dimensions, the
/// destination has at most two more than the longer operand, the leading extents of each multiply
/// to a number that fits, and these numbers of matrices are all equal or that of an operand is
/// one. The leading extents of the destination are all but its last two; those of an operand are
/// as many, of which the shorter operand lacks as many as it has dimensions less.
pub proof fn law_accepted_operands(a: Seq<usize>, b: Seq<usize>, c: Seq<usize>)
    ensures
        operands_accepted(a, b, c) <==> {
            let n = c.len() - 2;
            let a_pad = if a.len() < b.len() { b.len() - a.len() } else { 0 };
            let b_pad = if b.len() < a.len() { a.len() - b.len() } else { 0 };
            let a_lead = a.take(if n <= a_pad { 0 } else { n - a_pad });
            let b_lead = b.take(if n <= b_pad { 0 } else { n - b_pad });
            let c_lead = c.take(n);
            &&& a.len() >= 2
            &&& b.len() >= 2
            &&& c.len() >= 2
            &&& n <= a.len() || n <= b.len()
            &&& product_fits(a_lead)
            &&& product_fits(b_lead)
            &&& product_fits(c_lead)
            &&& product(a_lead) == 1 || product(b_lead) == 1 || (product(a_lead) == product(b_lead)
                && product(b_lead) == product(c_lead))
        },
{
    let n = c.len() - 2;
    if a.len() >= 2 && b.len() >= 2 && c.len() >= 2 && (n <= a.len() || n <= b.len()) {
        lemma_operand_is_split(a, b, n);
        lemma_operand_is_split(b, a, n);
    }
}

/// The left operand's leading extents, all but as many as the destination has after its stacked
/// ones, multiply to the number of its matrices; the others are those of the matrix, in order. A
/// dimension that it lacks counts as one, and a single extent that is left is a row.
pub proof fn law_left_operand_is_split(a: Tensor, b: Tensor, c: Tensor)
    requires
        operands_accepted(a.dims(), b.dims(), c.dims()),
    ensures
        ({
            let l = matmul_layout(a, b, c);
            let own = a.dims();
            let n = c.dims().len() - 2;
            let pad = if own.len() < b.dims().len() { b.dims().len() - own.len() } else { 0 };
            let rest = own.len() + pad - n;
            &&& l.a_dt == a.storage.dt
            &&& l.a_stack == product(own.take(if n <= pad { 0 } else { n - pad }))
            &&& l.a_shape.len() == (if rest == 1 { 2 } else { rest })
            &&& rest == 1 ==> l.a_shape[0] == 1 && l.a_shape[1] == own.last()
            &&& rest != 1 ==> forall|i: int|
                0 <= i < rest ==> #[trigger] l.a_shape[i] == (if n + i < pad {
                    1
                } else {
                    own[n + i - pad]
                })
            &&& l.m() == l.a_shape[0]
            &&& l.k() == l.a_shape[1]
        }),
{
    lemma_stacks_fit(a.dims(), b.dims(), c.dims());
    lemma_operand_is_split(a.dims(), b.dims(), c.dims().len() - 2);
}

/// The right operand is split as the left one is.
pub proof fn law_right_operand_is_split(a: Tensor, b: Tensor, c: Tensor)
    requires
        operands_accepted(a.dims(), b.dims(), c.dims()),
    ensures
        ({
            let l = matmul_layout(a, b, c);
            let own = b.dims();
            let n = c.dims().len() - 2;
            let pad = if own.len() < a.dims().len() { a.dims().len() - own.len() } else { 0 };
            let rest = own.len() + pad - n;
            &&& l.b_dt == b.storage.dt
            &&& l.b_stack == product(own.take(if n <= pad { 0 } else { n - pad }))
            &&& l.b_shape.len() == (if rest == 1 { 2 } else { rest })
            &&& rest == 1 ==> l.b_shape[0] == 1 && l.b_shape[1] == own.last()
            &&& rest != 1 ==> forall|i: int|
                0 <= i < rest ==> #[trigger] l.b_shape[i] == (if n + i < pad {
                    1
                } else {
                    own[n + i - pad]
                })
            &&& l.n() == l.b_shape[1]
        }),
{
    lemma_stacks_fit(a.dims(), b.dims(), c.dims());
    lemma_operand_is_split(b.dims(), a.dims(), c.dims().len() - 2);
}

/// The destination is a stack of matrices of its last two extents, as many as all others multiply
/// to.
pub proof fn law_destination_is_split(a: Tensor, b: Tensor, c: Tensor)
    requires
        operands_accepted(a.dims(), b.dims(), c.dims()),
    ensures
        ({
            let l = matmul_layout(a, b, c);
            let n = c.dims().len() - 2;
            &&& l.stack_shape == c.dims().take(n)
            &&& l.c_stack == product(c.dims().take(n))
            &&& l.c_shape.len() == 2
            &&& l.c_shape[0] == c.dims()[n]
            &&& l.c_shape[1] == c.dims()[n + 1]
        }),
{
    lemma_stacks_fit(a.dims(), b.dims(), c.dims());
}

/// The kernel element's size divides the columns of the left matrix and those of the right one,
/// each on its own, and each of the three element counts. Where two divides all five it is at least
/// two, and where four does it is four.
pub proof fn law_kernel_element_reads_without_remainder(layout: MatmulLayout)
    ensures
        ({
            let size = layout.kernel_element().size() as int;
            let k = layout.a_shape[1] as int;
            let n = layout.b_shape[1] as int;
            let a = product(layout.a_shape) as int;
            let b = product(layout.b_shape) as int;
            let c = product(layout.c_shape) as int;
            &&& size == 1 || size == 2 || size == 4
            &&& k % size == 0
            &&& n % size == 0
            &&& a % size == 0
            &&& b % size == 0
            &&& c % size == 0
            &&& k % 2 == 0 && n % 2 == 0 && a % 2 == 0 && b % 2 == 0 && c % 2 == 0 ==> size >= 2
            &&& k % 4 == 0 && n % 4 == 0 && a % 4 == 0 && b % 4 == 0 && c % 4 == 0 ==> size == 4
        }),
{
}

/// A layout can be dispatched exactly if both operands have two extents to read, the three element
/// counts fit, and for each tensor that is more than a single matrix, the elements of one matrix
/// can be counted in 32 bits. Extents and numbers of matrices are taken modulo two to the 32nd.
pub proof fn law_dispatchable_layouts(layout: MatmulLayout)
    ensures
        layout.dispatchable() <==> {
            let m = layout.a_shape[0] as int % 0x1_0000_0000;
            let k = layout.a_shape[1] as int % 0x1_0000_0000;
            let n = layout.b_shape[1] as int % 0x1_0000_0000;
            &&& layout.a_shape.len() >= 2
            &&& layout.b_shape.len() >= 2
            &&& product_fits(layout.a_shape)
            &&& product_fits(layout.b_shape)
            &&& product_fits(layout.c_shape)
            &&& layout.a_stack as int % 0x1_0000_0000 == 1 || m * k <= u32::MAX
            &&& layout.b_stack as int % 0x1_0000_0000 == 1 || k * n <= u32::MAX
            &&& layout.c_stack as int % 0x1_0000_0000 == 1 || m * n <= u32::MAX
        },
{
}

proof fn lemma_quotient_bounds(x: int, y: int, size: int)
    requires
        size > 0,
    ensures
        ((x * y) / size) * size <= x * y < ((x * y) / size + 1) * size,
{
    let q = (x * y) / size;
    vstd::arithmetic::div_mod::lemma_fundamental_div_mod(x * y, size);
    vstd::arithmetic::div_mod::lemma_mod_bound(x * y, size);
    assert(q * size == size * q) by (nonlinear_arith);
    assert((q + 1) * size == size * q + size) by (nonlinear_arith);
}

/// The metadata of any plan: the extents modulo two to the 32nd, halved and quartered, and for
/// each tensor the number of whole kernel elements in one matrix, or 0 if it is a single matrix.
pub proof fn law_metadata_of_plan(layout: MatmulLayout, plan: MatmulPlan)
    requires
        plan.plans(layout),
    ensures
        ({
            let meta = plan.metadata;
            let size = plan.kernel_element.size() as int;
            let a_single = layout.a_stack as int % 0x1_0000_0000 == 1;
            let b_single = layout.b_stack as int % 0x1_0000_0000 == 1;
            let c_single = layout.c_stack as int % 0x1_0000_0000 == 1;
            &&& plan.kernel_key@ == "qgemm"@
            &&& plan.kernel_element == layout.kernel_element()
            &&& meta.M == layout.a_shape[0] as int % 0x1_0000_0000
            &&& meta.K == layout.a_shape[1] as int % 0x1_0000_0000
            &&& meta.N == layout.b_shape[1] as int % 0x1_0000_0000
            &&& 2 * meta.MD2 <= meta.M < 2 * meta.MD2 + 2
            &&& 2 * meta.ND2 <= meta.N < 2 * meta.ND2 + 2
            &&& 2 * meta.KD2 <= meta.K < 2 * meta.KD2 + 2
            &&& 4 * meta.MD4 <= meta.M < 4 * meta.MD4 + 4
            &&& 4 * meta.ND4 <= meta.N < 4 * meta.ND4 + 4
            &&& 4 * meta.KD4 <= meta.K < 4 * meta.KD4 + 4
            &&& a_single ==> meta.A_OFFSET == 0
            &&& b_single ==> meta.B_OFFSET == 0
            &&& c_single ==> meta.C_OFFSET == 0
            &&& !a_single ==> meta.A_OFFSET * size <= meta.M * meta.K < (meta.A_OFFSET + 1) * size
            &&& !b_single ==> meta.B_OFFSET * size <= meta.K * meta.N < (meta.B_OFFSET + 1) * size
            &&& !c_single ==> meta.C_OFFSET * size <= meta.M * meta.N < (meta.C_OFFSET + 1) * size
        }),
{
    let meta = plan.metadata;
    let size = plan.kernel_element.size() as int;
    lemma_quotient_bounds(meta.M as int, meta.K as int, size);
    lemma_quotient_bounds(meta.K as int, meta.N as int, size);
    lemma_quotient_bounds(meta.M as int, meta.N as int, size);
}

/// Only one number of groups covers all items with none left over.
proof fn lemma_least_cover(groups: int, items: int, width: int)
    requires
        0 <= groups,
        0 <= items,
        0 < width,
        groups * width >= items,
        groups > 0 ==> (groups - 1) * width < items,
    ensures
        ceil_quotient(items, width) == groups,
{
    let q = ceil_quotient(items, width);
    lemma_ceil_quotient(items, width);
    law_groups_cover(items, width);
    if q < groups {
        assert((groups - 1) * width >= q * width) by (nonlinear_arith)
            requires
                q <= groups - 1,
                0 < width,
        ;
    }
    if groups < q {
        assert((q - 1) * width >= groups * width) by (nonlinear_arith)
            requires
                groups <= q - 1,
                0 < width,
        ;
    }
}

/// The workgroups of any plan: if `rows` is the least number of groups of 8 that covers the rows,
/// and `cols` the least number of groups of 8 kernel elements that covers the columns, these are
/// the counts modulo two to the 32nd, with one layer for each stacked matrix.
pub proof fn law_workgroups_of_plan(layout: MatmulLayout, plan: MatmulPlan, rows: int, cols: int)
    requires
        plan.plans(layout),
        ({
            let m = layout.a_shape[0] as int;
            let n = layout.b_shape[1] as int;
            let width = 8 * plan.kernel_element.size() as int;
            &&& 0 <= rows
            &&& 0 <= cols
            &&& rows * 8 >= m
            &&& cols * width >= n
            &&& rows > 0 ==> (rows - 1) * 8 < m
            &&& cols > 0 ==> (cols - 1) * width < n
        }),
    ensures
        plan.workgroup_count.x == rows % 0x1_0000_0000,
        plan.workgroup_count.y == cols % 0x1_0000_0000,
        plan.workgroup_count.z == layout.c_stack as int % 0x1_0000_0000,
{
    lemma_least_cover(rows, layout.a_shape[0] as int, 8);
    lemma_least_cover(
        cols,
        layout.b_shape[1] as int,
        8 * plan.kernel_element.size() as int,
    );
}

/// The layout where the destination has as many dimensions as the longer operand.
proof fn lemma_layout_of_same_rank(a: Tensor, b: Tensor, c: Tensor)
    requires
        operands_accepted(a.dims(), b.dims(), c.dims()),
        c.dims().len() == (if a.dims().len() < b.dims().len() {
            b.dims().len()
        } else {
            a.dims().len()
        }),
    ensures
        ({
            let l = matmul_layout(a, b, c);
            &&& l.a_shape == a.dims().skip(a.dims().len() - 2)
            &&& l.b_shape == b.dims().skip(b.dims().len() - 2)
            &&& l.c_shape == c.dims().skip(c.dims().len() - 2)
            &&& l.a_stack == product(a.dims().take(a.dims().len() - 2))
            &&& l.b_stack == product(b.dims().take(b.dims().len() - 2))
            &&& l.c_stack == product(c.dims().take(c.dims().len() - 2))
        }),
{
    law_left_operand_is_split(a, b, c);
    law_right_operand_is_split(a, b, c);
    law_destination_is_split(a, b, c);
    law_matrices_are_trailing_extents(a, b, c);
}

/// The offset of a plan, in scalars, where the rows divide into kernel elements.
proof fn lemma_offset_is_exact(offset: int, x: int, y: int, size: int)
    requires
        size > 0,
        y % size == 0,
        offset * size <= x * y < (offset + 1) * size,
    ensures
        offset * size == x * y,
{
    lemma_exact_quotient(x, y, size);
    let q = (x * y) / size;
    if q < offset {
        assert((q + 1) * size <= offset * size) by (nonlinear_arith)
            requires
                q + 1 <= offset,
                size > 0,
        ;
        lemma_quotient_bounds(x, y, size);
    }
    if offset < q {
        assert((offset + 1) * size <= q * size) by (nonlinear_arith)
            requires
                offset + 1 <= q,
                size > 0,
        ;
    }
}

/// What a plan tells the kernel of the tensors it multiplies, where the destination has as many
/// dimensions as the longer operand and all numbers have at most 32 bits. Rows and columns are the
/// operands' last two extents, whole, halved and quartered. All extents before them multiply to
/// the number of matrices. From one matrix to the next, the offset in scalars is the number of
/// elements of a matrix, or 0 if there is no other. The workgroups cover every row and column of
/// every matrix of the destination, and none is left over.
pub proof fn law_plan_tells_extents(a: Tensor, b: Tensor, c: Tensor, plan: MatmulPlan)
    requires
        operands_accepted(a.dims(), b.dims(), c.dims()),
        plan.plans(matmul_layout(a, b, c)),
        c.dims().len() == (if a.dims().len() < b.dims().len() {
            b.dims().len()
        } else {
            a.dims().len()
        }),
        a.dims()[a.dims().len() - 2] <= u32::MAX,
        a.dims().last() <= u32::MAX,
        b.dims().last() <= u32::MAX,
        product(a.dims().take(a.dims().len() - 2)) <= u32::MAX,
        product(b.dims().take(b.dims().len() - 2)) <= u32::MAX,
        product(c.dims().take(c.dims().len() - 2)) <= u32::MAX,
    ensures
        ({
            let meta = plan.metadata;
            let groups = plan.workgroup_count;
            let size = plan.kernel_element.size() as int;
            let m = a.dims()[a.dims().len() - 2] as int;
            let k = a.dims().last() as int;
            let n = b.dims().last() as int;
            let a_stack = product(a.dims().take(a.dims().len() - 2));
            let b_stack = product(b.dims().take(b.dims().len() - 2));
            let c_stack = product(c.dims().take(c.dims().len() - 2));
            &&& plan.kernel_key@ == "qgemm"@
            &&& meta.M == m
            &&& meta.K == k
            &&& meta.N == n
            &&& 2 * meta.MD2 <= m < 2 * meta.MD2 + 2
            &&& 2 * meta.ND2 <= n < 2 * meta.ND2 + 2
            &&& 2 * meta.KD2 <= k < 2 * meta.KD2 + 2
            &&& 4 * meta.MD4 <= m < 4 * meta.MD4 + 4
            &&& 4 * meta.ND4 <= n < 4 * meta.ND4 + 4
            &&& 4 * meta.KD4 <= k < 4 * meta.KD4 + 4
            &&& size == 1 || size == 2 || size == 4
            &&& k % size == 0
            &&& n % size == 0
            &&& meta.A_OFFSET * size == (if a_stack == 1 { 0 } else { m * k })
            &&& meta.B_OFFSET * size == (if b_stack == 1 { 0 } else { k * n })
            &&& meta.C_OFFSET * size == (if c_stack == 1 { 0 } else { m * n })
            &&& groups.x * 8 >= m
            &&& groups.x > 0 ==> (groups.x - 1) * 8 < m
            &&& groups.y * (8 * size) >= n
            &&& groups.y > 0 ==> (groups.y - 1) * (8 * size) < n
            &&& groups.z == c_stack
        }),
{
    let l = matmul_layout(a, b, c);
    let meta = plan.metadata;
    let size = plan.kernel_element.size() as int;
    lemma_layout_of_same_rank(a, b, c);
    law_kernel_element_reads_without_remainder(l);
    law_metadata_of_plan(l, plan);
    law_workgroups_cover_destination(l);
    law_groups_cover(l.m() as int, 8);
    law_groups_cover(l.n() as int, 8 * size);
    let (m, k, n) = (meta.M as int, meta.K as int, meta.N as int);
    if l.a_stack != 1 {
        lemma_offset_is_exact(meta.A_OFFSET as int, m, k, size);
    }
    if l.b_stack != 1 {
        lemma_offset_is_exact(meta.B_OFFSET as int, k, n, size);
    }
    if l.c_stack != 1 {
        lemma_offset_is_exact(meta.C_OFFSET as int, m, n, size);
    }
}

proof fn lemma_product_of_two(dims: Seq<usize>)
    requires
        dims.len() == 2,
    ensures
        product(dims) == dims[0] * dims[1],
        product_fits(dims) <==> dims[0] * dims[1] <= usize::MAX,
{
    let row = seq![dims[0]];
    assert(dims =~= row.push(dims[1]));
    assert(row =~= Seq::empty().push(dims[0]));
    law_product_of_at_most_one(dims[0]);
    law_product_fits_step_by_step(Seq::empty(), dims[0]);
    law_product_fits_step_by_step(row, dims[1]);
    assert(dims.drop_last() =~= row);
}

/// Where the destination has as many dimensions as the longer operand, a product can be dispatched
/// exactly if its operands are accepted, the last two extents of each tensor multiply to a number
/// that fits, and so do the rows and columns of each tensor that is more than a single matrix, in
/// 32 bits. Extents and numbers of matrices are taken modulo two to the 32nd.
pub proof fn law_dispatchable_products(op: Matmul, dst: Tensor)
    requires
        ({
            let a = op.left().dims().len();
            let b = op.right().dims().len();
            dst.dims().len() == (if a < b { b } else { a })
        }),
    ensures
        op.dispatchable(dst) <==> {
            let a = op.left().dims();
            let b = op.right().dims();
            let c = dst.dims();
            let m = a[a.len() - 2] as int % 0x1_0000_0000;
            let k = a.last() as int % 0x1_0000_0000;
            let n = b.last() as int % 0x1_0000_0000;
            &&& operands_accepted(a, b, c)
            &&& a[a.len() - 2] * a.last() <= usize::MAX
            &&& b[b.len() - 2] * b.last() <= usize::MAX
            &&& c[c.len() - 2] * c.last() <= usize::MAX
            &&& product(a.take(a.len() - 2)) as int % 0x1_0000_0000 == 1 || m * k <= u32::MAX
            &&& product(b.take(b.len() - 2)) as int % 0x1_0000_0000 == 1 || k * n <= u32::MAX
            &&& product(c.take(c.len() - 2)) as int % 0x1_0000_0000 == 1 || m * n <= u32::MAX
        },
{
    let a = op.left();
    let b = op.right();
    if operands_accepted(a.dims(), b.dims(), dst.dims()) {
        let l = matmul_layout(a, b, dst);
        lemma_layout_of_same_rank(a, b, dst);
        law_dispatchable_layouts(l);
        lemma_product_of_two(l.a_shape);
        lemma_product_of_two(l.b_shape);
        lemma_product_of_two(l.c_shape);
    }
}

} // verus!
