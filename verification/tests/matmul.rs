use ratchet::kernel::{truncate_u32, KernelElement, WorkgroupCount};
use ratchet::matmul::{calculate_offset, Matmul, MatmulMeta, MatmulSpec};
use ratchet::op::{BinaryOp, LazyOp, UnaryOp};
use ratchet::operation::{Enforcer, InvariantError, OperationError};
use ratchet::shape::Shape;
use ratchet::tensor::{DType, Tensor};

fn tensor(dims: &[usize]) -> Tensor {
    Tensor::new(Shape::new(dims.to_vec()), DType::F32)
}

fn shape(dims: &[usize]) -> Shape {
    Shape::new(dims.to_vec())
}

fn spec(a: &[usize], b: &[usize], c: &[usize]) -> MatmulSpec {
    MatmulSpec::new(&tensor(a), &tensor(b), &tensor(c))
}

fn accepted(a: &[usize], b: &[usize], c: &[usize]) -> bool {
    MatmulSpec::try_new(&tensor(a), &tensor(b), &tensor(c)).is_some()
}

#[test]
fn plain_matrices_are_not_stacked() {
    let s = spec(&[3, 5], &[5, 7], &[3, 7]);
    assert_eq!((s.m(), s.k(), s.n()), (3, 5, 7));
    assert_eq!((s.a_stack(), s.b_stack(), s.c_stack(), s.stacks()), (1, 1, 1, 1));
    assert_eq!(
        s.stacked_shapes(),
        (shape(&[1, 3, 5]), shape(&[1, 5, 7]), shape(&[1, 3, 7]))
    );
}

#[test]
fn leading_dimensions_are_stacked() {
    let s = spec(&[2, 6, 3, 4], &[2, 6, 4, 8], &[2, 6, 3, 8]);
    assert_eq!((s.m(), s.k(), s.n()), (3, 4, 8));
    assert_eq!((s.a_stack(), s.b_stack(), s.c_stack(), s.stacks()), (12, 12, 12, 12));
    assert_eq!(
        s.stacked_shapes(),
        (shape(&[12, 3, 4]), shape(&[12, 4, 8]), shape(&[12, 3, 8]))
    );
}

#[test]
fn shorter_operand_is_padded_with_ones() {
    let s = spec(&[4, 3, 5], &[5, 7], &[4, 3, 7]);
    assert_eq!((s.a_stack(), s.b_stack(), s.c_stack()), (4, 1, 4));
    assert_eq!((s.m(), s.k(), s.n()), (3, 5, 7));
    let s = spec(&[3, 5], &[4, 5, 7], &[4, 3, 7]);
    assert_eq!((s.a_stack(), s.b_stack(), s.c_stack()), (1, 4, 4));
    assert_eq!((s.m(), s.k(), s.n()), (3, 5, 7));
}

#[test]
fn single_remaining_extent_becomes_a_row() {
    let s = spec(&[3, 5], &[3, 7], &[3, 1, 7]);
    assert_eq!((s.a_stack(), s.b_stack(), s.c_stack()), (3, 3, 3));
    assert_eq!((s.m(), s.k(), s.n()), (1, 5, 7));
}

#[test]
fn operands_that_do_not_stack_are_refused() {
    assert!(!accepted(&[5], &[5, 7], &[5, 7]));
    assert!(!accepted(&[3, 5], &[7], &[5, 7]));
    assert!(!accepted(&[3, 5], &[5, 7], &[7]));
    assert!(!accepted(&[3, 5], &[5, 7], &[1, 1, 1, 3, 7]));
    assert!(accepted(&[3, 5], &[5, 7], &[15, 1, 3, 7]) == false);
    assert!(!accepted(&[2, 3, 5], &[4, 5, 7], &[4, 3, 7]));
    assert!(!accepted(&[2, 3, 5], &[2, 5, 7], &[4, 3, 7]));
    assert!(accepted(&[1, 3, 5], &[4, 5, 7], &[9, 3, 7]));
    let huge = usize::MAX;
    assert!(!accepted(&[huge, huge, 3, 5], &[5, 7], &[1, 1, 3, 7]));
    assert!(accepted(&[0, huge, 3, 5], &[5, 7], &[1, 1, 3, 7]));
}

#[test]
fn stacking_keeps_the_number_of_elements() {
    let dims: [usize; 4] = [2, 6, 3, 4];
    let s = spec(&dims, &[4, 8], &[2, 6, 3, 8]);
    assert_eq!(s.a_stack() * s.m() * s.k(), shape(&dims).numel());
    let (_, _, c) = s.stacked_shapes();
    assert_eq!(c.numel(), shape(&[2, 6, 3, 8]).numel());
}

#[test]
fn widest_kernel_element_is_selected() {
    let element = |a: &[usize], b: &[usize], c: &[usize]| spec(a, b, c).select_kernel_element();
    assert_eq!(element(&[3, 8], &[8, 4], &[3, 4]), KernelElement::Vec4);
    assert_eq!(element(&[3, 6], &[6, 4], &[3, 4]), KernelElement::Vec2);
    assert_eq!(element(&[3, 8], &[8, 6], &[3, 6]), KernelElement::Vec2);
    assert_eq!(element(&[4, 8], &[8, 5], &[4, 5]), KernelElement::Scalar);
    assert_eq!(element(&[4, 7], &[7, 8], &[4, 8]), KernelElement::Scalar);
    assert_eq!(KernelElement::Scalar.as_size(), 1);
    assert_eq!(KernelElement::Vec2.as_size(), 2);
    assert_eq!(KernelElement::Vec4.as_size(), 4);
}

#[test]
fn tile_sizes_are_thirty_two_sixteen_or_none() {
    assert_eq!(spec(&[64, 32], &[32, 96], &[64, 96]).tile_sizes(), (Some(32), Some(32)));
    assert_eq!(spec(&[48, 32], &[32, 64], &[48, 64]).tile_sizes(), (Some(16), Some(32)));
    assert_eq!(spec(&[48, 16], &[16, 8], &[48, 8]).tile_sizes(), (Some(16), None));
}

#[test]
fn right_element_type_is_kept() {
    let a = Tensor::new(shape(&[2, 2]), DType::F32);
    let b = Tensor::new(shape(&[2, 2]), DType::Q8);
    let s = MatmulSpec::new(&a, &b, &a);
    assert_eq!(s.b_dt(), DType::Q8);
    assert_eq!(s.clone().b_dt(), DType::Q8);
}

#[test]
fn metadata_halves_and_quarters_the_extents() {
    let meta = MatmulMeta::new(9, 10, 11, 1, 2, 3);
    assert_eq!((meta.M, meta.N, meta.K), (9, 10, 11));
    assert_eq!((meta.MD2, meta.ND2, meta.KD2), (4, 5, 5));
    assert_eq!((meta.MD4, meta.ND4, meta.KD4), (2, 2, 2));
    assert_eq!((meta.A_OFFSET, meta.B_OFFSET, meta.C_OFFSET), (1, 2, 3));
}

#[test]
fn single_matrices_are_not_offset() {
    assert_eq!(calculate_offset(1, u32::MAX, u32::MAX, &KernelElement::Vec4), 0);
    assert_eq!(calculate_offset(2, 6, 4, &KernelElement::Vec4), 6);
    assert_eq!(calculate_offset(0, 6, 4, &KernelElement::Scalar), 24);
}

#[test]
fn plan_of_a_stacked_product() {
    let op = Matmul::new(tensor(&[4, 20, 8]), tensor(&[8, 36]));
    assert_eq!(op.name(), "Matmul");
    let plan = op.compile(&tensor(&[4, 20, 36]));
    assert_eq!(plan.kernel_key, "qgemm");
    assert_eq!(plan.kernel_element, KernelElement::Vec4);
    assert_eq!(plan.metadata, MatmulMeta::new(20, 36, 8, 40, 0, 180));
    assert_eq!(plan.workgroup_count, WorkgroupCount::new(3, 2, 4));
    // An offset in elements of four scalars lands on the next matrix.
    assert_eq!(plan.metadata.A_OFFSET as usize * 4, 20 * 8);
    // The workgroups cover all rows and columns.
    assert!(plan.workgroup_count.x * 8 >= 20 && (plan.workgroup_count.x - 1) * 8 < 20);
    assert!(plan.workgroup_count.y * 32 >= 36 && (plan.workgroup_count.y - 1) * 32 < 36);
}

#[test]
fn plans_of_products_that_cannot_be_dispatched() {
    // The distance between two matrices does not fit in 32 bits.
    let side: usize = 1 << 16;
    let op = Matmul::new(tensor(&[2, side, side]), tensor(&[2, side, side]));
    assert!(op.try_compile(&tensor(&[2, side, side])).is_none());
    let op = Matmul::new(tensor(&[1, side, side]), tensor(&[1, side, side]));
    assert!(op.try_compile(&tensor(&[1, side, side])).is_some());
    // No matrix is left.
    let op = Matmul::new(tensor(&[1, 1]), tensor(&[1, 1]));
    assert!(op.try_compile(&tensor(&[1, 1, 1, 1])).is_none());
    // The operands do not stack.
    let op = Matmul::new(tensor(&[2, 3, 5]), tensor(&[4, 5, 7]));
    assert!(op.try_compile(&tensor(&[4, 3, 7])).is_none());
    // The number of elements overflows.
    let op = Matmul::new(tensor(&[usize::MAX, 2]), tensor(&[2, 2]));
    assert!(op.try_compile(&tensor(&[2, 2])).is_none());
}

#[test]
fn rounding_up_and_truncating() {
    assert_eq!(WorkgroupCount::div_ceil(0, 8), 0);
    assert_eq!(WorkgroupCount::div_ceil(1, 8), 1);
    assert_eq!(WorkgroupCount::div_ceil(8, 8), 1);
    assert_eq!(WorkgroupCount::div_ceil(9, 8), 2);
    assert_eq!(WorkgroupCount::div_ceil(usize::MAX, 1), usize::MAX);
    assert_eq!(truncate_u32(7), 7);
    assert_eq!(truncate_u32((1 << 32) + 7), 7);
}

#[test]
fn sources_and_inferred_output() {
    let op = Matmul::new(tensor(&[3, 5]), tensor(&[5, 7])).clone();
    let srcs = op.srcs();
    assert_eq!(srcs.len(), 2);
    assert_eq!(srcs[0].shape(), &shape(&[3, 5]));
    assert_eq!(srcs[1].shape(), &shape(&[5, 7]));
    let view = op.infer_output(&srcs).unwrap();
    assert_eq!(view.shape, shape(&[3, 5]));
    assert_eq!(view.dt, DType::F32);
}

#[test]
fn invariants_of_the_inputs() {
    let f32s = tensor(&[2, 2]);
    let f16s = Tensor::new(shape(&[2, 2]), DType::F16);
    assert_eq!(Matmul::check_invariants(&[&f32s, &f32s]), Ok(()));
    assert_eq!(
        Matmul::check_invariants(&[&f32s]),
        Err(OperationError::Invariant(InvariantError::InputArity { accepted: 2, given: 1 }))
    );
    assert_eq!(
        Matmul::check_invariants(&[&f32s, &f16s]),
        Err(OperationError::Invariant(InvariantError::DTypeMismatch {
            expected: DType::F32,
            actual: DType::F16
        }))
    );
    assert_eq!(Enforcer::check_dtype_match(&[&f16s, &f16s, &f16s]), Ok(DType::F16));
    assert_eq!(
        Enforcer::check_dtype_match(&[&f16s, &f16s, &f32s]),
        Err(InvariantError::DTypeMismatch { expected: DType::F16, actual: DType::F32 })
    );
}

#[test]
fn shapes_pad_slice_and_drain() {
    let mut s = shape(&[3, 5]);
    s.left_pad_to(1, 4);
    assert_eq!(s, shape(&[1, 1, 3, 5]));
    s.left_pad_to(9, 2);
    assert_eq!(s, shape(&[1, 1, 3, 5]));
    assert_eq!(s.numel(), 15);
    assert_eq!(s.slice(1, 3), shape(&[1, 3]));
    assert_eq!(s.drain(3), shape(&[1, 1, 3]));
    assert_eq!(s, shape(&[5]));
    s.insert(0, 2);
    assert_eq!(s, shape(&[2, 5]));
    assert_eq!((s.rank(), s.dim(1)), (2, 5));
    assert_eq!(shape(&[]).numel(), 1);
    assert_eq!(shape(&[usize::MAX, 2, 0]).checked_numel(), None);
    assert_eq!(shape(&[0, usize::MAX, 2]).checked_numel(), Some(0));
    assert_eq!(Shape::from_u32s(&[1, u32::MAX]), shape(&[1, u32::MAX as usize]));
}

#[test]
fn recorded_operations_hold_their_operands() {
    let ops = [
        LazyOp::Empty,
        LazyOp::Unary(tensor(&[2]), UnaryOp::Gelu),
        LazyOp::Binary(tensor(&[2]), tensor(&[2]), BinaryOp::Add),
    ];
    assert!(matches!(ops[0], LazyOp::Empty));
    assert!(matches!(ops[1], LazyOp::Unary(_, UnaryOp::Gelu)));
    assert!(matches!(ops[2], LazyOp::Binary(_, _, BinaryOp::Add)));
}
