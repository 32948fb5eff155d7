//! What an operation asks of its inputs before it runs.

use crate::tensor::{DType, Tensor};
use vstd::prelude::*;

verus! {

/// An input that an operation does not accept.
#[derive(Debug, Clone, Copy, PartialEq, Eq, Structural)]
pub enum InvariantError {
    /// The operation was given another number of inputs than it takes.
    InputArity { accepted: usize, given: usize },
    /// An input's element type is not that of the first input.
    DTypeMismatch { expected: DType, actual: DType },
}

/// Why an operation cannot be carried out.
#[derive(Debug, Clone, Copy, PartialEq, Eq, Structural)]
pub enum OperationError {
    Invariant(InvariantError),
}

/// Checks shared by all operations.
pub struct Enforcer;

/// The position of the first input whose element type is not that of input 0, or the number of
/// inputs if there is none.
pub open spec fn is_first_dtype_mismatch(srcs: Seq<&Tensor>, i: int) -> bool {
    &&& 0 < i <= srcs.len()
    &&& forall|j: int|
        0 < j < i ==> (#[trigger] srcs[j]).storage.dt == srcs[0].storage.dt
    &&& i < srcs.len() ==> srcs[i].storage.dt != srcs[0].storage.dt
}

impl Enforcer {
    /// Accepts exactly `expected` inputs.
    pub fn check_input_arity(srcs: &[&Tensor], expected: usize) -> (res: Result<
        (),
        InvariantError,
    >)
        ensures
            res == (if srcs@.len() == expected {
                Ok::<(), InvariantError>(())
            } else {
                Err(InvariantError::InputArity { accepted: expected, given: srcs@.len() as usize })
            }),
    {
        if srcs.len() == expected {
            Ok(())
        } else {
            Err(InvariantError::InputArity { accepted: expected, given: srcs.len() })
        }
    }

    /// Accepts inputs that all have the element type of the first, which it returns. Otherwise
    /// names the type of the first input that differs.
    pub fn check_dtype_match(srcs: &[&Tensor]) -> (res: Result<DType, InvariantError>)
        requires
            srcs@.len() > 0,
        ensures
            match res {
                Ok(dt) => forall|j: int|
                    0 <= j < srcs@.len() ==> (#[trigger] srcs@[j]).storage.dt == dt,
                Err(e) => exists|i: int|
                    {
                        &&& 0 < i < srcs@.len()
                        &&& (#[trigger] srcs@[i]).storage.dt != srcs@[0].storage.dt
                        &&& forall|j: int|
                            0 <= j < i ==> (#[trigger] srcs@[j]).storage.dt == srcs@[0].storage.dt
                        &&& e == InvariantError::DTypeMismatch {
                            expected: srcs@[0].storage.dt,
                            actual: srcs@[i].storage.dt,
                        }
                    },
            },
            match res {
                Ok(dt) => {
                    &&& dt == srcs@[0].storage.dt
                    &&& is_first_dtype_mismatch(srcs@, srcs@.len() as int)
                },
                Err(e) => exists|i: int|
                    {
                        &&& 0 < i < srcs@.len()
                        &&& #[trigger] is_first_dtype_mismatch(srcs@, i)
                        &&& e == InvariantError::DTypeMismatch {
                            expected: srcs@[0].storage.dt,
                            actual: srcs@[i].storage.dt,
                        }
                    },
            },
    {
        let expected = srcs[0].dt();
        let mut i: usize = 1;
        while i < srcs.len()
            invariant
                0 < i <= srcs@.len(),
                expected == srcs@[0].storage.dt,
                forall|j: int|
                    0 < j < i ==> (#[trigger] srcs@[j]).storage.dt == srcs@[0].storage.dt,
            decreases srcs@.len() - i,
        {
            let actual = srcs[i].dt();
            if actual != expected {
                assert(is_first_dtype_mismatch(srcs@, i as int));
                return Err(InvariantError::DTypeMismatch { expected, actual });
            }
            i = i + 1;
        }
        Ok(expected)
    }
}

} // verus!
