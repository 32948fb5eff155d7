//! Why a GGML file cannot be loaded.

use vstd::prelude::*;

verus! {

/// Why a GGML file cannot be loaded.
#[derive(Debug)]
pub enum LoadError {
    /// The file starts with a magic number and version that are not supported.
    InvalidFormat(u32),
    /// A tensor's data is of a type that is not supported.
    UnsupportedDType { name: String, dtype: u32 },
    /// A count is not in the range that it must be in.
    InvalidInteger,
    /// A tensor's name is not UTF-8.
    InvalidUtf8,
    /// The file ends before what is to be read from it.
    UnexpectedEof,
}

/// What a `LoadError` says, with text as a sequence of characters.
pub enum LoadFailure {
    InvalidFormat(u32),
    UnsupportedDType { name: Seq<char>, dtype: u32 },
    InvalidInteger,
    InvalidUtf8,
    UnexpectedEof,
}

impl View for LoadError {
    type V = LoadFailure;

    open spec fn view(&self) -> LoadFailure {
        match *self {
            LoadError::InvalidFormat(magic) => LoadFailure::InvalidFormat(magic),
            LoadError::UnsupportedDType { name, dtype } => LoadFailure::UnsupportedDType {
                name: name@,
                dtype,
            },
            LoadError::InvalidInteger => LoadFailure::InvalidInteger,
            LoadError::InvalidUtf8 => LoadFailure::InvalidUtf8,
            LoadError::UnexpectedEof => LoadFailure::UnexpectedEof,
        }
    }
}

/// What an error says tells which error it is, and repeats its number and its text.
pub proof fn law_failure_tells_error(error: LoadError)
    ensures
        error is InvalidFormat <==> error@ is InvalidFormat,
        error is UnsupportedDType <==> error@ is UnsupportedDType,
        error is InvalidInteger <==> error@ is InvalidInteger,
        error is InvalidUtf8 <==> error@ is InvalidUtf8,
        error is UnexpectedEof <==> error@ is UnexpectedEof,
        error matches LoadError::InvalidFormat(magic) ==> error@->InvalidFormat_0 == magic,
        error matches LoadError::UnsupportedDType { name, dtype } ==> error@->UnsupportedDType_name
            == name@ && error@->UnsupportedDType_dtype == dtype,
{
}

} // verus!
