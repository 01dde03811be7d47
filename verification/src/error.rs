//! The reasons for which a codec string is refused.

use vstd::prelude::*;

verus! {

/// Why a codec string could not be read.
#[derive(Debug, PartialEq, Eq)]
pub enum CodecError {
    /// The given component of the codec string was not valid.
    InvalidComponent(String),
    /// A `.` was expected, but the text held here was found instead.
    ExpectedHierarchySeparator(String),
    /// The given text did not have the expected number of characters.
    UnexpectedLength { expected: usize, got: String },
}

/// A `CodecError` with its texts as character sequences.
pub enum ErrorView {
    /// The component that was not valid.
    InvalidComponent(Seq<char>),
    /// The text found where a `.` was expected.
    ExpectedHierarchySeparator(Seq<char>),
    /// The expected number of characters, and the text that has another.
    UnexpectedLength { expected: usize, got: Seq<char> },
}

impl View for CodecError {
    type V = ErrorView;

    open spec fn view(&self) -> ErrorView {
        match self {
            CodecError::InvalidComponent(text) => ErrorView::InvalidComponent(text@),
            CodecError::ExpectedHierarchySeparator(text) => ErrorView::ExpectedHierarchySeparator(
                text@,
            ),
            CodecError::UnexpectedLength { expected, got } => ErrorView::UnexpectedLength {
                expected: *expected,
                got: got@,
            },
        }
    }
}

impl Clone for CodecError {
    fn clone(&self) -> (r: CodecError)
        ensures
            r@ == self@,
    {
        match self {
            CodecError::InvalidComponent(text) => CodecError::InvalidComponent(text.clone()),
            CodecError::ExpectedHierarchySeparator(text) => CodecError::ExpectedHierarchySeparator(
                text.clone(),
            ),
            CodecError::UnexpectedLength { expected, got } => CodecError::UnexpectedLength {
                expected: *expected,
                got: got.clone(),
            },
        }
    }
}

/// The view of an outcome: the view of the value, or of the error.
pub open spec fn result_view<T: View, E: View>(r: Result<T, E>) -> Result<T::V, E::V> {
    match r {
        Ok(value) => Ok(value@),
        Err(error) => Err(error@),
    }
}

} // verus!
