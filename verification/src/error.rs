//! The structural errors of the decoder.  Decoding is fail-fast: the first
//! error encountered aborts the whole pass.

use vstd::prelude::*;

verus! {

/// A structural error met while walking a document.
#[derive(Debug, Clone)]
pub enum DeError {
    /// A key outside the recognized schema for the current node kind; carries
    /// the offending key.
    UnknownField(String),
    /// A required name could not be determined: a single-entry record with
    /// zero entries.
    MissingField,
    /// A single-entry record with more than one entry: the name is ambiguous.
    ArityError,
    /// A value was present but of the wrong shape for its attribute key.
    TypeMismatch,
    /// A mapping or sequence was required and something else was found.
    WrongShape,
}

/// The view of a [`DeError`].
pub enum ErrorView {
    UnknownField(Seq<char>),
    MissingField,
    ArityError,
    TypeMismatch,
    WrongShape,
}

impl View for DeError {
    type V = ErrorView;

    open spec fn view(&self) -> ErrorView {
        match self {
            DeError::UnknownField(k) => ErrorView::UnknownField(k.view()),
            DeError::MissingField => ErrorView::MissingField,
            DeError::ArityError => ErrorView::ArityError,
            DeError::TypeMismatch => ErrorView::TypeMismatch,
            DeError::WrongShape => ErrorView::WrongShape,
        }
    }
}

} // verus!
