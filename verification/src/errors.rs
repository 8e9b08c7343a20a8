//! The errors that the store reports.

use vstd::prelude::*;

verus! {

/// Why an operation on the store was refused.
#[derive(Debug, PartialEq, Eq)]
pub enum AtomicError {
    /// A subject or a property is absent. Holds what was looked for.
    NotFound(String),
    /// The hierarchy or the signer check refused the agent. Holds the
    /// subject that was asked for.
    Unauthorized(String),
    /// The signature does not verify against the signer's public key.
    InvalidSignature,
    /// The commit names a head that is not the current one.
    Conflict,
    /// A value does not fit its datatype, a required property is missing,
    /// or the hierarchy is cyclic or too deep. Holds the offending item.
    Validation(String),
    /// An index beyond the end of an array.
    IndexOutOfBounds { index: u32, len: usize },
    /// A path token that cannot follow the one before it.
    InvalidPath,
    /// An operation that the value at hand does not offer.
    Unsupported,
}

/// An error, with texts as sequences of characters.
pub enum ErrorView {
    NotFound(Seq<char>),
    Unauthorized(Seq<char>),
    InvalidSignature,
    Conflict,
    Validation(Seq<char>),
    IndexOutOfBounds { index: u32, len: usize },
    InvalidPath,
    Unsupported,
}

impl View for AtomicError {
    type V = ErrorView;

    open spec fn view(&self) -> ErrorView {
        match self {
            AtomicError::NotFound(s) => ErrorView::NotFound(s@),
            AtomicError::Unauthorized(s) => ErrorView::Unauthorized(s@),
            AtomicError::InvalidSignature => ErrorView::InvalidSignature,
            AtomicError::Conflict => ErrorView::Conflict,
            AtomicError::Validation(s) => ErrorView::Validation(s@),
            AtomicError::IndexOutOfBounds { index, len } => ErrorView::IndexOutOfBounds {
                index: *index,
                len: *len,
            },
            AtomicError::InvalidPath => ErrorView::InvalidPath,
            AtomicError::Unsupported => ErrorView::Unsupported,
        }
    }
}

impl Clone for AtomicError {
    fn clone(&self) -> (r: Self)
        ensures
            r@ == self@,
    {
        match self {
            AtomicError::NotFound(s) => AtomicError::NotFound(s.clone()),
            AtomicError::Unauthorized(s) => AtomicError::Unauthorized(s.clone()),
            AtomicError::InvalidSignature => AtomicError::InvalidSignature,
            AtomicError::Conflict => AtomicError::Conflict,
            AtomicError::Validation(s) => AtomicError::Validation(s.clone()),
            AtomicError::IndexOutOfBounds { index, len } => AtomicError::IndexOutOfBounds {
                index: *index,
                len: *len,
            },
            AtomicError::InvalidPath => AtomicError::InvalidPath,
            AtomicError::Unsupported => AtomicError::Unsupported,
        }
    }
}

} // verus!
