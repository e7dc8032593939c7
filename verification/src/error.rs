//! What can go wrong while compiling or running a script.

use vstd::prelude::*;
use crate::text::Token;

verus! {

/// A compile-time or run-time failure.
#[derive(Debug)]
pub enum Error {
    /// The scanner met a character or literal that is no token.
    Scanner,
    UnexpectedToken(Token),
    /// An assignment to a global binding.
    Immutable(Token),
    NoMainFunction,
    InvalidOperands,
    IndexOutOfBound,
    DivisionByZero,
    CallingNonFunction,
    UnknownIdentifier(Token),
    /// A name declared twice in one scope.
    MultipleDefinition(String),
    /// A branch over more code than a 16-bit offset spans.
    BranchTooFar,
    /// The code or the stack is not what compiled code makes: an unknown or
    /// cut-off instruction, a missing operand on the stack, or a slot or
    /// constant that does not exist.
    InvalidBytecode,
}

/// An `Error` as a mathematical value. `Stuck` is the view of no `Error`:
/// it marks, in the rules of the grammar, the branches that no run of the
/// compiler takes.
pub enum ErrorView {
    Scanner,
    UnexpectedToken(Token),
    Immutable(Token),
    NoMainFunction,
    InvalidOperands,
    IndexOutOfBound,
    DivisionByZero,
    CallingNonFunction,
    UnknownIdentifier(Token),
    MultipleDefinition(Seq<char>),
    BranchTooFar,
    InvalidBytecode,
    Stuck,
}

impl View for Error {
    type V = ErrorView;

    open spec fn view(&self) -> ErrorView {
        match self {
            Error::Scanner => ErrorView::Scanner,
            Error::UnexpectedToken(t) => ErrorView::UnexpectedToken(*t),
            Error::Immutable(t) => ErrorView::Immutable(*t),
            Error::NoMainFunction => ErrorView::NoMainFunction,
            Error::InvalidOperands => ErrorView::InvalidOperands,
            Error::IndexOutOfBound => ErrorView::IndexOutOfBound,
            Error::DivisionByZero => ErrorView::DivisionByZero,
            Error::CallingNonFunction => ErrorView::CallingNonFunction,
            Error::UnknownIdentifier(t) => ErrorView::UnknownIdentifier(*t),
            Error::MultipleDefinition(name) => ErrorView::MultipleDefinition(name@),
            Error::BranchTooFar => ErrorView::BranchTooFar,
            Error::InvalidBytecode => ErrorView::InvalidBytecode,
        }
    }
}

impl Clone for Error {
    fn clone(&self) -> (r: Error)
        ensures
            r@ == self@,
    {
        match self {
            Error::Scanner => Error::Scanner,
            Error::UnexpectedToken(t) => Error::UnexpectedToken(*t),
            Error::Immutable(t) => Error::Immutable(*t),
            Error::NoMainFunction => Error::NoMainFunction,
            Error::InvalidOperands => Error::InvalidOperands,
            Error::IndexOutOfBound => Error::IndexOutOfBound,
            Error::DivisionByZero => Error::DivisionByZero,
            Error::CallingNonFunction => Error::CallingNonFunction,
            Error::UnknownIdentifier(t) => Error::UnknownIdentifier(*t),
            Error::MultipleDefinition(name) => Error::MultipleDefinition(name.clone()),
            Error::BranchTooFar => Error::BranchTooFar,
            Error::InvalidBytecode => Error::InvalidBytecode,
        }
    }
}

/// No error has `Stuck` as its view.
pub proof fn lemma_never_stuck(e: Error)
    ensures
        e@ != ErrorView::Stuck,
{
}

/// The view of an optional error.
pub open spec fn error_view(error: Option<Error>) -> Option<ErrorView> {
    match error {
        Some(e) => Some(e@),
        None => None,
    }
}

/// A result with its error taken as a mathematical value.
pub open spec fn result_view<T>(result: Result<T, Error>) -> Result<T, ErrorView> {
    match result {
        Ok(v) => Ok(v),
        Err(e) => Err(e@),
    }
}

} // verus!
