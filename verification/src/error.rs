//! The errors that the library reports.
use vstd::prelude::*;

verus! {

/// What went wrong, in broad terms.
#[derive(Debug, Clone, Copy, PartialEq, Eq, Structural)]
pub enum ErrorKind {
    NotFound,
    PermissionDenied,
    InvalidInput,
    InvalidData,
    UnexpectedEof,
    Other,
}

/// An error: its kind and a message for people.
#[derive(Debug, PartialEq, Eq)]
pub struct Error {
    pub kind: ErrorKind,
    pub message: String,
}

/// The model of an error.
pub struct Failure {
    pub kind: ErrorKind,
    pub message: Seq<char>,
}

impl View for Error {
    type V = Failure;

    open spec fn view(&self) -> Failure {
        Failure { kind: self.kind, message: self.message@ }
    }
}

/// The failure with the given kind and message.
pub open spec fn failure(kind: ErrorKind, message: Seq<char>) -> Failure {
    Failure { kind, message }
}

pub open spec fn bad_input(message: Seq<char>) -> Failure {
    failure(ErrorKind::InvalidInput, message)
}

pub open spec fn bad_data(message: Seq<char>) -> Failure {
    failure(ErrorKind::InvalidData, message)
}

pub open spec fn not_found(message: Seq<char>) -> Failure {
    failure(ErrorKind::NotFound, message)
}

impl Error {
    pub fn new(kind: ErrorKind, message: String) -> (r: Self)
        ensures
            r@ == failure(kind, message@),
    {
        Error { kind, message }
    }

    pub fn invalid_input(message: String) -> (r: Self)
        ensures
            r@ == bad_input(message@),
    {
        Error { kind: ErrorKind::InvalidInput, message }
    }

    pub fn invalid_data(message: String) -> (r: Self)
        ensures
            r@ == bad_data(message@),
    {
        Error { kind: ErrorKind::InvalidData, message }
    }

    pub fn missing(message: String) -> (r: Self)
        ensures
            r@ == not_found(message@),
    {
        Error { kind: ErrorKind::NotFound, message }
    }

    pub fn kind(&self) -> (r: ErrorKind)
        ensures
            r == self.kind,
    {
        self.kind
    }
}

/// The model of the outcome of a check.
pub open spec fn outcome(r: Result<(), Error>) -> Result<(), Failure> {
    match r {
        Ok(()) => Ok(()),
        Err(e) => Err(e@),
    }
}

/// The model of an outcome that carries a string.
pub open spec fn text_outcome(r: Result<String, Error>) -> Result<Seq<char>, Failure> {
    match r {
        Ok(s) => Ok(s@),
        Err(e) => Err(e@),
    }
}

} // verus!
