//! Errors of the registry and the HTTP status each one is reported with.

use vstd::prelude::*;

verus! {

/// Why an operation on the registry was refused.
#[derive(Clone, Copy, Debug, PartialEq, Eq, Structural)]
pub enum Error {
    /// No record has the identifier.
    NotFound,
    /// The identifier, or a value that must be unique, is already taken.
    Conflict,
    /// The record cannot be deleted while other records refer to it.
    ReferentialConflict,
    /// A field of the request is malformed.
    ValidationError,
}

/// The HTTP status that reports `e`.
pub open spec fn status_of(e: Error) -> u16 {
    match e {
        Error::NotFound => 404,
        Error::Conflict => 409,
        Error::ReferentialConflict => 409,
        Error::ValidationError => 400,
    }
}

impl Error {
    /// The HTTP status code that the error is reported with.
    pub fn status_code(&self) -> (code: u16)
        ensures
            code == status_of(*self),
    {
        match self {
            Error::NotFound => 404,
            Error::Conflict => 409,
            Error::ReferentialConflict => 409,
            Error::ValidationError => 400,
        }
    }

    /// A short name of the error, for messages.
    pub fn describe(&self) -> (text: &'static str)
        ensures
            text@ == (match *self {
                Error::NotFound => "not found"@,
                Error::Conflict => "conflict"@,
                Error::ReferentialConflict => "referential conflict"@,
                Error::ValidationError => "validation error"@,
            }),
    {
        match self {
            Error::NotFound => "not found",
            Error::Conflict => "conflict",
            Error::ReferentialConflict => "referential conflict",
            Error::ValidationError => "validation error",
        }
    }
}

} // verus!
