//! The HTTP face of the registry: which status answers which operation.

use vstd::prelude::*;
use crate::error::{status_of, Error};

verus! {

/// What a request asks of one kind of resource.
#[derive(Clone, Copy, Debug, PartialEq, Eq, Structural)]
pub enum Action {
    /// `GET` on a collection.
    List,
    /// `POST` on a collection.
    Create,
    /// `GET` on one record.
    Fetch,
    /// `PUT` on one record.
    Update,
    /// `DELETE` on one record.
    Delete,
    /// `GET` on a server's status.
    Status,
}

/// How serving a request ended.
#[derive(Clone, Copy, Debug, PartialEq, Eq, Structural)]
pub enum Outcome {
    /// The registry did what was asked. A status check that found the
    /// server offline, or could not tell, ends so too.
    Done,
    /// The registry refused the request.
    Refused(Error),
    /// The change could not be written to durable storage.
    StorageFailed,
}

/// The status that answers `action` when it succeeds: 201 for a record
/// created, 204 for one deleted, 200 otherwise.
pub open spec fn success_status(action: Action) -> u16 {
    match action {
        Action::Create => 201,
        Action::Delete => 204,
        _ => 200,
    }
}

/// The status that answers `action`, given how serving it ended.
pub open spec fn reply_status(action: Action, outcome: Outcome) -> u16 {
    match outcome {
        Outcome::Done => success_status(action),
        Outcome::Refused(e) => status_of(e),
        Outcome::StorageFailed => 500,
    }
}

/// The HTTP status code of the response to `action`.
pub fn response_code(action: Action, outcome: Outcome) -> (code: u16)
    ensures
        code == reply_status(action, outcome),
{
    match outcome {
        Outcome::Refused(e) => e.status_code(),
        Outcome::StorageFailed => 500,
        Outcome::Done => match action {
            Action::Create => 201,
            Action::Delete => 204,
            _ => 200,
        },
    }
}

} // verus!
