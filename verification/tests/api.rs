use glados::api::{response_code, Action, Outcome};
use glados::error::Error;

#[test]
fn response_code_on_success() {
    assert_eq!(response_code(Action::List, Outcome::Done), 200);
    assert_eq!(response_code(Action::Create, Outcome::Done), 201);
    assert_eq!(response_code(Action::Fetch, Outcome::Done), 200);
    assert_eq!(response_code(Action::Update, Outcome::Done), 200);
    assert_eq!(response_code(Action::Delete, Outcome::Done), 204);
    assert_eq!(response_code(Action::Status, Outcome::Done), 200);
}

#[test]
fn response_code_on_failure() {
    assert_eq!(response_code(Action::Fetch, Outcome::Refused(Error::NotFound)), 404);
    assert_eq!(response_code(Action::Status, Outcome::Refused(Error::NotFound)), 404);
    assert_eq!(response_code(Action::Create, Outcome::Refused(Error::Conflict)), 409);
    assert_eq!(response_code(Action::Delete, Outcome::Refused(Error::ReferentialConflict)), 409);
    assert_eq!(response_code(Action::Update, Outcome::Refused(Error::ValidationError)), 400);
}

#[test]
fn response_code_on_storage_failure() {
    for action in [Action::Create, Action::Update, Action::Delete] {
        assert_eq!(response_code(action, Outcome::StorageFailed), 500);
    }
}
