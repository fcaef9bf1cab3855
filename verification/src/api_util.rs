//! What the answers of the state actor become at the HTTP interface.
use crate::service::ServiceAction;
use crate::state_actor::{write_error_text, ServiceNotFoundError, WriteError};
use vstd::prelude::*;
use vstd::string::*;

verus! {

/// HTTP status code: the request succeeded and the answer follows.
pub const OK: u16 = 200;

/// HTTP status code: the request succeeded and something was created.
pub const CREATED: u16 = 201;

/// HTTP status code: the request succeeded and there is nothing to answer.
pub const NO_CONTENT: u16 = 204;

/// HTTP status code: what the request names does not exist.
pub const NOT_FOUND: u16 = 404;

/// HTTP status code: the request conflicts with what exists.
pub const CONFLICT: u16 = 409;

/// An error of the state actor, of either kind.
#[derive(Debug, Clone, Copy, PartialEq, Eq, Structural)]
pub enum ApiError {
    WriteError(WriteError),
    ServiceNotFoundError,
}

impl From<WriteError> for ApiError {
    fn from(value: WriteError) -> (r: Self) {
        Self::WriteError(value)
    }
}

impl vstd::std_specs::convert::FromSpecImpl<WriteError> for ApiError {
    open spec fn obeys_from_spec() -> bool {
        true
    }

    open spec fn from_spec(value: WriteError) -> Self {
        ApiError::WriteError(value)
    }
}

impl From<ServiceNotFoundError> for ApiError {
    fn from(value: ServiceNotFoundError) -> (r: Self) {
        Self::ServiceNotFoundError
    }
}

impl vstd::std_specs::convert::FromSpecImpl<ServiceNotFoundError> for ApiError {
    open spec fn obeys_from_spec() -> bool {
        true
    }

    open spec fn from_spec(value: ServiceNotFoundError) -> Self {
        ApiError::ServiceNotFoundError
    }
}

/// The status code that answers an error: a conflict for a name that is
/// taken, not found for a service that is not watched.
pub open spec fn error_code(e: ApiError) -> u16 {
    match e {
        ApiError::WriteError(WriteError::NameConflict) => CONFLICT,
        ApiError::WriteError(WriteError::NotFound) => NOT_FOUND,
        ApiError::ServiceNotFoundError => NOT_FOUND,
    }
}

/// An error in words.
pub open spec fn error_text(e: ApiError) -> Seq<char> {
    match e {
        ApiError::WriteError(e) => write_error_text(e),
        ApiError::ServiceNotFoundError => "Service not found"@,
    }
}

/// The status code that answers an accepted write: created for a new
/// service, no content for a deletion or a new status.
pub open spec fn accepted_code(action: ServiceAction) -> u16 {
    match action {
        ServiceAction::CreateService(_) => CREATED,
        ServiceAction::DeleteService => NO_CONTENT,
        ServiceAction::AddStatus(_) => NO_CONTENT,
    }
}

impl ApiError {
    /// The error in words.
    pub fn to_string(&self) -> (s: String)
        ensures
            s@ == error_text(*self),
    {
        match self {
            Self::WriteError(e) => e.to_string(),
            Self::ServiceNotFoundError => ServiceNotFoundError.to_string(),
        }
    }

    /// The response that answers the error: its status code and its body.
    pub fn into_response(self) -> (r: (u16, String))
        ensures
            r.0 == error_code(self),
            r.1@ == error_text(self),
    {
        match self {
            Self::WriteError(WriteError::NameConflict) => (
                CONFLICT,
                WriteError::NameConflict.to_string(),
            ),
            Self::ServiceNotFoundError | Self::WriteError(WriteError::NotFound) => (
                NOT_FOUND,
                ServiceNotFoundError.to_string(),
            ),
        }
    }
}

/// The response to a write: status code and body.
pub fn put_action_response(action: &ServiceAction, result: Result<(), WriteError>) -> (r: (
    u16,
    String,
))
    ensures
        match result {
            Ok(_) => r.0 == accepted_code(*action) && r.1@ == "Action executed"@,
            Err(e) => r.0 == error_code(ApiError::WriteError(e)) && r.1@ == write_error_text(e),
        },
{
    match result {
        Ok(_) => {
            let code = match action {
                ServiceAction::CreateService(_) => CREATED,
                ServiceAction::DeleteService => NO_CONTENT,
                ServiceAction::AddStatus(_) => NO_CONTENT,
            };
            (code, String::from_str("Action executed"))
        },
        Err(e) => match e {
            WriteError::NameConflict => (CONFLICT, e.to_string()),
            WriteError::NotFound => (NOT_FOUND, e.to_string()),
        },
    }
}

/// The response to a read of a service that is not watched: status code
/// and body.
pub fn not_found_response(e: ServiceNotFoundError) -> (r: (u16, String))
    ensures
        r.0 == NOT_FOUND,
        r.1@ == "Not found"@,
{
    (NOT_FOUND, String::from_str("Not found"))
}

} // verus!
