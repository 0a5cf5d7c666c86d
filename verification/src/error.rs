//! Errors that the library's checks report, each with its message, and how
//! the service answers a client with one.
use vstd::prelude::*;
use vstd::string::StringExecFns;

use crate::text::owned;

verus! {

/// A refusal, as the service reports it to a client.
#[derive(Debug, Clone, PartialEq, Eq)]
pub enum ServiceError {
    /// The request carries no valid credentials.
    Unauthorized,
    /// The named resource does not exist for the owner.
    NotFound(String),
    /// The request is malformed.
    BadRequest(String),
    /// The request conflicts with the stored state.
    Conflict(String),
    /// An upstream provider misbehaved.
    Upstream(String),
    /// The service is misconfigured.
    Config(String),
}

/// A bad request whose message is `msg`.
pub open spec fn is_bad_request(e: ServiceError, msg: Seq<char>) -> bool {
    e matches ServiceError::BadRequest(m) && m@ == msg
}

/// A conflict whose message is `msg`.
pub open spec fn is_conflict(e: ServiceError, msg: Seq<char>) -> bool {
    e matches ServiceError::Conflict(m) && m@ == msg
}

/// A bad request with the given message.
pub fn bad_request(msg: &str) -> (e: ServiceError)
    ensures
        is_bad_request(e, msg@),
{
    ServiceError::BadRequest(msg.to_owned())
}

/// A conflict with the given message.
pub fn conflict(msg: &str) -> (e: ServiceError)
    ensures
        is_conflict(e, msg@),
{
    ServiceError::Conflict(msg.to_owned())
}

/// The text of an error: its kind and its message.
pub open spec fn error_text(e: ServiceError) -> Seq<char> {
    match e {
        ServiceError::Unauthorized => "unauthorized"@,
        ServiceError::NotFound(m) => "not found: "@ + m@,
        ServiceError::BadRequest(m) => "invalid request: "@ + m@,
        ServiceError::Conflict(m) => "conflict: "@ + m@,
        ServiceError::Upstream(m) => "upstream error: "@ + m@,
        ServiceError::Config(m) => "configuration error: "@ + m@,
    }
}

/// The HTTP status with which the service answers an error.
pub open spec fn error_status(e: ServiceError) -> u16 {
    match e {
        ServiceError::Unauthorized => 401,
        ServiceError::NotFound(_) => 404,
        ServiceError::BadRequest(_) => 400,
        ServiceError::Conflict(_) => 409,
        ServiceError::Upstream(_) => 500,
        ServiceError::Config(_) => 500,
    }
}

impl ServiceError {
    /// The text of the error (see `error_text`).
    pub fn describe(&self) -> (s: String)
        ensures
            s@ == error_text(*self),
    {
        let (prefix, m) = match self {
            ServiceError::Unauthorized => return owned("unauthorized"),
            ServiceError::NotFound(m) => ("not found: ", m),
            ServiceError::BadRequest(m) => ("invalid request: ", m),
            ServiceError::Conflict(m) => ("conflict: ", m),
            ServiceError::Upstream(m) => ("upstream error: ", m),
            ServiceError::Config(m) => ("configuration error: ", m),
        };
        let mut s = owned(prefix);
        s.append(m.as_str());
        s
    }

    /// The HTTP status of the answer.
    pub fn status_code(&self) -> (c: u16)
        ensures
            c == error_status(*self),
    {
        match self {
            ServiceError::Unauthorized => 401,
            ServiceError::NotFound(_) => 404,
            ServiceError::BadRequest(_) => 400,
            ServiceError::Conflict(_) => 409,
            ServiceError::Upstream(_) => 500,
            ServiceError::Config(_) => 500,
        }
    }

    /// The machine-readable code of the answer.
    pub fn code(&self) -> (c: &'static str)
        ensures
            c@ == match *self {
                ServiceError::Unauthorized => "unauthorized"@,
                ServiceError::NotFound(_) => "not_found"@,
                ServiceError::BadRequest(_) => "bad_request"@,
                ServiceError::Conflict(_) => "conflict"@,
                _ => "internal_error"@,
            },
    {
        match self {
            ServiceError::Unauthorized => "unauthorized",
            ServiceError::NotFound(_) => "not_found",
            ServiceError::BadRequest(_) => "bad_request",
            ServiceError::Conflict(_) => "conflict",
            _ => "internal_error",
        }
    }

    /// The message shown to the client: the error's text, except that a
    /// server-side failure is not described.
    pub fn client_message(&self) -> (s: String)
        ensures
            error_status(*self) >= 500 ==> s@ == "internal server error"@,
            error_status(*self) < 500 ==> s@ == error_text(*self),
    {
        if self.status_code() >= 500 {
            owned("internal server error")
        } else {
            self.describe()
        }
    }
}

} // verus!
