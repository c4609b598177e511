//! Errors answered to HTTP clients and the status each one carries.
use vstd::prelude::*;

verus! {

/// A JSON message body: `{"message": ...}`.
pub struct HttpMessage {
    pub message: String,
}

/// An error answered to a client, with the text shown to it.
#[derive(Clone, Debug, PartialEq, Eq)]
pub enum Error {
    InternalServiceError,
    ServiceUnavailable,
    BadRequest(String),
    Forbidden(String),
}

/// The text of an unavailable-service answer.
pub open spec fn service_unavailable_text() -> Seq<char> {
    "Temporarily Unavailable."@
}

/// The text of an internal-error answer.
pub open spec fn internal_server_text() -> Seq<char> {
    "Internal Server Error."@
}

impl Error {
    /// The text shown to the client for this error.
    pub open spec fn text(&self) -> Seq<char> {
        match self {
            Error::Forbidden(s) => s@,
            Error::BadRequest(s) => s@,
            Error::ServiceUnavailable => service_unavailable_text(),
            Error::InternalServiceError => internal_server_text(),
        }
    }

    /// The HTTP status code of this error.
    pub open spec fn status(&self) -> u16 {
        match self {
            Error::Forbidden(_) => 403,
            Error::BadRequest(_) => 400,
            Error::ServiceUnavailable => 503,
            Error::InternalServiceError => 500,
        }
    }

    /// The text shown to the client, as the error's display renders it.
    pub fn message(&self) -> (s: String)
        ensures
            s@ == self.text(),
    {
        match self {
            Error::Forbidden(s) => s.clone(),
            Error::BadRequest(s) => s.clone(),
            Error::ServiceUnavailable => "Temporarily Unavailable.".to_owned(),
            Error::InternalServiceError => "Internal Server Error.".to_owned(),
        }
    }

    /// The status code of the HTTP response that carries this error.
    pub fn status_code(&self) -> (code: u16)
        ensures
            code == self.status(),
    {
        match self {
            Error::Forbidden(_) => 403,
            Error::BadRequest(_) => 400,
            Error::ServiceUnavailable => 503,
            Error::InternalServiceError => 500,
        }
    }
}

} // verus!
