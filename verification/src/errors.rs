//! What a failed request is answered with: a status code and a message, in
//! one shape for every failure.

use vstd::prelude::*;

verus! {

/// The status codes of failed requests.
#[derive(Clone, Copy, Debug, PartialEq, Eq, Structural)]
pub enum ErrorStatusCode {
    LoginFailed,
    Unauthenticated,
    DatabaseError,
    InternalServerError,
    SessionError,
}

impl ErrorStatusCode {
    /// The number that stands for this status on the wire.
    pub open spec fn number(&self) -> u16 {
        match self {
            ErrorStatusCode::LoginFailed => 100,
            ErrorStatusCode::Unauthenticated => 101,
            ErrorStatusCode::DatabaseError => 500,
            ErrorStatusCode::InternalServerError => 501,
            ErrorStatusCode::SessionError => 502,
        }
    }

    /// The number that stands for this status on the wire.
    pub fn code(&self) -> (n: u16)
        ensures
            n == self.number(),
    {
        match self {
            ErrorStatusCode::LoginFailed => 100,
            ErrorStatusCode::Unauthenticated => 101,
            ErrorStatusCode::DatabaseError => 500,
            ErrorStatusCode::InternalServerError => 501,
            ErrorStatusCode::SessionError => 502,
        }
    }
}

/// The body of the answer to a failed request.
#[derive(Debug, PartialEq, Eq)]
pub struct ErrorResponse {
    pub success: bool,
    pub status_code: ErrorStatusCode,
    pub message: String,
}

impl ErrorResponse {
    /// The answer with this status and message; `success` is `false`.
    pub fn new(status_code: ErrorStatusCode, message: String) -> (r: ErrorResponse)
        ensures
            !r.success,
            r.status_code == status_code,
            r.message == message,
    {
        ErrorResponse { success: false, status_code, message }
    }
}

/// Which of the two session operations failed.
#[derive(Clone, Copy, Debug, PartialEq, Eq, Structural)]
pub enum SessionErrors {
    InsertError,
    GetError,
}

/// The ways in which a request can fail.
#[derive(Clone, Copy, Debug, PartialEq, Eq, Structural)]
pub enum Errors {
    LoginFailed,
    Unauthenticated,
    DatabaseError,
    HashError,
    SessionError(SessionErrors),
}

impl Errors {
    /// The status code that this failure is answered with.
    pub open spec fn status(&self) -> ErrorStatusCode {
        match self {
            Errors::DatabaseError => ErrorStatusCode::DatabaseError,
            Errors::HashError => ErrorStatusCode::InternalServerError,
            Errors::SessionError(_) => ErrorStatusCode::SessionError,
            Errors::LoginFailed => ErrorStatusCode::LoginFailed,
            Errors::Unauthenticated => ErrorStatusCode::Unauthenticated,
        }
    }

    /// The message that this failure is answered with. It names the kind of
    /// failure and nothing of its cause.
    pub open spec fn text(&self) -> Seq<char> {
        match self {
            Errors::DatabaseError => "Database error occurred"@,
            Errors::HashError => "Internal server error occurred"@,
            Errors::SessionError(_) => "Error while accessing session"@,
            Errors::LoginFailed => "Invalid username / password"@,
            Errors::Unauthenticated => "Unauthenticated"@,
        }
    }

    /// The message that this failure is answered with.
    pub fn message(&self) -> (m: String)
        ensures
            m@ == self.text(),
    {
        match self {
            Errors::DatabaseError => "Database error occurred".to_owned(),
            Errors::HashError => "Internal server error occurred".to_owned(),
            Errors::SessionError(_) => "Error while accessing session".to_owned(),
            Errors::LoginFailed => "Invalid username / password".to_owned(),
            Errors::Unauthenticated => "Unauthenticated".to_owned(),
        }
    }

    /// The body of the answer to a request that failed in this way.
    pub fn error_response(&self) -> (r: ErrorResponse)
        ensures
            !r.success,
            r.status_code == self.status(),
            r.message@ == self.text(),
    {
        let status_code = match self {
            Errors::DatabaseError => ErrorStatusCode::DatabaseError,
            Errors::HashError => ErrorStatusCode::InternalServerError,
            Errors::SessionError(_) => ErrorStatusCode::SessionError,
            Errors::LoginFailed => ErrorStatusCode::LoginFailed,
            Errors::Unauthenticated => ErrorStatusCode::Unauthenticated,
        };
        ErrorResponse::new(status_code, self.message())
    }
}

} // verus!
