//! Error taxonomy shared by the whole pipeline, and its mapping to
//! HTTP status codes and user-facing messages.

use vstd::prelude::*;

verus! {

/// Every failure the pipeline can report.  Infrastructure failures
/// (`ConnectionFailed`) are distinct from logical denials (no credit,
/// rate limit, missing key) so that no reason is ever conflated.
#[derive(Clone, Copy, Debug, PartialEq, Eq, Structural)]
pub enum Error {
    ConnectionFailed,
    NotFound,
    InvalidParameter,
    InvalidCredentials,
    JWTCreationFailed,
    InvalidAuthHeader,
    NoPermission,
    MissingAPIKey,
    NoCredit,
    RateLimitExceeded,
}

impl Error {
    /// The HTTP status code the surrounding layer reports for this error.
    pub open spec fn spec_status_code(self) -> u16 {
        match self {
            Error::ConnectionFailed => 500,
            Error::NotFound => 404,
            Error::InvalidParameter => 400,
            Error::NoPermission => 403,
            Error::InvalidCredentials => 401,
            Error::JWTCreationFailed => 500,
            Error::MissingAPIKey => 400,
            Error::RateLimitExceeded => 429,
            Error::InvalidAuthHeader => 400,
            Error::NoCredit => 400,
        }
    }

    /// The user-facing message for this error.  `JWTCreationFailed` is
    /// deliberately reported as a generic server error.
    pub open spec fn spec_message(self) -> Seq<char> {
        match self {
            Error::ConnectionFailed => "Database connection error"@,
            Error::NotFound => "Resource not found"@,
            Error::InvalidParameter => "Invalid parameter"@,
            Error::NoPermission => "No permission"@,
            Error::InvalidCredentials => "Invalid credentials"@,
            Error::JWTCreationFailed => "Internal server error"@,
            Error::MissingAPIKey => "Missing API key"@,
            Error::RateLimitExceeded => "Rate limit exceeded"@,
            Error::InvalidAuthHeader => "Invalid auth header"@,
            Error::NoCredit => "No credit"@,
        }
    }

    pub fn status_code(&self) -> (c: u16)
        ensures
            c == self.spec_status_code(),
    {
        match self {
            Error::ConnectionFailed => 500,
            Error::NotFound => 404,
            Error::InvalidParameter => 400,
            Error::NoPermission => 403,
            Error::InvalidCredentials => 401,
            Error::JWTCreationFailed => 500,
            Error::MissingAPIKey => 400,
            Error::RateLimitExceeded => 429,
            Error::InvalidAuthHeader => 400,
            Error::NoCredit => 400,
        }
    }

    pub fn message(&self) -> (m: String)
        ensures
            m@ == self.spec_message(),
    {
        match self {
            Error::ConnectionFailed => "Database connection error".to_owned(),
            Error::NotFound => "Resource not found".to_owned(),
            Error::InvalidParameter => "Invalid parameter".to_owned(),
            Error::NoPermission => "No permission".to_owned(),
            Error::InvalidCredentials => "Invalid credentials".to_owned(),
            Error::JWTCreationFailed => "Internal server error".to_owned(),
            Error::MissingAPIKey => "Missing API key".to_owned(),
            Error::RateLimitExceeded => "Rate limit exceeded".to_owned(),
            Error::InvalidAuthHeader => "Invalid auth header".to_owned(),
            Error::NoCredit => "No credit".to_owned(),
        }
    }
}

} // verus!
