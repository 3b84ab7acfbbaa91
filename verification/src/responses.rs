//! Plain response payloads handed back to the HTTP layer.

use vstd::prelude::*;

verus! {

/// Carries a freshly issued bearer token.
pub struct TokenResponse {
    pub token: String,
}

/// Carries a failure's status line and message, ready to serialize at
/// the boundary.
pub struct ErrorResponse {
    pub message: String,
    pub status: String,
}

} // verus!
