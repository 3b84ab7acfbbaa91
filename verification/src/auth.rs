//! The auth gate for privileged endpoints: bearer extraction, token
//! verification, then role enforcement — strictly in that order,
//! terminal on the first failure.

use crate::errors::Error;
use crate::strutil::{str_eq, str_starts_with};
use crate::token::{spec_verify, verify, Claims, VerifyError};
use vstd::prelude::*;
use vstd::string::StrSliceExecFns;

verus! {

/// Why authorization failed.
#[derive(Clone, Copy, Debug, PartialEq, Eq, Structural)]
pub enum AuthError {
    /// No authorization header, or one not in bearer form.
    MissingHeader,
    /// The token is malformed or not signed with the expected secret.
    InvalidToken,
    /// The token is genuine but past its expiry.
    Expired,
    /// The token is genuine and current, but its role is not the one
    /// the endpoint demands.
    Forbidden,
}

/// The token inside a bearer-scheme authorization header value, if the
/// value is in bearer form.
pub open spec fn spec_bearer_token(h: Seq<char>) -> Option<Seq<char>> {
    if h.len() >= 7 && h.subrange(0, 7) == "Bearer "@ {
        Some(h.subrange(7, h.len() as int))
    } else {
        None
    }
}

/// Extracts the token from an authorization header value; a missing
/// or non-bearer header is rejected.
pub fn jwt_from_header(auth_header: Option<&String>) -> (r: Result<String, Error>)
    ensures
        match auth_header {
            None => r == Err::<String, Error>(Error::InvalidAuthHeader),
            Some(h) => match spec_bearer_token(h@) {
                Some(tk) => r matches Ok(s) && s@ == tk,
                None => r == Err::<String, Error>(Error::InvalidAuthHeader),
            },
        },
{
    match auth_header {
        None => Err(Error::InvalidAuthHeader),
        Some(h) => {
            let hs = h.as_str();
            proof {
                reveal_strlit("Bearer ");
            }
            if str_starts_with(hs, "Bearer ") {
                let len = hs.unicode_len();
                let tok = hs.substring_char(7, len);
                Ok(tok.to_owned())
            } else {
                Err(Error::InvalidAuthHeader)
            }
        },
    }
}

/// Authorizes a privileged request: bearer extraction, signature and
/// expiry check, then role comparison.  A genuine, current token with
/// the wrong role is `Forbidden`; nothing later masks an earlier
/// failure.
pub fn authorize(
    auth_header: Option<&String>,
    required_role: &str,
    now: u64,
    secret: &str,
) -> (r: Result<Claims, AuthError>)
    ensures
        match auth_header {
            None => r == Err::<Claims, AuthError>(AuthError::MissingHeader),
            Some(h) => match spec_bearer_token(h@) {
                None => r == Err::<Claims, AuthError>(AuthError::MissingHeader),
                Some(tk) => match spec_verify(tk, now, secret@) {
                    Err(VerifyError::Invalid) => r == Err::<Claims, AuthError>(
                        AuthError::InvalidToken,
                    ),
                    Err(VerifyError::Expired) => r == Err::<Claims, AuthError>(AuthError::Expired),
                    Ok((iat, exp, sub, role)) => if role != required_role@ {
                        r == Err::<Claims, AuthError>(AuthError::Forbidden)
                    } else {
                        r matches Ok(c) && c.iat == iat && c.exp == exp && c.sub@ == sub && c.role@
                            == role
                    },
                },
            },
        },
{
    let token = match jwt_from_header(auth_header) {
        Err(_) => {
            return Err(AuthError::MissingHeader);
        },
        Ok(t) => t,
    };
    let claims = match verify(token.as_str(), now, secret) {
        Err(VerifyError::Invalid) => {
            return Err(AuthError::InvalidToken);
        },
        Err(VerifyError::Expired) => {
            return Err(AuthError::Expired);
        },
        Ok(c) => c,
    };
    if !str_eq(claims.role.as_str(), required_role) {
        return Err(AuthError::Forbidden);
    }
    Ok(claims)
}

/// The privileged-endpoint handler's decision: requires the `admin`
/// role, and reports failures in the pipeline's error space (token
/// failures of either kind surface as bad credentials).
pub fn decode_token(auth_header: Option<&String>, now: u64, jwt_secret: &str) -> (r: Result<
    Claims,
    Error,
>)
    ensures
        match auth_header {
            None => r == Err::<Claims, Error>(Error::InvalidAuthHeader),
            Some(h) => match spec_bearer_token(h@) {
                None => r == Err::<Claims, Error>(Error::InvalidAuthHeader),
                Some(tk) => match spec_verify(tk, now, jwt_secret@) {
                    Err(_) => r == Err::<Claims, Error>(Error::InvalidCredentials),
                    Ok((iat, exp, sub, role)) => if role != "admin"@ {
                        r == Err::<Claims, Error>(Error::NoPermission)
                    } else {
                        r matches Ok(c) && c.iat == iat && c.exp == exp && c.sub@ == sub && c.role@
                            == role
                    },
                },
            },
        },
{
    match authorize(auth_header, "admin", now, jwt_secret) {
        Ok(c) => Ok(c),
        Err(AuthError::MissingHeader) => Err(Error::InvalidAuthHeader),
        Err(AuthError::InvalidToken) => Err(Error::InvalidCredentials),
        Err(AuthError::Expired) => Err(Error::InvalidCredentials),
        Err(AuthError::Forbidden) => Err(Error::NoPermission),
    }
}

} // verus!
