//! Token issuance, verification, and the auth gate.

use admission::auth::{authorize, decode_token, jwt_from_header, AuthError};
use admission::errors::Error;
use admission::token::{generate_token, issue, verify, VerifyError, TOKEN_TTL_SECS};

const SECRET: &str = "test-secret";

#[test]
fn round_trip_within_lifetime() {
    let t = issue("u1", "admin", 1_000_000, SECRET);
    let c = verify(&t, 1_000_000, SECRET).expect("fresh token must verify");
    assert_eq!(c.sub, "u1");
    assert_eq!(c.role, "admin");
    assert_eq!(c.iat, 1_000_000);
    assert_eq!(c.exp, 1_000_000 + TOKEN_TTL_SECS);
    // still good one second before expiry
    assert!(verify(&t, 1_000_000 + TOKEN_TTL_SECS - 1, SECRET).is_ok());
}

#[test]
fn expired_from_the_boundary_on() {
    let t = issue("u1", "admin", 1_000_000, SECRET);
    assert_eq!(
        verify(&t, 1_000_000 + TOKEN_TTL_SECS, SECRET),
        Err(VerifyError::Expired)
    );
    assert_eq!(
        verify(&t, 2_000_000 + TOKEN_TTL_SECS, SECRET),
        Err(VerifyError::Expired)
    );
}

#[test]
fn wrong_secret_is_invalid() {
    let t = issue("u1", "admin", 1_000_000, SECRET);
    assert_eq!(verify(&t, 1_000_000, "other-secret"), Err(VerifyError::Invalid));
}

#[test]
fn empty_and_garbage_tokens_are_invalid() {
    assert_eq!(verify("", 0, SECRET), Err(VerifyError::Invalid));
    assert_eq!(verify("HS512.", 0, SECRET), Err(VerifyError::Invalid));
    assert_eq!(verify("not a token", 0, SECRET), Err(VerifyError::Invalid));
    assert_eq!(verify("HS256.1.2.1.1.ab.00", 0, SECRET), Err(VerifyError::Invalid));
}

#[test]
fn flipping_any_byte_is_invalid() {
    let t = issue("user-7", "editor", 5_000, SECRET);
    assert!(verify(&t, 5_000, SECRET).is_ok());
    for i in 0..t.len() {
        let mut bytes = t.as_bytes().to_vec();
        bytes[i] = if bytes[i] == b'x' { b'y' } else { b'x' };
        let tampered = String::from_utf8(bytes).unwrap();
        assert_eq!(
            verify(&tampered, 5_000, SECRET),
            Err(VerifyError::Invalid),
            "byte {} flipped",
            i
        );
    }
}

#[test]
fn truncated_token_is_invalid() {
    let t = issue("u1", "admin", 5_000, SECRET);
    for cut in [t.len() - 1, t.len() / 2, 7, 1] {
        assert_eq!(verify(&t[..cut], 5_000, SECRET), Err(VerifyError::Invalid));
    }
}

#[test]
fn claims_with_dots_and_spaces_survive() {
    let t = issue("a.b.c", "role.with dots", 42, SECRET);
    let c = verify(&t, 50, SECRET).expect("token must verify");
    assert_eq!(c.sub, "a.b.c");
    assert_eq!(c.role, "role.with dots");
}

#[test]
fn empty_subject_and_role_survive() {
    let t = issue("", "", 42, SECRET);
    let c = verify(&t, 50, SECRET).expect("token must verify");
    assert_eq!(c.sub, "");
    assert_eq!(c.role, "");
}

#[test]
fn signature_matches_an_independent_hmac() {
    // the trailing token field must be the hex HMAC-SHA-512 tag of
    // everything before it, as ring computes it
    let t = issue("u1", "admin", 1_000, SECRET);
    let dot = t.rfind('.').unwrap();
    let (payload, sig) = (&t[..dot], &t[dot + 1..]);
    let key = ring::hmac::Key::new(ring::hmac::HMAC_SHA512, SECRET.as_bytes());
    let tag = ring::hmac::sign(&key, payload.as_bytes());
    let expected: String = tag.as_ref().iter().map(|b| format!("{:02x}", b)).collect();
    assert_eq!(sig, expected);
}

#[test]
fn generate_token_requires_both_parameters() {
    let id = String::from("u1");
    let role = String::from("admin");
    assert_eq!(
        generate_token(None, Some(&role), 1_000, SECRET).map(|r| r.token),
        Err(Error::InvalidParameter)
    );
    assert_eq!(
        generate_token(Some(&id), None, 1_000, SECRET).map(|r| r.token),
        Err(Error::InvalidParameter)
    );
    let tr = generate_token(Some(&id), Some(&role), 1_000, SECRET).expect("token owed");
    let c = verify(&tr.token, 1_000, SECRET).expect("generated token must verify");
    assert_eq!(c.sub, "u1");
    assert_eq!(c.role, "admin");
}

#[test]
fn bearer_extraction() {
    let good = String::from("Bearer abc.def");
    assert_eq!(jwt_from_header(Some(&good)), Ok(String::from("abc.def")));
    let bad_scheme = String::from("Basic abc");
    assert_eq!(jwt_from_header(Some(&bad_scheme)), Err(Error::InvalidAuthHeader));
    assert_eq!(jwt_from_header(None), Err(Error::InvalidAuthHeader));
    let empty = String::from("Bearer ");
    assert_eq!(jwt_from_header(Some(&empty)), Ok(String::new()));
}

#[test]
fn authorize_happy_path() {
    let t = issue("u1", "admin", 1_000, SECRET);
    let header = format!("Bearer {}", t);
    let c = authorize(Some(&header), "admin", 1_000, SECRET).expect("authorized");
    assert_eq!(c.sub, "u1");
    assert_eq!(c.role, "admin");
}

#[test]
fn wrong_role_is_forbidden_even_when_genuine() {
    let t = issue("u1", "user", 1_000, SECRET);
    let header = format!("Bearer {}", t);
    // the token is genuine and current, only the role falls short
    assert!(verify(&t, 1_000, SECRET).is_ok());
    assert_eq!(
        authorize(Some(&header), "admin", 1_000, SECRET).map(|c| c.sub),
        Err(AuthError::Forbidden)
    );
}

#[test]
fn authorize_tells_failures_apart() {
    let t = issue("u1", "admin", 1_000, SECRET);
    let header = format!("Bearer {}", t);
    assert_eq!(
        authorize(None, "admin", 1_000, SECRET).map(|c| c.sub),
        Err(AuthError::MissingHeader)
    );
    let unframed = String::from(t.as_str());
    assert_eq!(
        authorize(Some(&unframed), "admin", 1_000, SECRET).map(|c| c.sub),
        Err(AuthError::MissingHeader)
    );
    let garbled = String::from("Bearer junk");
    assert_eq!(
        authorize(Some(&garbled), "admin", 1_000, SECRET).map(|c| c.sub),
        Err(AuthError::InvalidToken)
    );
    assert_eq!(
        authorize(Some(&header), "admin", 1_000 + TOKEN_TTL_SECS, SECRET).map(|c| c.sub),
        Err(AuthError::Expired)
    );
}

#[test]
fn decode_token_enforces_admin() {
    let admin = issue("u1", "admin", 1_000, SECRET);
    let header = format!("Bearer {}", admin);
    let c = decode_token(Some(&header), 1_000, SECRET).expect("admin token accepted");
    assert_eq!(c.sub, "u1");

    let user = issue("u2", "user", 1_000, SECRET);
    let user_header = format!("Bearer {}", user);
    assert_eq!(
        decode_token(Some(&user_header), 1_000, SECRET).map(|c| c.sub),
        Err(Error::NoPermission)
    );
    assert_eq!(
        decode_token(None, 1_000, SECRET).map(|c| c.sub),
        Err(Error::InvalidAuthHeader)
    );
    let junk = String::from("Bearer junk");
    assert_eq!(
        decode_token(Some(&junk), 1_000, SECRET).map(|c| c.sub),
        Err(Error::InvalidCredentials)
    );
    // an expired token is a credentials failure at this endpoint
    assert_eq!(
        decode_token(Some(&header), 1_000 + TOKEN_TTL_SECS, SECRET).map(|c| c.sub),
        Err(Error::InvalidCredentials)
    );
}

#[test]
fn non_ascii_claims_survive() {
    let t = issue("héllo wörld", "rôle-β", 42, SECRET);
    let c = verify(&t, 50, SECRET).expect("token must verify");
    assert_eq!(c.sub, "héllo wörld");
    assert_eq!(c.role, "rôle-β");
    assert_eq!(
        authorize(Some(&format!("Bearer {}", t)), "rôle-β", 50, SECRET).map(|c| c.sub),
        Ok(String::from("héllo wörld"))
    );
}
