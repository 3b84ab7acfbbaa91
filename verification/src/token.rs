//! Signed, time-bounded identity tokens.
//!
//! A token is a textual frame around a claim set {subject, role,
//! issued-at, expires-at} plus a keyed-hash signature over the frame:
//!
//! ```text
//! HS512.<iat>.<exp>.<len subject>.<len role>.<subject><role>.<hex tag>
//! ```
//!
//! The leading scheme tag pins the signing algorithm, the numeric
//! fields are canonical decimals, and the two length fields make the
//! frame self-delimiting whatever characters the subject and role
//! contain.  Verification re-derives the tag with the same secret and
//! rejects a mismatch before it ever looks at the expiry, so a token
//! is `Invalid` or `Expired` exactly as the contracts below state.
//! Only the keyed hash itself is an outside computation; everything
//! around it is verified.

use crate::codec::{dec_seq, hex_of, parse_field, parse_field_exec, to_hex, u64_to_dec};
use crate::errors::Error;
use crate::responses::TokenResponse;
use crate::strutil::str_eq;
use vstd::prelude::*;
use vstd::string::{StrSliceExecFns, StringExecFns};

verus! {

/// Lifetime of an issued token, in seconds (twelve hours).
pub const TOKEN_TTL_SECS: u64 = 43200;

/// The tag that HMAC-SHA-512 computes for this secret and message.
pub uninterp spec fn mac_of(secret: Seq<char>, msg: Seq<char>) -> Seq<u8>;

/// Relies on `ring::hmac` with `HMAC_SHA512`: the tag is a function of
/// the key bytes and message bytes alone, and is one SHA-512 output
/// (64 bytes) long.  Keys of any length are accepted.
#[verifier::external_body]
fn hmac_sha512(secret: &str, msg: &str) -> (r: Vec<u8>)
    ensures
        r@ == mac_of(secret@, msg@),
        r@.len() == 64,
{
    let key = ring::hmac::Key::new(ring::hmac::HMAC_SHA512, secret.as_bytes());
    ring::hmac::sign(&key, msg.as_bytes()).as_ref().to_vec()
}

/// The claim set carried by a token.
#[derive(Debug, PartialEq, Eq)]
pub struct Claims {
    /// Expiry, seconds since the epoch.
    pub exp: u64,
    /// Issuance, seconds since the epoch.
    pub iat: u64,
    /// Subject: whom the token identifies.
    pub sub: String,
    /// Role the subject may act in.
    pub role: String,
}

/// Why a token was rejected.
#[derive(Clone, Copy, Debug, PartialEq, Eq, Structural)]
pub enum VerifyError {
    /// Malformed frame or signature mismatch.
    Invalid,
    /// Well-formed and genuine, but past its expiry.
    Expired,
}

/// The signed part of a token for these claims.
pub open spec fn spec_payload(sub: Seq<char>, role: Seq<char>, iat: nat, exp: nat) -> Seq<char> {
    "HS512."@ + dec_seq(iat) + "."@ + dec_seq(exp) + "."@ + dec_seq(sub.len()) + "."@ + dec_seq(
        role.len(),
    ) + "."@ + sub + role
}

/// The complete token issued for these claims under this secret.
pub open spec fn spec_issue(sub: Seq<char>, role: Seq<char>, iat: u64, secret: Seq<char>) -> Seq<
    char,
> {
    let payload = spec_payload(sub, role, iat as nat, (iat + TOKEN_TTL_SECS) as nat);
    payload + "."@ + hex_of(mac_of(secret, payload))
}

/// Splits a token into (iat, exp, subject, role, signed part,
/// signature), or nothing if the frame is malformed.
pub open spec fn spec_parse_token(t: Seq<char>) -> Option<
    (nat, nat, Seq<char>, Seq<char>, Seq<char>, Seq<char>),
> {
    if t.len() < 6 || t.subrange(0, 6) != "HS512."@ {
        None
    } else {
        match parse_field(t, 6) {
            None => None,
            Some((iat, i1)) => match parse_field(t, i1) {
                None => None,
                Some((exp, i2)) => match parse_field(t, i2) {
                    None => None,
                    Some((sublen, i3)) => match parse_field(t, i3) {
                        None => None,
                        Some((rolelen, i4)) => {
                            let e = i4 + sublen + rolelen;
                            if t.len() <= e {
                                None
                            } else if t[e] != '.' {
                                None
                            } else {
                                Some(
                                    (
                                        iat,
                                        exp,
                                        t.subrange(i4, i4 + sublen),
                                        t.subrange(i4 + sublen, e),
                                        t.subrange(0, e),
                                        t.subrange(e + 1, t.len() as int),
                                    ),
                                )
                            }
                        },
                    },
                },
            },
        }
    }
}

/// What verification owes for this token, time and secret: the claims
/// exactly as framed, `Invalid` on a malformed frame or a signature
/// that is not the tag of the signed part, `Expired` once the expiry
/// is not in the future.
pub open spec fn spec_verify(t: Seq<char>, now: u64, secret: Seq<char>) -> Result<
    (nat, nat, Seq<char>, Seq<char>),
    VerifyError,
> {
    match spec_parse_token(t) {
        None => Err(VerifyError::Invalid),
        Some((iat, exp, sub, role, payload, sig)) => {
            if sig != hex_of(mac_of(secret, payload)) {
                Err(VerifyError::Invalid)
            } else if exp <= now {
                Err(VerifyError::Expired)
            } else {
                Ok((iat, exp, sub, role))
            }
        },
    }
}

/// Builds the signed part of a token.
fn build_payload(subject: &str, role: &str, iat: u64) -> (p: String)
    requires
        iat + TOKEN_TTL_SECS <= u64::MAX,
    ensures
        p@ == spec_payload(subject@, role@, iat as nat, (iat + TOKEN_TTL_SECS) as nat),
{
    let exp = iat + TOKEN_TTL_SECS;
    let sublen = subject.unicode_len();
    let rolelen = role.unicode_len();
    let mut p = String::from_str("HS512.");
    let d1 = u64_to_dec(iat);
    p.append(d1.as_str());
    p.append(".");
    let d2 = u64_to_dec(exp);
    p.append(d2.as_str());
    p.append(".");
    let d3 = u64_to_dec(sublen as u64);
    p.append(d3.as_str());
    p.append(".");
    let d4 = u64_to_dec(rolelen as u64);
    p.append(d4.as_str());
    p.append(".");
    p.append(subject);
    p.append(role);
    proof {
        assert(p@ =~= spec_payload(subject@, role@, iat as nat, (iat + TOKEN_TTL_SECS) as nat));
    }
    p
}

/// Issues a token for `subject` acting as `role`, stamped issued-at
/// `now` and expiring twelve hours later, signed with `secret`.
pub fn issue(subject: &str, role: &str, now: u64, secret: &str) -> (t: String)
    requires
        now + TOKEN_TTL_SECS <= u64::MAX,
    ensures
        t@ == spec_issue(subject@, role@, now, secret@),
{
    let mut t = build_payload(subject, role, now);
    let tag = hmac_sha512(secret, t.as_str());
    let sig = to_hex(&tag);
    t.append(".");
    t.append(sig.as_str());
    proof {
        assert(t@ =~= spec_issue(subject@, role@, now, secret@));
    }
    t
}

/// Verifies a token against `secret` at time `now`; pure in all three.
pub fn verify(token: &str, now: u64, secret: &str) -> (r: Result<Claims, VerifyError>)
    ensures
        match spec_verify(token@, now, secret@) {
            Ok((iat, exp, sub, role)) => r matches Ok(c) && c.iat == iat && c.exp == exp && c.sub@
                == sub && c.role@ == role,
            Err(e) => r == Err::<Claims, VerifyError>(e),
        },
{
    let len = token.unicode_len();
    if len < 6 {
        return Err(VerifyError::Invalid);
    }
    let head = token.substring_char(0, 6);
    if !str_eq(head, "HS512.") {
        return Err(VerifyError::Invalid);
    }
    let (iat, i1) = match parse_field_exec(token, 6) {
        None => {
            return Err(VerifyError::Invalid);
        },
        Some(p) => p,
    };
    let (exp, i2) = match parse_field_exec(token, i1) {
        None => {
            return Err(VerifyError::Invalid);
        },
        Some(p) => p,
    };
    let (sublen, i3) = match parse_field_exec(token, i2) {
        None => {
            return Err(VerifyError::Invalid);
        },
        Some(p) => p,
    };
    let (rolelen, i4) = match parse_field_exec(token, i3) {
        None => {
            return Err(VerifyError::Invalid);
        },
        Some(p) => p,
    };
    let e128: u128 = i4 as u128 + sublen as u128 + rolelen as u128;
    if len as u128 <= e128 {
        return Err(VerifyError::Invalid);
    }
    let e = e128 as usize;
    let sl = sublen as usize;
    let rl = rolelen as usize;
    if token.get_char(e) != '.' {
        return Err(VerifyError::Invalid);
    }
    let sub_str = token.substring_char(i4, i4 + sl);
    let role_str = token.substring_char(i4 + sl, e);
    let payload_str = token.substring_char(0, e);
    let sig_str = token.substring_char(e + 1, len);
    let tag = hmac_sha512(secret, payload_str);
    let sig_hex = to_hex(&tag);
    if !str_eq(sig_str, sig_hex.as_str()) {
        return Err(VerifyError::Invalid);
    }
    if exp <= now {
        return Err(VerifyError::Expired);
    }
    Ok(Claims { exp, iat, sub: sub_str.to_owned(), role: role_str.to_owned() })
}

/// Issues a token from the raw request parameters: both must be
/// present, and the secret is handed in by the caller.
pub fn generate_token(id: Option<&String>, role: Option<&String>, now: u64, jwt_secret: &str) -> (r:
    Result<TokenResponse, Error>)
    requires
        now + TOKEN_TTL_SECS <= u64::MAX,
    ensures
        match (id, role) {
            (Some(i), Some(ro)) => r matches Ok(tr) && tr.token@ == spec_issue(
                i@,
                ro@,
                now,
                jwt_secret@,
            ),
            _ => r == Err::<TokenResponse, Error>(Error::InvalidParameter),
        },
{
    match (id, role) {
        (Some(i), Some(ro)) => {
            let token = issue(i.as_str(), ro.as_str(), now, jwt_secret);
            Ok(TokenResponse { token })
        },
        _ => Err(Error::InvalidParameter),
    }
}

/// A well-formed frame followed by any tail parses back to exactly the
/// claims it was built from, with the tail as the signature.
pub proof fn lemma_parse_framed(
    sub: Seq<char>,
    role: Seq<char>,
    iat: nat,
    exp: nat,
    tail: Seq<char>,
)
    requires
        iat <= u64::MAX,
        exp <= u64::MAX,
        sub.len() <= u64::MAX,
        role.len() <= u64::MAX,
    ensures
        spec_parse_token(spec_payload(sub, role, iat, exp) + "."@ + tail) == Some(
            (iat, exp, sub, role, spec_payload(sub, role, iat, exp), tail),
        ),
{
    reveal_strlit("HS512.");
    reveal_strlit(".");
    crate::codec::lemma_dec_seq(iat);
    crate::codec::lemma_dec_seq(exp);
    crate::codec::lemma_dec_seq(sub.len());
    crate::codec::lemma_dec_seq(role.len());
    let d1 = dec_seq(iat);
    let d2 = dec_seq(exp);
    let d3 = dec_seq(sub.len());
    let d4 = dec_seq(role.len());
    let payload = spec_payload(sub, role, iat, exp);
    let t = payload + "."@ + tail;
    let o1 = 6 + d1.len() as int;
    let o2 = o1 + 1 + d2.len() as int;
    let o3 = o2 + 1 + d3.len() as int;
    let o4 = o3 + 1 + d4.len() as int;
    let e = o4 + 1 + sub.len() + role.len();
    assert(payload.len() == e);
    assert(t.len() == e + 1 + tail.len());
    assert(t.subrange(0, 6) =~= "HS512."@);
    assert(t.subrange(6, o1) =~= d1);
    assert(t[o1] == '.');
    crate::codec::lemma_parse_field_round_trip(t, 6, iat);
    assert(parse_field(t, 6) == Some((iat, o1 + 1)));
    assert(t.subrange(o1 + 1, o2) =~= d2);
    assert(t[o2] == '.');
    crate::codec::lemma_parse_field_round_trip(t, o1 + 1, exp);
    assert(parse_field(t, o1 + 1) == Some((exp, o2 + 1)));
    assert(t.subrange(o2 + 1, o3) =~= d3);
    assert(t[o3] == '.');
    crate::codec::lemma_parse_field_round_trip(t, o2 + 1, sub.len());
    assert(parse_field(t, o2 + 1) == Some((sub.len(), o3 + 1)));
    assert(t.subrange(o3 + 1, o4) =~= d4);
    assert(t[o4] == '.');
    crate::codec::lemma_parse_field_round_trip(t, o3 + 1, role.len());
    assert(parse_field(t, o3 + 1) == Some((role.len(), o4 + 1)));
    assert(t[e] == '.');
    assert(t.subrange(o4 + 1, o4 + 1 + sub.len() as int) =~= sub);
    assert(t.subrange(o4 + 1 + sub.len() as int, e) =~= role);
    assert(t.subrange(0, e) =~= payload);
    assert(t.subrange(e + 1, t.len() as int) =~= tail);
}

/// Round trip: a token issued for (subject, role) at time `iat`
/// verifies under the same secret to exactly those claims while the
/// expiry is in the future, and reports `Expired` from the expiry on.
pub proof fn lemma_token_round_trip(
    sub: Seq<char>,
    role: Seq<char>,
    iat: u64,
    now: u64,
    secret: Seq<char>,
)
    requires
        iat + TOKEN_TTL_SECS <= u64::MAX,
        sub.len() <= u64::MAX,
        role.len() <= u64::MAX,
    ensures
        spec_verify(spec_issue(sub, role, iat, secret), now, secret) == if now < iat
            + TOKEN_TTL_SECS {
            Ok::<(nat, nat, Seq<char>, Seq<char>), VerifyError>(
                ((iat as nat), ((iat + TOKEN_TTL_SECS) as nat), sub, role),
            )
        } else {
            Err::<(nat, nat, Seq<char>, Seq<char>), VerifyError>(VerifyError::Expired)
        },
{
    let exp = (iat + TOKEN_TTL_SECS) as nat;
    let payload = spec_payload(sub, role, iat as nat, exp);
    lemma_parse_framed(sub, role, iat as nat, exp, hex_of(mac_of(secret, payload)));
}

/// A token whose signature part is anything but the tag of its signed
/// part is rejected as `Invalid`, whatever the time.
pub proof fn lemma_tampered_signature_rejected(
    sub: Seq<char>,
    role: Seq<char>,
    iat: u64,
    now: u64,
    secret: Seq<char>,
    sig: Seq<char>,
)
    requires
        iat + TOKEN_TTL_SECS <= u64::MAX,
        sub.len() <= u64::MAX,
        role.len() <= u64::MAX,
        sig != hex_of(
            mac_of(secret, spec_payload(sub, role, iat as nat, (iat + TOKEN_TTL_SECS) as nat)),
        ),
    ensures
        spec_verify(
            spec_payload(sub, role, iat as nat, (iat + TOKEN_TTL_SECS) as nat) + "."@ + sig,
            now,
            secret,
        ) == Err::<(nat, nat, Seq<char>, Seq<char>), VerifyError>(VerifyError::Invalid),
{
    let exp = (iat + TOKEN_TTL_SECS) as nat;
    lemma_parse_framed(sub, role, iat as nat, exp, sig);
}

} // verus!
