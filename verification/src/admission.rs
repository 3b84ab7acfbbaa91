//! The admission gate: rate limit first, credit second.
//!
//! The order is load-bearing: a request denied by the rate limiter
//! must never cost the caller credit, so the ledger is consulted only
//! after the token bucket admitted the request.  There is no
//! compensating step in the other direction: a token consumed for a
//! request that then fails the credit check is not refunded, since
//! buckets refill by themselves.

use crate::credit::{deduct_result, deduct_state, CreditLedger};
use crate::errors::Error;
use crate::rate_limiting::{check_allowed, check_result, RateLimiter};
use vstd::prelude::*;

verus! {

/// Why a request was turned away.
#[derive(Clone, Copy, Debug, PartialEq, Eq, Structural)]
pub enum DenyReason {
    /// The request carried no API key at all.
    MissingKey,
    /// The key's token bucket is empty.
    RateLimitExceeded,
    /// The key has no account.
    KeyNotFound,
    /// The key's balance is exhausted.
    NoCredit,
    /// The balance store could not be reached.
    StoreUnavailable,
}

/// Either admission, or a denial carrying its reason.
#[derive(Clone, Copy, Debug, PartialEq, Eq, Structural)]
pub enum AdmissionDecision {
    Allow,
    Deny(DenyReason),
}

/// The decision [`admit_request`] owes for a request with key `k` against
/// limiter state `lim` and balances `led` at time `now`.
pub open spec fn admit_decision(
    q: u32,
    lim: Map<Seq<char>, crate::rate_limiting::TokenBucket>,
    led: Map<Seq<char>, i32>,
    k: Seq<char>,
    now: u64,
) -> AdmissionDecision {
    if !check_allowed(q, lim, k, now) {
        AdmissionDecision::Deny(DenyReason::RateLimitExceeded)
    } else {
        match deduct_result(led, k) {
            Ok(()) => AdmissionDecision::Allow,
            Err(Error::NotFound) => AdmissionDecision::Deny(DenyReason::KeyNotFound),
            Err(_) => AdmissionDecision::Deny(DenyReason::NoCredit),
        }
    }
}

/// Gates one request: missing or empty key, then rate limit, then
/// credit.  A denial by the rate limiter leaves every balance
/// untouched, and only an allowed request costs a token and a credit.
pub fn admit_request(
    api_key: Option<&String>,
    limiter: &mut RateLimiter,
    ledger: &mut CreditLedger,
    now_ms: u64,
) -> (d: AdmissionDecision)
    requires
        old(limiter).wf(),
        old(ledger).wf(),
    ensures
        final(limiter).wf(),
        final(ledger).wf(),
        final(limiter).quota_spec() == old(limiter).quota_spec(),
        match api_key {
            None => {
                &&& d == AdmissionDecision::Deny(DenyReason::MissingKey)
                &&& final(limiter)@ == old(limiter)@
                &&& final(ledger)@ == old(ledger)@
            },
            Some(k) => if k@.len() == 0 {
                &&& d == AdmissionDecision::Deny(DenyReason::MissingKey)
                &&& final(limiter)@ == old(limiter)@
                &&& final(ledger)@ == old(ledger)@
            } else {
                let q = old(limiter).quota_spec();
                &&& d == admit_decision(q, old(limiter)@, old(ledger)@, k@, now_ms)
                &&& final(limiter)@ == check_result(q, old(limiter)@, k@, now_ms)
                &&& final(ledger)@ == if check_allowed(q, old(limiter)@, k@, now_ms) {
                    deduct_state(old(ledger)@, k@)
                } else {
                    old(ledger)@
                }
            },
        },
        // a rate-limit denial never costs credit
        d == AdmissionDecision::Deny(DenyReason::RateLimitExceeded) ==> final(ledger)@ == old(
            ledger,
        )@,
{
    match api_key {
        None => AdmissionDecision::Deny(DenyReason::MissingKey),
        Some(key) => {
            if key.as_str().is_empty() {
                AdmissionDecision::Deny(DenyReason::MissingKey)
            } else if !limiter.check(key.as_str(), now_ms) {
                AdmissionDecision::Deny(DenyReason::RateLimitExceeded)
            } else {
                match ledger.deduct_credit(key.as_str()) {
                    Ok(()) => AdmissionDecision::Allow,
                    Err(Error::NotFound) => AdmissionDecision::Deny(DenyReason::KeyNotFound),
                    Err(_) => AdmissionDecision::Deny(DenyReason::NoCredit),
                }
            }
        },
    }
}

/// The error the HTTP layer reports for each denial.
pub fn decision_to_result(d: &AdmissionDecision) -> (r: Result<(), Error>)
    ensures
        r == match *d {
            AdmissionDecision::Allow => Ok::<(), Error>(()),
            AdmissionDecision::Deny(DenyReason::MissingKey) => Err::<(), Error>(
                Error::MissingAPIKey,
            ),
            AdmissionDecision::Deny(DenyReason::RateLimitExceeded) => Err::<(), Error>(
                Error::RateLimitExceeded,
            ),
            AdmissionDecision::Deny(DenyReason::KeyNotFound) => Err::<(), Error>(Error::NotFound),
            AdmissionDecision::Deny(DenyReason::NoCredit) => Err::<(), Error>(Error::NoCredit),
            AdmissionDecision::Deny(DenyReason::StoreUnavailable) => Err::<(), Error>(
                Error::ConnectionFailed,
            ),
        },
{
    match *d {
        AdmissionDecision::Allow => Ok(()),
        AdmissionDecision::Deny(DenyReason::MissingKey) => Err(Error::MissingAPIKey),
        AdmissionDecision::Deny(DenyReason::RateLimitExceeded) => Err(Error::RateLimitExceeded),
        AdmissionDecision::Deny(DenyReason::KeyNotFound) => Err(Error::NotFound),
        AdmissionDecision::Deny(DenyReason::NoCredit) => Err(Error::NoCredit),
        AdmissionDecision::Deny(DenyReason::StoreUnavailable) => Err(Error::ConnectionFailed),
    }
}

/// The admission filter as the routing layer sees it: extracts nothing,
/// only admits or rejects with the error for the denial.
pub fn process_api_key(
    api_key: Option<&String>,
    limiter: &mut RateLimiter,
    ledger: &mut CreditLedger,
    now_ms: u64,
) -> (r: Result<(), Error>)
    requires
        old(limiter).wf(),
        old(ledger).wf(),
    ensures
        final(limiter).wf(),
        final(ledger).wf(),
        final(limiter).quota_spec() == old(limiter).quota_spec(),
        match api_key {
            None => {
                &&& r == Err::<(), Error>(Error::MissingAPIKey)
                &&& final(limiter)@ == old(limiter)@
                &&& final(ledger)@ == old(ledger)@
            },
            Some(k) => if k@.len() == 0 {
                &&& r == Err::<(), Error>(Error::MissingAPIKey)
                &&& final(limiter)@ == old(limiter)@
                &&& final(ledger)@ == old(ledger)@
            } else {
                let q = old(limiter).quota_spec();
                let d = admit_decision(q, old(limiter)@, old(ledger)@, k@, now_ms);
                &&& r == match d {
                    AdmissionDecision::Allow => Ok::<(), Error>(()),
                    AdmissionDecision::Deny(DenyReason::RateLimitExceeded) => Err::<(), Error>(
                        Error::RateLimitExceeded,
                    ),
                    AdmissionDecision::Deny(DenyReason::KeyNotFound) => Err::<(), Error>(
                        Error::NotFound,
                    ),
                    _ => Err::<(), Error>(Error::NoCredit),
                }
                &&& final(limiter)@ == check_result(q, old(limiter)@, k@, now_ms)
                &&& final(ledger)@ == if check_allowed(q, old(limiter)@, k@, now_ms) {
                    deduct_state(old(ledger)@, k@)
                } else {
                    old(ledger)@
                }
            },
        },
{
    let d = admit_request(api_key, limiter, ledger, now_ms);
    decision_to_result(&d)
}

} // verus!
