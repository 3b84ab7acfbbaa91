//! Admission pipeline behaviour: token bucket, credit ledger, and the
//! gate that composes them.

use admission::admission::{
    admit_request, decision_to_result, process_api_key, AdmissionDecision, DenyReason,
};
use admission::credit::{deduct_commit, deduct_decision, CreditLedger, StoreLookup};
use admission::errors::Error;
use admission::rate_limiting::{RateLimiter, QUOTA_PER_SECOND};

#[test]
fn token_bucket_fresh_key_full_quota() {
    // a fresh key admits exactly the quota within one instant
    let mut rl = RateLimiter::new(QUOTA_PER_SECOND);
    for _ in 0..QUOTA_PER_SECOND {
        assert!(rl.check("caller", 0));
    }
    assert!(!rl.check("caller", 0));
    // and admits again after one full time unit
    assert!(rl.check("caller", 1000));
}

#[test]
fn token_bucket_small_quota() {
    let mut rl = RateLimiter::new(2);
    assert!(rl.check("k", 0));
    assert!(rl.check("k", 0));
    assert!(!rl.check("k", 0));
    assert!(!rl.check("k", 1));
}

#[test]
fn token_bucket_continuous_refill() {
    let mut rl = RateLimiter::new(2);
    assert!(rl.check("k", 0));
    assert!(rl.check("k", 0));
    assert!(!rl.check("k", 0));
    // 2 tokens per 1000 ms: after 500 ms one token has come back
    assert!(rl.check("k", 500));
    assert!(!rl.check("k", 500));
}

#[test]
fn token_bucket_keys_are_independent() {
    let mut rl = RateLimiter::new(1);
    assert!(rl.check("a", 0));
    assert!(rl.check("b", 0));
    assert!(!rl.check("a", 0));
    assert!(!rl.check("b", 0));
}

#[test]
fn token_bucket_clock_going_backwards_is_harmless() {
    let mut rl = RateLimiter::new(1);
    assert!(rl.check("k", 5000));
    assert!(!rl.check("k", 0));
    assert!(rl.check("k", 6000));
}

#[test]
fn deduct_spends_a_balance_of_one_exactly_once() {
    let mut led = CreditLedger::new();
    assert!(led.create_account("k", 1));
    assert_eq!(led.deduct_credit("k"), Ok(()));
    assert_eq!(led.deduct_credit("k"), Err(Error::NoCredit));
    assert_eq!(led.find_balance("k"), Some(0));
}

#[test]
fn deduct_unknown_key_is_not_found() {
    let mut led = CreditLedger::new();
    assert_eq!(led.deduct_credit("nobody"), Err(Error::NotFound));
}

#[test]
fn deduct_exhausted_balance_changes_nothing() {
    let mut led = CreditLedger::new();
    assert!(led.create_account("k", 0));
    assert_eq!(led.deduct_credit("k"), Err(Error::NoCredit));
    assert_eq!(led.find_balance("k"), Some(0));
}

#[test]
fn conditional_decrement_reports_what_it_did() {
    let mut led = CreditLedger::new();
    assert!(led.create_account("k", 1));
    assert!(led.conditional_decrement("k"));
    assert!(!led.conditional_decrement("k"));
    assert!(!led.conditional_decrement("missing"));
    assert_eq!(led.find_balance("k"), Some(0));
}

#[test]
fn add_credit_tops_up_existing_accounts_only() {
    let mut led = CreditLedger::new();
    assert!(led.create_account("k", 1));
    assert_eq!(led.add_credit("k", 4), Ok(()));
    assert_eq!(led.find_balance("k"), Some(5));
    // a top-up for an unknown key affects nothing and is not an error
    assert_eq!(led.add_credit("ghost", 4), Ok(()));
    assert_eq!(led.find_balance("ghost"), None);
}

#[test]
fn add_credit_rejects_overflow_without_change() {
    let mut led = CreditLedger::new();
    assert!(led.create_account("k", i32::MAX - 1));
    assert_eq!(led.add_credit("k", 2), Err(Error::InvalidParameter));
    assert_eq!(led.find_balance("k"), Some(i32::MAX - 1));
}

#[test]
fn create_account_does_not_clobber() {
    let mut led = CreditLedger::new();
    assert!(led.create_account("k", 3));
    assert!(!led.create_account("k", 99));
    assert_eq!(led.find_balance("k"), Some(3));
}

#[test]
fn rate_denial_never_costs_credit() {
    // quota 1: the second request is rate-limited, and the balance is
    // untouched by it
    let mut rl = RateLimiter::new(1);
    let mut led = CreditLedger::new();
    assert!(led.create_account("k", 5));
    let key = String::from("k");
    assert_eq!(
        admit_request(Some(&key), &mut rl, &mut led, 0),
        AdmissionDecision::Allow
    );
    assert_eq!(led.find_balance("k"), Some(4));
    assert_eq!(
        admit_request(Some(&key), &mut rl, &mut led, 0),
        AdmissionDecision::Deny(DenyReason::RateLimitExceeded)
    );
    assert_eq!(led.find_balance("k"), Some(4));
}

#[test]
fn end_to_end_scenario() {
    // account k1: balance 3, default quota unused
    let mut rl = RateLimiter::new(QUOTA_PER_SECOND);
    let mut led = CreditLedger::new();
    assert!(led.create_account("k1", 3));
    let key = String::from("k1");
    for expected in [2, 1, 0] {
        assert_eq!(
            admit_request(Some(&key), &mut rl, &mut led, 0),
            AdmissionDecision::Allow
        );
        assert_eq!(led.find_balance("k1"), Some(expected));
    }
    assert_eq!(
        admit_request(Some(&key), &mut rl, &mut led, 0),
        AdmissionDecision::Deny(DenyReason::NoCredit)
    );
    assert_eq!(led.find_balance("k1"), Some(0));
    // a request with no key is denied before either sub-check
    assert_eq!(
        admit_request(None, &mut rl, &mut led, 0),
        AdmissionDecision::Deny(DenyReason::MissingKey)
    );
    assert_eq!(led.find_balance("k1"), Some(0));
}

#[test]
fn admit_unknown_key_is_key_not_found() {
    let mut rl = RateLimiter::new(QUOTA_PER_SECOND);
    let mut led = CreditLedger::new();
    let key = String::from("stranger");
    assert_eq!(
        admit_request(Some(&key), &mut rl, &mut led, 0),
        AdmissionDecision::Deny(DenyReason::KeyNotFound)
    );
}

#[test]
fn decisions_map_to_the_pipeline_errors() {
    assert_eq!(decision_to_result(&AdmissionDecision::Allow), Ok(()));
    assert_eq!(
        decision_to_result(&AdmissionDecision::Deny(DenyReason::MissingKey)),
        Err(Error::MissingAPIKey)
    );
    assert_eq!(
        decision_to_result(&AdmissionDecision::Deny(DenyReason::RateLimitExceeded)),
        Err(Error::RateLimitExceeded)
    );
    assert_eq!(
        decision_to_result(&AdmissionDecision::Deny(DenyReason::KeyNotFound)),
        Err(Error::NotFound)
    );
    assert_eq!(
        decision_to_result(&AdmissionDecision::Deny(DenyReason::NoCredit)),
        Err(Error::NoCredit)
    );
    assert_eq!(
        decision_to_result(&AdmissionDecision::Deny(DenyReason::StoreUnavailable)),
        Err(Error::ConnectionFailed)
    );
}

#[test]
fn process_api_key_reports_the_denial() {
    let mut rl = RateLimiter::new(1);
    let mut led = CreditLedger::new();
    assert!(led.create_account("k", 1));
    let key = String::from("k");
    assert_eq!(process_api_key(None, &mut rl, &mut led, 0), Err(Error::MissingAPIKey));
    assert_eq!(process_api_key(Some(&key), &mut rl, &mut led, 0), Ok(()));
    assert_eq!(
        process_api_key(Some(&key), &mut rl, &mut led, 0),
        Err(Error::RateLimitExceeded)
    );
    assert_eq!(
        process_api_key(Some(&key), &mut rl, &mut led, 2000),
        Err(Error::NoCredit)
    );
}

#[test]
fn store_backed_deduction_decisions() {
    assert_eq!(
        deduct_decision(&StoreLookup::Unavailable),
        Err(Error::ConnectionFailed)
    );
    assert_eq!(deduct_decision(&StoreLookup::Missing), Err(Error::NotFound));
    assert_eq!(deduct_decision(&StoreLookup::Balance(0)), Err(Error::NoCredit));
    assert_eq!(deduct_decision(&StoreLookup::Balance(-3)), Err(Error::NoCredit));
    assert_eq!(deduct_decision(&StoreLookup::Balance(1)), Ok(()));
    assert_eq!(deduct_commit(true), Ok(()));
    assert_eq!(deduct_commit(false), Err(Error::NoCredit));
}

#[test]
fn empty_key_is_treated_as_missing() {
    let mut rl = RateLimiter::new(QUOTA_PER_SECOND);
    let mut led = CreditLedger::new();
    assert!(led.create_account("", 3));
    let empty = String::new();
    // an empty key never reaches the rate limiter or the ledger
    assert_eq!(
        admit_request(Some(&empty), &mut rl, &mut led, 0),
        AdmissionDecision::Deny(DenyReason::MissingKey)
    );
    assert_eq!(led.find_balance(""), Some(3));
    assert_eq!(
        process_api_key(Some(&empty), &mut rl, &mut led, 0),
        Err(Error::MissingAPIKey)
    );
}
