//! Request admission pipeline for a metered REST backend.
//!
//! Every mutating or listing request is gated by a per-caller pipeline:
//! a keyed token-bucket rate limiter, then an exactly-once credit
//! deduction against the caller's prepaid balance.  Privileged
//! endpoints are instead gated by a signed, time-bounded bearer token
//! carrying a subject and a role.
//!
//! The components are deterministic over explicit inputs: the caller
//! supplies the current time, and the credit store is either the
//! in-memory ledger of this crate or an external store driven through
//! the same verified decision logic.

pub mod admission;
pub mod auth;
pub mod codec;
pub mod config;
pub mod credit;
pub mod errors;
pub mod rate_limiting;
pub mod responses;
pub mod strutil;
pub mod token;
