//! Process configuration as the pipeline sees it: plain values read
//! once at startup by the surrounding layer and validated here.  The
//! secret is handed onward by explicit parameter passing, never by
//! ambient lookup, so every caller (and every test) can supply its
//! own.

use crate::errors::Error;
use vstd::prelude::*;

verus! {

/// The validated process configuration.
pub struct Config {
    /// TCP port the server listens on.
    pub port: u16,
    /// Where the backing store lives.
    pub database_url: String,
    /// Process-wide token-signing secret.
    pub jwt_secret: String,
}

/// Validates the raw configuration values: the port must be a real
/// TCP port.  The URL and secret are opaque to the pipeline and pass
/// through unchanged.
pub fn get_config(port: i64, database_url: String, jwt_secret: String) -> (r: Result<
    Config,
    Error,
>)
    ensures
        match r {
            Ok(c) => 1 <= port <= 65535 && c.port == port && c.database_url@ == database_url@
                && c.jwt_secret@ == jwt_secret@,
            Err(e) => e == Error::InvalidParameter && !(1 <= port <= 65535),
        },
{
    if 1 <= port && port <= 65535 {
        Ok(Config { port: port as u16, database_url, jwt_secret })
    } else {
        Err(Error::InvalidParameter)
    }
}

} // verus!
