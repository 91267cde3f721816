//! Configuration of the odds processor: ports and the cache bound.
//! Reading the environment happens outside the library; the defaults here
//! are the documented ones.

use vstd::prelude::*;

verus! {

/// Processor configuration.
#[derive(Debug, Clone)]
pub struct Config {
    pub tcp_port: u16,
    pub ws_port: u16,
    pub max_fixtures: usize,
    pub database_url: String,
}

impl Config {
    /// The documented defaults: TCP ingest 9000, WebSocket 8081, a
    /// thousand cached fixtures.
    pub fn defaults() -> (r: (u16, u16, usize))
        ensures
            r.0 == 9000 && r.1 == 8081 && r.2 == 1000,
    {
        (9000, 8081, 1000)
    }
}

} // verus!
