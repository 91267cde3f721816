//! Configuration of the odds engine: connection targets and feature
//! switches.  Reading the environment happens outside the library; the
//! defaults here are the documented ones.

use vstd::prelude::*;

verus! {

/// Engine configuration.
#[derive(Debug, Clone)]
pub struct Config {
    pub database_url: String,
    pub monaco_base_url: String,
    pub monaco_stream_url: String,
    pub monaco_app_id: String,
    pub monaco_api_key: String,
    pub server_port: u16,
    pub monaco_odds_enabled: bool,
    pub pinnacle_odds_enabled: bool,
    pub processor_enabled: bool,
    pub processor_port: u16,
}

impl Config {
    /// The documented default ports and switches.
    pub fn defaults() -> (r: (u16, u16, bool, bool, bool))
        ensures
            r.0 == 8080 && r.1 == 9000 && r.2 && r.3 && r.4,
    {
        (8080, 9000, true, true, true)
    }
}

} // verus!
