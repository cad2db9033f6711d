//! Where the admin endpoint listens.
use vstd::prelude::*;

verus! {

/// The address of the admin endpoint.
pub struct Config {
    pub host: String,
    pub port: u16,
}

impl Default for Config {
    /// The local default: `127.0.0.1:19000`.
    fn default() -> (r: Config)
        ensures
            r.host@ == "127.0.0.1"@,
            r.port == 19000,
    {
        Config { host: "127.0.0.1".to_string(), port: 19000 }
    }
}

} // verus!
