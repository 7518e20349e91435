//! Settings of a gateway run.
use vstd::prelude::*;

verus! {

pub const DEFAULT_PORT: u16 = 8080;

pub const DEFAULT_ROTATE_INTERVAL: u64 = 300;

/// Settings of a gateway run.
#[derive(Debug)]
pub struct Config {
    /// Port of the first listener; further listeners take the ports above it.
    pub port: u16,
    /// Path of the candidates file.
    pub proxies_path: String,
    /// Seconds between rotations; 0 turns rotation off.
    pub rotate_interval: u64,
}

impl Default for Config {
    fn default() -> (r: Config)
        ensures
            r.port == DEFAULT_PORT,
            r.proxies_path@ == "proxies.txt"@,
            r.rotate_interval == DEFAULT_ROTATE_INTERVAL,
    {
        Config {
            port: DEFAULT_PORT,
            proxies_path: "proxies.txt".to_owned(),
            rotate_interval: DEFAULT_ROTATE_INTERVAL,
        }
    }
}

} // verus!
