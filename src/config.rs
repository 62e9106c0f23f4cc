use vstd::prelude::*;

verus! {

/// The TCP port the collector listens on, across all local interfaces.
pub const COLLECTOR_PORT: u16 = 4329;

/// How long a single read or write on a connection may stall, in seconds.
pub const IDLE_TIMEOUT_SECS: u64 = 5;

/// The collector's settings: where it listens and how long it waits on a
/// silent peer.
pub struct CollectorConfig {
    pub port: u16,
    pub idle_timeout_secs: u64,
}

impl Default for CollectorConfig {
    /// The documented settings: port 4329 and a five second idle timeout.
    fn default() -> (r: Self)
        ensures
            r.port == COLLECTOR_PORT,
            r.idle_timeout_secs == IDLE_TIMEOUT_SECS,
    {
        CollectorConfig { port: COLLECTOR_PORT, idle_timeout_secs: IDLE_TIMEOUT_SECS }
    }
}

} // verus!
