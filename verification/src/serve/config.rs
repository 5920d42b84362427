//! Settings of the stream server.
use vstd::prelude::*;

verus! {

/// How often a log is read again, in milliseconds, unless set otherwise.
pub const DEFAULT_POLL_INTERVAL: u64 = 100;

/// How often a silent stream shows that it is alive, in milliseconds, unless set otherwise.
pub const DEFAULT_KEEP_ALIVE: u64 = 15000;

/// When clients are told to reconnect, in milliseconds, unless set otherwise.
pub const DEFAULT_RETRY_MS: u64 = 2000;

/// How many events a slow client may lag, unless set otherwise.
pub const DEFAULT_BROADCAST_CAPACITY: usize = 1024;

/// Settings of the stream server.
#[derive(Clone, Copy, PartialEq, Eq, Structural, Debug)]
pub struct ServeConfig {
    /// How often a log is read again, in milliseconds.
    pub poll_interval: u64,
    /// How often a silent stream shows that it is alive, in milliseconds.
    pub keep_alive: u64,
    /// When clients are told to reconnect, in milliseconds.
    pub retry_ms: u64,
    /// How many events a slow client may lag.
    pub broadcast_capacity: usize,
}

impl Default for ServeConfig {
    fn default() -> (c: ServeConfig)
        ensures
            c == (ServeConfig {
                poll_interval: DEFAULT_POLL_INTERVAL,
                keep_alive: DEFAULT_KEEP_ALIVE,
                retry_ms: DEFAULT_RETRY_MS,
                broadcast_capacity: DEFAULT_BROADCAST_CAPACITY,
            }),
    {
        ServeConfig {
            poll_interval: DEFAULT_POLL_INTERVAL,
            keep_alive: DEFAULT_KEEP_ALIVE,
            retry_ms: DEFAULT_RETRY_MS,
            broadcast_capacity: DEFAULT_BROADCAST_CAPACITY,
        }
    }
}

} // verus!
