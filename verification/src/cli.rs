//! The command line of the SDK, as the values it parses into.

use vstd::prelude::*;

verus! {

/// A parsed command line.
#[derive(Debug)]
pub struct Cli {
    /// What to do.
    pub command: Commands,
    /// RPC endpoint URL.
    pub rpc: Option<String>,
    /// Output format.
    pub format: String,
}

/// The commands of the command line.
#[derive(Debug)]
pub enum Commands {
    /// Query pool information.
    Pool { mint: String },
    /// Get token info.
    Token { mint: String },
    /// Check service health.
    Health,
    /// Show SDK version and config.
    Info,
}

/// Request counters: how many requests were made, how many failed, and their
/// summed latency in milliseconds. Each counter wraps around on overflow.
pub struct Metrics_7155 {
    pub total_requests: u64,
    pub failed_requests: u64,
    pub total_latency_ms: u64,
}

impl Metrics_7155 {
    /// All counters at zero.
    pub fn new() -> (m: Self)
        ensures
            m.total_requests == 0,
            m.failed_requests == 0,
            m.total_latency_ms == 0,
    {
        Metrics_7155 { total_requests: 0, failed_requests: 0, total_latency_ms: 0 }
    }

    /// Counts a request that succeeded after `latency_ms`.
    pub fn record_success(&mut self, latency_ms: u64)
        ensures
            final(self).total_requests == old(self).total_requests.wrapping_add(1),
            final(self).failed_requests == old(self).failed_requests,
            final(self).total_latency_ms == old(self).total_latency_ms.wrapping_add(latency_ms),
    {
        self.total_requests = self.total_requests.wrapping_add(1);
        self.total_latency_ms = self.total_latency_ms.wrapping_add(latency_ms);
    }

    /// Counts a request that failed.
    pub fn record_failure(&mut self)
        ensures
            final(self).total_requests == old(self).total_requests.wrapping_add(1),
            final(self).failed_requests == old(self).failed_requests.wrapping_add(1),
            final(self).total_latency_ms == old(self).total_latency_ms,
    {
        self.total_requests = self.total_requests.wrapping_add(1);
        self.failed_requests = self.failed_requests.wrapping_add(1);
    }
}

} // verus!
