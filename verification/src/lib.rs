//! Lamport SDK: a toolkit for Solana token launchpads.

#![allow(non_camel_case_types)]

use vstd::prelude::*;

pub mod base58;
pub mod builder;
pub mod cli;
pub mod client;
pub mod config;
pub mod error;
pub mod handlers;
pub mod middleware;
pub mod models;
pub mod pool;
pub mod utils;

pub use config::Config;
pub use error::{Result, SdkError};
pub use models::TokenInfo;

verus! {

/// The version of the SDK, as its package declares it.
pub const VERSION: &'static str = "0.1.0";

/// Request counters: how many requests were made, how many failed, and their
/// summed latency in milliseconds. Each counter wraps around on overflow.
pub struct Metrics_4661 {
    pub total_requests: u64,
    pub failed_requests: u64,
    pub total_latency_ms: u64,
}

impl Metrics_4661 {
    /// All counters at zero.
    pub fn new() -> (m: Self)
        ensures
            m.total_requests == 0,
            m.failed_requests == 0,
            m.total_latency_ms == 0,
    {
        Metrics_4661 { total_requests: 0, failed_requests: 0, total_latency_ms: 0 }
    }

    /// Counts a request that succeeded after `latency_ms`.
    pub fn record_success(&mut self, latency_ms: u64)
        ensures
            final(self).total_requests == old(self).total_requests.wrapping_add(1),
            final(self).failed_requests == old(self).failed_requests,
            final(self).total_latency_ms == old(self).total_latency_ms.wrapping_add(latency_ms),
    {
        self.total_requests = self.total_requests.wrapping_add(1);
        self.total_latency_ms = self.total_latency_ms.wrapping_add(latency_ms);
    }

    /// Counts a request that failed.
    pub fn record_failure(&mut self)
        ensures
            final(self).total_requests == old(self).total_requests.wrapping_add(1),
            final(self).failed_requests == old(self).failed_requests.wrapping_add(1),
            final(self).total_latency_ms == old(self).total_latency_ms,
    {
        self.total_requests = self.total_requests.wrapping_add(1);
        self.failed_requests = self.failed_requests.wrapping_add(1);
    }
}

/// Recording a request keeps the failures within the total, as long as the total
/// does not wrap around.
pub proof fn lemma_failures_within_total(total: u64, failed: u64, failure: bool)
    requires
        failed <= total,
        total < u64::MAX,
    ensures
        ({
            let new_total = total.wrapping_add(1);
            let new_failed = if failure {
                failed.wrapping_add(1)
            } else {
                failed
            };
            new_failed <= new_total
        }),
{
}

} // verus!
