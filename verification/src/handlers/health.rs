//! The answer of the health check endpoint.

use vstd::prelude::*;

verus! {

/// The outcome of one dependency check.
#[derive(Debug)]
pub struct HealthCheck {
    pub name: String,
    pub status: &'static str,
    pub latency_ms: u128,
}

/// The body of a health check answer.
#[derive(Debug)]
pub struct HealthResponse {
    pub status: &'static str,
    pub version: &'static str,
    pub uptime_secs: u64,
    pub checks: Vec<HealthCheck>,
}

/// The health report of a service of the given version that has been up for
/// `uptime_secs`, whose RPC check answered `rpc_ok` after `rpc_latency_ms`: the
/// service reports itself healthy, with one check for the Solana RPC node that
/// is `ok` when the node answered and `degraded` when it did not.
pub fn health_response(
    version: &'static str,
    uptime_secs: u64,
    rpc_ok: bool,
    rpc_latency_ms: u128,
) -> (r: HealthResponse)
    ensures
        r.status@ == "healthy"@,
        r.version == version,
        r.uptime_secs == uptime_secs,
        r.checks@.len() == 1,
        r.checks@[0].name@ == "solana_rpc"@,
        r.checks@[0].status@ == (if rpc_ok {
            "ok"@
        } else {
            "degraded"@
        }),
        r.checks@[0].latency_ms == rpc_latency_ms,
{
    let mut checks: Vec<HealthCheck> = Vec::new();
    checks.push(
        HealthCheck {
            name: String::from_str("solana_rpc"),
            status: if rpc_ok {
                "ok"
            } else {
                "degraded"
            },
            latency_ms: rpc_latency_ms,
        },
    );
    HealthResponse { status: "healthy", version, uptime_secs, checks }
}

} // verus!
