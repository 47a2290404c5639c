//! Utilities: a time-to-live cache, retry scheduling, and the rules that a
//! connection pool's limits must satisfy.

use vstd::prelude::*;

pub mod cache;
pub mod retry;

verus! {

/// The `Duration` that `Duration::from_secs(secs)` builds.
pub uninterp spec fn duration_of_secs(secs: u64) -> std::time::Duration;

/// `Duration::from_secs`: a duration of exactly `secs` whole seconds. The value
/// is only named here; nothing in this crate looks inside it.
#[verifier::external_body]
pub(crate) fn duration_from_secs(secs: u64) -> (d: std::time::Duration)
    ensures
        d == duration_of_secs(secs),
{
    std::time::Duration::from_secs(secs)
}

/// `Duration` is `Copy`; its `clone` returns the same duration.
pub assume_specification[ <std::time::Duration as Clone>::clone ](d: &std::time::Duration) -> (r: std::time::Duration)
    ensures
        r == *d,
;

/// What a pool configuration's validation says of the given limits: `None`
/// when they are acceptable, otherwise the message of the first rule broken.
pub open spec fn pool_limits_error(min_connections: usize, max_connections: usize) -> Option<
    Seq<char>,
> {
    if min_connections > max_connections {
        Some("min_connections cannot exceed max_connections"@)
    } else if max_connections == 0 {
        Some("max_connections must be at least 1"@)
    } else {
        None
    }
}

/// Limits that validation accepts are usable: the pool may hold at least one
/// connection, and its minimum does not exceed its maximum.
pub proof fn lemma_accepted_pool_limits(min_connections: usize, max_connections: usize)
    requires
        pool_limits_error(min_connections, max_connections) is None,
    ensures
        1 <= max_connections,
        min_connections <= max_connections,
{
}

/// Validation accepts exactly the usable limits: those with a maximum of at
/// least one and a minimum no larger than the maximum. When it rejects, a
/// minimum above the maximum is reported first.
pub proof fn lemma_pool_limits_accepted_iff_usable(min_connections: usize, max_connections: usize)
    ensures
        pool_limits_error(min_connections, max_connections) is None <==> (1 <= max_connections
            && min_connections <= max_connections),
        min_connections > max_connections ==> pool_limits_error(min_connections, max_connections)
            == Some("min_connections cannot exceed max_connections"@),
        min_connections <= max_connections && max_connections == 0 ==> pool_limits_error(
            min_connections,
            max_connections,
        ) == Some("max_connections must be at least 1"@),
{
}

/// Checks a pool's connection limits: the minimum may not exceed the maximum,
/// and the maximum must be at least one.
pub(crate) fn validate_pool_limits(min_connections: usize, max_connections: usize) -> (r: Result<(), String>)
    ensures
        match pool_limits_error(min_connections, max_connections) {
            None => r is Ok,
            Some(msg) => r matches Err(e) && e@ == msg,
        },
        r is Ok <==> (1 <= max_connections && min_connections <= max_connections),
{
    if min_connections > max_connections {
        return Err(String::from_str("min_connections cannot exceed max_connections"));
    }
    if max_connections == 0 {
        return Err(String::from_str("max_connections must be at least 1"));
    }
    Ok(())
}

} // verus!
