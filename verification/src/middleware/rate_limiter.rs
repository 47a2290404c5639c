//! Connection limits of a rate-limited service.

use vstd::prelude::*;
use crate::utils::{duration_from_secs, duration_of_secs, pool_limits_error, validate_pool_limits};

verus! {

/// Connection pool configuration.
#[derive(Debug, Clone)]
pub struct PoolConfig_1223 {
    pub min_connections: usize,
    pub max_connections: usize,
    pub idle_timeout: std::time::Duration,
    pub max_lifetime: std::time::Duration,
}

impl Default for PoolConfig_1223 {
    /// Two to ten connections, idle for at most five minutes, living at most an hour.
    fn default() -> (config: Self)
        ensures
            config.min_connections == 2,
            config.max_connections == 10,
            config.idle_timeout == duration_of_secs(300),
            config.max_lifetime == duration_of_secs(3600),
    {
        PoolConfig_1223 {
            min_connections: 2,
            max_connections: 10,
            idle_timeout: duration_from_secs(300),
            max_lifetime: duration_from_secs(3600),
        }
    }
}

impl PoolConfig_1223 {
    /// Checks the connection limits (see `pool_limits_error`).
    pub fn validate(&self) -> (r: Result<(), String>)
        ensures
            match pool_limits_error(self.min_connections, self.max_connections) {
                None => r is Ok,
                Some(msg) => r matches Err(e) && e@ == msg,
            },
            r is Ok <==> (1 <= self.max_connections && self.min_connections <= self.max_connections),
    {
        validate_pool_limits(self.min_connections, self.max_connections)
    }
}

} // verus!
