//! Request middleware.

pub mod rate_limiter;
