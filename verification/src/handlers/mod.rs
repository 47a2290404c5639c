//! Service endpoints.

pub mod health;
