//! Core data models.

use vstd::prelude::*;

verus! {

/// A token and its on-chain metadata.
#[derive(Debug, Clone)]
pub struct TokenInfo {
    pub mint: String,
    pub name: String,
    pub symbol: String,
    pub decimals: u8,
    pub supply: u64,
    pub uri: Option<String>,
    pub created_at: i64,
}

} // verus!
