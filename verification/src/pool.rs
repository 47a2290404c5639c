//! Pool queries.

use vstd::prelude::*;
use crate::error::{is_pubkey_text, is_valid_pubkey_2093};

verus! {

/// Validates that the given address looks like a Solana public key.
pub fn is_valid_pubkey_3860(address: &str) -> (valid: bool)
    ensures
        valid == is_pubkey_text(address),
{
    is_valid_pubkey_2093(address)
}

} // verus!
