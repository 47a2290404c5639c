//! Error types of the SDK and the public-key text check.

use vstd::prelude::*;
use crate::base58::{check_base58_pubkey, is_base58_pubkey};
use crate::client::{digit_char, digit_text};

verus! {

/// `serde_json::Error`, carried through `SdkError::Serialization` as it is.
#[verifier::external_type_specification]
#[verifier::external_body]
pub struct ExternalJsonError(serde_json::Error);

/// `anyhow::Error`, carried through `SdkError::Other` as it is.
#[verifier::external_type_specification]
#[verifier::external_body]
pub struct ExternalAnyError(anyhow::Error);

/// Everything that can go wrong in the SDK.
#[derive(Debug)]
pub enum SdkError {
    /// The RPC node answered with an error.
    Rpc(String),
    /// A transaction failed.
    Transaction(String),
    /// A value could not be (de)serialized.
    Serialization(serde_json::Error),
    /// An input was rejected.
    Validation(String),
    /// The operation timed out after the given number of seconds.
    Timeout(u64),
    /// The node rate-limited us; retry after the given number of milliseconds.
    RateLimited(u64),
    /// The requested item does not exist.
    NotFound(String),
    /// Any other error.
    Other(anyhow::Error),
}

/// The result type of the SDK.
pub type Result<T> = std::result::Result<T, SdkError>;

/// The errors after which repeating the same request may succeed: RPC errors,
/// timeouts and rate limiting.
pub open spec fn retryable(e: SdkError) -> bool {
    e is Rpc || e is Timeout || e is RateLimited
}

/// Whether an error is worth retrying depends on its kind alone, never on
/// what it carries: every RPC error, every timeout and every rate limit is,
/// and no other error is.
pub proof fn lemma_retryable_by_kind(
    text: String,
    n: u64,
    json: serde_json::Error,
    other: anyhow::Error,
)
    ensures
        retryable(SdkError::Rpc(text)),
        retryable(SdkError::Timeout(n)),
        retryable(SdkError::RateLimited(n)),
        !retryable(SdkError::Transaction(text)),
        !retryable(SdkError::Serialization(json)),
        !retryable(SdkError::Validation(text)),
        !retryable(SdkError::NotFound(text)),
        !retryable(SdkError::Other(other)),
{
}

impl SdkError {
    /// Whether repeating the failed request may succeed.
    pub fn is_retryable(&self) -> (r: bool)
        ensures
            r == retryable(*self),
            r == (self is Rpc || self is Timeout || self is RateLimited),
    {
        match self {
            SdkError::Rpc(_) | SdkError::Timeout(_) | SdkError::RateLimited(_) => true,
            _ => false,
        }
    }
}

impl From<serde_json::Error> for SdkError {
    fn from(err: serde_json::Error) -> (r: SdkError) {
        SdkError::Serialization(err)
    }
}

impl vstd::std_specs::convert::FromSpecImpl<serde_json::Error> for SdkError {
    open spec fn obeys_from_spec() -> bool {
        true
    }

    open spec fn from_spec(err: serde_json::Error) -> SdkError {
        SdkError::Serialization(err)
    }
}

impl From<anyhow::Error> for SdkError {
    fn from(err: anyhow::Error) -> (r: SdkError) {
        SdkError::Other(err)
    }
}

impl vstd::std_specs::convert::FromSpecImpl<anyhow::Error> for SdkError {
    open spec fn obeys_from_spec() -> bool {
        true
    }

    open spec fn from_spec(err: anyhow::Error) -> SdkError {
        SdkError::Other(err)
    }
}

/// The text of a `serde_json::Error` (its `Display`): the error's message and
/// where in the input it arose. That text may come from an I/O error, so
/// nothing is promised of it.
#[verifier::external_body]
fn json_error_display(err: &serde_json::Error) -> String {
    err.to_string()
}

/// The text of an `anyhow::Error` (its `Display`), which is whatever the error
/// it wraps displays, so nothing is promised of it.
#[verifier::external_body]
fn any_error_display(err: &anyhow::Error) -> String {
    err.to_string()
}

/// The decimal digits of `n`, most significant first, without leading zeros.
pub open spec fn decimal_digits(n: nat) -> Seq<char>
    decreases n,
{
    if n < 10 {
        seq![digit_char(n)]
    } else {
        decimal_digits(n / 10).push(digit_char(n % 10))
    }
}

/// Appends the decimal digits of `n` to `text`.
fn push_decimal(text: &mut String, n: u64)
    ensures
        final(text)@ == old(text)@ + decimal_digits(n as nat),
    decreases n,
{
    if n >= 10 {
        push_decimal(text, n / 10);
    }
    text.append(digit_text(n % 10));
    proof {
        if n >= 10 {
            assert(old(text)@ + decimal_digits((n / 10) as nat) + seq![digit_char((n % 10) as nat)]
                =~= old(text)@ + decimal_digits(n as nat));
        } else {
            assert(old(text)@ + seq![digit_char(n as nat)] =~= old(text)@ + decimal_digits(
                n as nat,
            ));
        }
    }
}

/// The prefix of the message of a serialization error.
pub open spec fn serialization_prefix() -> Seq<char> {
    "Serialization error: "@
}

/// The message of an error whose text the SDK writes itself; `None` for a
/// serialization error and for any other error, whose texts come from the
/// errors they carry.
pub open spec fn plain_message(e: SdkError) -> Option<Seq<char>> {
    match e {
        SdkError::Rpc(s) => Some("RPC error: "@ + s@),
        SdkError::Transaction(s) => Some("Transaction failed: "@ + s@),
        SdkError::Serialization(_) => None,
        SdkError::Validation(s) => Some("Invalid input: "@ + s@),
        SdkError::Timeout(n) => Some("Timeout after "@ + decimal_digits(n as nat) + " seconds"@),
        SdkError::RateLimited(n) => Some(
            "Rate limited, retry after "@ + decimal_digits(n as nat) + "ms"@,
        ),
        SdkError::NotFound(s) => Some("Not found: "@ + s@),
        SdkError::Other(_) => None,
    }
}

/// The message of a serialization error whose error displays `detail`.
pub fn serialization_message(detail: &str) -> (m: String)
    ensures
        m@ == serialization_prefix() + detail@,
{
    let mut m = String::from_str("Serialization error: ");
    m.append(detail);
    m
}

impl SdkError {
    /// The error's message, as the SDK shows it.
    pub fn message(&self) -> (m: String)
        ensures
            match plain_message(*self) {
                Some(text) => m@ == text,
                None => self is Serialization ==> serialization_prefix().is_prefix_of(m@),
            },
    {
        match self {
            SdkError::Rpc(s) => {
                let mut m = String::from_str("RPC error: ");
                m.append(s.as_str());
                m
            },
            SdkError::Transaction(s) => {
                let mut m = String::from_str("Transaction failed: ");
                m.append(s.as_str());
                m
            },
            SdkError::Serialization(j) => {
                let detail = json_error_display(j);
                serialization_message(detail.as_str())
            },
            SdkError::Validation(s) => {
                let mut m = String::from_str("Invalid input: ");
                m.append(s.as_str());
                m
            },
            SdkError::Timeout(n) => {
                let mut m = String::from_str("Timeout after ");
                push_decimal(&mut m, *n);
                m.append(" seconds");
                m
            },
            SdkError::RateLimited(n) => {
                let mut m = String::from_str("Rate limited, retry after ");
                push_decimal(&mut m, *n);
                m.append("ms");
                m
            },
            SdkError::NotFound(s) => {
                let mut m = String::from_str("Not found: ");
                m.append(s.as_str());
                m
            },
            SdkError::Other(a) => any_error_display(a),
        }
    }
}

/// The text of a Solana public key: base58 that decodes to exactly 32 bytes.
pub open spec fn is_pubkey_text(address: &str) -> bool {
    is_base58_pubkey(address@)
}

/// Validates that the given address is a valid Solana public key: base58 text
/// of exactly 32 bytes.
pub fn is_valid_pubkey_2093(address: &str) -> (valid: bool)
    ensures
        valid == is_pubkey_text(address),
{
    check_base58_pubkey(address)
}

} // verus!
