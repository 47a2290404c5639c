//! Application configuration, with values that may come from the environment.

use vstd::prelude::*;
use crate::error::{decimal_digits, is_pubkey_text, is_valid_pubkey_2093};

verus! {

/// An ASCII decimal digit.
pub open spec fn is_decimal_digit(c: char) -> bool {
    '0' <= c && c <= '9'
}

/// The value of a decimal digit (zero for any other character).
pub open spec fn digit_value(c: char) -> nat {
    if is_decimal_digit(c) {
        (c as u32 - '0' as u32) as nat
    } else {
        0
    }
}

/// The number that a string of decimal digits writes, most significant first.
pub open spec fn decimal_value(digits: Seq<char>) -> nat
    decreases digits.len(),
{
    if digits.len() == 0 {
        0
    } else {
        decimal_value(digits.drop_last()) * 10 + digit_value(digits.last())
    }
}

/// The digits of an unsigned number's text: all of it, after one leading `+` if
/// there is one.
pub open spec fn unsigned_digits(text: Seq<char>) -> Seq<char> {
    if text.len() > 0 && text[0] == '+' {
        text.drop_first()
    } else {
        text
    }
}

/// How an unsigned integer type whose largest value is `max` reads `text`
/// (`str::parse`): an optional `+`, then one or more decimal digits and nothing
/// else, writing a number no larger than `max`.
pub open spec fn parse_unsigned(text: Seq<char>, max: nat) -> Option<nat> {
    let digits = unsigned_digits(text);
    if digits.len() > 0 && (forall|i: int| 0 <= i < digits.len() ==> is_decimal_digit(#[trigger] digits[i]))
        && decimal_value(digits) <= max {
        Some(decimal_value(digits))
    } else {
        None
    }
}

/// A prefix of a digit string never writes a larger number than the whole.
proof fn lemma_prefix_value_le(digits: Seq<char>, k: int)
    requires
        0 <= k <= digits.len(),
    ensures
        decimal_value(digits.take(k)) <= decimal_value(digits),
    decreases digits.len() - k,
{
    if k < digits.len() {
        lemma_prefix_value_le(digits, k + 1);
        assert(digits.take(k + 1).drop_last() =~= digits.take(k));
    } else {
        assert(digits.take(k) =~= digits);
    }
}

/// Reads `text` as an unsigned number no larger than `max`, as `str::parse`
/// does for an unsigned integer type with that maximum.
fn parse_unsigned_text(text: &str, max: u64) -> (r: Option<u64>)
    ensures
        match parse_unsigned(text@, max as nat) {
            Some(v) => r == Some(v as u64),
            None => r is None,
        },
{
    let mut acc: u64 = 0;
    let mut at_start = true;
    let mut has_digits = false;
    let ghost mut start: int = 0;
    let chars = text.chars();
    for c in it: chars
        invariant
            it.seq() == text@,
            at_start <==> it.index() == 0,
            0 <= start <= it.index(),
            start <= 1,
            start == 1 ==> text@[0] == '+',
            start == 0 && it.index() > 0 ==> text@[0] != '+',
            has_digits <==> start < it.index(),
            forall|j: int| start <= j < it.index() ==> is_decimal_digit(#[trigger] text@[j]),
            acc == decimal_value(text@.subrange(start, it.index() as int)),
            acc <= max,
    {
        let ghost full = unsigned_digits(text@);
        let ghost count = it.index() as int;
        if at_start && c == '+' {
            proof {
                start = 1;
            }
            assert(text@.subrange(1, 1) =~= Seq::<char>::empty());
        } else if '0' <= c && c <= '9' {
            let d = (c as u32 - '0' as u32) as u64;
            let ghost prefix = text@.subrange(start, count + 1);
            assert(prefix.drop_last() =~= text@.subrange(start, count));
            assert(full =~= text@.subrange(start, text@.len() as int));
            assert(prefix =~= full.take(count - start + 1));
            if d > max {
                proof {
                    lemma_prefix_value_le(full, count - start + 1);
                }
                return None;
            }
            if acc > (max - d) / 10 {
                assert(acc * 10 + d > max) by (nonlinear_arith)
                    requires
                        acc > (max - d) / 10,
                        d <= max,
                ;
                proof {
                    lemma_prefix_value_le(full, count - start + 1);
                }
                return None;
            }
            assert(acc * 10 + d <= max) by (nonlinear_arith)
                requires
                    acc <= (max - d) / 10,
                    d <= max,
            ;
            acc = acc * 10 + d;
            has_digits = true;
        } else {
            assert(full =~= text@.subrange(start, text@.len() as int));
            assert(full[count - start] == c);
            return None;
        }
        at_start = false;
    }
    assert(unsigned_digits(text@) =~= text@.subrange(start, text@.len() as int));
    if !has_digits {
        return None;
    }
    Some(acc)
}

/// Settings of the SDK.
#[derive(Debug, Clone)]
pub struct Config {
    pub rpc_endpoint: String,
    pub ws_endpoint: String,
    pub commitment: String,
    pub max_retries: u32,
    pub timeout_secs: u64,
    pub log_level: String,
}

/// The RPC endpoint used when none is configured.
pub open spec fn default_rpc_endpoint() -> Seq<char> {
    "https://api.mainnet-beta.solana.com"@
}

/// The websocket endpoint used when none is configured.
pub open spec fn default_ws_endpoint() -> Seq<char> {
    "wss://api.mainnet-beta.solana.com"@
}

/// The commitment level used when none is configured.
pub open spec fn default_commitment() -> Seq<char> {
    "confirmed"@
}

/// The log level used when none is configured.
pub open spec fn default_log_level() -> Seq<char> {
    "info"@
}

/// The number of retries used when none is configured.
pub open spec fn default_max_retries() -> u32 {
    3
}

/// The timeout, in seconds, used when none is configured.
pub open spec fn default_timeout_secs() -> u64 {
    30
}

impl Default for Config {
    /// Mainnet endpoints, `confirmed` commitment, 3 retries, a 30 second
    /// timeout and `info` logging.
    fn default() -> (config: Self)
        ensures
            config.rpc_endpoint@ == default_rpc_endpoint(),
            config.ws_endpoint@ == default_ws_endpoint(),
            config.commitment@ == default_commitment(),
            config.max_retries == default_max_retries(),
            config.timeout_secs == default_timeout_secs(),
            config.log_level@ == default_log_level(),
    {
        Config {
            rpc_endpoint: String::from_str("https://api.mainnet-beta.solana.com"),
            ws_endpoint: String::from_str("wss://api.mainnet-beta.solana.com"),
            commitment: String::from_str("confirmed"),
            max_retries: 3,
            timeout_secs: 30,
            log_level: String::from_str("info"),
        }
    }
}

/// A text setting: the value given, or the default when there is none.
pub open spec fn text_setting(given: Option<String>, default: Seq<char>) -> Seq<char> {
    match given {
        Some(v) => v@,
        None => default,
    }
}

/// A text variable that is set is used exactly as given, and an unset one
/// leaves the default.
pub proof fn lemma_text_setting_verbatim(v: String, default: Seq<char>)
    ensures
        text_setting(Some(v), default) == v@,
        text_setting(None, default) == default,
{
}

/// The digits of a number read back as that number, with or without a
/// leading `+`, when it is no larger than `max`, and are refused otherwise; so
/// a numeric variable holding a number's digits sets exactly that number.
pub proof fn lemma_decimal_text_parses_back(n: nat, max: nat, default: nat, v: String)
    ensures
        parse_unsigned(decimal_digits(n), max) == (if n <= max {
            Some(n)
        } else {
            None
        }),
        parse_unsigned(seq!['+'] + decimal_digits(n), max) == (if n <= max {
            Some(n)
        } else {
            None
        }),
        v@ == decimal_digits(n) && n <= max ==> number_setting(Some(v), max, default) == n,
{
    lemma_decimal_digits_value(n);
    let d = decimal_digits(n);
    assert(unsigned_digits(d) == d);
    assert((seq!['+'] + d).drop_first() =~= d);
    assert(unsigned_digits(seq!['+'] + d) == d);
}

/// `decimal_digits(n)` is a non-empty string of decimal digits writing `n`.
proof fn lemma_decimal_digits_value(n: nat)
    ensures
        decimal_digits(n).len() >= 1,
        forall|i: int|
            0 <= i < decimal_digits(n).len() ==> is_decimal_digit(#[trigger] decimal_digits(n)[i]),
        decimal_value(decimal_digits(n)) == n,
    decreases n,
{
    let d = decimal_digits(n);
    assert(d.len() >= 1);
    assert(decimal_value(d) == decimal_value(d.drop_last()) * 10 + digit_value(d.last()));
    if n < 10 {
        assert(d.drop_last() =~= Seq::<char>::empty());
        assert(decimal_value(Seq::<char>::empty()) == 0);
        assert(digit_value(d.last()) == n);
    } else {
        lemma_decimal_digits_value(n / 10);
        assert(d.drop_last() =~= decimal_digits(n / 10));
        assert(digit_value(d.last()) == n % 10);
        assert((n / 10) * 10 + n % 10 == n);
    }
}

/// A numeric setting: the value given when it reads as a number no larger than
/// `max`, the default otherwise.
pub open spec fn number_setting(given: Option<String>, max: nat, default: nat) -> nat {
    match given {
        Some(v) => match parse_unsigned(v@, max) {
            Some(n) => n,
            None => default,
        },
        None => default,
    }
}

impl Config {
    /// The configuration made of the values found in the environment variables
    /// `RPC_ENDPOINT`, `WS_ENDPOINT`, `COMMITMENT`, `MAX_RETRIES`,
    /// `TIMEOUT_SECS` and `LOG_LEVEL` (`None` where a variable is unset or not
    /// Unicode). A missing value, or a number that does not parse, leaves the
    /// default in place.
    pub fn from_env_values(
        rpc_endpoint: Option<String>,
        ws_endpoint: Option<String>,
        commitment: Option<String>,
        max_retries: Option<String>,
        timeout_secs: Option<String>,
        log_level: Option<String>,
    ) -> (config: Config)
        ensures
            config.rpc_endpoint@ == text_setting(rpc_endpoint, default_rpc_endpoint()),
            config.ws_endpoint@ == text_setting(ws_endpoint, default_ws_endpoint()),
            config.commitment@ == text_setting(commitment, default_commitment()),
            config.max_retries == number_setting(
                max_retries,
                u32::MAX as nat,
                default_max_retries() as nat,
            ),
            config.timeout_secs == number_setting(
                timeout_secs,
                u64::MAX as nat,
                default_timeout_secs() as nat,
            ),
            config.log_level@ == text_setting(log_level, default_log_level()),
            rpc_endpoint matches Some(v) ==> config.rpc_endpoint@ == v@,
            ws_endpoint matches Some(v) ==> config.ws_endpoint@ == v@,
            commitment matches Some(v) ==> config.commitment@ == v@,
            log_level matches Some(v) ==> config.log_level@ == v@,
    {
        let defaults = Config::default();
        let rpc_endpoint = match rpc_endpoint {
            Some(v) => v,
            None => defaults.rpc_endpoint,
        };
        let ws_endpoint = match ws_endpoint {
            Some(v) => v,
            None => defaults.ws_endpoint,
        };
        let commitment = match commitment {
            Some(v) => v,
            None => defaults.commitment,
        };
        let max_retries: u32 = match max_retries {
            Some(v) => match parse_unsigned_text(v.as_str(), u32::MAX as u64) {
                Some(n) => n as u32,
                None => 3,
            },
            None => 3,
        };
        let timeout_secs: u64 = match timeout_secs {
            Some(v) => match parse_unsigned_text(v.as_str(), u64::MAX) {
                Some(n) => n,
                None => 30,
            },
            None => 30,
        };
        let log_level = match log_level {
            Some(v) => v,
            None => String::from_str("info"),
        };
        Config { rpc_endpoint, ws_endpoint, commitment, max_retries, timeout_secs, log_level }
    }
}

/// With none of the variables set, the configuration read from the environment
/// is the default one.
pub proof fn lemma_unset_environment_is_default()
    ensures
        text_setting(None, default_rpc_endpoint()) == default_rpc_endpoint(),
        text_setting(None, default_ws_endpoint()) == default_ws_endpoint(),
        text_setting(None, default_commitment()) == default_commitment(),
        number_setting(None, u32::MAX as nat, default_max_retries() as nat)
            == default_max_retries(),
        number_setting(None, u64::MAX as nat, default_timeout_secs() as nat)
            == default_timeout_secs(),
        text_setting(None, default_log_level()) == default_log_level(),
{
}

/// Request counters: how many requests were made, how many failed, and their
/// summed latency in milliseconds. Each counter wraps around on overflow.
pub struct Metrics_7438 {
    pub total_requests: u64,
    pub failed_requests: u64,
    pub total_latency_ms: u64,
}

impl Metrics_7438 {
    /// All counters at zero.
    pub fn new() -> (m: Self)
        ensures
            m.total_requests == 0,
            m.failed_requests == 0,
            m.total_latency_ms == 0,
    {
        Metrics_7438 { total_requests: 0, failed_requests: 0, total_latency_ms: 0 }
    }

    /// Counts a request that succeeded after `latency_ms`.
    pub fn record_success(&mut self, latency_ms: u64)
        ensures
            final(self).total_requests == old(self).total_requests.wrapping_add(1),
            final(self).failed_requests == old(self).failed_requests,
            final(self).total_latency_ms == old(self).total_latency_ms.wrapping_add(latency_ms),
    {
        self.total_requests = self.total_requests.wrapping_add(1);
        self.total_latency_ms = self.total_latency_ms.wrapping_add(latency_ms);
    }

    /// Counts a request that failed.
    pub fn record_failure(&mut self)
        ensures
            final(self).total_requests == old(self).total_requests.wrapping_add(1),
            final(self).failed_requests == old(self).failed_requests.wrapping_add(1),
            final(self).total_latency_ms == old(self).total_latency_ms,
    {
        self.total_requests = self.total_requests.wrapping_add(1);
        self.failed_requests = self.failed_requests.wrapping_add(1);
    }
}

/// Validates that the given address looks like a Solana public key.
pub fn is_valid_pubkey_4273(address: &str) -> (valid: bool)
    ensures
        valid == is_pubkey_text(address),
{
    is_valid_pubkey_2093(address)
}

} // verus!
