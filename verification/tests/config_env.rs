use lamport_sdk::config::Config;

fn some(s: &str) -> Option<String> {
    Some(s.to_string())
}

#[test]
fn unset_environment_gives_defaults() {
    let c = Config::from_env_values(None, None, None, None, None, None);
    assert_eq!(c.rpc_endpoint, "https://api.mainnet-beta.solana.com");
    assert_eq!(c.ws_endpoint, "wss://api.mainnet-beta.solana.com");
    assert_eq!(c.commitment, "confirmed");
    assert_eq!(c.max_retries, 3);
    assert_eq!(c.timeout_secs, 30);
    assert_eq!(c.log_level, "info");
}

#[test]
fn environment_values_replace_defaults() {
    let c = Config::from_env_values(
        some("https://api.devnet.solana.com"),
        some("wss://api.devnet.solana.com"),
        some("finalized"),
        some("7"),
        some("120"),
        some("debug"),
    );
    assert_eq!(c.rpc_endpoint, "https://api.devnet.solana.com");
    assert_eq!(c.ws_endpoint, "wss://api.devnet.solana.com");
    assert_eq!(c.commitment, "finalized");
    assert_eq!(c.max_retries, 7);
    assert_eq!(c.timeout_secs, 120);
    assert_eq!(c.log_level, "debug");
}

fn retries(text: &str) -> u32 {
    Config::from_env_values(None, None, None, some(text), None, None).max_retries
}

fn timeout(text: &str) -> u64 {
    Config::from_env_values(None, None, None, None, some(text), None).timeout_secs
}

#[test]
fn numbers_parse_as_str_parse_does() {
    for text in ["0", "+5", "007", "4294967295", "", "+", "-1", "-0", " 5", "5 ", "1_000", "++5", "4294967296", "12a", "\u{0661}"] {
        let expected: u32 = text.parse().unwrap_or(3);
        assert_eq!(retries(text), expected, "max_retries from {:?}", text);
        let expected: u64 = text.parse().unwrap_or(30);
        assert_eq!(timeout(text), expected, "timeout_secs from {:?}", text);
    }
    assert_eq!(retries("+0"), 0);
    assert_eq!(retries("4294967296"), 3);
    assert_eq!(timeout("4294967296"), 4294967296);
    assert_eq!(timeout("18446744073709551615"), u64::MAX);
    assert_eq!(timeout("18446744073709551616"), 30);
    assert_eq!(timeout("99999999999999999999"), 30);
}
