use lamport_sdk::config::Config;
use lamport_sdk::error::is_valid_pubkey_2093;

#[test]
fn test_config_defaults() {
    let config = Config::default();
    assert_eq!(config.max_retries, 3);
    assert_eq!(config.timeout_secs, 30);
    assert_eq!(config.commitment, "confirmed");
}

#[test]
fn test_client_test_valid_pubkey() {
    assert!(is_valid_pubkey_2093("11111111111111111111111111111111"));
    assert!(!is_valid_pubkey_2093("short"));
    assert!(!is_valid_pubkey_2093(""));
}
