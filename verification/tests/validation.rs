use lamport_sdk::config::is_valid_pubkey_4273;
use lamport_sdk::error::{is_valid_pubkey_2093, serialization_message, SdkError};
use lamport_sdk::pool::is_valid_pubkey_3860;
use solana_sdk::pubkey::Pubkey;

#[test]
fn config_test_valid_pubkey() {
    assert!(is_valid_pubkey_4273("11111111111111111111111111111111"));
    assert!(!is_valid_pubkey_4273("short"));
    assert!(!is_valid_pubkey_4273(""));
}

#[test]
fn error_test_valid_pubkey() {
    assert!(is_valid_pubkey_2093("11111111111111111111111111111111"));
    assert!(!is_valid_pubkey_2093("short"));
    assert!(!is_valid_pubkey_2093(""));
}

#[test]
fn pool_test_valid_pubkey() {
    assert!(is_valid_pubkey_3860("11111111111111111111111111111111"));
    assert!(!is_valid_pubkey_3860("short"));
    assert!(!is_valid_pubkey_3860(""));
}

fn solana_accepts(text: &str) -> bool {
    text.parse::<Pubkey>().is_ok()
}

#[test]
fn pubkey_check_agrees_with_solana() {
    let mut texts: Vec<String> = vec![
        "11111111111111111111111111111111".to_string(),
        "111111111111111111111111111111111".to_string(),
        "1111111111111111111111111111111".to_string(),
        "So11111111111111111111111111111111111111112".to_string(),
        "TokenkegQfeZyiNwAJbNbGKPFXCWuBvf9Ss623VxDA5".to_string(),
        "zzzzzzzzzzzzzzzzzzzzzzzzzzzzzzzzzzzzzzzzzzzz".to_string(),
        "JEKNVnkbo3jma5nREBBJCDoXFVeKkD56V3xKrvRmWxFG".to_string(),
        "JEKNVnkbo3jma5nREBBJCDoXFVeKkD56V3xKrvRmWxFH".to_string(),
        "0".repeat(32),
        "O".repeat(32),
        "I".repeat(32),
        "l".repeat(32),
        "a".repeat(44),
        "a".repeat(45),
        "2".repeat(44),
        "\u{e9}".repeat(16),
        "\u{4e2d}".repeat(11),
        String::new(),
        "short".to_string(),
    ];
    for _ in 0..200 {
        texts.push(Pubkey::new_unique().to_string());
    }
    let mut seed: u64 = 0x2545_f491_4f6c_dd1d;
    let alphabet: Vec<char> = "123456789ABCDEFGHJKLMNPQRSTUVWXYZabcdefghijkmnopqrstuvwxyz".chars().collect();
    for len in 30..47 {
        for _ in 0..40 {
            let mut t = String::new();
            for _ in 0..len {
                seed ^= seed << 13;
                seed ^= seed >> 7;
                seed ^= seed << 17;
                t.push(alphabet[(seed % 58) as usize]);
            }
            texts.push(t);
        }
    }
    for t in &texts {
        let expected = solana_accepts(t);
        assert_eq!(is_valid_pubkey_2093(t), expected, "{:?}", t);
        assert_eq!(is_valid_pubkey_4273(t), expected, "{:?}", t);
        assert_eq!(is_valid_pubkey_3860(t), expected, "{:?}", t);
    }
}

#[test]
fn pubkey_check_rejects_characters_outside_base58() {
    assert!(!is_valid_pubkey_2093(&"0".repeat(32)));
    assert!(!is_valid_pubkey_2093(&"O".repeat(32)));
    assert!(!is_valid_pubkey_4273(&"l".repeat(32)));
    assert!(!is_valid_pubkey_3860(&"\u{e9}".repeat(16)));
    let mut key = "1".repeat(31);
    key.push('-');
    assert!(!is_valid_pubkey_3860(&key));
    assert!(is_valid_pubkey_4273("So11111111111111111111111111111111111111112"));
    assert!(is_valid_pubkey_2093(&"1".repeat(32)));
    assert!(!is_valid_pubkey_2093(&"1".repeat(33)));
}

#[test]
fn retryable_errors() {
    assert!(SdkError::Rpc("down".to_string()).is_retryable());
    assert!(SdkError::Timeout(30).is_retryable());
    assert!(SdkError::RateLimited(500).is_retryable());
    assert!(!SdkError::Transaction("failed".to_string()).is_retryable());
    assert!(!SdkError::Validation("bad".to_string()).is_retryable());
    assert!(!SdkError::NotFound("mint".to_string()).is_retryable());
    let json_err = serde_json::from_str::<u32>("not json").unwrap_err();
    let err: SdkError = json_err.into();
    assert!(matches!(err, SdkError::Serialization(_)));
    assert!(!err.is_retryable());
    let err: SdkError = anyhow::Error::msg("other").into();
    assert!(matches!(err, SdkError::Other(_)));
    assert!(!err.is_retryable());
}

#[test]
fn error_messages() {
    assert_eq!(SdkError::Rpc("down".to_string()).message(), "RPC error: down");
    assert_eq!(SdkError::Transaction("x".to_string()).message(), "Transaction failed: x");
    assert_eq!(SdkError::Validation("bad".to_string()).message(), "Invalid input: bad");
    assert_eq!(SdkError::Timeout(30).message(), "Timeout after 30 seconds");
    assert_eq!(SdkError::Timeout(0).message(), "Timeout after 0 seconds");
    assert_eq!(SdkError::RateLimited(1500).message(), "Rate limited, retry after 1500ms");
    assert_eq!(SdkError::RateLimited(u64::MAX).message(), format!("Rate limited, retry after {}ms", u64::MAX));
    assert_eq!(SdkError::NotFound("mint".to_string()).message(), "Not found: mint");
    let json_err = serde_json::from_str::<u32>("not json").unwrap_err();
    let expected = format!("Serialization error: {}", json_err);
    assert_eq!(SdkError::Serialization(json_err).message(), expected);
    assert_eq!(SdkError::Other(anyhow::Error::msg("boom")).message(), "boom");
    // An I/O error inside a serde_json error keeps the prefix.
    let io = std::io::Error::new(std::io::ErrorKind::Other, "disk");
    let m = SdkError::Serialization(serde_json::Error::io(io)).message();
    assert!(m.starts_with("Serialization error: "));
}

#[test]
fn serialization_messages_carry_the_detail() {
    assert_eq!(serialization_message("eof"), "Serialization error: eof");
    assert_eq!(serialization_message(""), "Serialization error: ");
    assert_eq!(lamport_sdk::VERSION, "0.1.0");
}
