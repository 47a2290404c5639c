use lamport_sdk::builder::{PoolConfig_7496, TransactionBuilder};
use lamport_sdk::middleware::rate_limiter::PoolConfig_1223;
use lamport_sdk::utils::cache::PoolConfig_5452;
use lamport_sdk::{Metrics_4661};
use lamport_sdk::cli::Metrics_7155;
use lamport_sdk::config::Metrics_7438;

use solana_sdk::instruction::{AccountMeta, Instruction};
use solana_sdk::pubkey::Pubkey;
use solana_sdk::transaction::Transaction;
use std::time::Duration;

#[test]
fn builds_the_payers_transaction() {
    let payer = Pubkey::new_unique();
    let program = Pubkey::new_unique();
    let account = Pubkey::new_unique();
    let ix1 = Instruction::new_with_bytes(program, &[1, 2, 3], vec![AccountMeta::new(account, false)]);
    let ix2 = Instruction::new_with_bytes(program, &[4], vec![AccountMeta::new_readonly(payer, true)]);
    let builder = TransactionBuilder::new()
        .instruction(ix1.clone())
        .signer(payer)
        .payer(payer)
        .instruction(ix2.clone());
    assert_eq!(builder.instruction_count(), 2);
    let tx = builder.build(solana_sdk::hash::Hash::default());
    let expected = Transaction::new_with_payer(&[ix1, ix2], Some(&payer));
    assert_eq!(tx, expected);
    assert_eq!(tx.message.account_keys[0], payer);
    assert_eq!(tx.signatures.len(), 1);
}

#[test]
fn default_builder_is_empty() {
    assert_eq!(TransactionBuilder::default().instruction_count(), 0);
    assert_eq!(TransactionBuilder::new().instruction_count(), 0);
}

#[test]
fn pool_config_defaults_and_validation() {
    let c = PoolConfig_7496::default();
    assert_eq!((c.min_connections, c.max_connections), (2, 10));
    assert_eq!(c.idle_timeout, Duration::from_secs(300));
    assert_eq!(c.max_lifetime, Duration::from_secs(3600));
    assert_eq!(c.validate(), Ok(()));
    let bad = PoolConfig_7496 { min_connections: 5, max_connections: 4, ..PoolConfig_7496::default() };
    assert_eq!(bad.validate(), Err("min_connections cannot exceed max_connections".to_string()));
    let zero = PoolConfig_1223 { min_connections: 0, max_connections: 0, ..PoolConfig_1223::default() };
    assert_eq!(zero.validate(), Err("max_connections must be at least 1".to_string()));
    let both = PoolConfig_5452 { min_connections: 1, max_connections: 0, ..PoolConfig_5452::default() };
    assert_eq!(both.validate(), Err("min_connections cannot exceed max_connections".to_string()));
    let one = PoolConfig_5452 { min_connections: 0, max_connections: 1, ..PoolConfig_5452::default() };
    assert_eq!(one.validate(), Ok(()));
    assert_eq!(PoolConfig_1223::default().validate(), Ok(()));
}

#[test]
fn metrics_count_and_wrap() {
    let mut m = Metrics_4661::new();
    m.record_success(120);
    m.record_success(80);
    m.record_failure();
    assert_eq!((m.total_requests, m.failed_requests, m.total_latency_ms), (3, 1, 200));
    let mut w = Metrics_7155::new();
    w.total_latency_ms = u64::MAX;
    w.record_success(2);
    assert_eq!((w.total_requests, w.total_latency_ms), (1, 1));
    let mut f = Metrics_7438::new();
    f.record_failure();
    f.record_failure();
    assert_eq!((f.total_requests, f.failed_requests, f.total_latency_ms), (2, 2, 0));
}

#[test]
fn header_fits_needs_a_payer_and_small_counts() {
    let program = Pubkey::new_unique();
    assert!(!TransactionBuilder::new().header_fits());
    let payer = Pubkey::new_unique();
    let ok = TransactionBuilder::new()
        .payer(payer)
        .instruction(Instruction::new_with_bytes(program, &[], vec![AccountMeta::new(payer, true)]));
    assert!(ok.header_fits());

    // 254 read-only accounts that do not sign, plus the program: 255 fit.
    let metas: Vec<AccountMeta> = (0..254).map(|_| AccountMeta::new_readonly(Pubkey::new_unique(), false)).collect();
    let b = TransactionBuilder::new().payer(payer).instruction(Instruction::new_with_bytes(program, &[], metas.clone()));
    assert!(b.header_fits());
    let tx = b.build(solana_sdk::hash::Hash::default());
    assert_eq!(tx.message.header.num_readonly_unsigned_accounts, 255);

    // One more does not.
    let mut more = metas.clone();
    more.push(AccountMeta::new_readonly(Pubkey::new_unique(), false));
    let b = TransactionBuilder::new().payer(payer).instruction(Instruction::new_with_bytes(program, &[], more));
    assert!(!b.header_fits());

    // Repeated keys count once, and a writable mention makes a key writable.
    let mut repeated = metas.clone();
    repeated.extend(metas.iter().cloned());
    repeated.push(AccountMeta::new(metas[0].pubkey, false));
    repeated.push(AccountMeta::new_readonly(Pubkey::new_unique(), false));
    let b = TransactionBuilder::new().payer(payer).instruction(Instruction::new_with_bytes(program, &[], repeated));
    assert!(b.header_fits());

    // 255 signers besides the payer are too many.
    let signers: Vec<AccountMeta> = (0..255).map(|_| AccountMeta::new(Pubkey::new_unique(), true)).collect();
    let b = TransactionBuilder::new().payer(payer).instruction(Instruction::new_with_bytes(program, &[], signers));
    assert!(!b.header_fits());
}
