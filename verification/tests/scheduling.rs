use lamport_sdk::client::{format_sub_sol, LAMPORTS_PER_SOL};
use lamport_sdk::handlers::health::health_response;
use lamport_sdk::utils::retry::{after_failure, RetryStep};

#[test]
fn backoff_doubles_from_half_a_second() {
    assert_eq!(after_failure(5, 1), RetryStep::WaitMillis(500));
    assert_eq!(after_failure(5, 2), RetryStep::WaitMillis(1_000));
    assert_eq!(after_failure(5, 3), RetryStep::WaitMillis(2_000));
    assert_eq!(after_failure(5, 4), RetryStep::WaitMillis(4_000));
    assert_eq!(after_failure(5, 5), RetryStep::GiveUp);
    assert_eq!(after_failure(100, 56), RetryStep::WaitMillis(500 * (1u64 << 55)));
}

#[test]
fn gives_up_at_the_attempt_limit() {
    assert_eq!(after_failure(0, 1), RetryStep::GiveUp);
    assert_eq!(after_failure(1, 1), RetryStep::GiveUp);
    assert_eq!(after_failure(3, 7), RetryStep::GiveUp);
    assert_eq!(after_failure(3, 2), RetryStep::WaitMillis(1_000));
}

#[test]
fn sub_sol_amounts_show_nine_decimals() {
    assert_eq!(LAMPORTS_PER_SOL, 1_000_000_000);
    assert_eq!(format_sub_sol(0), "0.000000000 SOL");
    assert_eq!(format_sub_sol(42), "0.000000042 SOL");
    assert_eq!(format_sub_sol(5_000), "0.000005000 SOL");
    assert_eq!(format_sub_sol(123_456_789), "0.123456789 SOL");
    assert_eq!(format_sub_sol(999_999_999), "0.999999999 SOL");
    for lamports in [0u64, 1, 7, 10, 99, 100_000, 500_000_000, 999_999_999] {
        let sol = lamports as f64 / LAMPORTS_PER_SOL as f64;
        assert_eq!(format_sub_sol(lamports), format!("{:.9} SOL", sol));
    }
}

#[test]
fn health_reports_rpc_state() {
    let ok = health_response("1.2.3", 77, true, 4);
    assert_eq!(ok.status, "healthy");
    assert_eq!(ok.version, "1.2.3");
    assert_eq!(ok.uptime_secs, 77);
    assert_eq!(ok.checks.len(), 1);
    assert_eq!(ok.checks[0].name, "solana_rpc");
    assert_eq!(ok.checks[0].status, "ok");
    assert_eq!(ok.checks[0].latency_ms, 4);
    let degraded = health_response("1.2.3", 0, false, 900);
    assert_eq!(degraded.status, "healthy");
    assert_eq!(degraded.checks[0].status, "degraded");
    assert_eq!(degraded.checks[0].latency_ms, 900);
}
