//! Error classification and the retry policy.

use std::collections::HashSet;

use clickhousex::retry::RetryRun;
use clickhousex::{ClickHouseError, ClickHouseResult, RetryConfig, MAX_RETRIES};

fn expect_err<T>(r: ClickHouseResult<T>, why: &str) -> ClickHouseError {
    match r {
        Err(e) => e,
        Ok(_) => panic!("{why}"),
    }
}

#[test]
fn retryable_matrix_is_exhaustive() {
    let retryable = [
        ClickHouseError::Connection("x".into()),
        ClickHouseError::Unavailable("x".into()),
        ClickHouseError::Timeout("x".into()),
        ClickHouseError::Io(std::io::Error::other("x")),
    ];
    for error in retryable {
        assert!(error.is_retryable(), "{error:?} should be retryable");
    }

    let permanent = [
        ClickHouseError::Config("x".into()),
        ClickHouseError::Backend("x".into()),
        ClickHouseError::Serialization("x".into()),
        ClickHouseError::Invalid("x".into()),
        ClickHouseError::Closed("x".into()),
        ClickHouseError::Unsupported("x".into()),
    ];
    for error in permanent {
        assert!(!error.is_retryable(), "{error:?} should not be retryable");
    }
}

#[test]
fn io_error_converts_via_from() {
    fn read() -> ClickHouseResult<()> {
        Err(std::io::Error::new(std::io::ErrorKind::UnexpectedEof, "eof").into())
    }
    assert!(matches!(read(), Err(ClickHouseError::Io(_))));
}

#[test]
fn default_config_is_valid() {
    assert!(RetryConfig::default().validate().is_ok(), "the defaults must pass");
}

#[test]
fn validate_rejects_excessive_max_retries() {
    let err = expect_err(
        RetryConfig {
            max_retries: MAX_RETRIES + 1,
            ..Default::default()
        }
        .validate(),
        "over the hard bound must be refused",
    );
    assert!(err.to_message().contains("硬上界"));
}

#[test]
fn validate_rejects_max_delay_less_than_initial() {
    let err = expect_err(
        RetryConfig {
            initial_delay: 200,
            max_delay: 100,
            ..Default::default()
        }
        .validate(),
        "max_delay < initial_delay must be refused",
    );
    assert!(err.to_message().contains("max_delay"));
}

#[test]
fn validate_rejects_zero_delays_when_enabled() {
    let err = expect_err(
        RetryConfig {
            initial_delay: 0,
            ..Default::default()
        }
        .validate(),
        "zero initial_delay must be refused",
    );
    assert!(err.to_message().contains("initial_delay"));

    let err = expect_err(
        RetryConfig {
            max_delay: 0,
            ..Default::default()
        }
        .validate(),
        "zero max_delay must be refused",
    );
    assert!(err.to_message().contains("max_delay"));
}

#[test]
fn validate_passes_when_disabled_with_zero_delays() {
    assert!(RetryConfig {
        max_retries: 0,
        initial_delay: 0,
        max_delay: 0,
        enabled: false,
    }
    .validate()
    .is_ok());
}

#[test]
fn delay_for_exponential_growth_and_cap() {
    let config = RetryConfig {
        max_retries: 5,
        initial_delay: 100,
        max_delay: 400,
        enabled: true,
    };
    let d1 = config.delay_for(1);
    let d2 = config.delay_for(2);
    let d3 = config.delay_for(3);
    let d4 = config.delay_for(4);
    assert!((75..=125).contains(&d1), "d1={d1} should be within 100±25%");
    assert!((150..=250).contains(&d2), "d2={d2} should be within 200±25%");
    assert!((300..=500).contains(&d3), "d3={d3} should be within 400±25%");
    assert!((300..=500).contains(&d4), "d4={d4} should be capped at 400±25%");
}

#[test]
fn delay_for_zero_base_returns_zero() {
    let config = RetryConfig {
        max_retries: 3,
        initial_delay: 0,
        max_delay: 5000,
        enabled: false,
    };
    assert_eq!(config.delay_for(1), 0);
    assert_eq!(config.delay_for(99), 0);
}

#[test]
fn jitter_stays_inside_configured_window() {
    let config = RetryConfig {
        max_retries: 3,
        initial_delay: 1_000,
        max_delay: 1_000,
        enabled: true,
    };
    let mut seen = HashSet::new();
    for _ in 0..64 {
        let millis = config.delay_for(1);
        assert!((750..=1_250).contains(&millis), "jitter out of range: {millis}");
        seen.insert(millis);
    }
    assert!(seen.len() > 1, "jitter must vary: {seen:?}");
}

#[test]
fn delay_for_shift_does_not_overflow() {
    let config = RetryConfig {
        max_retries: MAX_RETRIES,
        initial_delay: 100,
        max_delay: 30_000,
        enabled: true,
    };
    // a huge retry index does not panic and stays capped
    let d = config.delay_for(u32::MAX);
    assert!((22_500..=37_500).contains(&d), "d={d}");
}

#[test]
fn retry_decisions_follow_the_budget() {
    let config = RetryConfig {
        max_retries: 2,
        initial_delay: 1,
        max_delay: 10,
        enabled: true,
    };
    // retryable failures: retries 1 and 2, then the budget is spent (3 calls in all)
    assert_eq!(config.next_retry(0, true), Some(1));
    assert_eq!(config.next_retry(1, true), Some(2));
    assert_eq!(config.next_retry(2, true), None);
    // a permanent error stops at once
    assert_eq!(config.next_retry(0, false), None);
}

#[test]
fn reads_retry_only_when_enabled_and_valid() {
    let disabled = RetryConfig {
        max_retries: MAX_RETRIES + 5,
        initial_delay: 0,
        max_delay: 0,
        enabled: false,
    };
    let mut run = match RetryRun::start(disabled) {
        Ok(run) => run,
        Err(e) => panic!("a disabled policy is not checked: {e:?}"),
    };
    assert_eq!(run.after_failure(true), None, "disabled: one call only");

    let invalid = RetryConfig {
        max_retries: MAX_RETRIES + 1,
        ..Default::default()
    };
    assert!(matches!(RetryRun::start(invalid), Err(ClickHouseError::Config(_))));
}

#[test]
fn retry_run_spends_the_budget_once() {
    let config = RetryConfig {
        max_retries: 2,
        initial_delay: 10,
        max_delay: 15,
        enabled: true,
    };
    let mut run = match RetryRun::start(config) {
        Ok(run) => run,
        Err(e) => panic!("valid policy: {e:?}"),
    };
    let first = run.after_failure(true).expect("first retry");
    assert!((7..=12).contains(&first), "{first}");
    let second = run.after_failure(true).expect("second retry");
    assert!((11..=18).contains(&second), "{second}");
    assert_eq!(run.attempt, 2);
    assert_eq!(run.after_failure(true), None, "the budget is spent");
    assert_eq!(run.attempt, 2);

    let mut fresh = match RetryRun::start(config) {
        Ok(run) => run,
        Err(e) => panic!("valid policy: {e:?}"),
    };
    assert_eq!(fresh.after_failure(false), None, "a permanent error ends the read");
    assert_eq!(fresh.attempt, 0);

    let disabled = RetryConfig {
        max_retries: 0,
        enabled: false,
        ..config
    };
    let mut single = match RetryRun::start(disabled) {
        Ok(run) => run,
        Err(e) => panic!("disabled policies are not checked: {e:?}"),
    };
    assert!(!single.retrying);
    assert_eq!(single.after_failure(true), None, "one call only");
}

#[test]
fn error_messages_carry_a_fixed_prefix() {
    assert_eq!(
        ClickHouseError::Config("bad".into()).to_message(),
        "配置无效: bad"
    );
    assert_eq!(
        ClickHouseError::Timeout("slow".into()).to_message(),
        "操作超时: slow"
    );
    let io = ClickHouseError::Io(std::io::Error::other("reset"));
    assert!(io.to_message().starts_with("I/O 失败: "));
    assert!(io.to_message().contains("reset"));
}
