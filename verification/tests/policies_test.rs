use deltio::subscriptions::policies::RetryPolicy;
use deltio::time::Duration;

#[test]
fn calculate_backoff_first_attempt() {
    let policy = RetryPolicy {
        minimum_backoff: Duration::from_secs(1),
        maximum_backoff: Duration::from_secs(60),
    };
    // First retry: min_backoff * 2^0 = 1s
    assert_eq!(policy.calculate_backoff(1), Duration::from_secs(1));
}

#[test]
fn calculate_backoff_exponential() {
    let policy = RetryPolicy {
        minimum_backoff: Duration::from_secs(1),
        maximum_backoff: Duration::from_secs(60),
    };
    // attempt 2: 1 * 2^1 = 2s
    assert_eq!(policy.calculate_backoff(2), Duration::from_secs(2));
    // attempt 3: 1 * 2^2 = 4s
    assert_eq!(policy.calculate_backoff(3), Duration::from_secs(4));
    // attempt 4: 1 * 2^3 = 8s
    assert_eq!(policy.calculate_backoff(4), Duration::from_secs(8));
}

#[test]
fn calculate_backoff_capped_at_max() {
    let policy = RetryPolicy {
        minimum_backoff: Duration::from_secs(1),
        maximum_backoff: Duration::from_secs(10),
    };
    // attempt 5: 1 * 2^4 = 16, capped to 10
    assert_eq!(policy.calculate_backoff(5), Duration::from_secs(10));
}

#[test]
fn calculate_backoff_zero_attempt() {
    let policy = RetryPolicy {
        minimum_backoff: Duration::from_secs(2),
        maximum_backoff: Duration::from_secs(60),
    };
    // attempt 0: treated as 2^0 = 1 due to saturating_sub
    assert_eq!(policy.calculate_backoff(0), Duration::from_secs(2));
}

#[test]
fn calculate_backoff_exponent_capped_at_20() {
    let policy = RetryPolicy {
        minimum_backoff: Duration::from_secs(1),
        maximum_backoff: Duration::from_secs(u64::MAX),
    };
    // attempt 100: exponent capped at 20, so 1 * 2^20 = 1048576s
    assert_eq!(
        policy.calculate_backoff(100),
        Duration::from_secs(1_048_576)
    );
}
