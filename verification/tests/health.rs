use llm_router::duration::Duration;
use llm_router::health::BackendHealth;

#[test]
fn test_new_health_is_healthy() {
    let health = BackendHealth::new();
    assert!(health.is_healthy());
}

#[test]
fn test_record_success_resets_failure_count() {
    let mut health = BackendHealth::new();

    health.record_failure(3);
    health.record_failure(3);

    health.record_success();

    assert!(!health.record_failure(3));
    assert!(!health.record_failure(3));
}

#[test]
fn test_record_failure_under_threshold() {
    let mut health = BackendHealth::new();

    assert!(!health.record_failure(3));
    assert!(!health.record_failure(3));
}

#[test]
fn test_record_failure_at_threshold() {
    let mut health = BackendHealth::new();

    assert!(!health.record_failure(3));
    assert!(!health.record_failure(3));
    assert!(health.record_failure(3));
}

#[test]
fn test_set_cooldown_makes_unhealthy() {
    let mut health = BackendHealth::new();

    for _ in 0..3 {
        health.record_failure(3);
    }

    health.set_cooldown(Duration::from_secs(10));

    assert!(!health.is_healthy());
}

#[test]
fn test_multiple_success_resets_cooldown() {
    let mut health = BackendHealth::new();

    for _ in 0..3 {
        health.record_failure(3);
    }
    health.set_cooldown(Duration::from_secs(10));

    assert!(!health.is_healthy());

    health.record_success();

    assert!(health.is_healthy());
}

#[test]
fn test_default() {
    let health = BackendHealth::default();
    assert!(health.is_healthy());
}

/// Times in nanoseconds.
fn secs(n: u128) -> u128 {
    n * 1_000_000_000
}

#[test]
fn test_cooldown_expires() {
    let mut health = BackendHealth::new();

    health.record_failure(3);
    health.record_failure(3);
    health.set_cooldown(Duration::from_secs(1));

    assert!(!health.is_healthy());

    let start = std::time::Instant::now();
    while start.elapsed().as_millis() < 1100 {}

    assert!(health.is_healthy());
}

#[test]
fn cooldown_ends_when_it_says() {
    let mut health = BackendHealth::new();
    health.set_cooldown_at(secs(5), Duration::from_secs(1));
    assert!(!health.is_healthy_at(secs(5)));
    assert!(!health.is_healthy_at(secs(6) - 1));
    assert!(health.is_healthy_at(secs(5) + 1_100_000_000));
    assert!(health.is_healthy_at(secs(6)));
}

#[test]
fn what_is_left_of_a_cooldown() {
    let mut health = BackendHealth::new();
    assert_eq!(health.remaining_cooldown(), None);
    assert_eq!(health.remaining_cooldown_at(0), None);
    health.set_cooldown_at(secs(5), Duration::from_secs(10));
    assert_eq!(health.remaining_cooldown_at(secs(5)), Some(Duration::from_secs(10)));
    assert_eq!(health.remaining_cooldown_at(secs(8)), Some(Duration::from_secs(7)));
    assert_eq!(health.remaining_cooldown_at(secs(15)), Some(Duration::from_secs(0)));
    assert_eq!(health.remaining_cooldown_at(secs(15) + 1), None);
    health.record_success();
    assert_eq!(health.remaining_cooldown_at(secs(6)), None);
}

#[test]
fn cooldown_by_the_clock() {
    let mut health = BackendHealth::new();
    health.set_cooldown(Duration::from_secs(3600));
    let left = health.remaining_cooldown().unwrap();
    assert!(left.as_secs() <= 3600 && left.as_secs() > 3000);
    health.set_cooldown(Duration::from_nanos(1));
    let start = std::time::Instant::now();
    while start.elapsed().as_millis() < 2 {}
    assert!(health.is_healthy());
}

#[test]
fn no_second_cooldown_without_success() {
    let mut health = BackendHealth::new();
    assert!(health.record_failure(1));
    health.set_cooldown_at(secs(1), Duration::from_secs(1));
    assert!(!health.record_failure(1));
    assert!(!health.record_failure(1));
    assert!(health.is_healthy_at(secs(9)));
    assert!(!health.record_failure(1));
    health.record_success();
    assert!(health.record_failure(1));
}

#[test]
fn no_failure_allowed() {
    let mut health = BackendHealth::new();
    assert!(health.record_failure(0));
    assert!(health.record_failure(0));
    assert!(health.is_healthy());
}

#[test]
fn the_longest_cooldown() {
    let mut health = BackendHealth::new();
    let longest = Duration::new(u64::MAX, 999_999_999);
    health.set_cooldown_at(longest.as_nanos(), longest);
    assert_eq!(health.remaining_cooldown_at(0), Some(longest));
    assert_eq!(health.remaining_cooldown_at(longest.as_nanos()), Some(longest));
}

#[test]
fn only_the_latest_cooldown_counts() {
    let mut health = BackendHealth::new();
    health.set_cooldown_at(secs(1), Duration::from_secs(100));
    health.record_failure(1);
    health.set_cooldown_at(secs(2), Duration::from_secs(3));
    assert!(!health.is_healthy_at(secs(5) - 1));
    assert!(health.is_healthy_at(secs(5)));
    health.record_failure(1);
    health.record_success();
    assert!(health.is_healthy_at(0));
}

#[test]
fn healthy_until_a_cooldown_is_set() {
    let mut health = BackendHealth::new();
    health.set_cooldown_at(0, Duration::from_secs(1));
    assert!(health.is_healthy_at(secs(1)));
    for _ in 0..5 {
        health.record_failure(1);
        assert!(health.is_healthy_at(secs(1)));
    }
    health.record_success();
    health.record_failure(1);
    assert!(health.is_healthy_at(0));
}
