use ai_proxy::usage::UsageTracker;

#[test]
fn record_and_stats() {
    let mut tracker = UsageTracker::new();
    tracker.record("anthropic-sonnet-4", "anthropic");
    tracker.record("anthropic-sonnet-4", "anthropic");
    tracker.record("gpt-4o", "openai");

    let stats = tracker.stats();
    assert_eq!(stats.total_requests, 3);
    assert_eq!(stats.per_model.get("anthropic-sonnet-4"), Some(&2));
    assert_eq!(stats.per_model.get("gpt-4o"), Some(&1));
    assert_eq!(stats.per_provider.get("anthropic"), Some(&2));
    assert_eq!(stats.per_provider.get("openai"), Some(&1));
}

#[test]
fn reset_clears_all() {
    let mut tracker = UsageTracker::new();
    tracker.record("model-a", "provider-a");
    tracker.reset();

    let stats = tracker.stats();
    assert_eq!(stats.total_requests, 0);
    assert!(stats.per_model.is_empty());
    assert!(stats.per_provider.is_empty());
}

#[test]
fn default_starts_empty() {
    let stats = UsageTracker::default().stats();
    assert_eq!(stats.total_requests, 0);
}

#[test]
fn a_snapshot_does_not_follow_the_tracker() {
    let mut tracker = UsageTracker::new();
    tracker.record("m", "p");
    let before = tracker.stats();
    tracker.record("m", "p");
    assert_eq!(before.per_model.get("m"), Some(&1));
    assert_eq!(tracker.stats().per_model.get("m"), Some(&2));
    assert!(before.per_account.is_empty());
    assert!(before.by_request.is_empty());
}

#[test]
fn uptime_starts_near_zero() {
    let tracker = UsageTracker::new();
    assert!(tracker.uptime().as_secs() < 15);
}

#[test]
fn a_reset_keeps_the_start() {
    let mut tracker = UsageTracker::new();
    tracker.record("model-a", "provider-a");
    let before = tracker.uptime();
    tracker.reset();
    assert_eq!(tracker.stats().total_requests, 0);
    assert!(tracker.stats().per_model.is_empty());
    assert!(tracker.stats().per_provider.is_empty());
    assert!(tracker.uptime() >= before);
}
