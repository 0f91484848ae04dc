use logburst::detector::Severity;
use logburst::findings::Finding;
use logburst::state::SeenState;

fn finding(rule: &str, identity: &str, event: &str, count: u32) -> Finding {
    Finding {
        source: "cloud-audit".to_string(),
        rule: rule.to_string(),
        severity: Severity::Medium,
        identity: identity.to_string(),
        event: event.to_string(),
        count,
        window_minutes: 5,
        last_seen: 0,
    }
}

#[test]
fn dedup_key_layout() {
    let f = finding("Burst", "user:alice", "failed-password", 5);
    assert_eq!(f.dedup_key(), "Burst|user:alice|failed-password");
}

#[test]
fn dedup_key_ignores_magnitude() {
    // same (rule, identity, event) but different severity, count and
    // timestamp collapse to one key.
    let a = finding("Burst", "user:alice", "failed-password", 5);
    let mut b = finding("Burst", "user:alice", "failed-password", 99);
    b.severity = Severity::Low;
    b.last_seen = 12345;
    assert_eq!(a.dedup_key(), b.dedup_key());
}

#[test]
fn unknown_key_is_new() {
    let state = SeenState::new();
    assert!(state.is_new("Burst|user:alice|failed-password", 0, 60));
}

#[test]
fn ttl_boundary_at_minutes() {
    // marked at t = 0; queried at 59m with ttl 60m: suppressed;
    // at 61m: new again.
    let mut state = SeenState::new();
    state.mark_seen("Burst|user:alice|failed-password".to_string(), 0);
    assert!(!state.is_new("Burst|user:alice|failed-password", 59 * 60, 60));
    assert!(state.is_new("Burst|user:alice|failed-password", 61 * 60, 60));
}

#[test]
fn ttl_boundary_exact_age_is_not_new() {
    // age == ttl exactly is not new; one second past it is.
    let mut state = SeenState::new();
    state.mark_seen("k".to_string(), 100);
    assert!(!state.is_new("k", 100 + 60 * 60, 60));
    assert!(state.is_new("k", 100 + 60 * 60 + 1, 60));
}

#[test]
fn mark_seen_overwrites() {
    let mut state = SeenState::new();
    state.mark_seen("k".to_string(), 0);
    state.mark_seen("k".to_string(), 1000);
    // age now measured from the overwritten instant
    assert!(!state.is_new("k", 1000 + 3600, 60));
    assert!(state.is_new("k", 1000 + 3601, 60));
    assert_eq!(state.snapshot().len(), 1);
}

#[test]
fn from_entries_round_trip() {
    let mut state = SeenState::new();
    state.mark_seen("a".to_string(), 1);
    state.mark_seen("b".to_string(), 2);
    let reloaded = SeenState::from_entries(state.snapshot().clone());
    assert!(!reloaded.is_new("a", 1, 60));
    assert!(!reloaded.is_new("b", 2, 60));
    assert!(reloaded.is_new("c", 0, 60));
}

#[test]
fn filter_keeps_new_and_suppresses_within_run() {
    // two findings with the same key within one run: the first wins,
    // the second is suppressed at once.
    let mut state = SeenState::new();
    let fs = vec![
        finding("Burst", "user:alice", "failed-password", 5),
        finding("Burst", "user:bob", "failed-password", 4),
        finding("Burst", "user:alice", "failed-password", 7),
    ];
    let kept = state.filter_new(&fs, 0, 60);
    assert_eq!(kept.len(), 2);
    assert_eq!(kept[0].identity, "user:alice");
    assert_eq!(kept[0].count, 5);
    assert_eq!(kept[1].identity, "user:bob");
}

#[test]
fn second_pass_is_suppressed() {
    // the same findings run through the cache twice without advancing
    // time past the TTL: the second pass keeps nothing.
    let mut state = SeenState::new();
    let fs = vec![
        finding("Burst", "user:alice", "failed-password", 5),
        finding("Burst", "user:bob", "failed-password", 4),
    ];
    let first = state.filter_new(&fs, 0, 60);
    assert_eq!(first.len(), 2);
    let second = state.filter_new(&fs, 0, 60);
    assert!(second.is_empty());
    // and still nothing just inside the TTL
    let third = state.filter_new(&fs, 60 * 60, 60);
    assert!(third.is_empty());
    // past the TTL the same condition may alert again
    let fourth = state.filter_new(&fs, 60 * 60 + 1, 60);
    assert_eq!(fourth.len(), 2);
}
