use logburst::config::DetectorConfig;
use logburst::detector::{detect_suspicious_identities, detect_with_rules, DetectionRule, Severity};
use logburst::events::{group_events, EventGroup, EventRecord};

fn minutes(ms: &[i64]) -> Vec<i64> {
    ms.iter().map(|m| m * 60).collect()
}

fn group(identity: &str, event: &str, ts_minutes: &[i64]) -> EventGroup {
    EventGroup {
        identity: identity.to_string(),
        event: event.to_string(),
        timestamps: minutes(ts_minutes),
    }
}

fn burst_rule(threshold: u32, window_minutes: i64) -> DetectionRule {
    DetectionRule {
        name: "Burst".to_string(),
        threshold,
        window_minutes,
        severity: Severity::High,
    }
}

#[test]
fn five_events_in_window_fire() {
    // threshold 3, window 5m; events at minutes 0..=4, latest = 4,
    // window_start = -1, count = 5 > 3: fires with count 5.
    let groups = vec![group("user:alice@1.2.3.4", "failed-password", &[0, 1, 2, 3, 4])];
    let rules = vec![burst_rule(3, 5)];
    let findings = detect_with_rules("ssh-daemon", &groups, &rules);
    assert_eq!(findings.len(), 1);
    let f = &findings[0];
    assert_eq!(f.source, "ssh-daemon");
    assert_eq!(f.rule, "Burst");
    assert_eq!(f.identity, "user:alice@1.2.3.4");
    assert_eq!(f.event, "failed-password");
    assert_eq!(f.count, 5);
    assert_eq!(f.window_minutes, 5);
    assert_eq!(f.last_seen, 4 * 60);
    assert!(matches!(f.severity, Severity::High));
}

#[test]
fn stale_events_fall_out_of_window() {
    // events at minutes 0 and 10, latest = 10, window_start = 5:
    // only the minute-10 event counts, 1 <= 3, no finding.
    let groups = vec![group("user:alice@1.2.3.4", "failed-password", &[0, 10])];
    let rules = vec![burst_rule(3, 5)];
    let findings = detect_with_rules("ssh-daemon", &groups, &rules);
    assert!(findings.is_empty());
}

#[test]
fn threshold_boundary_exact_count_never_fires() {
    // exactly T timestamps inside the window: no finding; T+1: fires.
    let at_threshold = vec![group("id", "ev", &[0, 1, 2])];
    let rules = vec![burst_rule(3, 10)];
    assert!(detect_with_rules("src", &at_threshold, &rules).is_empty());

    let above = vec![group("id", "ev", &[0, 1, 2, 3])];
    let findings = detect_with_rules("src", &above, &rules);
    assert_eq!(findings.len(), 1);
    assert_eq!(findings[0].count, 4);
}

#[test]
fn window_boundary_is_inclusive() {
    // latest = minute 5, window 5m, window_start = minute 0: the event
    // exactly at minute 0 is counted, so count = 2 > 1 fires.
    let groups = vec![group("id", "ev", &[0, 5])];
    let rules = vec![burst_rule(1, 5)];
    let findings = detect_with_rules("src", &groups, &rules);
    assert_eq!(findings.len(), 1);
    assert_eq!(findings[0].count, 2);

    // one second before the boundary is outside: count = 1, no finding.
    let groups2 = vec![EventGroup {
        identity: "id".to_string(),
        event: "ev".to_string(),
        timestamps: vec![-1, 5 * 60],
    }];
    assert!(detect_with_rules("src", &groups2, &rules).is_empty());
}

#[test]
fn window_anchors_at_latest_event_not_now() {
    // t0 and t0 + window + 1s: only the later event is counted,
    // wherever the detector's wall clock may stand.
    let t0 = 1_700_000_000_i64;
    let groups = vec![EventGroup {
        identity: "id".to_string(),
        event: "ev".to_string(),
        timestamps: vec![t0, t0 + 5 * 60 + 1],
    }];
    let rules = vec![burst_rule(0, 5)];
    let findings = detect_with_rules("src", &groups, &rules);
    assert_eq!(findings.len(), 1);
    assert_eq!(findings[0].count, 1);
    assert_eq!(findings[0].last_seen, t0 + 5 * 60 + 1);
}

#[test]
fn empty_groups_are_skipped() {
    let groups = vec![EventGroup {
        identity: "id".to_string(),
        event: "ev".to_string(),
        timestamps: vec![],
    }];
    let rules = vec![burst_rule(0, 5)];
    assert!(detect_with_rules("src", &groups, &rules).is_empty());
}

#[test]
fn every_rule_sees_every_group() {
    // rule-major composition: one group can fire several rules, and
    // findings come rule by rule in input order.
    let groups = vec![
        group("a", "ev", &[0, 1, 2, 3]),
        group("b", "ev", &[0]),
    ];
    let rules = vec![
        DetectionRule {
            name: "Loose".to_string(),
            threshold: 0,
            window_minutes: 10,
            severity: Severity::Low,
        },
        DetectionRule {
            name: "Tight".to_string(),
            threshold: 3,
            window_minutes: 10,
            severity: Severity::High,
        },
    ];
    let findings = detect_with_rules("src", &groups, &rules);
    assert_eq!(findings.len(), 3);
    assert_eq!(findings[0].rule, "Loose");
    assert_eq!(findings[0].identity, "a");
    assert_eq!(findings[1].rule, "Loose");
    assert_eq!(findings[1].identity, "b");
    assert_eq!(findings[2].rule, "Tight");
    assert_eq!(findings[2].identity, "a");
    assert_eq!(findings[2].count, 4);
}

#[test]
fn single_rule_detector_reports_counts() {
    let groups = vec![
        group("user:alice", "failed-password", &[0, 1, 2, 3, 4]),
        group("user:bob", "failed-password", &[0]),
    ];
    let config = DetectorConfig::default();
    assert_eq!(config.error_threshold, 3);
    assert_eq!(config.window_minutes, 5);
    let suspicious = detect_suspicious_identities(&groups, &config);
    assert_eq!(suspicious.len(), 1);
    assert_eq!(suspicious[0].0 .0, "user:alice");
    assert_eq!(suspicious[0].0 .1, "failed-password");
    assert_eq!(suspicious[0].1, 5);

    let lenient = DetectorConfig::new(10, 5);
    assert!(detect_suspicious_identities(&groups, &lenient).is_empty());
}

#[test]
fn severity_labels() {
    assert_eq!(Severity::Low.label(), "low");
    assert_eq!(Severity::Medium.label(), "medium");
    assert_eq!(Severity::High.label(), "high");
}

#[test]
fn grouping_keeps_order_and_merges_keys() {
    let records = vec![
        EventRecord { identity: "a".to_string(), event: "x".to_string(), ts: 1 },
        EventRecord { identity: "b".to_string(), event: "x".to_string(), ts: 2 },
        EventRecord { identity: "a".to_string(), event: "x".to_string(), ts: 3 },
        EventRecord { identity: "a".to_string(), event: "y".to_string(), ts: 4 },
    ];
    let groups = group_events(&records);
    assert_eq!(groups.len(), 3);
    assert_eq!(groups[0].identity, "a");
    assert_eq!(groups[0].event, "x");
    assert_eq!(groups[0].timestamps, vec![1, 3]);
    assert_eq!(groups[1].identity, "b");
    assert_eq!(groups[1].timestamps, vec![2]);
    assert_eq!(groups[2].event, "y");
    assert_eq!(groups[2].timestamps, vec![4]);
}
