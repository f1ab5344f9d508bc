use device_history::scheduler::{due, schedule, take_due, PendingEnrichment, GRACE_PERIOD_NANOS};

#[test]
fn grace_period_is_two_seconds() {
    assert_eq!(GRACE_PERIOD_NANOS, 2_000_000_000);
}

#[test]
fn a_lookup_is_due_when_the_grace_period_has_passed() {
    assert!(!due(1_000, 1_000));
    assert!(!due(1_000, 1_000 + GRACE_PERIOD_NANOS - 1));
    assert!(due(1_000, 1_000 + GRACE_PERIOD_NANOS));
    assert!(due(1_000, u64::MAX));
    assert!(due(0, GRACE_PERIOD_NANOS));
}

#[test]
fn a_clock_reading_before_the_queueing_counts_as_no_time() {
    assert!(!due(5_000_000_000, 0));
    assert!(!due(u64::MAX, 3));
}

#[test]
fn take_due_hands_out_only_what_is_due() {
    let mut q: Vec<PendingEnrichment> = Vec::new();
    schedule(&mut q, "early".to_string(), 0);
    schedule(&mut q, "late".to_string(), 1_500_000_000);
    schedule(&mut q, "early too".to_string(), 100);
    assert_eq!(q.len(), 3);
    assert_eq!(take_due(&mut q, 1_999_999_999), Vec::<String>::new());
    assert_eq!(q.len(), 3);
    assert_eq!(take_due(&mut q, 2_000_000_050), vec!["early".to_string()]);
    assert_eq!(take_due(&mut q, 2_000_000_100), vec!["early too".to_string()]);
    assert_eq!(q.len(), 1);
    assert_eq!(q[0].device_id, "late");
    assert_eq!(q[0].scheduled_at, 1_500_000_000);
    assert_eq!(take_due(&mut q, 3_499_999_999), Vec::<String>::new());
    assert_eq!(take_due(&mut q, 3_500_000_000), vec!["late".to_string()]);
    assert!(q.is_empty());
    assert_eq!(take_due(&mut q, u64::MAX), Vec::<String>::new());
}

#[test]
fn take_due_keeps_queue_order() {
    let mut q: Vec<PendingEnrichment> = Vec::new();
    for (id, at) in [("a", 10u64), ("b", 5_000_000_000), ("c", 20), ("d", 6_000_000_000), ("a", 30)] {
        schedule(&mut q, id.to_string(), at);
    }
    let ready = take_due(&mut q, 3_000_000_000);
    assert_eq!(ready, vec!["a".to_string(), "c".to_string(), "a".to_string()]);
    let left: Vec<&str> = q.iter().map(|p| p.device_id.as_str()).collect();
    assert_eq!(left, vec!["b", "d"]);
}
