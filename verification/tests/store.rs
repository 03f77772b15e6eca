use codex_notify_core::notification::{build_notification, HookEvent, Notification};
use codex_notify_core::json::Json;
use codex_notify_core::settings::AppSettings;
use codex_notify_core::store::{copy_record, EventRecord, EventStatus, EventStore};

fn stop_event(turn: &str) -> HookEvent {
    HookEvent {
        hook_event_name: "Stop".into(),
        session_id: "s".into(),
        turn_id: turn.into(),
        session_name: String::new(),
        thread_name: String::new(),
        tool_use_id: String::new(),
        cwd: "/tmp/demo".into(),
        last_assistant_message: String::new(),
        tool_name: String::new(),
        tool_input: Json::Null,
        diagnostic: false,
    }
}

fn notification(turn: &str) -> Notification {
    build_notification(&stop_event(turn), &AppSettings::default())
}

const NOW: i64 = 1_700_000_000;

#[test]
fn deduplicates_and_retries() {
    let mut store = EventStore::new();
    assert_eq!(store.next_due_delay(), None);
    let n = notification("t");
    assert!(store.enqueue(&n, "{}".into()).1);
    assert_eq!(store.next_due_delay(), Some(0));
    assert!(!store.enqueue(&n, "{}".into()).1);
    let claimed = store.claim_due(5);
    assert_eq!(claimed.len(), 1);
    store.mark_failed(claimed[0].id, "offline", 2);
    assert_eq!(store.counts().retrying, 1);
    assert!(matches!(store.next_due_delay(), Some(1..=10)));
}

#[test]
fn second_enqueue_returns_the_first_id() {
    let mut store = EventStore::new();
    let n = notification("t");
    let (id, created) = store.enqueue_at(&n, "{}".into(), NOW);
    assert!(created);
    let (again, created_again) = store.enqueue_at(&n, "other".into(), NOW + 5);
    assert_eq!(again, id);
    assert!(!created_again);
    assert_eq!(store.records().len(), 1);
    assert_eq!(store.records()[0].payload_json, "{}");
}

#[test]
fn claimed_records_are_not_claimed_again() {
    let mut store = EventStore::new();
    for turn in ["a", "b", "c"] {
        store.enqueue_at(&notification(turn), "{}".into(), NOW);
    }
    let first = store.claim_due_at(2, NOW);
    assert_eq!(first.len(), 2);
    let second = store.claim_due_at(5, NOW);
    assert_eq!(second.len(), 1);
    assert!(first.iter().all(|r| r.id != second[0].id));
    assert_eq!(store.claim_due_at(5, NOW).len(), 0);
    // A delivery abandoned for more than five minutes is taken up again.
    let later = store.claim_due_at(5, NOW + 301);
    assert_eq!(later.len(), 3);
}

#[test]
fn claims_go_oldest_first() {
    let mut store = EventStore::new();
    store.enqueue_at(&notification("late"), "{}".into(), NOW + 10);
    store.enqueue_at(&notification("early"), "{}".into(), NOW);
    let claimed = store.claim_due_at(1, NOW + 20);
    assert_eq!(claimed[0].created_at, NOW);
}

#[test]
fn failures_back_off_then_fail_for_good() {
    let mut store = EventStore::new();
    let (id, _) = store.enqueue_at(&notification("t"), "{}".into(), NOW);
    store.claim_due_at(1, NOW);
    store.mark_failed_at(id, &"x".repeat(600), 3, NOW);
    let record: EventRecord = store.get(id).unwrap();
    assert_eq!(record.status, EventStatus::Retrying);
    assert_eq!(record.attempts, 1);
    assert_eq!(record.next_attempt_at, NOW + 10);
    assert_eq!(record.error.chars().count(), 500);
    assert_eq!(store.next_due_delay_at(NOW), Some(10));
    assert_eq!(store.claim_due_at(1, NOW + 9).len(), 0);
    assert_eq!(store.claim_due_at(1, NOW + 10).len(), 1);
    store.mark_failed_at(id, "offline", 3, NOW + 10);
    assert_eq!(store.get(id).unwrap().next_attempt_at, NOW + 40);
    store.claim_due_at(1, NOW + 40);
    store.mark_failed_at(id, "offline", 3, NOW + 40);
    let failed = store.get(id).unwrap();
    assert_eq!(failed.status, EventStatus::Failed);
    assert_eq!(failed.attempts, 3);
    assert_eq!(store.next_due_delay_at(NOW + 40), None);
}

#[test]
fn retry_requeues_failed_records() {
    let mut store = EventStore::new();
    let (a, _) = store.enqueue_at(&notification("a"), "{}".into(), NOW);
    let (b, _) = store.enqueue_at(&notification("b"), "{}".into(), NOW);
    store.claim_due_at(2, NOW);
    store.mark_failed_at(a, "x", 1, NOW);
    store.mark_failed_at(b, "x", 1, NOW);
    assert_eq!(store.retry_at(Some(a), NOW + 1), 1);
    assert_eq!(store.get(a).unwrap().status, EventStatus::Queued);
    assert_eq!(store.get(a).unwrap().error, "");
    assert_eq!(store.get(b).unwrap().status, EventStatus::Failed);
    assert_eq!(store.retry_at(None, NOW + 2), 1);
    assert_eq!(store.retry_at(None, NOW + 3), 0);
    assert_eq!(store.claim_due_at(5, NOW + 2).len(), 2);
}

#[test]
fn sent_records_are_history() {
    let mut store = EventStore::new();
    let (a, _) = store.enqueue_at(&notification("a"), "{}".into(), NOW);
    store.enqueue_at(&notification("b"), "{}".into(), NOW);
    let mut suppressed = notification("c");
    suppressed.suppressed = true;
    store.enqueue_at(&suppressed, "{}".into(), NOW);
    store.claim_due_at(1, NOW);
    store.mark_sent_at(a, NOW + 1);
    let sent = store.get(a).unwrap();
    assert_eq!(sent.status, EventStatus::Sent);
    assert_eq!(sent.sent_at, Some(NOW + 1));
    assert_eq!(sent.attempts, 1);
    let counts = store.counts();
    assert_eq!((counts.queued, counts.sent, counts.suppressed), (1, 1, 1));
    assert_eq!(store.clear_history(), 2);
    assert_eq!(store.records().len(), 1);
    assert_eq!(store.records()[0].status, EventStatus::Queued);
}

#[test]
fn listing_is_newest_first_and_filtered() {
    let mut store = EventStore::new();
    store.enqueue_at(&notification("a"), "{}".into(), NOW);
    store.enqueue_at(&notification("b"), "{}".into(), NOW + 1);
    store.enqueue_at(&notification("c"), "{}".into(), NOW + 2);
    let all = store.list(10, None);
    assert_eq!(all.iter().map(|r| r.created_at).collect::<Vec<_>>(), vec![NOW + 2, NOW + 1, NOW]);
    assert_eq!(store.list(2, None).len(), 2);
    assert_eq!(store.list(10, Some(EventStatus::Sent)).len(), 0);
    assert_eq!(store.list(10, Some(EventStatus::Queued)).len(), 3);
}

#[test]
fn statuses_read_back_from_their_text() {
    for s in [EventStatus::Queued, EventStatus::Sending, EventStatus::Retrying, EventStatus::Sent, EventStatus::Failed, EventStatus::Suppressed] {
        assert_eq!(EventStatus::parse(s.as_str()), s);
        assert_eq!(s.label(), s.as_str());
    }
    assert_eq!(EventStatus::parse("unknown"), EventStatus::Queued);
}

#[test]
fn stored_records_must_have_unique_ids_and_keys() {
    let mut store = EventStore::new();
    store.enqueue_at(&notification("a"), "{}".into(), NOW);
    let r = copy_record(&store.records()[0]);
    assert!(EventStore::from_records(vec![copy_record(&store.records()[0])], 2).is_some());
    assert!(EventStore::from_records(vec![copy_record(&store.records()[0]), r], 5).is_none());
    assert!(EventStore::from_records(vec![copy_record(&store.records()[0])], 1).is_none());
}

#[test]
fn clock_readings_become_unix_times() {
    assert_eq!(codex_notify_core::store::time_of_reading(Ok(1_700_000_000)), 1_700_000_000);
    assert_eq!(codex_notify_core::store::time_of_reading(Err(5)), -5);
    assert_eq!(codex_notify_core::store::time_of_reading(Ok(u64::MAX)), codex_notify_core::store::TIME_LIMIT);
    assert_eq!(codex_notify_core::store::time_of_reading(Err(u64::MAX)), -codex_notify_core::store::TIME_LIMIT);
}
