//! Lifecycle events and the queue.

use orchestration_event_streamer::clock::{parse_occurred_at, timestamp_or, Timestamp};
use orchestration_event_streamer::events::{
    build_pending_events, convert_lifecycle_event, convert_lifecycle_events, lifecycle_type,
    AgentRunEvent, LifecycleEventDetailStage, LifecycleEventType, PendingEventDetail,
    ReceivedMessageInput,
};
use std::time::{SystemTime, UNIX_EPOCH};

fn event(event_type: &str, run_id: &str, ref_id: Option<&str>) -> AgentRunEvent {
    AgentRunEvent {
        event_type: event_type.to_string(),
        run_id: run_id.to_string(),
        ref_id: ref_id.map(String::from),
        occurred_at: "2024-01-02T03:04:05.678Z".to_string(),
        sequence: 1,
    }
}

fn now() -> i64 {
    SystemTime::now().duration_since(UNIX_EPOCH).unwrap().as_secs() as i64
}

#[test]
fn event_types_are_mapped() {
    for (name, expected) in [
        ("run_in_progress", Some(LifecycleEventType::InProgress)),
        ("run_succeeded", Some(LifecycleEventType::Succeeded)),
        ("run_failed", Some(LifecycleEventType::Failed)),
        ("run_started", Some(LifecycleEventType::InProgress)),
        ("run_idle", Some(LifecycleEventType::Succeeded)),
        ("run_restarted", Some(LifecycleEventType::InProgress)),
        ("run_errored", Some(LifecycleEventType::Errored)),
        ("run_cancelled", Some(LifecycleEventType::Cancelled)),
        ("run_blocked", Some(LifecycleEventType::Blocked)),
        ("new_message", None),
        ("run_exploded", None),
        ("", None),
    ] {
        assert_eq!(lifecycle_type(&name.to_string()), expected);
    }
}

#[test]
fn converted_event_says_when_and_whose_it_was() {
    let converted = convert_lifecycle_events(&vec![event("run_idle", "kid", Some("why"))], "own");
    assert_eq!(converted.len(), 1);
    assert_eq!(converted[0].run_id, "kid");
    assert_eq!(converted[0].lifecycle_type, LifecycleEventType::Succeeded);
    assert_eq!(converted[0].occurred_at, Timestamp { seconds: 1704164645, nanos: 678_000_000 });
    assert_eq!(converted[0].detail.stage, None);
    assert_eq!(converted[0].detail.reason, None);
}

#[test]
fn error_carries_its_reason() {
    let converted = convert_lifecycle_events(
        &vec![event("run_errored", "kid", Some("out of fuel")), event("run_errored", "kid", None)],
        "own",
    );
    assert_eq!(converted[0].detail.stage, Some(LifecycleEventDetailStage::Runtime));
    assert_eq!(converted[0].detail.reason.as_deref(), Some("out of fuel"));
    assert_eq!(converted[1].detail.stage, Some(LifecycleEventDetailStage::Runtime));
    assert_eq!(converted[1].detail.reason, None);
}

#[test]
fn own_events_messages_and_unknown_types_are_not_converted() {
    let events = vec![
        event("run_started", "own", None),
        event("new_message", "kid", Some("m1")),
        event("run_exploded", "kid", None),
        event("run_blocked", "kid", None),
    ];
    let converted = convert_lifecycle_events(&events, "own");
    assert_eq!(converted.len(), 1);
    assert_eq!(converted[0].lifecycle_type, LifecycleEventType::Blocked);
}

#[test]
fn one_event_is_converted_under_a_given_id() {
    let at = Timestamp { seconds: 11, nanos: 12 };
    let told = event("run_cancelled", "kid", None);
    let converted = convert_lifecycle_event(&told, "own", "id".to_string(), at).unwrap();
    assert_eq!(converted.event_id, "id");
    assert_eq!(converted.occurred_at, at);
    assert_eq!(converted.lifecycle_type, LifecycleEventType::Cancelled);
    assert!(convert_lifecycle_event(&told, "kid", "id".to_string(), at).is_none());
}

#[test]
fn event_ids_are_random_uuids() {
    let events = vec![event("run_idle", "kid", None), event("run_idle", "kid", None)];
    let converted = convert_lifecycle_events(&events, "own");
    assert_ne!(converted[0].event_id, converted[1].event_id);
    for event in &converted {
        let id: Vec<char> = event.event_id.chars().collect();
        assert_eq!(id.len(), 36);
        for (i, c) in id.iter().enumerate() {
            match i {
                8 | 13 | 18 | 23 => assert_eq!(*c, '-'),
                14 => assert_eq!(*c, '4'),
                19 => assert!("89ab".contains(*c)),
                _ => assert!("0123456789abcdef".contains(*c)),
            }
        }
    }
}

#[test]
fn unreadable_time_is_taken_to_be_now() {
    let before = now();
    let at = parse_occurred_at("last Tuesday");
    let after = now();
    assert!(before <= at.seconds && at.seconds <= after);
    assert!(0 <= at.nanos && at.nanos < 1_000_000_000);
}

#[test]
fn time_that_was_read_is_preferred() {
    assert_eq!(timestamp_or(Some((-1, 5)), (7, 8)), Timestamp { seconds: -1, nanos: 5 });
    assert_eq!(timestamp_or(None, (7, 8)), Timestamp { seconds: 7, nanos: 8 });
}

#[test]
fn messages_are_queued_before_lifecycle_events() {
    let message = ReceivedMessageInput {
        message_id: "m1".to_string(),
        sender_agent_id: "kid".to_string(),
        addresses: vec!["own".to_string(), "kid2".to_string()],
        subject: "hello".to_string(),
        message_body: "world".to_string(),
    };
    let lifecycle = convert_lifecycle_events(&vec![event("run_failed", "kid", None)], "own");
    let id = lifecycle[0].event_id.clone();
    let pending = build_pending_events(vec![message], lifecycle);
    assert_eq!(pending.len(), 2);
    assert_eq!(pending[0].event_id, "m1");
    assert_eq!(pending[0].source_agent_id, "kid");
    assert!(matches!(
        &pending[0].detail,
        PendingEventDetail::Message { addresses, subject, message_body, .. }
            if addresses.len() == 2 && subject == "hello" && message_body == "world"
    ));
    assert_eq!(pending[1].event_id, id);
    assert_eq!(pending[1].source_agent_id, "");
    assert_eq!(pending[1].attempt_count, 0);
    assert!(matches!(
        &pending[1].detail,
        PendingEventDetail::Lifecycle { event }
            if event.run_id == "kid" && event.lifecycle_type == LifecycleEventType::Failed
    ));
    assert!(build_pending_events(vec![], vec![]).is_empty());
}
