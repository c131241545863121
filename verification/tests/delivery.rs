//! What becomes of the events that come through a stream.

use orchestration_event_streamer::channel::{
    AgentEventConsumerControlFlow, ReceiverDropped, SseForwardingConsumer, SseStreamItem,
};
use orchestration_event_streamer::effects::StreamerEffect;
use orchestration_event_streamer::events::{
    AgentRunEvent, PendingEvent, PendingEventDetail, ReceivedMessageInput,
};
use orchestration_event_streamer::history::{
    AIAgentExchange, AIAgentOutputMessageType, AIConversation, BlocklistAIHistoryModel,
};
use orchestration_event_streamer::streamer::OrchestrationEventStreamer;
use std::collections::HashMap;

fn conversation(run_id: Option<&str>) -> AIConversation {
    AIConversation {
        viewing_shared_session: false,
        remote_child: false,
        child_agent_conversation: false,
        parent_agent_id: None,
        run_id: run_id.map(String::from),
        task_id: None,
        last_event_sequence: None,
        exchanges: HashMap::new(),
    }
}

fn child(run_id: Option<&str>) -> AIConversation {
    AIConversation {
        parent_agent_id: Some("the-parent".to_string()),
        ..conversation(run_id)
    }
}

fn history(conversations: Vec<(u128, AIConversation)>) -> BlocklistAIHistoryModel {
    let mut history = BlocklistAIHistoryModel::new();
    for (id, conversation) in conversations {
        history.insert(id, conversation);
    }
    history
}

fn event(sequence: i64, event_type: &str, run_id: &str, ref_id: Option<&str>) -> AgentRunEvent {
    AgentRunEvent {
        event_type: event_type.to_string(),
        run_id: run_id.to_string(),
        ref_id: ref_id.map(String::from),
        occurred_at: "2024-01-02T03:04:05Z".to_string(),
        sequence,
    }
}

fn message(id: &str) -> ReceivedMessageInput {
    ReceivedMessageInput {
        message_id: id.to_string(),
        sender_agent_id: format!("sender of {id}"),
        addresses: vec!["own".to_string()],
        subject: format!("subject of {id}"),
        message_body: format!("body of {id}"),
    }
}

fn queued(event: &PendingEvent) -> String {
    match &event.detail {
        PendingEventDetail::Message { message_id, .. } => format!("message {message_id}"),
        PendingEventDetail::Lifecycle { event } => {
            format!("{:?} of {}", event.lifecycle_type, event.run_id)
        }
    }
}

/// One line per effect.
fn asked(effects: &[StreamerEffect]) -> Vec<String> {
    effects
        .iter()
        .map(|effect| match effect {
            StreamerEffect::OpenStream {
                conversation_id,
                generation,
                run_ids,
                cursor,
                self_run_id,
                ..
            } => {
                let mut run_ids = run_ids.clone();
                run_ids.sort();
                format!(
                    "open {conversation_id} #{generation} on {} from {cursor} as {self_run_id}",
                    run_ids.join("+")
                )
            }
            StreamerEffect::StartDrainTimer { conversation_id, generation, delay_ms } => {
                format!("drain {conversation_id} #{generation} in {delay_ms} ms")
            }
            StreamerEffect::MarkMessagesDelivered { message_ids } => {
                format!("delivered {}", message_ids.join("+"))
            }
            StreamerEffect::UpdateEventSequence { conversation_id, sequence } => {
                format!("persist {conversation_id} at {sequence}")
            }
            StreamerEffect::UpdateEventSequenceOnServer { conversation_id, run_id, sequence } => {
                format!("persist {conversation_id} as {run_id} at {sequence} on the server")
            }
            StreamerEffect::EnqueueEventBatch { conversation_id, events } => {
                let events: Vec<String> = events.iter().map(queued).collect();
                format!("queue for {conversation_id}: {}", events.join(", "))
            }
            StreamerEffect::FetchTask { conversation_id, task_id, sqlite_cursor } => {
                format!("fetch task {task_id} for {conversation_id} at {sqlite_cursor}")
            }
            StreamerEffect::StartRestoreFetchRetryTimer {
                conversation_id,
                task_id,
                sqlite_cursor,
                delay_secs,
            } => format!(
                "retry task {task_id} for {conversation_id} at {sqlite_cursor} in {delay_secs} s"
            ),
        })
        .collect()
}

/// The consumer that feeds the stream that the effects open.
fn reader(effects: Vec<StreamerEffect>) -> SseForwardingConsumer {
    for effect in effects {
        if let StreamerEffect::OpenStream { sender, self_run_id, .. } = effect {
            return SseForwardingConsumer::new(sender, self_run_id);
        }
    }
    panic!("no stream was opened");
}

fn item(event: AgentRunEvent, fetched_message: Option<ReceivedMessageInput>) -> SseStreamItem {
    SseStreamItem { event, fetched_message }
}

#[test]
fn drained_events_are_queued_and_the_cursor_is_persisted() {
    let history = history(vec![(1, conversation(Some("own")))]);
    let mut streamer = OrchestrationEventStreamer::new();
    streamer.register_consumer(1, 7, &history);
    let mut reader = reader(streamer.register_watched_run_id(1, "kid".to_string(), &history));
    assert_eq!(reader.self_run_id(), "own");
    let told = event(3, "new_message", "own", Some("m1"));
    assert_eq!(
        reader.on_event(told, Some(message("m1"))),
        Ok(AgentEventConsumerControlFlow::Continue)
    );
    let started = event(4, "run_started", "kid", None);
    assert_eq!(reader.on_event(started, None), Ok(AgentEventConsumerControlFlow::Continue));
    let effects = streamer.on_drain_timer(1, 0, &history);
    assert_eq!(
        asked(&effects),
        [
            "persist 1 at 4",
            "persist 1 as own at 4 on the server",
            "queue for 1: message m1, InProgress of kid",
            "drain 1 #0 in 500 ms",
        ]
    );
    assert_eq!(asked(&streamer.on_drain_timer(1, 0, &history)), ["drain 1 #0 in 500 ms"]);
    assert!(streamer.drain_sse_events(1, &history).is_empty());
}

#[test]
fn queued_message_says_what_was_fetched() {
    let history = history(vec![(1, child(Some("own")))]);
    let mut streamer = OrchestrationEventStreamer::new();
    let items = vec![item(event(1, "new_message", "own", Some("m1")), Some(message("m1")))];
    let effects = streamer.handle_items(1, items, &history);
    let StreamerEffect::EnqueueEventBatch { events, .. } = &effects[2] else {
        panic!("nothing was queued");
    };
    assert_eq!(events.len(), 1);
    assert_eq!(events[0].event_id, "m1");
    assert_eq!(events[0].source_agent_id, "sender of m1");
    assert_eq!(events[0].attempt_count, 0);
    let PendingEventDetail::Message { message_id, addresses, subject, message_body } =
        &events[0].detail
    else {
        panic!("no message");
    };
    assert_eq!(message_id, "m1");
    assert_eq!(addresses, &["own"]);
    assert_eq!(subject, "subject of m1");
    assert_eq!(message_body, "body of m1");
}

#[test]
fn handled_events_are_not_delivered_again() {
    let history = history(vec![(1, child(Some("own")))]);
    let mut streamer = OrchestrationEventStreamer::new();
    let first = vec![item(event(5, "run_failed", "kid", None), None)];
    assert_eq!(
        asked(&streamer.handle_items(1, first, &history)),
        ["persist 1 at 5", "persist 1 as own at 5 on the server", "queue for 1: Failed of kid"]
    );
    let again = vec![item(event(5, "run_failed", "kid", None), None)];
    assert!(streamer.handle_items(1, again, &history).is_empty());
    let older = vec![
        item(event(4, "run_failed", "kid", None), None),
        item(event(6, "run_succeeded", "kid", None), None),
    ];
    assert_eq!(
        asked(&streamer.handle_items(1, older, &history)),
        ["persist 1 at 6", "persist 1 as own at 6 on the server", "queue for 1: Succeeded of kid"]
    );
}

#[test]
fn cursor_moves_to_the_highest_sequence() {
    let history = history(vec![(1, conversation(None))]);
    let mut streamer = OrchestrationEventStreamer::new();
    let items = vec![
        item(event(9, "run_idle", "kid", None), None),
        item(event(2, "run_restarted", "kid", None), None),
    ];
    assert_eq!(
        asked(&streamer.handle_items(1, items, &history)),
        ["persist 1 at 9", "queue for 1: Succeeded of kid, InProgress of kid"]
    );
}

#[test]
fn events_of_no_concern_only_move_the_cursor() {
    let history = history(vec![(1, child(Some("own")))]);
    let mut streamer = OrchestrationEventStreamer::new();
    let items = vec![
        item(event(1, "run_started", "own", None), None),
        item(event(2, "run_on_fire", "kid", None), None),
        item(event(3, "new_message", "kid", Some("m9")), None),
    ];
    assert_eq!(
        asked(&streamer.handle_items(1, items, &history)),
        ["persist 1 at 3", "persist 1 as own at 3 on the server"]
    );
}

#[test]
fn empty_batch_keeps_the_cursor() {
    let history = history(vec![(1, conversation(None))]);
    let mut streamer = OrchestrationEventStreamer::new();
    let effects = streamer.handle_event_batch(1, "own", 42, vec![], vec![], &history);
    assert_eq!(asked(&effects), ["persist 1 at 42"]);
}

#[test]
fn batch_may_be_read_for_another_run() {
    let history = history(vec![(1, conversation(Some("own")))]);
    let mut streamer = OrchestrationEventStreamer::new();
    let events = vec![event(1, "run_blocked", "own", None), event(2, "run_blocked", "kid", None)];
    let effects =
        streamer.handle_event_batch(1, "kid", 0, events, vec![message("m1")], &history);
    assert_eq!(
        asked(&effects),
        [
            "persist 1 at 2",
            "persist 1 as own at 2 on the server",
            "queue for 1: message m1, Blocked of own",
        ]
    );
}

#[test]
fn closing_a_stream_discards_nothing() {
    let history = history(vec![(1, child(Some("own")))]);
    let mut streamer = OrchestrationEventStreamer::new();
    let mut reader = reader(streamer.register_consumer(1, 7, &history));
    let told = event(3, "new_message", "own", Some("m1"));
    assert!(reader.on_event(told, Some(message("m1"))).is_ok());
    assert_eq!(
        asked(&streamer.unregister_consumer(1, 7, &history)),
        ["persist 1 at 3", "persist 1 as own at 3 on the server", "queue for 1: message m1"]
    );
    let late = event(4, "new_message", "own", Some("m2"));
    assert_eq!(reader.on_event(late, None), Err(ReceiverDropped));
    assert!(streamer.drain_sse_events(1, &history).is_empty());
}

#[test]
fn refused_reader_is_refused_from_then_on() {
    let history = history(vec![(1, child(Some("own")))]);
    let mut streamer = OrchestrationEventStreamer::new();
    let mut reader = reader(streamer.register_consumer(1, 7, &history));
    assert!(reader.on_event(event(1, "run_idle", "kid", None), None).is_ok());
    streamer.unregister_consumer(1, 7, &history);
    streamer.register_consumer(1, 8, &history);
    for sequence in [2, 3] {
        let late = event(sequence, "run_idle", "kid", None);
        assert_eq!(reader.on_event(late, None), Err(ReceiverDropped));
    }
}

#[test]
fn renewed_stream_resumes_behind_what_was_handled() {
    let history = history(vec![(1, child(Some("own")))]);
    let mut streamer = OrchestrationEventStreamer::new();
    let mut reader = reader(streamer.register_consumer(1, 7, &history));
    assert!(reader.on_event(event(8, "run_cancelled", "kid", None), None).is_ok());
    assert_eq!(
        asked(&streamer.register_watched_run_id(1, "kid".to_string(), &history)),
        [
            "persist 1 at 8",
            "persist 1 as own at 8 on the server",
            "queue for 1: Cancelled of kid",
            "open 1 #1 on kid+own from 8 as own",
            "drain 1 #1 in 500 ms",
        ]
    );
    let late = event(9, "run_cancelled", "kid", None);
    assert_eq!(reader.on_event(late, None), Err(ReceiverDropped));
}

#[test]
fn failed_reader_is_replaced() {
    let history = history(vec![(1, child(Some("own")))]);
    let mut streamer = OrchestrationEventStreamer::new();
    let mut reader = reader(streamer.register_consumer(1, 7, &history));
    assert!(reader.on_event(event(2, "run_errored", "kid", Some("boom")), None).is_ok());
    assert_eq!(
        asked(&streamer.on_driver_exited(1, 0, true, &history)),
        [
            "persist 1 at 2",
            "persist 1 as own at 2 on the server",
            "queue for 1: Errored of kid",
            "open 1 #1 on own from 2 as own",
            "drain 1 #1 in 500 ms",
        ]
    );
}

#[test]
fn finished_reader_is_drained_and_not_replaced() {
    let history = history(vec![(1, child(Some("own")))]);
    let mut streamer = OrchestrationEventStreamer::new();
    let mut reader = reader(streamer.register_consumer(1, 7, &history));
    assert!(reader.on_event(event(2, "run_blocked", "kid", None), None).is_ok());
    assert_eq!(
        asked(&streamer.on_driver_exited(1, 0, false, &history)),
        ["persist 1 at 2", "persist 1 as own at 2 on the server", "queue for 1: Blocked of kid"]
    );
    assert!(streamer.is_current(1, 0));
}

#[test]
fn callbacks_of_a_replaced_stream_are_discarded() {
    let history = history(vec![(1, child(Some("own")))]);
    let mut streamer = OrchestrationEventStreamer::new();
    streamer.register_consumer(1, 7, &history);
    let mut reader = reader(streamer.register_consumer(1, 8, &history));
    assert!(reader.on_event(event(2, "run_blocked", "kid", None), None).is_ok());
    assert!(streamer.on_drain_timer(1, 0, &history).is_empty());
    assert!(streamer.on_driver_exited(1, 0, true, &history).is_empty());
    assert!(streamer.is_current(1, 1));
    assert_eq!(asked(&streamer.on_drain_timer(1, 1, &history)).len(), 4);
}

#[test]
fn removal_ends_the_reading() {
    let history = history(vec![(1, child(Some("own")))]);
    let mut streamer = OrchestrationEventStreamer::new();
    let mut reader = reader(streamer.register_consumer(1, 7, &history));
    assert!(streamer.on_conversation_removed(1, &history).is_empty());
    assert_eq!(reader.on_event(event(1, "run_idle", "kid", None), None), Err(ReceiverDropped));
    assert!(streamer.on_drain_timer(1, 0, &history).is_empty());
}

fn taking_in(exchange_id: u128, outputs: Option<Vec<Vec<&str>>>) -> BlocklistAIHistoryModel {
    let output = outputs.map(|outputs| {
        let mut messages = vec![AIAgentOutputMessageType::Other];
        for ids in outputs {
            messages.push(AIAgentOutputMessageType::MessagesReceivedFromAgents {
                message_ids: ids.into_iter().map(String::from).collect(),
            });
        }
        messages
    });
    let mut own = child(Some("own"));
    own.exchanges.insert(exchange_id, AIAgentExchange { output });
    history(vec![(1, own)])
}

fn announced(streamer: &mut OrchestrationEventStreamer, ids: &[&str]) {
    let history = history(vec![(1, child(Some("own")))]);
    let events = ids
        .iter()
        .enumerate()
        .map(|(i, id)| event(i as i64 + 1, "new_message", "own", Some(id)))
        .collect();
    streamer.handle_event_batch(1, "own", 0, events, vec![], &history);
}

#[test]
fn messages_are_confirmed_once_and_in_part() {
    let mut streamer = OrchestrationEventStreamer::new();
    announced(&mut streamer, &["m1", "m2", "m3"]);
    let seen = taking_in(20, Some(vec![vec!["m3", "m9"], vec!["m1"]]));
    let effects = streamer.on_streaming_exchange_updated(1, 20, &seen);
    assert_eq!(asked(&effects), ["delivered m3+m1"]);
    assert!(streamer.on_streaming_exchange_updated(1, 20, &seen).is_empty());
    let all = taking_in(21, Some(vec![vec!["m1", "m2", "m3"]]));
    let effects = streamer.on_streaming_exchange_updated(1, 21, &all);
    assert_eq!(asked(&effects), ["delivered m2"]);
    assert!(streamer.on_streaming_exchange_updated(1, 21, &all).is_empty());
}

#[test]
fn nothing_is_confirmed_without_an_output_that_took_it_in() {
    let mut streamer = OrchestrationEventStreamer::new();
    announced(&mut streamer, &["m1"]);
    let none = taking_in(20, None);
    assert!(streamer.on_streaming_exchange_updated(1, 20, &none).is_empty());
    assert!(streamer.on_streaming_exchange_updated(1, 21, &none).is_empty());
    assert!(streamer.on_streaming_exchange_updated(2, 20, &none).is_empty());
    let other = taking_in(20, Some(vec![vec!["m2"]]));
    assert!(streamer.on_streaming_exchange_updated(1, 20, &other).is_empty());
    let seen = taking_in(20, Some(vec![vec!["m1"]]));
    assert_eq!(asked(&streamer.on_streaming_exchange_updated(1, 20, &seen)), ["delivered m1"]);
}

#[test]
fn messages_to_other_runs_do_not_wait() {
    let seen = taking_in(20, Some(vec![vec!["m1"]]));
    let mut streamer = OrchestrationEventStreamer::new();
    let events = vec![
        event(1, "new_message", "kid", Some("m1")),
        event(2, "new_message", "own", None),
        event(3, "run_idle", "own", Some("m1")),
    ];
    streamer.handle_event_batch(1, "own", 0, events, vec![], &seen);
    assert!(streamer.on_streaming_exchange_updated(1, 20, &seen).is_empty());
}

#[test]
fn drained_stream_keeps_its_sender() {
    let history = history(vec![(1, child(Some("own")))]);
    let mut streamer = OrchestrationEventStreamer::new();
    let mut reader = reader(streamer.register_consumer(1, 7, &history));
    for sequence in [1, 2] {
        assert!(reader.on_event(event(sequence, "run_idle", "kid", None), None).is_ok());
        let persisted = format!("persist 1 at {sequence}");
        assert_eq!(asked(&streamer.on_drain_timer(1, 0, &history))[0], persisted);
    }
    assert!(reader.on_event(event(3, "run_idle", "kid", None), None).is_ok());
    assert_eq!(asked(&streamer.on_driver_exited(1, 0, false, &history))[0], "persist 1 at 3");
    assert!(reader.on_event(event(4, "run_idle", "kid", None), None).is_ok());
    assert_eq!(asked(&streamer.drain_sse_events(1, &history))[0], "persist 1 at 4");
}

#[test]
fn what_waits_in_a_new_stream_survives_the_callbacks_of_the_old_one() {
    let history = history(vec![(1, child(Some("own")))]);
    for callback in 0..3 {
        let mut streamer = OrchestrationEventStreamer::new();
        streamer.register_consumer(1, 7, &history);
        let mut reader = reader(streamer.register_consumer(1, 8, &history));
        let told = event(2, "new_message", "own", Some("m1"));
        assert!(reader.on_event(told, Some(message("m1"))).is_ok());
        let stale = match callback {
            0 => streamer.on_driver_exited(1, 0, false, &history),
            1 => streamer.on_driver_exited(1, 0, true, &history),
            _ => streamer.on_drain_timer(1, 0, &history),
        };
        assert!(stale.is_empty());
        assert_eq!(
            asked(&streamer.on_drain_timer(1, 1, &history)),
            [
                "persist 1 at 2",
                "persist 1 as own at 2 on the server",
                "queue for 1: message m1",
                "drain 1 #1 in 500 ms",
            ]
        );
    }
}
