//! Conversations that come back from disk.

use orchestration_event_streamer::channel::{SseForwardingConsumer, SseStreamItem};
use orchestration_event_streamer::effects::StreamerEffect;
use orchestration_event_streamer::events::{
    AgentRunEvent, PendingEvent, PendingEventDetail,
};
use orchestration_event_streamer::history::{
    AIConversation, AmbientAgentTask, BlocklistAIHistoryEvent, BlocklistAIHistoryModel,
};
use orchestration_event_streamer::streamer::{
    restore_fetch_backoff_secs, OrchestrationEventStreamer, RestoreFetchFailed,
};
use std::collections::HashMap;

fn conversation(run_id: Option<&str>) -> AIConversation {
    AIConversation {
        viewing_shared_session: false,
        remote_child: false,
        child_agent_conversation: false,
        parent_agent_id: None,
        run_id: run_id.map(String::from),
        task_id: None,
        last_event_sequence: None,
        exchanges: HashMap::new(),
    }
}

fn child(run_id: Option<&str>) -> AIConversation {
    AIConversation {
        parent_agent_id: Some("the-parent".to_string()),
        ..conversation(run_id)
    }
}

fn history(conversations: Vec<(u128, AIConversation)>) -> BlocklistAIHistoryModel {
    let mut history = BlocklistAIHistoryModel::new();
    for (id, conversation) in conversations {
        history.insert(id, conversation);
    }
    history
}

fn event(sequence: i64, event_type: &str, run_id: &str, ref_id: Option<&str>) -> AgentRunEvent {
    AgentRunEvent {
        event_type: event_type.to_string(),
        run_id: run_id.to_string(),
        ref_id: ref_id.map(String::from),
        occurred_at: "2024-01-02T03:04:05Z".to_string(),
        sequence,
    }
}

fn queued(event: &PendingEvent) -> String {
    match &event.detail {
        PendingEventDetail::Message { message_id, .. } => format!("message {message_id}"),
        PendingEventDetail::Lifecycle { event } => {
            format!("{:?} of {}", event.lifecycle_type, event.run_id)
        }
    }
}

/// One line per effect.
fn asked(effects: &[StreamerEffect]) -> Vec<String> {
    effects
        .iter()
        .map(|effect| match effect {
            StreamerEffect::OpenStream {
                conversation_id,
                generation,
                run_ids,
                cursor,
                self_run_id,
                ..
            } => {
                let mut run_ids = run_ids.clone();
                run_ids.sort();
                format!(
                    "open {conversation_id} #{generation} on {} from {cursor} as {self_run_id}",
                    run_ids.join("+")
                )
            }
            StreamerEffect::StartDrainTimer { conversation_id, generation, delay_ms } => {
                format!("drain {conversation_id} #{generation} in {delay_ms} ms")
            }
            StreamerEffect::MarkMessagesDelivered { message_ids } => {
                format!("delivered {}", message_ids.join("+"))
            }
            StreamerEffect::UpdateEventSequence { conversation_id, sequence } => {
                format!("persist {conversation_id} at {sequence}")
            }
            StreamerEffect::UpdateEventSequenceOnServer { conversation_id, run_id, sequence } => {
                format!("persist {conversation_id} as {run_id} at {sequence} on the server")
            }
            StreamerEffect::EnqueueEventBatch { conversation_id, events } => {
                let events: Vec<String> = events.iter().map(queued).collect();
                format!("queue for {conversation_id}: {}", events.join(", "))
            }
            StreamerEffect::FetchTask { conversation_id, task_id, sqlite_cursor } => {
                format!("fetch task {task_id} for {conversation_id} at {sqlite_cursor}")
            }
            StreamerEffect::StartRestoreFetchRetryTimer {
                conversation_id,
                task_id,
                sqlite_cursor,
                delay_secs,
            } => format!(
                "retry task {task_id} for {conversation_id} at {sqlite_cursor} in {delay_secs} s"
            ),
        })
        .collect()
}

/// The consumer that feeds the stream that the effects open.
fn reader(effects: Vec<StreamerEffect>) -> SseForwardingConsumer {
    for effect in effects {
        if let StreamerEffect::OpenStream { sender, self_run_id, .. } = effect {
            return SseForwardingConsumer::new(sender, self_run_id);
        }
    }
    panic!("no stream was opened");
}

fn restored(run_id: Option<&str>, task_id: Option<u128>, sequence: Option<i64>) -> AIConversation {
    AIConversation { task_id, last_event_sequence: sequence, ..conversation(run_id) }
}

fn task(last_event_sequence: Option<i64>, children: &[&str]) -> AmbientAgentTask {
    AmbientAgentTask {
        last_event_sequence,
        children: children.iter().map(|c| c.to_string()).collect(),
    }
}

#[test]
fn restored_conversation_fetches_its_task_and_merges_it() {
    let history = history(vec![(1, restored(Some("own"), Some(50), Some(5)))]);
    let mut streamer = OrchestrationEventStreamer::new();
    let back = BlocklistAIHistoryEvent::RestoredConversations { conversation_ids: vec![1, 2] };
    let effects = streamer.handle_history_event(&back, true, &history);
    assert_eq!(asked(&effects), ["fetch task 50 for 1 at 5"]);
    assert_eq!(streamer.run_ids_for_sse(1), ["own"]);
    let fetched = task(Some(9), &["kid", "kid2"]);
    assert!(streamer.finish_restore_fetch(1, 50, 5, Ok(fetched), &history).is_empty());
    assert_eq!(
        asked(&streamer.register_consumer(1, 7, &history)),
        ["open 1 #0 on kid+kid2+own from 9 as own", "drain 1 #0 in 500 ms"]
    );
}

#[test]
fn later_cursor_wins() {
    for (sqlite, server, merged) in
        [(5, Some(9), 9), (9, Some(5), 9), (7, None, 7), (-3, None, 0), (4, Some(4), 4)]
    {
        let history = history(vec![(1, restored(Some("own"), Some(50), Some(sqlite)))]);
        let mut streamer = OrchestrationEventStreamer::new();
        streamer.on_restored_conversations(&vec![1], true, &history);
        streamer.finish_restore_fetch(1, 50, sqlite, Ok(task(server, &["kid"])), &history);
        let effects = streamer.register_consumer(1, 7, &history);
        assert_eq!(asked(&effects)[0], format!("open 1 #0 on kid+own from {merged} as own"));
    }
}

#[test]
fn fetched_children_renew_an_open_stream() {
    let mut own = restored(Some("own"), Some(50), Some(5));
    own.parent_agent_id = Some("the-parent".to_string());
    let history = history(vec![(1, own)]);
    let mut streamer = OrchestrationEventStreamer::new();
    streamer.on_restored_conversations(&vec![1], true, &history);
    let mut reader = reader(streamer.register_consumer(1, 7, &history));
    assert!(reader.on_event(event(8, "run_failed", "kid", None), None).is_ok());
    let effects = streamer.finish_restore_fetch(1, 50, 5, Ok(task(Some(6), &["kid"])), &history);
    assert_eq!(
        asked(&effects),
        [
            "persist 1 at 8",
            "persist 1 as own at 8 on the server",
            "queue for 1: Failed of kid",
            "open 1 #1 on kid+own from 8 as own",
            "drain 1 #1 in 500 ms",
        ]
    );
}

#[test]
fn run_that_names_no_task_settles_at_once() {
    let mut own = restored(Some("own"), None, Some(3));
    own.parent_agent_id = Some("the-parent".to_string());
    let history = history(vec![(1, own)]);
    let mut streamer = OrchestrationEventStreamer::new();
    streamer.register_consumer(1, 7, &history);
    assert_eq!(
        asked(&streamer.on_restored_conversations(&vec![1], true, &history)),
        ["open 1 #1 on own from 3 as own", "drain 1 #1 in 500 ms"]
    );
}

#[test]
fn conversation_listed_twice_resumes_from_what_was_persisted_meanwhile() {
    let mut own = restored(Some("own"), None, Some(3));
    own.parent_agent_id = Some("the-parent".to_string());
    let history = history(vec![(1, own)]);
    let mut streamer = OrchestrationEventStreamer::new();
    let mut reader = reader(streamer.register_consumer(1, 7, &history));
    assert!(reader.on_event(event(6, "run_blocked", "kid", None), None).is_ok());
    assert_eq!(
        asked(&streamer.on_restored_conversations(&vec![1, 1], true, &history)),
        [
            "persist 1 at 6",
            "persist 1 as own at 6 on the server",
            "queue for 1: Blocked of kid",
            "open 1 #1 on own from 6 as own",
            "drain 1 #1 in 500 ms",
            "open 1 #2 on own from 6 as own",
            "drain 1 #2 in 500 ms",
        ]
    );
}

#[test]
fn conversation_without_run_is_not_fetched() {
    let history = history(vec![(1, restored(None, Some(50), Some(3)))]);
    let mut streamer = OrchestrationEventStreamer::new();
    assert!(streamer.on_restored_conversations(&vec![1], true, &history).is_empty());
    assert!(streamer.run_ids_for_sse(1).is_empty());
    assert_eq!(
        asked(&streamer.on_restore_fetch_retry(1, 50, 3)),
        ["fetch task 50 for 1 at 3"]
    );
}

#[test]
fn passive_views_are_not_restored() {
    let mut viewer = restored(Some("own"), Some(50), Some(3));
    viewer.viewing_shared_session = true;
    let mut placeholder = restored(Some("own2"), Some(51), Some(3));
    placeholder.remote_child = true;
    let history = history(vec![(1, viewer), (2, placeholder)]);
    let mut streamer = OrchestrationEventStreamer::new();
    assert!(streamer.on_restored_conversations(&vec![1, 2], true, &history).is_empty());
    assert!(streamer.run_ids_for_sse(1).is_empty());
    assert!(streamer.run_ids_for_sse(2).is_empty());
}

#[test]
fn nothing_is_restored_without_the_second_version() {
    let history = history(vec![(1, restored(Some("own"), Some(50), Some(3)))]);
    let mut streamer = OrchestrationEventStreamer::new();
    assert!(streamer.on_restored_conversations(&vec![1], false, &history).is_empty());
    assert!(streamer.run_ids_for_sse(1).is_empty());
}

#[test]
fn failed_fetches_are_tried_again_after_longer_and_longer_waits() {
    let history = history(vec![(1, restored(Some("own"), Some(50), Some(5)))]);
    let mut streamer = OrchestrationEventStreamer::new();
    streamer.on_restored_conversations(&vec![1], true, &history);
    for secs in [1, 2, 5, 10, 10] {
        let effects = streamer.finish_restore_fetch(1, 50, 5, Err(RestoreFetchFailed), &history);
        assert_eq!(asked(&effects), [format!("retry task 50 for 1 at 5 in {secs} s")]);
        let effects = streamer.on_restore_fetch_retry(1, 50, 5);
        assert_eq!(asked(&effects), ["fetch task 50 for 1 at 5"]);
    }
    streamer.finish_restore_fetch(1, 50, 5, Ok(task(None, &[])), &history);
    let effects = streamer.finish_restore_fetch(1, 50, 5, Err(RestoreFetchFailed), &history);
    assert_eq!(asked(&effects), ["retry task 50 for 1 at 5 in 1 s"]);
}

#[test]
fn waits_follow_the_schedule() {
    let waits: Vec<u64> = (0..7).map(restore_fetch_backoff_secs).collect();
    assert_eq!(waits, [1, 1, 2, 5, 10, 10, 10]);
}

#[test]
fn late_answers_bring_nothing_back() {
    let history = history(vec![(1, restored(Some("own"), Some(50), Some(5)))]);
    let mut streamer = OrchestrationEventStreamer::new();
    streamer.on_restored_conversations(&vec![1], true, &history);
    streamer.on_conversation_removed(1, &history);
    let fetched = task(Some(9), &["kid"]);
    assert!(streamer.finish_restore_fetch(1, 50, 5, Ok(fetched), &history).is_empty());
    assert!(streamer.run_ids_for_sse(1).is_empty());
    let effects = streamer.finish_restore_fetch(1, 50, 5, Err(RestoreFetchFailed), &history);
    assert_eq!(asked(&effects), ["retry task 50 for 1 at 5 in 1 s"]);
    assert!(streamer.on_restore_fetch_retry(1, 50, 5).is_empty());
    assert!(streamer.register_consumer(1, 7, &history).is_empty());
}

#[test]
fn restart_redelivers_nothing() {
    let items = || {
        vec![
            SseStreamItem { event: event(4, "run_failed", "kid", None), fetched_message: None },
            SseStreamItem { event: event(6, "run_blocked", "kid", None), fetched_message: None },
        ]
    };
    let before = history(vec![(1, restored(Some("own"), None, None))]);
    let mut streamer = OrchestrationEventStreamer::new();
    let effects = streamer.handle_items(1, items(), &before);
    assert_eq!(asked(&effects)[0], "persist 1 at 6");

    let after = history(vec![(1, restored(Some("own"), None, Some(6)))]);
    let mut started = OrchestrationEventStreamer::new();
    assert!(started.on_restored_conversations(&vec![1], true, &after).is_empty());
    assert!(started.handle_items(1, items(), &after).is_empty());
}

#[test]
fn late_fetch_moves_no_cursor_back() {
    let mut own = restored(Some("own"), Some(50), Some(5));
    own.parent_agent_id = Some("the-parent".to_string());
    let history = history(vec![(1, own)]);
    let mut streamer = OrchestrationEventStreamer::new();
    streamer.on_restored_conversations(&vec![1], true, &history);
    let mut first = reader(streamer.register_consumer(1, 7, &history));
    assert!(first.on_event(event(12, "run_failed", "kid", None), None).is_ok());
    assert_eq!(asked(&streamer.on_drain_timer(1, 0, &history))[0], "persist 1 at 12");
    let effects = streamer.finish_restore_fetch(1, 50, 5, Ok(task(Some(7), &[])), &history);
    assert_eq!(
        asked(&effects),
        ["open 1 #1 on own from 12 as own", "drain 1 #1 in 500 ms"]
    );
    let mut second = reader(effects);
    for sequence in 8..=12 {
        assert!(second.on_event(event(sequence, "run_failed", "kid", None), None).is_ok());
    }
    assert_eq!(asked(&streamer.on_drain_timer(1, 1, &history)), ["drain 1 #1 in 500 ms"]);
}

#[test]
fn late_fetch_drops_what_waits_below_the_cursor() {
    let mut own = restored(Some("own"), Some(50), Some(5));
    own.parent_agent_id = Some("the-parent".to_string());
    let history = history(vec![(1, own)]);
    let mut streamer = OrchestrationEventStreamer::new();
    streamer.on_restored_conversations(&vec![1], true, &history);
    let mut reader = reader(streamer.register_consumer(1, 7, &history));
    assert!(reader.on_event(event(12, "run_failed", "kid", None), None).is_ok());
    streamer.on_drain_timer(1, 0, &history);
    assert!(reader.on_event(event(9, "run_failed", "kid", None), None).is_ok());
    assert_eq!(
        asked(&streamer.finish_restore_fetch(1, 50, 5, Ok(task(Some(7), &["kid"])), &history)),
        ["open 1 #1 on kid+own from 12 as own", "drain 1 #1 in 500 ms"]
    );
}

#[test]
fn callbacks_are_stale_once_restoring_has_replaced_the_stream() {
    let mut own = restored(Some("own"), None, Some(3));
    own.parent_agent_id = Some("the-parent".to_string());
    let history = history(vec![(1, own)]);
    let mut streamer = OrchestrationEventStreamer::new();
    streamer.register_consumer(1, 7, &history);
    streamer.on_restored_conversations(&vec![1], true, &history);
    assert!(streamer.on_drain_timer(1, 0, &history).is_empty());
    assert!(streamer.on_driver_exited(1, 0, true, &history).is_empty());
    assert!(streamer.is_current(1, 1));
}

#[test]
fn no_generations_are_needed_without_the_second_version() {
    let streamer = OrchestrationEventStreamer::new();
    let back = BlocklistAIHistoryEvent::RestoredConversations { conversation_ids: vec![1, 2] };
    assert!(streamer.has_generations_for(&back, false));
    assert!(streamer.has_generations_for(&back, true));
}
