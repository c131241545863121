//! Which conversations hold a stream, and on which runs.

use orchestration_event_streamer::effects::StreamerEffect;
use orchestration_event_streamer::events::{PendingEvent, PendingEventDetail};
use orchestration_event_streamer::history::{
    AIConversation, BlocklistAIHistoryEvent, BlocklistAIHistoryModel,
};
use orchestration_event_streamer::streamer::{
    register_agent_event_consumer, unregister_agent_event_consumer, OrchestrationEventStreamer,
};
use std::collections::HashMap;

fn conversation(run_id: Option<&str>) -> AIConversation {
    AIConversation {
        viewing_shared_session: false,
        remote_child: false,
        child_agent_conversation: false,
        parent_agent_id: None,
        run_id: run_id.map(String::from),
        task_id: None,
        last_event_sequence: None,
        exchanges: HashMap::new(),
    }
}

fn child(run_id: Option<&str>) -> AIConversation {
    AIConversation {
        parent_agent_id: Some("the-parent".to_string()),
        ..conversation(run_id)
    }
}

fn history(conversations: Vec<(u128, AIConversation)>) -> BlocklistAIHistoryModel {
    let mut history = BlocklistAIHistoryModel::new();
    for (id, conversation) in conversations {
        history.insert(id, conversation);
    }
    history
}

fn queued(event: &PendingEvent) -> String {
    match &event.detail {
        PendingEventDetail::Message { message_id, .. } => format!("message {message_id}"),
        PendingEventDetail::Lifecycle { event } => {
            format!("{:?} of {}", event.lifecycle_type, event.run_id)
        }
    }
}

/// One line per effect.
fn asked(effects: &[StreamerEffect]) -> Vec<String> {
    effects
        .iter()
        .map(|effect| match effect {
            StreamerEffect::OpenStream {
                conversation_id,
                generation,
                run_ids,
                cursor,
                self_run_id,
                ..
            } => {
                let mut run_ids = run_ids.clone();
                run_ids.sort();
                format!(
                    "open {conversation_id} #{generation} on {} from {cursor} as {self_run_id}",
                    run_ids.join("+")
                )
            }
            StreamerEffect::StartDrainTimer { conversation_id, generation, delay_ms } => {
                format!("drain {conversation_id} #{generation} in {delay_ms} ms")
            }
            StreamerEffect::MarkMessagesDelivered { message_ids } => {
                format!("delivered {}", message_ids.join("+"))
            }
            StreamerEffect::UpdateEventSequence { conversation_id, sequence } => {
                format!("persist {conversation_id} at {sequence}")
            }
            StreamerEffect::UpdateEventSequenceOnServer { conversation_id, run_id, sequence } => {
                format!("persist {conversation_id} as {run_id} at {sequence} on the server")
            }
            StreamerEffect::EnqueueEventBatch { conversation_id, events } => {
                let events: Vec<String> = events.iter().map(queued).collect();
                format!("queue for {conversation_id}: {}", events.join(", "))
            }
            StreamerEffect::FetchTask { conversation_id, task_id, sqlite_cursor } => {
                format!("fetch task {task_id} for {conversation_id} at {sqlite_cursor}")
            }
            StreamerEffect::StartRestoreFetchRetryTimer {
                conversation_id,
                task_id,
                sqlite_cursor,
                delay_secs,
            } => format!(
                "retry task {task_id} for {conversation_id} at {sqlite_cursor} in {delay_secs} s"
            ),
        })
        .collect()
}

#[test]
fn child_is_connected_with_its_first_consumer() {
    let history = history(vec![(1, child(Some("own")))]);
    let mut streamer = OrchestrationEventStreamer::new();
    assert!(!streamer.is_eligible(1, &history));
    let effects = streamer.register_consumer(1, 7, &history);
    assert_eq!(asked(&effects), ["open 1 #0 on own from 0 as own", "drain 1 #0 in 500 ms"]);
    assert!(streamer.is_eligible(1, &history));
    assert!(streamer.is_current(1, 0));
}

#[test]
fn conversation_without_role_is_not_connected() {
    let history = history(vec![(1, conversation(Some("own")))]);
    let mut streamer = OrchestrationEventStreamer::new();
    assert!(streamer.register_consumer(1, 7, &history).is_empty());
    assert!(streamer.has_active_consumer(1));
    assert!(!streamer.is_eligible(1, &history));
    assert!(streamer.run_ids_for_sse(1).is_empty());
}

#[test]
fn unknown_conversation_is_not_connected() {
    let history = history(vec![]);
    let mut streamer = OrchestrationEventStreamer::new();
    assert!(streamer.register_consumer(1, 7, &history).is_empty());
    assert_eq!(streamer.self_run_id(1, &history), None);
    assert!(!streamer.is_child_agent_conversation(1, &history));
    assert!(!streamer.is_remote_run_view(1, &history));
}

#[test]
fn local_parent_makes_a_child_too() {
    let mut own = conversation(Some("own"));
    own.child_agent_conversation = true;
    let history = history(vec![(1, own)]);
    let mut streamer = OrchestrationEventStreamer::new();
    let effects = streamer.register_consumer(1, 7, &history);
    assert_eq!(asked(&effects), ["open 1 #0 on own from 0 as own", "drain 1 #0 in 500 ms"]);
}

#[test]
fn child_without_run_waits_for_its_token() {
    let without = history(vec![(1, child(None))]);
    let mut streamer = OrchestrationEventStreamer::new();
    assert!(streamer.register_consumer(1, 7, &without).is_empty());
    assert!(streamer.is_eligible(1, &without));
    assert!(!streamer.is_current(1, 0));
    let with = history(vec![(1, child(Some("own")))]);
    let assigned = BlocklistAIHistoryEvent::ConversationServerTokenAssigned { conversation_id: 1 };
    let effects = streamer.handle_history_event(&assigned, true, &with);
    assert_eq!(asked(&effects), ["open 1 #0 on own from 0 as own", "drain 1 #0 in 500 ms"]);
    assert!(streamer.handle_history_event(&assigned, true, &with).is_empty());
}

#[test]
fn token_is_watched_before_a_consumer_registers() {
    let history = history(vec![(1, child(Some("own")))]);
    let mut streamer = OrchestrationEventStreamer::new();
    assert!(streamer.on_server_token_assigned(1, &history).is_empty());
    assert_eq!(streamer.run_ids_for_sse(1), ["own"]);
    assert!(!streamer.has_active_consumer(1));
}

#[test]
fn first_child_connects_the_parent_and_opens_its_inbox() {
    let history = history(vec![(1, conversation(Some("own")))]);
    let mut streamer = OrchestrationEventStreamer::new();
    assert!(streamer.register_consumer(1, 7, &history).is_empty());
    let effects = streamer.register_watched_run_id(1, "kid".to_string(), &history);
    assert_eq!(asked(&effects), ["open 1 #0 on kid+own from 0 as own", "drain 1 #0 in 500 ms"]);
    assert!(streamer.has_watched_child_run_id(1, &history));
}

#[test]
fn own_run_alone_is_no_child() {
    let history = history(vec![(1, conversation(Some("own")))]);
    let mut streamer = OrchestrationEventStreamer::new();
    assert!(streamer.register_consumer(1, 7, &history).is_empty());
    assert!(streamer.register_watched_run_id(1, "own".to_string(), &history).is_empty());
    assert_eq!(streamer.run_ids_for_sse(1), ["own"]);
    assert!(!streamer.has_watched_child_run_id(1, &history));
    assert!(!streamer.is_eligible(1, &history));
}

#[test]
fn another_child_renews_the_stream() {
    let history = history(vec![(1, conversation(Some("own")))]);
    let mut streamer = OrchestrationEventStreamer::new();
    streamer.register_consumer(1, 7, &history);
    streamer.register_watched_run_id(1, "kid".to_string(), &history);
    let effects = streamer.register_watched_run_id(1, "kid2".to_string(), &history);
    assert_eq!(
        asked(&effects),
        ["open 1 #1 on kid+kid2+own from 0 as own", "drain 1 #1 in 500 ms"]
    );
    assert!(!streamer.is_current(1, 0));
    assert!(streamer.is_current(1, 1));
}

#[test]
fn watching_a_run_again_changes_nothing() {
    let history = history(vec![(1, conversation(Some("own")))]);
    let mut streamer = OrchestrationEventStreamer::new();
    streamer.register_consumer(1, 7, &history);
    streamer.register_watched_run_id(1, "kid".to_string(), &history);
    assert!(streamer.register_watched_run_id(1, "kid".to_string(), &history).is_empty());
    assert!(streamer.is_current(1, 0));
}

#[test]
fn registering_again_renews_the_stream_but_not_the_registry() {
    let history = history(vec![(1, child(Some("own")))]);
    let mut streamer = OrchestrationEventStreamer::new();
    streamer.register_consumer(1, 7, &history);
    let effects = streamer.register_consumer(1, 7, &history);
    assert_eq!(asked(&effects), ["open 1 #1 on own from 0 as own", "drain 1 #1 in 500 ms"]);
    assert!(streamer.unregister_consumer(1, 7, &history).is_empty());
    assert!(!streamer.has_active_consumer(1));
}

#[test]
fn last_consumer_disconnects() {
    let history = history(vec![(1, child(Some("own")))]);
    let mut streamer = OrchestrationEventStreamer::new();
    streamer.register_consumer(1, 7, &history);
    streamer.register_consumer(1, 8, &history);
    let effects = streamer.unregister_consumer(1, 7, &history);
    assert_eq!(asked(&effects), ["open 1 #2 on own from 0 as own", "drain 1 #2 in 500 ms"]);
    assert!(streamer.unregister_consumer(1, 8, &history).is_empty());
    assert!(!streamer.is_current(1, 2));
    assert_eq!(streamer.run_ids_for_sse(1), ["own"]);
}

#[test]
fn unregistering_a_stranger_keeps_the_others() {
    let history = history(vec![(1, child(Some("own")))]);
    let mut streamer = OrchestrationEventStreamer::new();
    streamer.register_consumer(1, 7, &history);
    let effects = streamer.unregister_consumer(1, 9, &history);
    assert_eq!(asked(&effects), ["open 1 #1 on own from 0 as own", "drain 1 #1 in 500 ms"]);
    assert!(streamer.has_active_consumer(1));
}

#[test]
fn passive_views_are_not_subscribed() {
    let mut viewer = child(Some("own"));
    viewer.viewing_shared_session = true;
    let mut placeholder = child(Some("own2"));
    placeholder.remote_child = true;
    let history = history(vec![(1, viewer), (2, placeholder)]);
    let mut streamer = OrchestrationEventStreamer::new();
    for id in [1, 2] {
        assert!(streamer.register_consumer(id, 7, &history).is_empty());
        assert!(streamer.on_server_token_assigned(id, &history).is_empty());
        assert!(streamer.is_remote_run_view(id, &history));
        assert!(!streamer.is_eligible(id, &history));
        assert!(streamer.run_ids_for_sse(id).is_empty());
    }
}

#[test]
fn helpers_do_nothing_without_the_second_version() {
    let history = history(vec![(1, child(Some("own")))]);
    let mut streamer = OrchestrationEventStreamer::new();
    assert!(register_agent_event_consumer(&mut streamer, false, 1, 7, &history).is_empty());
    assert!(!streamer.has_active_consumer(1));
    let effects = register_agent_event_consumer(&mut streamer, true, 1, 7, &history);
    assert_eq!(asked(&effects), ["open 1 #0 on own from 0 as own", "drain 1 #0 in 500 ms"]);
    assert!(unregister_agent_event_consumer(&mut streamer, false, 1, 7, &history).is_empty());
    assert!(streamer.is_current(1, 0));
    assert!(unregister_agent_event_consumer(&mut streamer, true, 1, 7, &history).is_empty());
    assert!(!streamer.is_current(1, 0));
}

#[test]
fn removal_leaves_no_trace_and_prunes_the_parent() {
    let history = history(vec![
        (1, conversation(Some("own"))),
        (2, child(Some("kid"))),
        (3, child(Some("other"))),
    ]);
    let mut streamer = OrchestrationEventStreamer::new();
    streamer.register_consumer(1, 7, &history);
    streamer.register_watched_run_id(1, "kid".to_string(), &history);
    streamer.register_watched_run_id(1, "kid2".to_string(), &history);
    streamer.register_consumer(2, 8, &history);
    streamer.register_consumer(3, 9, &history);
    let removed = BlocklistAIHistoryEvent::RemoveConversation { conversation_id: 2 };
    let effects = streamer.handle_history_event(&removed, true, &history);
    assert_eq!(asked(&effects), ["open 1 #4 on kid2+own from 0 as own", "drain 1 #4 in 500 ms"]);
    assert!(!streamer.has_active_consumer(2));
    assert!(!streamer.is_current(2, 2));
    assert!(streamer.run_ids_for_sse(2).is_empty());
    assert!(streamer.is_current(3, 3));
}

#[test]
fn removal_of_the_only_child_disconnects_the_parent() {
    let history = history(vec![(1, conversation(Some("own"))), (2, child(Some("kid")))]);
    let mut streamer = OrchestrationEventStreamer::new();
    streamer.register_consumer(1, 7, &history);
    streamer.register_watched_run_id(1, "kid".to_string(), &history);
    let deleted = BlocklistAIHistoryEvent::DeletedConversation { conversation_id: 2 };
    assert!(streamer.handle_history_event(&deleted, true, &history).is_empty());
    assert!(!streamer.is_current(1, 0));
    assert_eq!(streamer.run_ids_for_sse(1), ["own"]);
}

#[test]
fn other_changes_of_the_history_are_of_no_concern() {
    let history = history(vec![(1, child(Some("own")))]);
    let mut streamer = OrchestrationEventStreamer::new();
    streamer.register_consumer(1, 7, &history);
    for event in [
        BlocklistAIHistoryEvent::StartedNewConversation,
        BlocklistAIHistoryEvent::AppendedExchange,
        BlocklistAIHistoryEvent::UpdatedConversationStatus,
        BlocklistAIHistoryEvent::UpdatedConversationArtifacts,
    ] {
        assert!(streamer.has_generations_for(&event, true));
        assert!(streamer.handle_history_event(&event, true, &history).is_empty());
    }
    assert!(streamer.is_current(1, 0));
}

#[test]
fn generations_count_down() {
    let history = history(vec![(1, child(Some("own")))]);
    let mut streamer = OrchestrationEventStreamer::new();
    assert_eq!(streamer.generations_left(), u64::MAX);
    streamer.register_consumer(1, 7, &history);
    streamer.register_consumer(1, 8, &history);
    assert_eq!(streamer.generations_left(), u64::MAX - 2);
}
