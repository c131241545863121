//! What the streamer asks to be done outside.

use crate::channel::SseStreamItem;
use crate::events::{pending_events_view, PendingEvent, PendingEventView};
use crate::history::{AIConversationId, AmbientAgentTaskId};
use crate::text::texts;
use futures::channel::mpsc::UnboundedSender;
use vstd::prelude::*;

verus! {

/// One thing to be done outside. The effects of a call are to be performed in
/// the order in which they are listed.
pub enum StreamerEffect {
    /// Read the event log of `run_ids` from beyond `cursor` on, over a server
    /// stream that is opened again whenever it breaks, and put every event
    /// into `sender`. When the reading ends for good, call
    /// [`on_driver_exited`](crate::streamer::OrchestrationEventStreamer::on_driver_exited).
    OpenStream {
        conversation_id: AIConversationId,
        generation: u64,
        run_ids: Vec<String>,
        cursor: i64,
        self_run_id: String,
        sender: UnboundedSender<SseStreamItem>,
    },
    /// Wait, then call
    /// [`on_drain_timer`](crate::streamer::OrchestrationEventStreamer::on_drain_timer).
    StartDrainTimer { conversation_id: AIConversationId, generation: u64, delay_ms: u64 },
    /// Tell the server, as far as it can be reached, that these messages have
    /// been delivered.
    MarkMessagesDelivered { message_ids: Vec<String> },
    /// Persist the event sequence of a conversation in the history.
    UpdateEventSequence { conversation_id: AIConversationId, sequence: i64 },
    /// Persist the event sequence of a run on the server, as far as it can be
    /// reached.
    UpdateEventSequenceOnServer {
        conversation_id: AIConversationId,
        run_id: String,
        sequence: i64,
    },
    /// Queue events for delivery to a conversation.
    EnqueueEventBatch { conversation_id: AIConversationId, events: Vec<PendingEvent> },
    /// Fetch a task from the server, then call
    /// [`finish_restore_fetch`](crate::streamer::OrchestrationEventStreamer::finish_restore_fetch).
    FetchTask {
        conversation_id: AIConversationId,
        task_id: AmbientAgentTaskId,
        sqlite_cursor: i64,
    },
    /// Wait, then call
    /// [`on_restore_fetch_retry`](crate::streamer::OrchestrationEventStreamer::on_restore_fetch_retry).
    StartRestoreFetchRetryTimer {
        conversation_id: AIConversationId,
        task_id: AmbientAgentTaskId,
        sqlite_cursor: i64,
        delay_secs: u64,
    },
}

/// What a [`StreamerEffect`] asks for, apart from the channel that goes with a
/// stream.
pub enum StreamerEffectView {
    OpenStream {
        conversation_id: AIConversationId,
        generation: nat,
        run_ids: Set<Seq<char>>,
        cursor: i64,
        self_run_id: Seq<char>,
    },
    StartDrainTimer { conversation_id: AIConversationId, generation: nat, delay_ms: u64 },
    MarkMessagesDelivered { message_ids: Seq<Seq<char>> },
    UpdateEventSequence { conversation_id: AIConversationId, sequence: i64 },
    UpdateEventSequenceOnServer {
        conversation_id: AIConversationId,
        run_id: Seq<char>,
        sequence: i64,
    },
    EnqueueEventBatch { conversation_id: AIConversationId, events: Seq<PendingEventView> },
    FetchTask {
        conversation_id: AIConversationId,
        task_id: AmbientAgentTaskId,
        sqlite_cursor: i64,
    },
    StartRestoreFetchRetryTimer {
        conversation_id: AIConversationId,
        task_id: AmbientAgentTaskId,
        sqlite_cursor: i64,
        delay_secs: u64,
    },
}

impl View for StreamerEffect {
    type V = StreamerEffectView;

    open spec fn view(&self) -> StreamerEffectView {
        match *self {
            StreamerEffect::OpenStream {
                conversation_id,
                generation,
                run_ids,
                cursor,
                self_run_id,
                sender,
            } => StreamerEffectView::OpenStream {
                conversation_id,
                generation: generation as nat,
                run_ids: texts(run_ids@).to_set(),
                cursor,
                self_run_id: self_run_id@,
            },
            StreamerEffect::StartDrainTimer { conversation_id, generation, delay_ms } =>
                StreamerEffectView::StartDrainTimer {
                conversation_id,
                generation: generation as nat,
                delay_ms,
            },
            StreamerEffect::MarkMessagesDelivered { message_ids } =>
                StreamerEffectView::MarkMessagesDelivered { message_ids: texts(message_ids@) },
            StreamerEffect::UpdateEventSequence { conversation_id, sequence } =>
                StreamerEffectView::UpdateEventSequence { conversation_id, sequence },
            StreamerEffect::UpdateEventSequenceOnServer { conversation_id, run_id, sequence } =>
                StreamerEffectView::UpdateEventSequenceOnServer {
                conversation_id,
                run_id: run_id@,
                sequence,
            },
            StreamerEffect::EnqueueEventBatch { conversation_id, events } =>
                StreamerEffectView::EnqueueEventBatch {
                conversation_id,
                events: pending_events_view(events@),
            },
            StreamerEffect::FetchTask { conversation_id, task_id, sqlite_cursor } =>
                StreamerEffectView::FetchTask { conversation_id, task_id, sqlite_cursor },
            StreamerEffect::StartRestoreFetchRetryTimer {
                conversation_id,
                task_id,
                sqlite_cursor,
                delay_secs,
            } => StreamerEffectView::StartRestoreFetchRetryTimer {
                conversation_id,
                task_id,
                sqlite_cursor,
                delay_secs,
            },
        }
    }
}

/// What a sequence of effects asks for.
pub open spec fn effects_view(effects: Seq<StreamerEffect>) -> Seq<StreamerEffectView> {
    effects.map_values(|e: StreamerEffect| e@)
}

} // verus!
