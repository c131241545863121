//! What each call is for, said of the records that go in and of the effects
//! that come out.
//!
//! The laws here speak of the fields of the history, of the names of events
//! and of single effects: when a message is queued, when a stream is opened and
//! on which runs, when a delivery is confirmed.

use crate::channel::{items_view, sent, SseStreamItem, SseStreamItemView};
use crate::clock::{is_random_uuid, rfc3339_instant, stands_for, Timestamp};
use crate::effects::{effects_view, StreamerEffect, StreamerEffectView};
use crate::events::{
    agent_events_view, converts, events_view, lifecycle_event, lifecycle_reports,
    lifecycle_type_of, messages_view, pending_entries, pending_events_view, reports_lifecycle,
    AgentEvent, AgentEventView, AgentRunEvent, AgentRunEventView, LifecycleEventDetailStage,
    LifecycleEventDetailView, LifecycleEventType, PendingEvent, PendingEventDetail,
    PendingEventDetailView, PendingEventView, ReceivedMessageInput, ReceivedMessageView,
};
use crate::history::{
    all_ids, has_child_role, is_passive, output_ids, run_id_of, run_id_or_blank,
    AIAgentExchangeId, AIAgentOutputMessageType, AIConversationId, AmbientAgentTask,
    AmbientAgentTaskId, BlocklistAIHistoryEvent, BlocklistAIHistoryModel, HistoryView,
};
use crate::laws::{law_streams_follow_eligibility, lemma_settle_each_is_local};
use crate::model::{
    absorb, announced_ids, announces_message_to, backoff_secs, confirm, confirmable, deliver,
    drain_timer, drawn_from, drawn_from_each, drawn_on_restore, driver_exited, eligible, forget,
    fresh_items, item_events, item_messages, lemma_handling_opens_nothing,
    lemma_highest_is_upper_bound, lists_watchers, merge_task, misses_own_run, open, owns_inbox,
    persisted_by, persisted_cursor, recall, remove, restore, restore_each, restore_failed,
    retry_restore, settle, settle_each, streams_at_most, teardown, watch, watch_self, watches,
    watches_child, with_consumer, without_consumer, Drawn, EntityId, Step, StreamerState,
};
use crate::streamer::{
    consumer_registered, consumer_registered_if_enabled, consumer_unregistered,
    consumer_unregistered_if_enabled, drain_due, driver_finished, fetch_finished, history_changed,
    restored_through, settles, task_fetched, took_in, watched_run_registered,
    OrchestrationEventStreamer, RestoreFetchFailed,
};
use crate::text::{lemma_filter_all_out, lemma_filter_members, lemma_push, texts};
use vstd::prelude::*;

verus! {

// ---- Reading the records -----------------------------------------------

/// The run id that the history has for a conversation.
pub open spec fn own_run(
    history: BlocklistAIHistoryModel,
    id: AIConversationId,
) -> Option<Seq<char>> {
    if history.conversations@.contains_key(id) {
        match history.conversations@[id].run_id {
            Some(run_id) => Some(run_id@),
            None => None,
        }
    } else {
        None
    }
}

/// The same, written out, and nothing where there is none.
pub open spec fn own_name(history: BlocklistAIHistoryModel, id: AIConversationId) -> Seq<char> {
    match own_run(history, id) {
        Some(run_id) => run_id,
        None => Seq::empty(),
    }
}

/// The history has a conversation down as showing somebody else's session, or
/// as standing in for a child in another process.
pub open spec fn lives_elsewhere(history: BlocklistAIHistoryModel, id: AIConversationId) -> bool {
    &&& history.conversations@.contains_key(id)
    &&& {
        ||| history.conversations@[id].viewing_shared_session
        ||| history.conversations@[id].remote_child
    }
}

/// The history has a conversation down as the child of another: the parent is
/// in this process, or its run id is known.
pub open spec fn has_parent(history: BlocklistAIHistoryModel, id: AIConversationId) -> bool {
    &&& history.conversations@.contains_key(id)
    &&& {
        ||| history.conversations@[id].child_agent_conversation
        ||| history.conversations@[id].parent_agent_id is Some
    }
}

/// The runs that are followed for a conversation.
pub open spec fn followed(state: StreamerState, id: AIConversationId) -> Set<Seq<char>> {
    if state.watched.contains_key(id) {
        state.watched[id]
    } else {
        Set::empty()
    }
}

/// The last sequence that a conversation has handled.
pub open spec fn handled_up_to(state: StreamerState, id: AIConversationId) -> i64 {
    if state.cursors.contains_key(id) {
        state.cursors[id]
    } else {
        0
    }
}

/// The messages whose delivery to a conversation is to be confirmed.
pub open spec fn unconfirmed(state: StreamerState, id: AIConversationId) -> Seq<Seq<char>> {
    if state.pending.contains_key(id) {
        state.pending[id]
    } else {
        Seq::empty()
    }
}

/// Somebody in this process consumes the events of a conversation.
pub open spec fn is_consumed(state: StreamerState, id: AIConversationId) -> bool {
    &&& state.consumers.contains_key(id)
    &&& exists|consumer: EntityId| #[trigger] state.consumers[id].contains(consumer)
}

/// A conversation follows a run other than its own.
pub open spec fn has_child(
    state: StreamerState,
    history: BlocklistAIHistoryModel,
    id: AIConversationId,
) -> bool {
    exists|run_id: Seq<char>| #[trigger]
        followed(state, id).contains(run_id) && own_run(history, id) != Some(run_id)
}

/// A conversation is to hold a stream.
pub open spec fn ought_to_stream(
    state: StreamerState,
    history: BlocklistAIHistoryModel,
    id: AIConversationId,
) -> bool {
    &&& is_consumed(state, id)
    &&& !lives_elsewhere(history, id)
    &&& has_parent(history, id) || has_child(state, history, id)
}

/// What the streamer reads of the history and of its own state is what the
/// records say.
pub proof fn law_records_are_read(
    state: StreamerState,
    history: BlocklistAIHistoryModel,
    id: AIConversationId,
)
    ensures
        run_id_of(history@, id) == own_run(history, id),
        run_id_or_blank(history@, id) == own_name(history, id),
        is_passive(history@, id) == lives_elsewhere(history, id),
        has_child_role(history@, id) == has_parent(history, id),
        state.watched_by(id) == followed(state, id),
        state.cursor_of(id) == handled_up_to(state, id),
        state.pending_of(id) == unconfirmed(state, id),
        state.has_consumer(id) == is_consumed(state, id),
        state.connected(id) == state.connections.contains_key(id),
        forall|generation: nat| #[trigger]
            state.is_current(id, generation) == holds(state, id, generation),
        state.consumers_of(id) == if state.consumers.contains_key(id) {
            state.consumers[id]
        } else {
            Set::empty()
        },
        state.failures_of(id) == if state.failures.contains_key(id) {
            state.failures[id]
        } else {
            0
        },
        history@.contains_key(id) == history.conversations@.contains_key(id),
        history@.contains_key(id) ==> {
            &&& history@[id].task_id == history.conversations@[id].task_id
            &&& history@[id].last_event_sequence == history.conversations@[id].last_event_sequence
            &&& history@[id].run_id == own_run(history, id)
        },
{
    if state.consumers.contains_key(id) {
        if forall|consumer: EntityId| !state.consumers[id].contains(consumer) {
            assert(state.consumers[id] =~= Set::<EntityId>::empty());
        }
    }
}

/// A conversation is eligible exactly if it ought to stream.
pub proof fn law_eligibility(
    state: StreamerState,
    history: BlocklistAIHistoryModel,
    id: AIConversationId,
)
    ensures
        eligible(state, history@, id) <==> ought_to_stream(state, history, id),
        lives_elsewhere(history, id) ==> !eligible(state, history@, id),
        watches_child(state, history@, id) <==> has_child(state, history, id),
{
    law_records_are_read(state, history, id);
    if has_child(state, history, id) {
        let run_id = choose|run_id: Seq<char>| #[trigger]
            followed(state, id).contains(run_id) && own_run(history, id) != Some(run_id);
        assert(state.watched_by(id).contains(run_id));
    }
}

// ---- Lifecycle events --------------------------------------------------

/// The names of lifecycle events.
pub open spec fn names_lifecycle(name: Seq<char>) -> bool {
    ||| name == "run_in_progress"@
    ||| name == "run_started"@
    ||| name == "run_restarted"@
    ||| name == "run_succeeded"@
    ||| name == "run_idle"@
    ||| name == "run_failed"@
    ||| name == "run_errored"@
    ||| name == "run_cancelled"@
    ||| name == "run_blocked"@
}

/// What a name stands for.
pub open spec fn stands_for_stage(name: Seq<char>, stage: LifecycleEventType) -> bool {
    &&& name == "run_in_progress"@ ==> stage == LifecycleEventType::InProgress
    &&& name == "run_started"@ ==> stage == LifecycleEventType::InProgress
    &&& name == "run_restarted"@ ==> stage == LifecycleEventType::InProgress
    &&& name == "run_succeeded"@ ==> stage == LifecycleEventType::Succeeded
    &&& name == "run_idle"@ ==> stage == LifecycleEventType::Succeeded
    &&& name == "run_failed"@ ==> stage == LifecycleEventType::Failed
    &&& name == "run_errored"@ ==> stage == LifecycleEventType::Errored
    &&& name == "run_cancelled"@ ==> stage == LifecycleEventType::Cancelled
    &&& name == "run_blocked"@ ==> stage == LifecycleEventType::Blocked
}

/// A lifecycle event is told from others by its name, which says of which stage
/// it is. Announcements of messages are no lifecycle events.
pub proof fn law_names_tell_the_stage()
    ensures
        !names_lifecycle("new_message"@),
        forall|name: Seq<char>| #[trigger]
            names_lifecycle(name) ==> {
                &&& lifecycle_type_of(name) is Some
                &&& stands_for_stage(name, lifecycle_type_of(name)->0)
            },
        forall|name: Seq<char>| #[trigger]
            lifecycle_type_of(name) is Some ==> names_lifecycle(name),
        forall|name: Seq<char>|
            (#[trigger] lifecycle_type_of(name) == Some(LifecycleEventType::Errored)) == (name
                == "run_errored"@),
{
    reveal_strlit("run_in_progress");
    reveal_strlit("run_started");
    reveal_strlit("run_restarted");
    reveal_strlit("run_succeeded");
    reveal_strlit("run_idle");
    reveal_strlit("run_failed");
    reveal_strlit("run_errored");
    reveal_strlit("run_cancelled");
    reveal_strlit("run_blocked");
    reveal_strlit("new_message");
    let a = "run_in_progress"@;
    let b = "run_started"@;
    let c = "run_restarted"@;
    let d = "run_succeeded"@;
    let e = "run_idle"@;
    let f = "run_failed"@;
    let g = "run_errored"@;
    let h = "run_cancelled"@;
    let i = "run_blocked"@;
    let m = "new_message"@;
    assert(a.len() == 15 && b.len() == 11 && c.len() == 13 && d.len() == 13 && e.len() == 8);
    assert(f.len() == 10 && g.len() == 11 && h.len() == 13 && i.len() == 11 && m.len() == 11);
    assert(b[4] == 's' && g[4] == 'e' && i[4] == 'b' && m[4] == 'm');
    assert(c[4] == 'r' && d[4] == 's' && h[4] == 'c');
}

/// Whether `told` is what the run `own` hears of a batch of events: of each
/// event of another run with such a name exactly one lifecycle event,
/// in order, of the stage that the name stands for, at the time that the event
/// gives; of an error its reference as the reason.
pub open spec fn told_of(
    events: Seq<AgentRunEventView>,
    own: Seq<char>,
    told: Seq<AgentEventView>,
) -> bool {
    let of_others = events.filter(
        |e: AgentRunEventView| names_lifecycle(e.event_type) && e.run_id != own,
    );
    &&& told.len() == of_others.len()
    &&& forall|i: int| #![trigger told[i]]
        0 <= i < told.len() ==> {
            &&& told[i].run_id == of_others[i].run_id
            &&& stands_for_stage(of_others[i].event_type, told[i].lifecycle_type)
            &&& told[i].detail.stage == if of_others[i].event_type == "run_errored"@ {
                Some(LifecycleEventDetailStage::Runtime)
            } else {
                None
            }
            &&& told[i].detail.reason == if of_others[i].event_type == "run_errored"@ {
                of_others[i].ref_id
            } else {
                None
            }
            &&& match rfc3339_instant(of_others[i].occurred_at) {
                Some((seconds, nanos)) => told[i].occurred_at.seconds == seconds
                    && told[i].occurred_at.nanos == nanos,
                None => 0 <= told[i].occurred_at.nanos < 1_000_000_000,
            }
            &&& is_random_uuid(told[i].event_id)
        }
}

/// Every event of another run with such a name is told of, once.
pub proof fn law_lifecycle_is_told(
    events: Seq<AgentRunEventView>,
    own: Seq<char>,
    told: Seq<AgentEventView>,
)
    requires
        converts(events, own, told),
    ensures
        told_of(events, own, told),
{
    law_names_tell_the_stage();
    let named = |e: AgentRunEventView| names_lifecycle(e.event_type) && e.run_id != own;
    let reporting = |e: AgentRunEventView| reports_lifecycle(e, own);
    assert(named =~= reporting);
    let of_others = events.filter(named);
    assert(of_others == lifecycle_reports(events, own));
    assert forall|i: int| #![trigger told[i]] 0 <= i < told.len() implies {
        &&& told[i].run_id == of_others[i].run_id
        &&& stands_for_stage(of_others[i].event_type, told[i].lifecycle_type)
    } by {
        events.lemma_filter_pred(named, i);
    }
}

/// One event is converted exactly if it has such a name and is of
/// another run.
pub proof fn law_one_event_is_converted(
    event: AgentRunEventView,
    own: Seq<char>,
    event_id: Seq<char>,
    occurred_at: Timestamp,
)
    ensures
        reports_lifecycle(event, own) <==> names_lifecycle(event.event_type) && event.run_id != own,
        names_lifecycle(event.event_type) ==> {
            let converted = lifecycle_event(event, event_id, occurred_at);
            &&& stands_for_stage(event.event_type, converted.lifecycle_type)
            &&& converted.run_id == event.run_id
            &&& converted.event_id == event_id
            &&& converted.occurred_at == occurred_at
            &&& event.event_type == "run_errored"@ ==> converted.detail == (
            LifecycleEventDetailView {
                stage: Some(LifecycleEventDetailStage::Runtime),
                reason: event.ref_id,
            })
            &&& event.event_type != "run_errored"@ ==> converted.detail == (
            LifecycleEventDetailView { stage: None, reason: None })
        },
{
    law_names_tell_the_stage();
}

// ---- Batches -----------------------------------------------------------

/// Whether an entry of the queue is that of a message.
pub open spec fn queues_message(entry: PendingEventView, message: ReceivedMessageView) -> bool {
    &&& entry.event_id == message.message_id
    &&& entry.source_agent_id == message.sender_agent_id
    &&& entry.attempt_count == 0
    &&& entry.detail == (PendingEventDetailView::Message {
        message_id: message.message_id,
        addresses: message.addresses,
        subject: message.subject,
        message_body: message.message_body,
    })
}

/// Whether an entry of the queue is that of a lifecycle event.
pub open spec fn queues_lifecycle(entry: PendingEventView, event: AgentEventView) -> bool {
    &&& entry.event_id == event.event_id
    &&& entry.source_agent_id == Seq::<char>::empty()
    &&& entry.attempt_count == 0
    &&& entry.detail == (PendingEventDetailView::Lifecycle { event })
}

/// Whether `entries` are the messages, in order, and then what is told of
/// lives.
pub open spec fn queues_all(
    entries: Seq<PendingEventView>,
    messages: Seq<ReceivedMessageView>,
    told: Seq<AgentEventView>,
) -> bool {
    &&& entries.len() == messages.len() + told.len()
    &&& forall|i: int|
        0 <= i < messages.len() ==> queues_message(#[trigger] entries[i], messages[i])
    &&& forall|i: int|
        0 <= i < told.len() ==> queues_lifecycle(
            #[trigger] entries[messages.len() + i],
            told[i],
        )
}

/// The queue takes in every message and every lifecycle event, messages first.
pub proof fn law_queue_takes_everything_in(
    messages: Seq<ReceivedMessageView>,
    told: Seq<AgentEventView>,
)
    ensures
        queues_all(pending_entries(messages, told), messages, told),
{
}

/// The ids of the messages that events announce to a run.
pub open spec fn announced_to(events: Seq<AgentRunEventView>, own: Seq<char>) -> Seq<Seq<char>> {
    events.filter(
        |e: AgentRunEventView|
            e.ref_id is Some && e.run_id == own && e.event_type == "new_message"@,
    ).map_values(|e: AgentRunEventView| e.ref_id->0)
}

/// Whether `effects` are what a batch asks for: that the history keep the
/// sequence, that the server keep it for the conversation's run, and that
/// whatever came with the batch be queued.
pub open spec fn asks_for_batch(
    effects: Seq<StreamerEffectView>,
    id: AIConversationId,
    own: Option<Seq<char>>,
    sequence: i64,
    messages: Seq<ReceivedMessageView>,
    told: Seq<AgentEventView>,
) -> bool {
    let kept: int = if own is Some {
        2
    } else {
        1
    };
    let queued: int = if messages.len() + told.len() > 0 {
        1
    } else {
        0
    };
    &&& effects.len() == kept + queued
    &&& effects[0] == (StreamerEffectView::UpdateEventSequence { conversation_id: id, sequence })
    &&& own matches Some(run_id) ==> effects[1] == (
    StreamerEffectView::UpdateEventSequenceOnServer { conversation_id: id, run_id, sequence })
    &&& queued == 1 ==> {
        &&& effects[kept] matches StreamerEffectView::EnqueueEventBatch {
            conversation_id,
            events,
        }
        &&& conversation_id == id
        &&& queues_all(events, messages, told)
    }
}

/// Whether nothing but the cursor and the unconfirmed messages of a
/// conversation differs.
pub open spec fn only_progress_differs(
    before: StreamerState,
    after: StreamerState,
    id: AIConversationId,
) -> bool {
    &&& after.cursors.remove(id) == before.cursors.remove(id)
    &&& after.pending.remove(id) == before.pending.remove(id)
    &&& after.watched == before.watched
    &&& after.consumers == before.consumers
    &&& after.connections == before.connections
    &&& after.next_generation == before.next_generation
    &&& after.failures == before.failures
}

/// A batch moves the cursor to its highest sequence. The messages that it
/// announces to the conversation's run wait for confirmation behind those that
/// waited before, of which none is lost. The cursor is persisted, and messages
/// and lifecycle events are queued.
pub proof fn law_batch_is_delivered(
    before: StreamerState,
    history: BlocklistAIHistoryModel,
    id: AIConversationId,
    own: Seq<char>,
    previous_cursor: i64,
    events: Seq<AgentRunEventView>,
    messages: Seq<ReceivedMessageView>,
    told: Seq<AgentEventView>,
    after: Step,
)
    requires
        after == deliver(
            before,
            history@,
            id,
            own,
            previous_cursor,
            events,
            messages,
            told,
        ),
    ensures
        only_progress_differs(before, after.state, id),
        after.state.cursors.contains_key(id),
        events.len() == 0 ==> after.state.cursors[id] == previous_cursor,
        forall|i: int|
            0 <= i < events.len() ==> (#[trigger] events[i]).sequence <= after.state.cursors[id],
        events.len() > 0 ==> exists|i: int|
            0 <= i < events.len() && (#[trigger] events[i]).sequence == after.state.cursors[id],
        unconfirmed(before, id).is_prefix_of(unconfirmed(after.state, id)),
        unconfirmed(after.state, id) == unconfirmed(before, id) + announced_to(events, own),
        forall|message_id: Seq<char>|
            unconfirmed(before, id).contains(message_id) ==> #[trigger] unconfirmed(
                after.state,
                id,
            ).contains(message_id),
        asks_for_batch(
            after.effects,
            id,
            own_run(history, id),
            after.state.cursors[id],
            messages,
            told,
        ),
{
    law_records_are_read(before, history, id);
    lemma_highest_is_upper_bound(events, previous_cursor);
    let announcing = |e: AgentRunEventView| announces_message_to(e, own);
    let plainly = |e: AgentRunEventView|
        e.ref_id is Some && e.run_id == own && e.event_type == "new_message"@;
    assert(announcing =~= plainly);
    let announced = announced_ids(events, own);
    assert(announced == announced_to(events, own));
    assert(unconfirmed(after.state, id) =~= unconfirmed(before, id) + announced);
    assert forall|message_id: Seq<char>|
        unconfirmed(before, id).contains(message_id) implies #[trigger] unconfirmed(
        after.state,
        id,
    ).contains(message_id) by {
        let k = unconfirmed(before, id).index_of(message_id);
        assert(unconfirmed(after.state, id)[k] == message_id);
    }
    assert(after.state.cursors.remove(id) =~= before.cursors.remove(id));
    assert(after.state.pending.remove(id) =~= before.pending.remove(id));
    law_queue_takes_everything_in(messages, told);
}

/// Whether a batch of items has been handled: those that were handled before
/// are dropped, and if others are left, the cursor moves to the highest of
/// them, what they announce waits for confirmation behind what waited before,
/// and what came with them is queued.
pub open spec fn items_are_handled(
    before: StreamerState,
    history: BlocklistAIHistoryModel,
    id: AIConversationId,
    drawn: Drawn,
    after: StreamerState,
    effects: Seq<StreamerEffectView>,
) -> bool {
    let cursor = handled_up_to(before, id);
    let new = drawn.items.filter(|i: SseStreamItemView| i.event.sequence > cursor);
    let events = new.map_values(|i: SseStreamItemView| i.event);
    let messages = new.filter(|i: SseStreamItemView| i.fetched_message is Some).map_values(
        |i: SseStreamItemView| i.fetched_message->0,
    );
    let own = own_name(history, id);
    &&& (forall|i: int|
        0 <= i < drawn.items.len() ==> (#[trigger] drawn.items[i]).event.sequence <= cursor) ==> {
        &&& after == before
        &&& effects.len() == 0
    }
    &&& (exists|i: int|
        0 <= i < drawn.items.len() && (#[trigger] drawn.items[i]).event.sequence > cursor) ==> {
        &&& only_progress_differs(before, after, id)
        &&& after.cursors.contains_key(id)
        &&& forall|i: int|
            0 <= i < drawn.items.len() ==> (#[trigger] drawn.items[i]).event.sequence
                <= after.cursors[id]
        &&& exists|i: int|
            0 <= i < drawn.items.len() && (#[trigger] drawn.items[i]).event.sequence
                == after.cursors[id]
        &&& unconfirmed(after, id) == unconfirmed(before, id) + announced_to(events, own)
        &&& told_of(events, own, drawn.lifecycle)
        &&& asks_for_batch(
            effects,
            id,
            own_run(history, id),
            after.cursors[id],
            messages,
            drawn.lifecycle,
        )
    }
    &&& after.connections == before.connections
    &&& after.next_generation == before.next_generation
}

/// Items that came through a channel are handled.
pub proof fn law_items_are_handled(
    before: StreamerState,
    history: BlocklistAIHistoryModel,
    id: AIConversationId,
    drawn: Drawn,
    after: Step,
)
    requires
        converts(
            item_events(fresh_items(drawn.items, before.cursor_of(id))),
            run_id_or_blank(history@, id),
            drawn.lifecycle,
        ),
        after == absorb(before, history@, id, drawn),
    ensures
        items_are_handled(before, history, id, drawn, after.state, after.effects),
{
    law_records_are_read(before, history, id);
    let cursor = handled_up_to(before, id);
    let keep = |i: SseStreamItemView| i.event.sequence > cursor;
    let new = drawn.items.filter(keep);
    let events = new.map_values(|i: SseStreamItemView| i.event);
    assert(new == fresh_items(drawn.items, cursor));
    if forall|i: int|
        0 <= i < drawn.items.len() ==> (#[trigger] drawn.items[i]).event.sequence <= cursor {
        lemma_filter_all_out(drawn.items, keep);
    }
    if exists|i: int|
        0 <= i < drawn.items.len() && (#[trigger] drawn.items[i]).event.sequence > cursor {
        let i = choose|i: int|
            0 <= i < drawn.items.len() && (#[trigger] drawn.items[i]).event.sequence > cursor;
        drawn.items.lemma_filter_contains(keep, i);
        assert(new.len() > 0);
        let own = own_name(history, id);
        law_batch_is_delivered(
            before,
            history,
            id,
            own,
            cursor,
            events,
            item_messages(new),
            drawn.lifecycle,
            after,
        );
        law_lifecycle_is_told(events, own, drawn.lifecycle);
        lemma_filter_members(drawn.items, keep);
        let top = choose|k: int|
            0 <= k < events.len() && (#[trigger] events[k]).sequence == after.state.cursors[id];
        assert(drawn.items.filter(keep).contains(new[top]));
        let at = drawn.items.index_of(new[top]);
        assert(drawn.items[at].event.sequence == after.state.cursors[id]);
        assert(keep(new[top]));
        assert forall|k: int| 0 <= k < drawn.items.len() implies (
        #[trigger] drawn.items[k]).event.sequence <= after.state.cursors[id] by {
            if keep(drawn.items[k]) {
                drawn.items.lemma_filter_contains(keep, k);
                let j = new.index_of(drawn.items[k]);
                assert(events[j] == drawn.items[k].event);
            }
        }
    }
}

// ---- Streams -----------------------------------------------------------

/// Whether a stream is brought in line from `ready` on. What was waiting in the
/// channel is handled. Then the conversation holds a stream exactly if it ought
/// to and follows a run: one that has just been opened, under a new generation,
/// on all the runs that are followed, from the cursor on. Nothing else changes.
pub open spec fn stream_is_renewed(
    ready: StreamerState,
    history: BlocklistAIHistoryModel,
    id: AIConversationId,
    drawn: Drawn,
    after: Step,
) -> bool {
    let holds = after.state.connections.contains_key(id);
    let handled = StreamerState {
        connections: ready.connections,
        next_generation: ready.next_generation,
        ..after.state
    };
    let asked: int = if holds {
        after.effects.len() - 2
    } else {
        after.effects.len() as int
    };
    &&& asked >= 0
    &&& items_are_handled(ready, history, id, drawn, handled, after.effects.take(asked))
    &&& holds <==> ought_to_stream(ready, history, id) && exists|run_id: Seq<char>| #[trigger]
        followed(ready, id).contains(run_id)
    &&& after.state.connections.remove(id) == ready.connections.remove(id)
    &&& !holds ==> after.state.next_generation == ready.next_generation
    &&& holds ==> {
        &&& after.state.connections[id] == ready.next_generation
        &&& after.state.next_generation == ready.next_generation + 1
        &&& after.effects[asked] == (StreamerEffectView::OpenStream {
            conversation_id: id,
            generation: ready.next_generation,
            run_ids: followed(ready, id),
            cursor: handled_up_to(after.state, id),
            self_run_id: own_name(history, id),
        })
        &&& after.effects[asked + 1] == (StreamerEffectView::StartDrainTimer {
            conversation_id: id,
            generation: ready.next_generation,
            delay_ms: 500,
        })
    }
}

/// To settle a conversation brings its stream in line.
pub proof fn law_settling_renews_the_stream(
    ready: StreamerState,
    history: BlocklistAIHistoryModel,
    id: AIConversationId,
    drawn: Drawn,
    after: Step,
)
    requires
        drawn_from(ready, history@, id, drawn),
        after == settle(ready, history@, id, drawn),
    ensures
        stream_is_renewed(ready, history, id, drawn, after),
{
    let handled = absorb(ready, history@, id, drawn);
    law_records_are_read(ready, history, id);
    law_records_are_read(handled.state, history, id);
    law_eligibility(ready, history, id);
    law_items_are_handled(ready, history, id, drawn, handled);
    lemma_some_run(ready, id);
    let holds = after.state.connections.contains_key(id);
    let asked: int = if holds {
        after.effects.len() - 2
    } else {
        after.effects.len() as int
    };
    assert(after.effects.take(asked) =~= handled.effects);
    assert(StreamerState {
        connections: ready.connections,
        next_generation: ready.next_generation,
        ..after.state
    } =~= handled.state);
    assert(after.state.connections.remove(id) =~= ready.connections.remove(id));
    assert(handled.state.watched_by(id) == ready.watched_by(id));
}

/// A set that is not empty has an element.
proof fn lemma_some_run(state: StreamerState, id: AIConversationId)
    ensures
        (state.watched_by(id) != Set::<Seq<char>>::empty()) == (exists|run_id: Seq<char>|
            #[trigger] followed(state, id).contains(run_id)),
{
    if forall|run_id: Seq<char>| !#[trigger] followed(state, id).contains(run_id) {
        assert(state.watched_by(id) =~= Set::<Seq<char>>::empty());
    }
}

/// Whether a call brings the stream of a conversation in line, from `ready` on,
/// and handles all that the streamer `before` had waiting in its channel.
pub open spec fn call_renews(
    before: OrchestrationEventStreamer,
    ready: StreamerState,
    history: BlocklistAIHistoryModel,
    id: AIConversationId,
    after: Step,
) -> bool {
    exists|drawn: Drawn|
        {
            &&& #[trigger] before.gives(id, drawn.items)
            &&& stream_is_renewed(ready, history, id, drawn, after)
        }
}

/// The same of calls.
proof fn lemma_call_renews(
    before: OrchestrationEventStreamer,
    ready: StreamerState,
    history: BlocklistAIHistoryModel,
    id: AIConversationId,
    after: Step,
)
    requires
        settles(before, ready, history@, id, after),
    ensures
        call_renews(before, ready, history, id, after),
        stays_elsewhere(history, id, after),
{
    let drawn = choose|drawn: Drawn|
        {
            &&& #[trigger] drawn_from(ready, history@, id, drawn)
            &&& before.gives(id, drawn.items)
            &&& after == settle(ready, history@, id, drawn)
        };
    law_settling_renews_the_stream(ready, history, id, drawn, after);
    lemma_handling_opens_nothing(ready, history@, id, drawn);
    law_eligibility(ready, history, id);
    assert(before.gives(id, drawn.items));
}

/// A conversation that lives elsewhere holds no stream and is given none.
pub open spec fn stays_elsewhere(
    history: BlocklistAIHistoryModel,
    id: AIConversationId,
    after: Step,
) -> bool {
    lives_elsewhere(history, id) ==> {
        &&& !after.state.connections.contains_key(id)
        &&& forall|i: int|
            0 <= i < after.effects.len() ==> !(#[trigger] after.effects[i] is OpenStream)
    }
}

/// Whether a conversation follows its own run, in addition to `runs`, because
/// it has a parent or a child.
pub open spec fn inbox_is_followed(
    runs: Set<Seq<char>>,
    history: BlocklistAIHistoryModel,
    id: AIConversationId,
    after: Set<Seq<char>>,
) -> bool {
    let in_tree = has_parent(history, id) || exists|run_id: Seq<char>| #[trigger]
        runs.contains(run_id) && own_run(history, id) != Some(run_id);
    &&& own_run(history, id) matches Some(own) ==> after == if in_tree && !lives_elsewhere(
        history,
        id,
    ) {
        runs.insert(own)
    } else {
        runs
    }
    &&& own_run(history, id) is None ==> after == runs
}

/// Watching one's own run.
proof fn lemma_inbox_is_followed(
    state: StreamerState,
    history: BlocklistAIHistoryModel,
    id: AIConversationId,
)
    ensures
        inbox_is_followed(
            followed(state, id),
            history,
            id,
            followed(watch_self(state, history@, id), id),
        ),
        misses_own_run(state, history@, id) <==> followed(watch_self(state, history@, id), id)
            != followed(state, id),
        !misses_own_run(state, history@, id) ==> watch_self(state, history@, id).watched_by(id)
            == state.watched_by(id),
        forall|other: AIConversationId|
            other != id ==> #[trigger] followed(watch_self(state, history@, id), other) == followed(
                state,
                other,
            ),
        (StreamerState { watched: state.watched, ..watch_self(state, history@, id) }) == state,
{
    law_records_are_read(state, history, id);
    let after = watch_self(state, history@, id);
    if owns_inbox(state, history@, id) {
        let own = history@[id].run_id->0;
        assert(after.watched_by(id) == state.watched_by(id).insert(own));
        if state.watched_by(id).contains(own) {
            assert(state.watched_by(id).insert(own) =~= state.watched_by(id));
        } else {
            assert(followed(after, id).contains(own));
            assert(!followed(state, id).contains(own));
        }
    }
    assert(watches_child(state, history@, id) == has_child(state, history, id)) by {
        if has_child(state, history, id) {
            let run_id = choose|run_id: Seq<char>| #[trigger]
                followed(state, id).contains(run_id) && own_run(history, id) != Some(run_id);
            assert(state.watched_by(id).contains(run_id));
        }
    }
}

/// When a consumer registers, it is among the consumers of the conversation
/// from then on, and the conversation follows its own run if it has a parent or
/// a child. One that lives elsewhere follows no run that it did not follow
/// before.
pub proof fn law_consumer_is_registered(
    before: OrchestrationEventStreamer,
    history: BlocklistAIHistoryModel,
    id: AIConversationId,
    consumer: EntityId,
    after: Step,
)
    requires
        consumer_registered(before, history@, id, consumer, after),
    ensures
        after.state.consumers.contains_key(id),
        after.state.consumers[id].contains(consumer),
        forall|other: EntityId|
            other != consumer ==> (#[trigger] after.state.consumers[id].contains(other) <==> {
                &&& before@.consumers.contains_key(id)
                &&& before@.consumers[id].contains(other)
            }),
        after.state.consumers.remove(id) == before@.consumers.remove(id),
        inbox_is_followed(followed(before@, id), history, id, followed(after.state, id)),
        lives_elsewhere(history, id) ==> followed(after.state, id) == followed(before@, id),
        forall|other: AIConversationId|
            other != id ==> #[trigger] followed(after.state, other) == followed(before@, other),
        after.state.failures == before@.failures,
        stays_elsewhere(history, id, after),
        call_renews(
            before,
            (StreamerState {
                watched: after.state.watched,
                consumers: after.state.consumers,
                ..before@
            }),
            history,
            id,
            after,
        ),
{
    let registered = with_consumer(before@, id, consumer);
    let ready = watch_self(registered, history@, id);
    lemma_call_renews(before, ready, history, id, after);
    lemma_inbox_is_followed(registered, history, id);
    assert(followed(registered, id) == followed(before@, id));
    assert(forall|other: AIConversationId| #[trigger]
        followed(registered, other) == followed(before@, other));
    assert(after.state.watched == ready.watched && after.state.consumers == ready.consumers);
    assert(ready =~= StreamerState {
        watched: after.state.watched,
        consumers: after.state.consumers,
        ..before@
    });
    assert(after.state.consumers.remove(id) =~= before@.consumers.remove(id));
}

/// When a consumer leaves, it is not among the consumers of the conversation
/// any more, and the others still are; nothing is followed that was not.
pub proof fn law_consumer_is_unregistered(
    before: OrchestrationEventStreamer,
    history: BlocklistAIHistoryModel,
    id: AIConversationId,
    consumer: EntityId,
    after: Step,
)
    requires
        consumer_unregistered(before, history@, id, consumer, after),
    ensures
        forall|other: EntityId|
            (after.state.consumers.contains_key(id) && #[trigger] after.state.consumers[id].contains(
                other,
            )) <==> {
                &&& other != consumer
                &&& before@.consumers.contains_key(id)
                &&& before@.consumers[id].contains(other)
            },
        after.state.consumers.remove(id) == before@.consumers.remove(id),
        after.state.watched == before@.watched,
        after.state.failures == before@.failures,
        stays_elsewhere(history, id, after),
        call_renews(
            before,
            (StreamerState { consumers: after.state.consumers, ..before@ }),
            history,
            id,
            after,
        ),
{
    let ready = without_consumer(before@, id, consumer);
    lemma_call_renews(before, ready, history, id, after);
    assert(after.state.consumers == ready.consumers);
    assert(ready =~= StreamerState { consumers: after.state.consumers, ..before@ });
    assert(after.state.consumers.remove(id) =~= before@.consumers.remove(id));
    assert forall|other: EntityId|
        (after.state.consumers.contains_key(id) && #[trigger] after.state.consumers[id].contains(
            other,
        )) <==> {
            &&& other != consumer
            &&& before@.consumers.contains_key(id)
            &&& before@.consumers[id].contains(other)
        } by {
        let rest = before@.consumers_of(id).remove(consumer);
        assert(rest.contains(other) <==> before@.consumers_of(id).contains(other) && other
            != consumer);
    }
}

/// When a run is to be watched, it is followed from then on, and so is the
/// conversation's own run if that has a parent or a child now. If both were
/// followed before, nothing happens; otherwise the stream is brought in line.
pub proof fn law_run_is_registered(
    before: OrchestrationEventStreamer,
    history: BlocklistAIHistoryModel,
    id: AIConversationId,
    run_id: Seq<char>,
    after: Step,
)
    requires
        watched_run_registered(before, history@, id, run_id, after),
    ensures
        followed(after.state, id).contains(run_id),
        inbox_is_followed(
            followed(before@, id).insert(run_id),
            history,
            id,
            followed(after.state, id),
        ),
        forall|other: AIConversationId|
            other != id ==> #[trigger] followed(after.state, other) == followed(before@, other),
        after.state.consumers == before@.consumers,
        after.state.failures == before@.failures,
        followed(after.state, id) == followed(before@, id) ==> after == Step::none(before@),
        followed(after.state, id) != followed(before@, id) ==> {
            &&& stays_elsewhere(history, id, after)
            &&& call_renews(
                before,
                (StreamerState { watched: after.state.watched, ..before@ }),
                history,
                id,
                after,
            )
        },
{
    let watching = watch(before@, id, run_id);
    let ready = watch_self(watching, history@, id);
    lemma_inbox_is_followed(watching, history, id);
    assert(followed(watching, id) == followed(before@, id).insert(run_id));
    assert(forall|other: AIConversationId|
        other != id ==> #[trigger] followed(watching, other) == followed(before@, other));
    law_records_are_read(before@, history, id);
    if !watches(before@, id, run_id) || misses_own_run(watching, history@, id) {
        lemma_call_renews(before, ready, history, id, after);
        assert(after.state.watched == ready.watched);
        assert(ready =~= StreamerState { watched: after.state.watched, ..before@ });
        assert(followed(after.state, id).contains(run_id));
        if watches(before@, id, run_id) {
            assert(followed(before@, id).insert(run_id) =~= followed(before@, id));
        } else {
            assert(!followed(before@, id).contains(run_id));
        }
    } else {
        assert(followed(before@, id).insert(run_id) =~= followed(before@, id));
    }
}

/// When the server has assigned a run to a conversation that has a parent or a
/// child, that run is followed from then on. If it was before, nothing happens;
/// otherwise the stream is brought in line.
pub proof fn law_assigned_run_is_followed(
    before: OrchestrationEventStreamer,
    history: BlocklistAIHistoryModel,
    orchestration_v2: bool,
    id: AIConversationId,
    after: Step,
)
    requires
        history_changed(
            before,
            history@,
            orchestration_v2,
            (BlocklistAIHistoryEvent::ConversationServerTokenAssigned { conversation_id: id }),
            after,
        ),
    ensures
        inbox_is_followed(followed(before@, id), history, id, followed(after.state, id)),
        forall|other: AIConversationId|
            other != id ==> #[trigger] followed(after.state, other) == followed(before@, other),
        after.state.consumers == before@.consumers,
        after.state.failures == before@.failures,
        followed(after.state, id) == followed(before@, id) ==> after == Step::none(before@),
        followed(after.state, id) != followed(before@, id) ==> {
            &&& stays_elsewhere(history, id, after)
            &&& call_renews(
                before,
                (StreamerState { watched: after.state.watched, ..before@ }),
                history,
                id,
                after,
            )
        },
{
    let ready = watch_self(before@, history@, id);
    lemma_inbox_is_followed(before@, history, id);
    if misses_own_run(before@, history@, id) {
        lemma_call_renews(before, ready, history, id, after);
        assert(after.state.watched == ready.watched);
        assert(ready =~= StreamerState { watched: after.state.watched, ..before@ });
    }
}

// ---- Removal -----------------------------------------------------------

/// Whether two states say the same about a conversation.
pub open spec fn same_about(a: StreamerState, b: StreamerState, id: AIConversationId) -> bool {
    &&& a.watched.contains_key(id) == b.watched.contains_key(id)
    &&& a.watched.contains_key(id) ==> a.watched[id] == b.watched[id]
    &&& a.cursors.contains_key(id) == b.cursors.contains_key(id)
    &&& a.cursors.contains_key(id) ==> a.cursors[id] == b.cursors[id]
    &&& a.pending.contains_key(id) == b.pending.contains_key(id)
    &&& a.pending.contains_key(id) ==> a.pending[id] == b.pending[id]
    &&& a.consumers.contains_key(id) == b.consumers.contains_key(id)
    &&& a.consumers.contains_key(id) ==> a.consumers[id] == b.consumers[id]
    &&& a.connections.contains_key(id) == b.connections.contains_key(id)
    &&& a.connections.contains_key(id) ==> a.connections[id] == b.connections[id]
    &&& a.failures.contains_key(id) == b.failures.contains_key(id)
    &&& a.failures.contains_key(id) ==> a.failures[id] == b.failures[id]
}

/// Whether an effect is asked for on behalf of a conversation.
pub open spec fn concerns(effect: StreamerEffectView, id: AIConversationId) -> bool {
    match effect {
        StreamerEffectView::OpenStream { conversation_id, .. } => conversation_id == id,
        StreamerEffectView::StartDrainTimer { conversation_id, .. } => conversation_id == id,
        StreamerEffectView::MarkMessagesDelivered { .. } => false,
        StreamerEffectView::UpdateEventSequence { conversation_id, .. } => conversation_id == id,
        StreamerEffectView::UpdateEventSequenceOnServer { conversation_id, .. } => conversation_id
            == id,
        StreamerEffectView::EnqueueEventBatch { conversation_id, .. } => conversation_id == id,
        StreamerEffectView::FetchTask { conversation_id, .. } => conversation_id == id,
        StreamerEffectView::StartRestoreFetchRetryTimer { .. } => false,
    }
}

/// Settling a conversation asks for nothing but on its behalf.
proof fn lemma_settling_concerns_one(
    state: StreamerState,
    history: HistoryView,
    id: AIConversationId,
    drawn: Drawn,
)
    ensures
        forall|i: int|
            0 <= i < settle(state, history, id, drawn).effects.len() ==> concerns(
                #[trigger] settle(state, history, id, drawn).effects[i],
                id,
            ) && !(settle(state, history, id, drawn).effects[i] is FetchTask),
{
    let handled = absorb(state, history, id, drawn).effects;
    let opened = open(teardown(state, history, id, drawn).state, history, id).effects;
    let effects = settle(state, history, id, drawn).effects;
    assert(handled.len() <= 3);
    assert(handled.len() > 0 ==> concerns(handled[0], id) && !(handled[0] is FetchTask));
    assert(handled.len() > 1 ==> concerns(handled[1], id) && !(handled[1] is FetchTask));
    assert(handled.len() > 2 ==> concerns(handled[2], id) && !(handled[2] is FetchTask));
    assert(effects == handled || effects == handled + opened);
    assert forall|i: int| 0 <= i < effects.len() implies concerns(#[trigger] effects[i], id) && !(
    effects[i] is FetchTask) by {
        if i < handled.len() {
            assert(effects[i] == handled[i]);
            assert(i == 0 || i == 1 || i == 2);
        } else {
            assert(effects[i] == opened[i - handled.len()]);
        }
    }
}

/// Settling several conversations asks for nothing but on their behalf.
proof fn lemma_settling_each_concerns_them(
    state: StreamerState,
    history: HistoryView,
    ids: Seq<AIConversationId>,
    drawn: Seq<Drawn>,
    i: int,
)
    requires
        0 <= i < settle_each(state, history, ids, drawn).effects.len(),
    ensures
        !(settle_each(state, history, ids, drawn).effects[i] is FetchTask),
        exists|k: int|
            0 <= k < ids.len() && concerns(
                settle_each(state, history, ids, drawn).effects[i],
                #[trigger] ids[k],
            ),
    decreases ids.len(),
{
    let between = settle_each(state, history, ids.drop_last(), drawn.drop_last());
    let last = settle(between.state, history, ids.last(), drawn.last());
    let effects = settle_each(state, history, ids, drawn).effects;
    assert(effects == between.effects + last.effects);
    if i < between.effects.len() {
        lemma_settling_each_concerns_them(
            state,
            history,
            ids.drop_last(),
            drawn.drop_last(),
            i,
        );
        let k = choose|k: int|
            0 <= k < ids.drop_last().len() && concerns(
                between.effects[i],
                #[trigger] ids.drop_last()[k],
            );
        assert(concerns(effects[i], ids[k]));
    } else {
        lemma_settling_concerns_one(between.state, history, ids.last(), drawn.last());
        assert(effects[i] == last.effects[i - between.effects.len()]);
        assert(concerns(effects[i], ids[ids.len() - 1]));
    }
}

/// Each of several conversations is settled in its turn, from what was known
/// about it at the start, and is left alone after that.
proof fn lemma_settled_in_turn(
    state: StreamerState,
    history: HistoryView,
    ids: Seq<AIConversationId>,
    drawn: Seq<Drawn>,
    k: int,
)
    requires
        ids.no_duplicates(),
        drawn_from_each(state, history, ids, drawn),
        0 <= k < ids.len(),
    ensures
        ({
            let ready = settle_each(state, history, ids.take(k), drawn.take(k)).state;
            let step = settle(ready, history, ids[k], drawn[k]);
            let after = settle_each(state, history, ids, drawn);
            &&& drawn_from(ready, history, ids[k], drawn[k])
            &&& same_about(state, ready, ids[k])
            &&& same_about(step.state, after.state, ids[k])
            &&& forall|i: int|
                0 <= i < step.effects.len() ==> after.effects.contains(#[trigger] step.effects[i])
        }),
    decreases ids.len(),
{
    let rest = ids.drop_last();
    let drawn_rest = drawn.drop_last();
    let between = settle_each(state, history, rest, drawn_rest);
    let last = settle(between.state, history, ids.last(), drawn.last());
    let after = settle_each(state, history, ids, drawn);
    let ready = settle_each(state, history, ids.take(k), drawn.take(k)).state;
    let step = settle(ready, history, ids[k], drawn[k]);
    assert(after.effects == between.effects + last.effects);
    if k == ids.len() - 1 {
        assert(ids.take(k) =~= rest);
        assert(drawn.take(k) =~= drawn_rest);
        assert(!rest.contains(ids[k])) by {
            assert forall|i: int| 0 <= i < rest.len() implies rest[i] != ids[k] by {
                assert(ids[i] != ids[k]);
            }
        }
        lemma_settle_each_is_local(state, history, rest, drawn_rest, ids[k]);
        assert forall|i: int| 0 <= i < step.effects.len() implies after.effects.contains(
            #[trigger] step.effects[i],
        ) by {
            assert(after.effects[between.effects.len() as int + i] == step.effects[i]);
        }
    } else {
        assert(rest.take(k) =~= ids.take(k));
        assert(drawn_rest.take(k) =~= drawn.take(k));
        assert(rest[k] == ids[k] && drawn_rest[k] == drawn[k]);
        lemma_settled_in_turn(state, history, rest, drawn_rest, k);
        assert(ids[k] != ids.last());
        assert(same_about(between.state, after.state, ids[k]));
        assert forall|i: int| 0 <= i < step.effects.len() implies after.effects.contains(
            #[trigger] step.effects[i],
        ) by {
            let at = between.effects.index_of(step.effects[i]);
            assert(between.effects.contains(step.effects[i]));
            assert(after.effects[at] == step.effects[i]);
        }
    }
}

/// Whether a conversation is brought in line on the way from one streamer to a
/// step: from what was known about it, but for the runs that it follows now,
/// and with all that was waiting in its channel.
pub open spec fn renewed_on_the_way(
    before: OrchestrationEventStreamer,
    ready: StreamerState,
    drawn: Drawn,
    step: Step,
    history: BlocklistAIHistoryModel,
    id: AIConversationId,
    after: Step,
) -> bool {
    &&& before.gives(id, drawn.items)
    &&& stream_is_renewed(ready, history, id, drawn, step)
    &&& same_about(step.state, after.state, id)
    &&& forall|i: int|
        0 <= i < step.effects.len() ==> after.effects.contains(#[trigger] step.effects[i])
}

/// Whether an effect is asked for on behalf of one that followed the run of a
/// conversation.
pub open spec fn is_for_a_watcher(
    state: StreamerState,
    history: BlocklistAIHistoryModel,
    id: AIConversationId,
    effect: StreamerEffectView,
) -> bool {
    exists|watcher: AIConversationId|
        {
            &&& #[trigger] concerns(effect, watcher)
            &&& watcher != id
            &&& own_run(history, id) is Some
            &&& followed(state, watcher).contains(own_run(history, id)->0)
        }
}

/// When a conversation is removed or deleted, nothing about it is left, and
/// nobody follows its run any more. Those that did are brought in line; of the
/// others nothing changes.
pub proof fn law_removed_conversation_is_forgotten(
    before: OrchestrationEventStreamer,
    history: BlocklistAIHistoryModel,
    orchestration_v2: bool,
    id: AIConversationId,
    after: Step,
    other: AIConversationId,
)
    requires
        history_changed(
            before,
            history@,
            orchestration_v2,
            (BlocklistAIHistoryEvent::RemoveConversation { conversation_id: id }),
            after,
        ) || history_changed(
            before,
            history@,
            orchestration_v2,
            (BlocklistAIHistoryEvent::DeletedConversation { conversation_id: id }),
            after,
        ),
        other != id,
    ensures
        !after.state.watched.contains_key(id),
        !after.state.cursors.contains_key(id),
        !after.state.pending.contains_key(id),
        !after.state.consumers.contains_key(id),
        !after.state.connections.contains_key(id),
        !after.state.failures.contains_key(id),
        forall|run_id: Seq<char>| #[trigger]
            followed(after.state, other).contains(run_id) <==> followed(before@, other).contains(
                run_id,
            ) && own_run(history, id) != Some(run_id),
        after.state.consumers.remove(id) == before@.consumers.remove(id),
        after.state.failures.remove(id) == before@.failures.remove(id),
        own_run(history, id) is None || !followed(before@, other).contains(own_run(history, id)->0)
            ==> same_about(before@, after.state, other),
        own_run(history, id) is Some && followed(before@, other).contains(own_run(history, id)->0)
            ==> exists|ready: StreamerState, drawn: Drawn, step: Step|
            {
                &&& #[trigger] renewed_on_the_way(
                    before,
                    ready,
                    drawn,
                    step,
                    history,
                    other,
                    after,
                )
                &&& handled_up_to(ready, other) == handled_up_to(before@, other)
                &&& unconfirmed(ready, other) == unconfirmed(before@, other)
                &&& is_consumed(ready, other) == is_consumed(before@, other)
                &&& followed(ready, other) == followed(after.state, other)
            },
        own_run(history, id) is Some && followed(before@, other).contains(own_run(history, id)->0)
            ==> (after.state.watched.contains_key(other) <==> exists|run_id: Seq<char>| #[trigger]
            followed(after.state, other).contains(run_id)),
        forall|i: int|
            0 <= i < after.effects.len() ==> is_for_a_watcher(
                before@,
                history,
                id,
                #[trigger] after.effects[i],
            ),
        forall|i: int| 0 <= i < after.effects.len() ==> !(#[trigger] after.effects[i] is FetchTask),
{
    law_records_are_read(before@, history, id);
    law_records_are_read(before@, history, other);
    let left = remove(before@, history@, id);
    let gone = forget(before@, id);
    let (ids, drawn) = choose|ids: Seq<AIConversationId>, drawn: Seq<Drawn>|
        {
            &&& lists_watchers(before@, history@, id, ids)
            &&& #[trigger] drawn_from_each(left, history@, ids, drawn)
            &&& forall|i: int|
                0 <= i < ids.len() ==> before.gives(#[trigger] ids[i], drawn[i].items)
            &&& after == settle_each(left, history@, ids, drawn)
        };
    assert(!ids.contains(id));
    lemma_settle_each_is_local(left, history@, ids, drawn, id);
    assert(gone.watched_by(other) == before@.watched_by(other));
    assert(left.consumers.remove(id) =~= before@.consumers.remove(id));
    assert(left.failures.remove(id) =~= before@.failures.remove(id));
    assert(followed(after.state, other) == left.watched_by(other));
    lemma_some_run(left, other);
    assert forall|i: int| 0 <= i < after.effects.len() implies !(
    #[trigger] after.effects[i] is FetchTask) by {
        lemma_settling_each_concerns_them(left, history@, ids, drawn, i);
    }
    assert forall|i: int| 0 <= i < after.effects.len() implies is_for_a_watcher(
        before@,
        history,
        id,
        #[trigger] after.effects[i],
    ) by {
        lemma_settling_each_concerns_them(left, history@, ids, drawn, i);
        let k = choose|k: int|
            0 <= k < ids.len() && concerns(after.effects[i], #[trigger] ids[k]);
        let watcher = ids[k];
        assert(ids.contains(watcher));
        assert(watches(gone, watcher, own_run(history, id)->0));
        assert(watcher != id);
        law_records_are_read(before@, history, watcher);
        assert(gone.watched_by(watcher) == before@.watched_by(watcher));
        assert(concerns(after.effects[i], watcher));
    }
    match own_run(history, id) {
        Some(own) => {
            assert(left.watched_by(other) =~= before@.watched_by(other).remove(own));
            if followed(before@, other).contains(own) {
                assert(watches(gone, other, own));
                assert(ids.contains(other));
                let k = ids.index_of(other);
                lemma_settled_in_turn(left, history@, ids, drawn, k);
                let ready = settle_each(left, history@, ids.take(k), drawn.take(k)).state;
                let step = settle(ready, history@, other, drawn[k]);
                law_settling_renews_the_stream(ready, history, other, drawn[k], step);
                assert(before.gives(ids[k], drawn[k].items));
                assert(renewed_on_the_way(
                    before,
                    ready,
                    drawn[k],
                    step,
                    history,
                    other,
                    after,
                ));
                assert(handled_up_to(ready, other) == handled_up_to(before@, other));
                assert(followed(ready, other) == followed(left, other));
                assert(is_consumed(ready, other) == is_consumed(before@, other)) by {
                    law_records_are_read(ready, history, other);
                    assert(ready.consumers_of(other) == before@.consumers_of(other));
                }
            } else {
                assert(!watches(gone, other, own));
                assert(!ids.contains(other));
                lemma_settle_each_is_local(left, history@, ids, drawn, other);
                assert(before@.watched_by(other).remove(own) =~= before@.watched_by(other));
            }
        },
        None => {
            assert(!ids.contains(other));
            lemma_settle_each_is_local(left, history@, ids, drawn, other);
        },
    }
}

// ---- Restoring ---------------------------------------------------------

/// The sequence that was persisted for a conversation, or zero.
pub open spec fn recorded(history: BlocklistAIHistoryModel, id: AIConversationId) -> i64 {
    match history.conversations@[id].last_event_sequence {
        Some(sequence) => sequence,
        None => 0,
    }
}

/// The history knows a conversation, and has it down as living here.
pub open spec fn lives_here(history: BlocklistAIHistoryModel, id: AIConversationId) -> bool {
    history.conversations@.contains_key(id) && !lives_elsewhere(history, id)
}

/// A conversation has a run that is a task of the server.
pub open spec fn runs_task(history: BlocklistAIHistoryModel, id: AIConversationId) -> bool {
    &&& history.conversations@.contains_key(id)
    &&& history.conversations@[id].run_id is Some
    &&& history.conversations@[id].task_id is Some
}

/// Effects that persist nothing for a conversation.
pub open spec fn persists_nothing(
    effects: Seq<StreamerEffectView>,
    id: AIConversationId,
) -> bool {
    forall|i: int|
        0 <= i < effects.len() ==> !(#[trigger] effects[i] matches
            StreamerEffectView::UpdateEventSequence { conversation_id, .. } && conversation_id
            == id)
}

/// Where nothing is persisted, the recorded sequence stands.
proof fn lemma_nothing_persisted(
    effects: Seq<StreamerEffectView>,
    id: AIConversationId,
    otherwise: i64,
)
    requires
        persists_nothing(effects, id),
    ensures
        persisted_by(effects, id, otherwise) == otherwise,
    decreases effects.len(),
{
    if effects.len() > 0 {
        let rest = effects.drop_last();
        assert forall|i: int| 0 <= i < rest.len() implies !(#[trigger] rest[i] matches
            StreamerEffectView::UpdateEventSequence { conversation_id, .. } && conversation_id
            == id) by {
            assert(rest[i] == effects[i]);
        }
        lemma_nothing_persisted(rest, id, otherwise);
        assert(!(effects[effects.len() - 1] matches StreamerEffectView::UpdateEventSequence {
            conversation_id,
            ..
        } && conversation_id == id));
    }
}

/// Settling one conversation persists nothing for another, and asks for no
/// task.
proof fn lemma_settling_persists_its_own(
    state: StreamerState,
    history: HistoryView,
    id: AIConversationId,
    drawn: Drawn,
    other: AIConversationId,
)
    ensures
        ({
            let effects = settle(state, history, id, drawn).effects;
            &&& id != other ==> persists_nothing(effects, other)
            &&& forall|i: int|
                0 <= i < effects.len() ==> !(#[trigger] effects[i] is FetchTask)
        }),
{
    lemma_settling_concerns_one(state, history, id, drawn);
}

/// What restoring several conversations comes to for one of them, or for one
/// that is not among them.
proof fn lemma_restored_in_turn(
    state: StreamerState,
    history: BlocklistAIHistoryModel,
    ids: Seq<AIConversationId>,
    drawn: Seq<Drawn>,
    id: AIConversationId,
)
    requires
        drawn_on_restore(state, history@, ids, drawn),
    ensures
        ({
            let after = restore_each(state, history@, ids, drawn);
            let listed = ids.contains(id) && lives_here(history, id);
            &&& after.state.consumers == state.consumers
            &&& after.state.failures == state.failures
            &&& !listed ==> same_about(state, after.state, id)
            &&& !listed || runs_task(history, id) ==> persists_nothing(after.effects, id)
            &&& listed ==> {
                &&& after.state.cursors.contains_key(id)
                &&& followed(after.state, id) == match own_run(history, id) {
                    Some(own) => followed(state, id).insert(own),
                    None => followed(state, id),
                }
            }
            &&& listed && runs_task(history, id) ==> {
                &&& after.state.cursors[id] == recorded(history, id)
                &&& same_about(
                    (StreamerState {
                        watched: after.state.watched,
                        cursors: after.state.cursors,
                        ..state
                    }),
                    after.state,
                    id,
                )
                &&& after.effects.contains(
                    StreamerEffectView::FetchTask {
                        conversation_id: id,
                        task_id: history.conversations@[id].task_id->0,
                        sqlite_cursor: recorded(history, id),
                    },
                )
            }
            &&& listed && !runs_task(history, id) ==> (after.state.connections.contains_key(id)
                <==> ought_to_stream(after.state, history, id) && exists|run_id: Seq<char>|
                #[trigger] followed(after.state, id).contains(run_id))
            &&& forall|i: int|
                0 <= i < after.effects.len() ==> (#[trigger] after.effects[i] matches
                    StreamerEffectView::FetchTask { conversation_id, .. } ==> ids.contains(
                    conversation_id,
                ) && lives_here(history, conversation_id) && runs_task(history, conversation_id))
            &&& forall|i: int|
                0 <= i < after.effects.len() ==> exists|k: int|
                    {
                        &&& 0 <= k < ids.len()
                        &&& concerns(#[trigger] after.effects[i], #[trigger] ids[k])
                        &&& lives_here(history, ids[k])
                    }
        }),
    decreases ids.len(),
{
    let after = restore_each(state, history@, ids, drawn);
    if ids.len() > 0 {
        let rest = ids.drop_last();
        let last = ids.last();
        let between = restore_each(state, history@, rest, drawn.drop_last());
        let cursor = persisted_cursor(between.effects, history@, last);
        let recalled = recall(between.state, history@, last, cursor);
        let step = restore(between.state, history@, last, cursor, drawn.last());
        let settled = settle(recalled, history@, last, drawn.last());
        lemma_restored_in_turn(state, history, rest, drawn.drop_last(), id);
        lemma_restored_in_turn(state, history, rest, drawn.drop_last(), last);
        law_records_are_read(between.state, history, last);
        law_records_are_read(between.state, history, id);
        law_records_are_read(after.state, history, id);
        law_records_are_read(state, history, id);
        lemma_settling_persists_its_own(recalled, history@, last, drawn.last(), id);
        assert(ids =~= rest.push(last));
        lemma_push(rest, last);
        assert(after.effects == between.effects + step.effects);
        assert forall|i: int| 0 <= i < between.effects.len() implies after.effects[i]
            == between.effects[i] by {}
        if !(lives_here(history, last) && !runs_task(history, last)) {
            assert(step.effects.len() <= 1);
        }
        if runs_task(history, last) {
            lemma_nothing_persisted(between.effects, last, recorded(history, last));
            assert(cursor == recorded(history, last));
        }
        assert forall|i: int| 0 <= i < after.effects.len() implies (
        #[trigger] after.effects[i] matches StreamerEffectView::FetchTask {
            conversation_id,
            ..
        } ==> ids.contains(conversation_id) && lives_here(history, conversation_id) && runs_task(
            history,
            conversation_id,
        )) by {
            if i < between.effects.len() {
                assert(after.effects[i] == between.effects[i]);
            } else {
                assert(after.effects[i] == step.effects[i - between.effects.len()]);
            }
        }
        assert forall|i: int| 0 <= i < after.effects.len() implies exists|k: int|
            {
                &&& 0 <= k < ids.len()
                &&& concerns(#[trigger] after.effects[i], #[trigger] ids[k])
                &&& lives_here(history, ids[k])
            } by {
            if i < between.effects.len() {
                assert(after.effects[i] == between.effects[i]);
                let k = choose|k: int|
                    {
                        &&& 0 <= k < rest.len()
                        &&& concerns(between.effects[i], #[trigger] rest[k])
                        &&& lives_here(history, rest[k])
                    };
                assert(concerns(after.effects[i], ids[k]));
            } else {
                assert(after.effects[i] == step.effects[i - between.effects.len()]);
                lemma_settling_concerns_one(recalled, history@, last, drawn.last());
                assert(concerns(after.effects[i], ids[ids.len() - 1]));
            }
        }
        let listed = ids.contains(id) && lives_here(history, id);
        if !listed || runs_task(history, id) {
            assert(persists_nothing(after.effects, id)) by {
                assert forall|i: int| 0 <= i < after.effects.len() implies !(
                #[trigger] after.effects[i] matches StreamerEffectView::UpdateEventSequence {
                    conversation_id,
                    ..
                } && conversation_id == id) by {
                    if i < between.effects.len() {
                        assert(after.effects[i] == between.effects[i]);
                    } else {
                        assert(after.effects[i] == step.effects[i - between.effects.len()]);
                    }
                }
            }
        }
        if id == last {
            if lives_here(history, id) {
                assert(after.state.watched == recalled.watched);
                match own_run(history, id) {
                    Some(own) => {
                        assert(followed(state, id).insert(own).insert(own) =~= followed(
                            state,
                            id,
                        ).insert(own));
                    },
                    None => {},
                }
                if runs_task(history, id) {
                    let n = between.effects.len() as int;
                    assert(after.effects[n] == (StreamerEffectView::FetchTask {
                        conversation_id: id,
                        task_id: history.conversations@[id].task_id->0,
                        sqlite_cursor: recorded(history, id),
                    }));
                } else {
                    law_streams_follow_eligibility(recalled, history@, id, drawn.last());
                    law_eligibility(after.state, history, id);
                    lemma_some_run(after.state, id);
                }
            }
        } else {
            assert(same_about(between.state, after.state, id));
            if listed {
                if runs_task(history, id) {
                    let fetch = StreamerEffectView::FetchTask {
                        conversation_id: id,
                        task_id: history.conversations@[id].task_id->0,
                        sqlite_cursor: recorded(history, id),
                    };
                    let at = between.effects.index_of(fetch);
                    assert(after.effects[at] == fetch);
                } else {
                    law_eligibility(between.state, history, id);
                    law_eligibility(after.state, history, id);
                    assert(after.state.watched_by(id) == between.state.watched_by(id));
                    assert(after.state.consumers_of(id) == between.state.consumers_of(id));
                    assert(watches_child(after.state, history@, id) == watches_child(
                        between.state,
                        history@,
                        id,
                    ));
                    lemma_some_run(after.state, id);
                    lemma_some_run(between.state, id);
                }
            }
        }
    }
}

/// What is persisted by effects after others.
proof fn lemma_persisted_after(
    first: Seq<StreamerEffectView>,
    second: Seq<StreamerEffectView>,
    id: AIConversationId,
    otherwise: i64,
)
    ensures
        persisted_by(first + second, id, otherwise) == persisted_by(
            second,
            id,
            persisted_by(first, id, otherwise),
        ),
    decreases second.len(),
{
    if second.len() > 0 {
        let rest = second.drop_last();
        lemma_persisted_after(first, rest, id, otherwise);
        assert((first + second).drop_last() =~= first + rest);
        assert((first + second).last() == second.last());
    } else {
        assert(first + second =~= first);
    }
}

/// Once a stream has been brought in line, the cursor is the one that has been
/// persisted, if it was before.
proof fn lemma_settling_persists_the_cursor(
    state: StreamerState,
    history: HistoryView,
    id: AIConversationId,
    drawn: Drawn,
)
    ensures
        ({
            let after = settle(state, history, id, drawn);
            persisted_by(after.effects, id, state.cursor_of(id)) == after.state.cursor_of(id)
        }),
{
    let held = state.cursor_of(id);
    let handled = absorb(state, history, id, drawn);
    let after = settle(state, history, id, drawn);
    let opened = open(teardown(state, history, id, drawn).state, history, id).effects;
    assert(persists_nothing(opened, id));
    assert(after.effects == handled.effects || after.effects == handled.effects + opened);
    lemma_persisted_after(handled.effects, opened, id, held);
    lemma_nothing_persisted(opened, id, handled.state.cursor_of(id));
    assert(after.state.cursor_of(id) == handled.state.cursor_of(id));
    if handled.effects.len() > 0 {
        let first = handled.effects.take(1);
        let rest = handled.effects.skip(1);
        let kept = StreamerEffectView::UpdateEventSequence {
            conversation_id: id,
            sequence: handled.state.cursor_of(id),
        };
        assert(handled.effects[0] == kept);
        assert(handled.effects.len() > 1 ==> !(handled.effects[1] is UpdateEventSequence));
        assert(handled.effects.len() > 2 ==> !(handled.effects[2] is UpdateEventSequence));
        assert(persists_nothing(rest, id)) by {
            assert forall|i: int| 0 <= i < rest.len() implies !(#[trigger] rest[i] matches
                StreamerEffectView::UpdateEventSequence { conversation_id, .. }
                && conversation_id == id) by {
                assert(rest[i] == handled.effects[i + 1]);
                assert(i == 0 || i == 1);
            }
        }
        assert(first.last() == kept);
        assert(persisted_by(first, id, held) == handled.state.cursor_of(id));
        lemma_nothing_persisted(rest, id, handled.state.cursor_of(id));
        lemma_persisted_after(first, rest, id, held);
        assert(first + rest =~= handled.effects);
    }
}

/// The cursor of a conversation that has been restored is the one that has been
/// persisted.
proof fn lemma_restored_cursor(
    state: StreamerState,
    history: BlocklistAIHistoryModel,
    ids: Seq<AIConversationId>,
    drawn: Seq<Drawn>,
    id: AIConversationId,
)
    requires
        drawn_on_restore(state, history@, ids, drawn),
        ids.contains(id),
        lives_here(history, id),
    ensures
        ({
            let after = restore_each(state, history@, ids, drawn);
            after.state.cursor_of(id) == persisted_by(after.effects, id, recorded(history, id))
        }),
    decreases ids.len(),
{
    let rest = ids.drop_last();
    let last = ids.last();
    let between = restore_each(state, history@, rest, drawn.drop_last());
    let cursor = persisted_cursor(between.effects, history@, last);
    let recalled = recall(between.state, history@, last, cursor);
    let step = restore(between.state, history@, last, cursor, drawn.last());
    let after = restore_each(state, history@, ids, drawn);
    law_records_are_read(between.state, history, last);
    law_records_are_read(between.state, history, id);
    lemma_persisted_after(between.effects, step.effects, id, recorded(history, id));
    assert(after.effects == between.effects + step.effects);
    if last == id {
        assert(cursor == persisted_by(between.effects, id, recorded(history, id)));
        lemma_settling_persists_the_cursor(recalled, history@, id, drawn.last());
        assert(recalled.cursor_of(id) == cursor);
        if runs_task(history, id) {
            assert(persists_nothing(step.effects, id));
            lemma_nothing_persisted(step.effects, id, cursor);
        }
    } else {
        let k = ids.index_of(id);
        assert(rest[k] == id);
        lemma_restored_cursor(state, history, rest, drawn.drop_last(), id);
        lemma_settling_persists_its_own(recalled, history@, last, drawn.last(), id);
        assert(persists_nothing(step.effects, id));
        lemma_nothing_persisted(step.effects, id, between.state.cursor_of(id));
        assert(after.state.cursor_of(id) == between.state.cursor_of(id));
    }
}

/// What is persisted last is what the last effect persists that persists
/// anything.
proof fn lemma_persisted_last(
    effects: Seq<StreamerEffectView>,
    id: AIConversationId,
    otherwise: i64,
)
    ensures
        persists_nothing(effects, id) || exists|i: int|
            0 <= i < effects.len() && #[trigger] persists_last(
                effects,
                i,
                id,
                persisted_by(effects, id, otherwise),
            ),
    decreases effects.len(),
{
    if effects.len() > 0 && !persists_nothing(effects, id) {
        let rest = effects.drop_last();
        let n = effects.len() - 1;
        let sequence = persisted_by(effects, id, otherwise);
        if effects[n] matches StreamerEffectView::UpdateEventSequence { conversation_id, .. }
            && conversation_id == id {
            assert(persists_last(effects, n, id, sequence));
        } else {
            lemma_persisted_last(rest, id, otherwise);
            if persists_nothing(rest, id) {
                assert forall|i: int| 0 <= i < effects.len() implies !(
                #[trigger] effects[i] matches StreamerEffectView::UpdateEventSequence {
                    conversation_id,
                    ..
                } && conversation_id == id) by {
                    if i < n {
                        assert(rest[i] == effects[i]);
                    }
                }
            } else {
                let i = choose|i: int|
                    0 <= i < rest.len() && #[trigger] persists_last(rest, i, id, sequence);
                assert forall|j: int| i < j < effects.len() implies !(
                #[trigger] effects[j] matches StreamerEffectView::UpdateEventSequence {
                    conversation_id,
                    ..
                } && conversation_id == id) by {
                    if j < n {
                        assert(rest[j] == effects[j]);
                    }
                }
                assert(persists_last(effects, i, id, sequence));
            }
        }
    }
}

/// Whether the effect at a place persists a sequence for a conversation, and
/// none after it does.
pub open spec fn persists_last(
    effects: Seq<StreamerEffectView>,
    i: int,
    id: AIConversationId,
    sequence: i64,
) -> bool {
    &&& effects[i] == (StreamerEffectView::UpdateEventSequence { conversation_id: id, sequence })
    &&& forall|j: int|
        i < j < effects.len() ==> !(#[trigger] effects[j] matches
            StreamerEffectView::UpdateEventSequence { conversation_id, .. } && conversation_id
            == id)
}

/// A conversation that has come back from disk, however often it is listed,
/// goes on from the sequence that is persisted for it: the last one that is
/// persisted on the way, or else the one that was.
pub proof fn law_restored_cursor_is_the_persisted_one(
    before: OrchestrationEventStreamer,
    history: BlocklistAIHistoryModel,
    conversation_ids: Vec<AIConversationId>,
    after: Step,
    id: AIConversationId,
)
    requires
        history_changed(
            before,
            history@,
            true,
            (BlocklistAIHistoryEvent::RestoredConversations { conversation_ids }),
            after,
        ),
        conversation_ids@.contains(id),
        lives_here(history, id),
    ensures
        persists_nothing(after.effects, id) ==> handled_up_to(after.state, id) == recorded(
            history,
            id,
        ),
        !persists_nothing(after.effects, id) ==> exists|i: int|
            0 <= i < after.effects.len() && #[trigger] persists_last(
                after.effects,
                i,
                id,
                handled_up_to(after.state, id),
            ),
{
    let ids = conversation_ids@;
    let (drawn, stages) = choose|drawn: Seq<Drawn>, stages: Seq<OrchestrationEventStreamer>|
        {
            &&& drawn_on_restore(before@, history@, ids, drawn)
            &&& #[trigger] restored_through(before, history@, ids, drawn, stages)
            &&& after == restore_each(before@, history@, ids, drawn)
        };
    law_records_are_read(after.state, history, id);
    lemma_restored_cursor(before@, history, ids, drawn, id);
    lemma_persisted_last(after.effects, id, recorded(history, id));
    if persists_nothing(after.effects, id) {
        lemma_nothing_persisted(after.effects, id, recorded(history, id));
    }
}

/// When conversations come back from disk, each one that lives here follows its
/// own run and whatever it followed before. If that run is a task of the
/// server, the task is fetched, with the sequence that was persisted or zero,
/// whatever that is, and the conversation goes on from there; otherwise it
/// holds a stream exactly if it ought to and follows a run. Of conversations
/// that live elsewhere or are not among them nothing changes. Without the
/// second version of orchestration nothing happens at all.
pub proof fn law_conversations_are_restored(
    before: OrchestrationEventStreamer,
    history: BlocklistAIHistoryModel,
    orchestration_v2: bool,
    conversation_ids: Vec<AIConversationId>,
    after: Step,
    id: AIConversationId,
)
    requires
        history_changed(
            before,
            history@,
            orchestration_v2,
            (BlocklistAIHistoryEvent::RestoredConversations { conversation_ids }),
            after,
        ),
    ensures
        !orchestration_v2 ==> after == Step::none(before@),
        after.state.consumers == before@.consumers,
        after.state.failures == before@.failures,
        !conversation_ids@.contains(id) || !lives_here(history, id) ==> same_about(
            before@,
            after.state,
            id,
        ),
        orchestration_v2 && conversation_ids@.contains(id) && lives_here(history, id) ==> {
            &&& after.state.cursors.contains_key(id)
            &&& followed(before@, id).subset_of(followed(after.state, id))
            &&& own_run(history, id) matches Some(own) ==> followed(after.state, id).contains(own)
            &&& forall|run_id: Seq<char>| #[trigger]
                followed(after.state, id).contains(run_id) ==> followed(before@, id).contains(
                    run_id,
                ) || own_run(history, id) == Some(run_id)
            &&& runs_task(history, id) ==> {
                &&& after.state.cursors[id] == recorded(history, id)
                &&& after.effects.contains(
                    StreamerEffectView::FetchTask {
                        conversation_id: id,
                        task_id: history.conversations@[id].task_id->0,
                        sqlite_cursor: recorded(history, id),
                    },
                )
                &&& unconfirmed(after.state, id) == unconfirmed(before@, id)
                &&& after.state.connections.contains_key(id) == before@.connections.contains_key(id)
                &&& before@.connections.contains_key(id) ==> after.state.connections[id]
                    == before@.connections[id]
            }
            &&& !runs_task(history, id) ==> (after.state.connections.contains_key(id)
                <==> ought_to_stream(after.state, history, id) && exists|run_id: Seq<char>|
                #[trigger] followed(after.state, id).contains(run_id))
        },
        forall|i: int|
            0 <= i < after.effects.len() ==> (#[trigger] after.effects[i] matches
                StreamerEffectView::FetchTask { conversation_id, .. } ==> {
                &&& conversation_ids@.contains(conversation_id)
                &&& lives_here(history, conversation_id)
                &&& runs_task(history, conversation_id)
            }),
        forall|i: int|
            0 <= i < after.effects.len() ==> exists|k: int|
                {
                    &&& 0 <= k < conversation_ids@.len()
                    &&& concerns(#[trigger] after.effects[i], #[trigger] conversation_ids@[k])
                    &&& lives_here(history, conversation_ids@[k])
                },
{
    if orchestration_v2 {
        let ids = conversation_ids@;
        let (drawn, stages) = choose|
            drawn: Seq<Drawn>,
            stages: Seq<OrchestrationEventStreamer>,
        |
            {
                &&& drawn_on_restore(before@, history@, ids, drawn)
                &&& #[trigger] restored_through(before, history@, ids, drawn, stages)
                &&& after == restore_each(before@, history@, ids, drawn)
            };
        lemma_restored_in_turn(before@, history, ids, drawn, id);
    }
}

/// Each of several conversations is restored in its turn; what comes of that
/// stands unless it is listed again.
proof fn lemma_restored_at(
    state: StreamerState,
    history: HistoryView,
    ids: Seq<AIConversationId>,
    drawn: Seq<Drawn>,
    k: int,
)
    requires
        drawn_on_restore(state, history, ids, drawn),
        0 <= k < ids.len(),
        forall|j: int| k < j < ids.len() ==> #[trigger] ids[j] != ids[k],
    ensures
        ({
            let before = restore_each(state, history, ids.take(k), drawn.take(k));
            let cursor = persisted_cursor(before.effects, history, ids[k]);
            let step = restore(before.state, history, ids[k], cursor, drawn[k]);
            let after = restore_each(state, history, ids, drawn);
            &&& drawn_on_restore(state, history, ids.take(k), drawn.take(k))
            &&& history.contains_key(ids[k]) ==> drawn_from(
                recall(before.state, history, ids[k], cursor),
                history,
                ids[k],
                drawn[k],
            )
            &&& same_about(step.state, after.state, ids[k])
            &&& forall|i: int|
                0 <= i < step.effects.len() ==> after.effects.contains(#[trigger] step.effects[i])
        }),
    decreases ids.len(),
{
    let rest = ids.drop_last();
    let drawn_rest = drawn.drop_last();
    let between = restore_each(state, history, rest, drawn_rest);
    let after = restore_each(state, history, ids, drawn);
    let before = restore_each(state, history, ids.take(k), drawn.take(k));
    let cursor = persisted_cursor(before.effects, history, ids[k]);
    let step = restore(before.state, history, ids[k], cursor, drawn[k]);
    if k == ids.len() - 1 {
        assert(ids.take(k) =~= rest);
        assert(drawn.take(k) =~= drawn_rest);
        assert(after.effects == between.effects + step.effects);
        assert forall|i: int| 0 <= i < step.effects.len() implies after.effects.contains(
            #[trigger] step.effects[i],
        ) by {
            assert(after.effects[between.effects.len() as int + i] == step.effects[i]);
        }
    } else {
        assert(rest.take(k) =~= ids.take(k));
        assert(drawn_rest.take(k) =~= drawn.take(k));
        assert(rest[k] == ids[k] && drawn_rest[k] == drawn[k]);
        assert forall|j: int| k < j < rest.len() implies #[trigger] rest[j] != rest[k] by {
            assert(ids[j] != ids[k]);
        }
        lemma_restored_at(state, history, rest, drawn_rest, k);
        assert(ids[ids.len() - 1] != ids[k]);
        assert(same_about(between.state, after.state, ids[k]));
        assert forall|i: int| 0 <= i < step.effects.len() implies after.effects.contains(
            #[trigger] step.effects[i],
        ) by {
            assert(between.effects.contains(step.effects[i]));
            let at = between.effects.index_of(step.effects[i]);
            assert(after.effects[at] == step.effects[i]);
        }
    }
}

/// A conversation that comes back from disk and whose run is no task is brought
/// in line from the sequence that was persisted, with all that was waiting in
/// its channel when its turn came.
pub proof fn law_restored_stream_is_renewed(
    before: OrchestrationEventStreamer,
    history: BlocklistAIHistoryModel,
    conversation_ids: Vec<AIConversationId>,
    after: Step,
    k: int,
    id: AIConversationId,
)
    requires
        history_changed(
            before,
            history@,
            true,
            (BlocklistAIHistoryEvent::RestoredConversations { conversation_ids }),
            after,
        ),
        0 <= k < conversation_ids@.len(),
        id == conversation_ids@[k],
        lives_here(history, id),
        !runs_task(history, id),
        forall|j: int|
            0 <= j < conversation_ids@.len() && j != k ==> #[trigger] conversation_ids@[j] != id,
    ensures
        exists|
            stage: OrchestrationEventStreamer,
            ready: StreamerState,
            drawn: Drawn,
            step: Step,
        |
            {
                &&& #[trigger] renewed_on_the_way(stage, ready, drawn, step, history, id, after)
                &&& same_about(before@, stage@, id)
                &&& handled_up_to(ready, id) == recorded(history, id)
                &&& unconfirmed(ready, id) == unconfirmed(before@, id)
                &&& is_consumed(ready, id) == is_consumed(before@, id)
                &&& followed(ready, id) == followed(after.state, id)
            },
{
    let ids = conversation_ids@;
    let (drawn, stages) = choose|drawn: Seq<Drawn>, stages: Seq<OrchestrationEventStreamer>|
        {
            &&& drawn_on_restore(before@, history@, ids, drawn)
            &&& #[trigger] restored_through(before, history@, ids, drawn, stages)
            &&& after == restore_each(before@, history@, ids, drawn)
        };
    let earlier = restore_each(before@, history@, ids.take(k), drawn.take(k));
    let cursor = persisted_cursor(earlier.effects, history@, id);
    let ready = recall(earlier.state, history@, id, cursor);
    let step = settle(ready, history@, id, drawn[k]);
    law_records_are_read(before@, history, id);
    law_records_are_read(earlier.state, history, id);
    lemma_restored_at(before@, history@, ids, drawn, k);
    assert forall|j: int| 0 <= j < ids.take(k).len() implies ids.take(k)[j] != id by {
        assert(ids[j] != ids[k]);
    }
    assert(!ids.take(k).contains(id));
    lemma_restored_in_turn(before@, history, ids.take(k), drawn.take(k), id);
    lemma_nothing_persisted(earlier.effects, id, recorded(history, id));
    assert(stages[k]@ == earlier.state && stages[k].gives(ids[k], drawn[k].items));
    law_settling_renews_the_stream(ready, history, id, drawn[k], step);
    assert(renewed_on_the_way(stages[k], ready, drawn[k], step, history, id, after));
    assert(is_consumed(ready, id) == is_consumed(before@, id)) by {
        law_records_are_read(ready, history, id);
        assert(ready.consumers_of(id) == before@.consumers_of(id));
    }
    assert(followed(ready, id) == followed(step.state, id));
}

/// The sequence that the server has for a task, or zero.
pub open spec fn server_sequence(task: AmbientAgentTask) -> i64 {
    match task.last_event_sequence {
        Some(sequence) => sequence,
        None => 0,
    }
}

/// Whether a number is the largest of three.
pub open spec fn is_latest(latest: i64, a: i64, b: i64, c: i64) -> bool {
    &&& latest >= a && latest >= b && latest >= c
    &&& latest == a || latest == b || latest == c
}

/// When a task has been fetched, the conversation goes on from the latest of
/// the sequence that it has reached, the persisted one and the server's, and
/// follows the runs of the task's children as well as those that it followed
/// before. The failures are forgotten, and the stream is brought in line. If
/// the conversation has gone meanwhile, none of this happens.
pub proof fn law_fetched_task_is_merged(
    before: OrchestrationEventStreamer,
    history: BlocklistAIHistoryModel,
    id: AIConversationId,
    sqlite_cursor: i64,
    task: AmbientAgentTask,
    after: Step,
)
    requires
        task_fetched(before, history@, id, sqlite_cursor, task@, after),
    ensures
        !after.state.failures.contains_key(id),
        after.state.failures.remove(id) == before@.failures.remove(id),
        after.state.consumers == before@.consumers,
        !before@.cursors.contains_key(id) ==> {
            &&& after.effects.len() == 0
            &&& after.state == (StreamerState { failures: after.state.failures, ..before@ })
        },
        before@.cursors.contains_key(id) ==> {
            &&& forall|run_id: Seq<char>| #[trigger]
                followed(after.state, id).contains(run_id) <==> followed(before@, id).contains(
                    run_id,
                ) || exists|k: int|
                    0 <= k < task.children@.len() && (#[trigger] task.children@[k])@ == run_id
            &&& after.state.watched.remove(id) == before@.watched.remove(id)
            &&& stays_elsewhere(history, id, after)
            &&& exists|merged: i64|
                {
                    &&& #[trigger] is_latest(
                        merged,
                        before@.cursors[id],
                        sqlite_cursor,
                        server_sequence(task),
                    )
                    &&& call_renews(
                        before,
                        (StreamerState {
                            cursors: before@.cursors.insert(id, merged),
                            watched: after.state.watched,
                            failures: after.state.failures,
                            ..before@
                        }),
                        history,
                        id,
                        after,
                    )
                }
        },
{
    law_records_are_read(before@, history, id);
    assert(before@.failures.remove(id).remove(id) =~= before@.failures.remove(id));
    if before@.cursors.contains_key(id) {
        let ready = merge_task(before@, id, sqlite_cursor, task@);
        lemma_call_renews(before, ready, history, id, after);
        assert(after.state.watched == ready.watched);
        assert(after.state.failures == ready.failures);
        let merged = ready.cursors[id];
        assert(is_latest(
            merged,
            before@.cursors[id],
            sqlite_cursor,
            server_sequence(task),
        ));
        assert(ready =~= StreamerState {
            cursors: before@.cursors.insert(id, merged),
            watched: after.state.watched,
            failures: after.state.failures,
            ..before@
        });
        assert(after.state.watched.remove(id) =~= before@.watched.remove(id));
        let names = texts(task.children@);
        assert forall|run_id: Seq<char>| #[trigger]
            followed(after.state, id).contains(run_id) <==> followed(before@, id).contains(run_id)
                || exists|k: int|
                0 <= k < task.children@.len() && (#[trigger] task.children@[k])@ == run_id by {
            if names.to_set().contains(run_id) {
                let k = names.index_of(run_id);
                assert(task.children@[k]@ == run_id);
            }
            if exists|k: int|
                0 <= k < task.children@.len() && (#[trigger] task.children@[k])@ == run_id {
                let k = choose|k: int|
                    0 <= k < task.children@.len() && (#[trigger] task.children@[k])@ == run_id;
                assert(names[k] == run_id);
                assert(names.to_set().contains(run_id));
            }
        }
    }
}

/// When a fetch fails, the failure is counted, and the fetch is to be tried
/// again, with what it was tried with, after one second, then two, then five,
/// then ten each time. Nothing else changes.
pub proof fn law_failed_fetch_is_tried_again(
    before: StreamerState,
    id: AIConversationId,
    task_id: AmbientAgentTaskId,
    sqlite_cursor: i64,
    after: Step,
)
    requires
        after == restore_failed(before, id, task_id, sqlite_cursor),
    ensures
        after.state.failures.contains_key(id),
        after.state.failures[id] == if before.failures.contains_key(id) {
            before.failures[id] + 1
        } else {
            1
        },
        after.state.failures.remove(id) == before.failures.remove(id),
        after.state == (StreamerState { failures: after.state.failures, ..before }),
        after.effects.len() == 1,
        after.effects[0] matches StreamerEffectView::StartRestoreFetchRetryTimer {
            conversation_id,
            task_id: again,
            sqlite_cursor: from,
            delay_secs,
        } && {
            &&& conversation_id == id
            &&& again == task_id
            &&& from == sqlite_cursor
            &&& after.state.failures[id] <= 1 ==> delay_secs == 1
            &&& after.state.failures[id] == 2 ==> delay_secs == 2
            &&& after.state.failures[id] == 3 ==> delay_secs == 5
            &&& after.state.failures[id] >= 4 ==> delay_secs == 10
        },
{
    assert(after.state.failures.remove(id) =~= before.failures.remove(id));
}

/// When the wait is over, the fetch is tried again, with what it was tried with
/// before, exactly if the conversation is still there.
pub proof fn law_retry_fetches_again(
    before: StreamerState,
    id: AIConversationId,
    task_id: AmbientAgentTaskId,
    sqlite_cursor: i64,
    after: Step,
)
    requires
        after == retry_restore(before, id, task_id, sqlite_cursor),
    ensures
        before.cursors.contains_key(id) ==> {
            &&& after.state == before
            &&& after.effects == seq![
                StreamerEffectView::FetchTask { conversation_id: id, task_id, sqlite_cursor },
            ]
        },
        !before.cursors.contains_key(id) ==> {
            &&& after.effects.len() == 0
            &&& !after.state.failures.contains_key(id)
            &&& after.state.failures.remove(id) == before.failures.remove(id)
            &&& after.state == (StreamerState { failures: after.state.failures, ..before })
        },
{
    assert(before.failures.remove(id).remove(id) =~= before.failures.remove(id));
}

// ---- Callbacks of a stream ---------------------------------------------

/// Whether a conversation holds the stream of a generation.
pub open spec fn holds(state: StreamerState, id: AIConversationId, generation: nat) -> bool {
    state.connections.contains_key(id) && state.connections[id] == generation
}

/// When the time to drain has come, all that waits in the channel is handled,
/// and the timer is started again for the same stream. If the stream is not
/// held any more, nothing happens.
pub proof fn law_due_drain_handles_what_waits(
    before: OrchestrationEventStreamer,
    history: BlocklistAIHistoryModel,
    id: AIConversationId,
    generation: nat,
    after: OrchestrationEventStreamer,
    effects: Seq<StreamerEffectView>,
)
    requires
        drain_due(before, history@, id, generation, after, effects),
    ensures
        !holds(before@, id, generation) ==> {
            &&& after@ == before@
            &&& after.same_channels(before)
            &&& effects.len() == 0
        },
        holds(before@, id, generation) ==> {
            &&& effects.len() > 0
            &&& effects.last() == (StreamerEffectView::StartDrainTimer {
                conversation_id: id,
                generation,
                delay_ms: 500,
            })
            &&& exists|drawn: Drawn|
                {
                    &&& #[trigger] before.gives(id, drawn.items)
                    &&& after.received_by(id).len() >= before.received_by(id).len()
                    &&& drawn.items == items_view(
                        after.received_by(id).skip(before.received_by(id).len() as int),
                    )
                    &&& items_are_handled(
                        before@,
                        history,
                        id,
                        drawn,
                        after@,
                        effects.drop_last(),
                    )
                }
        },
{
    let drawn = choose|drawn: Drawn|
        {
            &&& #[trigger] drawn_from(before@, history@, id, drawn)
            &&& before@.is_current(id, generation) ==> {
                &&& before.gives(id, drawn.items)
                &&& took_in(before, after, id, drawn.items)
            }
            &&& (Step { state: after@, effects }) == drain_timer(
                before@,
                history@,
                id,
                generation,
                drawn,
            )
        };
    if holds(before@, id, generation) {
        let handled = absorb(before@, history@, id, drawn);
        law_items_are_handled(before@, history, id, drawn, handled);
        assert(effects.drop_last() =~= handled.effects);
        assert(before.gives(id, drawn.items));
    }
}

/// When a reading has ended, all that waits in the channel is handled. If it
/// failed, what has come in since is handled too, and the stream is brought in
/// line; if it ended well, the stream is held as before. If the stream is not
/// held any more, nothing happens.
pub proof fn law_ended_reading_is_followed_up(
    before: OrchestrationEventStreamer,
    history: BlocklistAIHistoryModel,
    id: AIConversationId,
    generation: nat,
    failed: bool,
    after: OrchestrationEventStreamer,
    effects: Seq<StreamerEffectView>,
)
    requires
        driver_finished(before, history@, id, generation, failed, after, effects),
    ensures
        !holds(before@, id, generation) ==> {
            &&& after@ == before@
            &&& after.same_channels(before)
            &&& effects.len() == 0
        },
        holds(before@, id, generation) && !failed ==> exists|drawn: Drawn|
            {
                &&& #[trigger] before.gives(id, drawn.items)
                &&& after.received_by(id).len() >= before.received_by(id).len()
                &&& drawn.items == items_view(
                    after.received_by(id).skip(before.received_by(id).len() as int),
                )
                &&& items_are_handled(before@, history, id, drawn, after@, effects)
            },
        holds(before@, id, generation) && failed ==> exists|
            drawn: Drawn,
            since: Drawn,
            middle: Step,
            renewed: Step,
        |
            {
                &&& #[trigger] items_are_handled(
                    before@,
                    history,
                    id,
                    drawn,
                    middle.state,
                    middle.effects,
                )
                &&& #[trigger] stream_is_renewed(middle.state, history, id, since, renewed)
                &&& before.gives(id, drawn.items)
                &&& before.gives(id, drawn.items + since.items)
                &&& after@ == renewed.state
                &&& effects == middle.effects + renewed.effects
            },
{
    let (drawn, since) = choose|drawn: Drawn, drawn_again: Drawn|
        {
            &&& #[trigger] drawn_from(before@, history@, id, drawn)
            &&& #[trigger] drawn_from(
                absorb(before@, history@, id, drawn).state,
                history@,
                id,
                drawn_again,
            )
            &&& before@.is_current(id, generation) ==> {
                &&& before.gives(id, drawn.items)
                &&& failed ==> before.gives(id, drawn.items + drawn_again.items)
                &&& !failed ==> took_in(before, after, id, drawn.items)
            }
            &&& (Step { state: after@, effects }) == driver_exited(
                before@,
                history@,
                id,
                generation,
                failed,
                drawn,
                drawn_again,
            )
        };
    if holds(before@, id, generation) {
        let middle = absorb(before@, history@, id, drawn);
        law_items_are_handled(before@, history, id, drawn, middle);
        assert(before.gives(id, drawn.items));
        if failed {
            let renewed = settle(middle.state, history@, id, since);
            law_settling_renews_the_stream(middle.state, history, id, since, renewed);
            assert(items_are_handled(
                before@,
                history,
                id,
                drawn,
                middle.state,
                middle.effects,
            ));
        }
    }
}

// ---- Confirmations -----------------------------------------------------

/// Whether the output of an exchange shows that a message was taken in.
pub open spec fn shows_message(
    history: BlocklistAIHistoryModel,
    id: AIConversationId,
    exchange_id: AIAgentExchangeId,
    message_id: Seq<char>,
) -> bool {
    &&& history.conversations@.contains_key(id)
    &&& history.conversations@[id].exchanges@.contains_key(exchange_id)
    &&& history.conversations@[id].exchanges@[exchange_id].output is Some
    &&& output_lists(
        history.conversations@[id].exchanges@[exchange_id].output->0@,
        message_id,
    )
}

/// Whether some part of an output lists a message as received.
pub open spec fn output_lists(
    output: Seq<AIAgentOutputMessageType>,
    message_id: Seq<char>,
) -> bool {
    exists|k: int, l: int|
        0 <= k < output.len() && #[trigger] lists_message(output[k], l, message_id)
}

/// Whether a message is the one at a place of what an output lists as received.
pub open spec fn lists_message(
    output: AIAgentOutputMessageType,
    place: int,
    message_id: Seq<char>,
) -> bool {
    output matches AIAgentOutputMessageType::MessagesReceivedFromAgents { message_ids } && 0
        <= place < message_ids@.len() && message_ids@[place]@ == message_id
}

/// The ids of the messages that an exchange shows, as its output lists them.
pub open spec fn shown_in_order(
    history: BlocklistAIHistoryModel,
    id: AIConversationId,
    exchange_id: AIAgentExchangeId,
) -> Seq<Seq<char>> {
    let output = history.conversations@[id].exchanges@[exchange_id].output->0@;
    Seq::new(
        output.len(),
        |k: int|
            match output[k] {
                AIAgentOutputMessageType::MessagesReceivedFromAgents { message_ids } => Seq::new(
                    message_ids@.len(),
                    |l: int| message_ids@[l]@,
                ),
                AIAgentOutputMessageType::Other => Seq::empty(),
            },
    ).flatten()
}

/// All ids of a list of lists are the lists one after the other.
proof fn lemma_all_ids_flatten(lists: Seq<Seq<Seq<char>>>)
    ensures
        all_ids(lists) == lists.flatten(),
    decreases lists.len(),
{
    lists.lemma_flatten_and_flatten_alt_are_equivalent();
    if lists.len() > 0 {
        lemma_all_ids_flatten(lists.drop_last());
        lists.drop_last().lemma_flatten_and_flatten_alt_are_equivalent();
    }
}

/// The ids of an output are those that its parts list.
proof fn lemma_listed(outputs: Seq<AIAgentOutputMessageType>, message_id: Seq<char>)
    ensures
        all_ids(output_ids(outputs)).contains(message_id) <==> exists|k: int, l: int|
            0 <= k < outputs.len() && #[trigger] lists_message(outputs[k], l, message_id),
    decreases outputs.len(),
{
    let lists = output_ids(outputs);
    if outputs.len() > 0 {
        let rest = outputs.drop_last();
        let last = outputs.last();
        assert(lists.drop_last() =~= output_ids(rest));
        assert(lists.last() == last@);
        lemma_listed(rest, message_id);
        let all = all_ids(lists);
        let before = all_ids(output_ids(rest));
        assert(all == before + last@);
        if all.contains(message_id) {
            let at = all.index_of(message_id);
            if at < before.len() {
                assert(before[at] == message_id);
                let (k, l) = choose|k: int, l: int|
                    0 <= k < rest.len() && #[trigger] lists_message(rest[k], l, message_id);
                assert(lists_message(outputs[k], l, message_id));
            } else {
                let l = at - before.len();
                assert(last@[l] == message_id);
                assert(lists_message(outputs[outputs.len() - 1], l, message_id));
            }
        }
        if exists|k: int, l: int|
            0 <= k < outputs.len() && #[trigger] lists_message(outputs[k], l, message_id) {
            let (k, l) = choose|k: int, l: int|
                0 <= k < outputs.len() && #[trigger] lists_message(outputs[k], l, message_id);
            if k < rest.len() {
                assert(lists_message(rest[k], l, message_id));
                let at = before.index_of(message_id);
                assert(all[at] == message_id);
            } else {
                assert(last@[l] == message_id);
                assert(all[before.len() as int + l] == message_id);
            }
        }
    }
}

/// When the history tells of an exchange, the server is told of exactly those
/// messages that waited for confirmation and that the exchange shows to have
/// been taken in. These wait no longer; the others still do, in their order.
/// Nothing else changes.
pub proof fn law_shown_messages_are_confirmed(
    before: OrchestrationEventStreamer,
    history: BlocklistAIHistoryModel,
    orchestration_v2: bool,
    id: AIConversationId,
    exchange_id: AIAgentExchangeId,
    after: Step,
)
    requires
        after == confirm(before@, history@, id, exchange_id) || history_changed(
            before,
            history@,
            orchestration_v2,
            (BlocklistAIHistoryEvent::UpdatedStreamingExchange {
                conversation_id: id,
                exchange_id,
            }),
            after,
        ),
    ensures
        forall|message_id: Seq<char>| #[trigger]
            unconfirmed(after.state, id).contains(message_id) <==> unconfirmed(
                before@,
                id,
            ).contains(message_id) && !shows_message(history, id, exchange_id, message_id),
        unconfirmed(after.state, id) == unconfirmed(before@, id).filter(
            |message_id: Seq<char>| !shows_message(history, id, exchange_id, message_id),
        ),
        forall|message_id: Seq<char>|
            unconfirmed(before@, id).contains(message_id) && #[trigger] shows_message(
                history,
                id,
                exchange_id,
                message_id,
            ) ==> after.effects.len() == 1,
        after.effects.len() <= 1,
        after.effects.len() == 1 ==> {
            &&& after.effects[0] matches StreamerEffectView::MarkMessagesDelivered { message_ids }
            &&& message_ids.len() > 0
            &&& message_ids == shown_in_order(history, id, exchange_id).filter(
                |message_id: Seq<char>| unconfirmed(before@, id).contains(message_id),
            )
            &&& forall|message_id: Seq<char>| #[trigger]
                message_ids.contains(message_id) <==> unconfirmed(before@, id).contains(message_id)
                    && shows_message(history, id, exchange_id, message_id)
        },
        after.state.pending.remove(id) == before@.pending.remove(id),
        after.state == (StreamerState { pending: after.state.pending, ..before@ }),
{
    law_records_are_read(before@, history, id);
    let pending = unconfirmed(before@, id);
    let confirmed = confirmable(before@, history@, id, exchange_id);
    let waits = |message_id: Seq<char>| before@.pending_of(id).contains(message_id);
    let other = |message_id: Seq<char>| !confirmed.contains(message_id);
    let plainly = |message_id: Seq<char>| !shows_message(history, id, exchange_id, message_id);
    assert forall|message_id: Seq<char>| #[trigger]
        confirmed.contains(message_id) <==> pending.contains(message_id) && shows_message(
            history,
            id,
            exchange_id,
            message_id,
        ) by {
        if history.conversations@.contains_key(id)
            && history.conversations@[id].exchanges@.contains_key(exchange_id) {
            let exchange = history.conversations@[id].exchanges@[exchange_id];
            assert(history@[id].exchanges[exchange_id] == exchange@);
            lemma_filter_members(exchange@, waits);
            if exchange.output is Some {
                let output = exchange.output->0@;
                lemma_listed(output, message_id);
                if exchange@.contains(message_id) {
                    let (k, l) = choose|k: int, l: int|
                        0 <= k < output.len() && #[trigger] lists_message(output[k], l, message_id);
                    assert(lists_message(output[k], l, message_id));
                }
            }
        }
    }
    if confirmed.len() > 0 {
        let exchange = history.conversations@[id].exchanges@[exchange_id];
        let output = exchange.output->0@;
        lemma_filter_members(exchange@, waits);
        assert(confirmed.contains(confirmed[0]));
        assert(exchange@.contains(confirmed[0]));
        assert(exchange.output is Some);
        let lists = output_ids(output);
        lemma_all_ids_flatten(lists);
        let plain_lists = Seq::new(
            output.len(),
            |k: int|
                match output[k] {
                    AIAgentOutputMessageType::MessagesReceivedFromAgents { message_ids } =>
                        Seq::new(message_ids@.len(), |l: int| message_ids@[l]@),
                    AIAgentOutputMessageType::Other => Seq::empty(),
                },
        );
        assert forall|k: int| 0 <= k < output.len() implies lists[k] == plain_lists[k] by {
            assert(lists[k] =~= plain_lists[k]);
        }
        assert(lists =~= plain_lists);
        assert(waits =~= |message_id: Seq<char>|
            unconfirmed(before@, id).contains(message_id));
    }
    lemma_filter_members(pending, other);
    lemma_filter_agrees(pending, other, plainly);
    let rest = pending.filter(other);
    if confirmed.len() == 0 {
        assert forall|i: int| 0 <= i < pending.len() implies plainly(#[trigger] pending[i]) by {
            assert(!confirmed.contains(pending[i]));
            assert(pending.contains(pending[i]));
        }
        lemma_filter_all_in(pending, plainly);
    } else {
        assert(confirmed.contains(confirmed[0]));
    }
    assert(unconfirmed(after.state, id) =~= rest);
    assert(after.state.pending.remove(id) =~= before@.pending.remove(id));
    assert(after.state =~= StreamerState { pending: after.state.pending, ..before@ });
    assert forall|message_id: Seq<char>|
        unconfirmed(before@, id).contains(message_id) && #[trigger] shows_message(
            history,
            id,
            exchange_id,
            message_id,
        ) implies after.effects.len() == 1 by {
        assert(confirmed.contains(message_id));
    }
}

/// Filters that agree on all elements give the same.
proof fn lemma_filter_agrees<A>(s: Seq<A>, a: spec_fn(A) -> bool, b: spec_fn(A) -> bool)
    requires
        forall|x: A| s.contains(x) ==> #[trigger] a(x) == b(x),
    ensures
        s.filter(a) == s.filter(b),
    decreases s.len(),
{
    reveal(Seq::filter);
    if s.len() > 0 {
        assert(s.contains(s[s.len() - 1]));
        assert forall|x: A| s.drop_last().contains(x) implies #[trigger] a(x) == b(x) by {
            let k = s.drop_last().index_of(x);
            assert(s[k] == x);
            assert(s.contains(x));
        }
        lemma_filter_agrees(s.drop_last(), a, b);
        assert(a(s.last()) == b(s.last()));
    }
}

/// A filter that all elements pass leaves them all.
proof fn lemma_filter_all_in<A>(s: Seq<A>, keep: spec_fn(A) -> bool)
    requires
        forall|i: int| 0 <= i < s.len() ==> keep(#[trigger] s[i]),
    ensures
        s.filter(keep) == s,
    decreases s.len(),
{
    reveal(Seq::filter);
    if s.len() > 0 {
        assert forall|i: int| 0 <= i < s.drop_last().len() implies keep(
            #[trigger] s.drop_last()[i],
        ) by {
            assert(s.drop_last()[i] == s[i]);
        }
        lemma_filter_all_in(s.drop_last(), keep);
        assert(keep(s[s.len() - 1]));
        assert(s =~= s.drop_last().push(s.last()));
    } else {
        assert(s.filter(keep) =~= s);
    }
}

// ---- Views -------------------------------------------------------------

/// What contracts say of a log entry, they say of all its fields.
pub proof fn law_event_is_shown_in_full(event: AgentRunEvent, item: SseStreamItem)
    ensures
        event@.event_type == event.event_type@,
        event@.run_id == event.run_id@,
        event@.occurred_at == event.occurred_at@,
        event@.sequence == event.sequence,
        event@.ref_id is Some == event.ref_id is Some,
        event.ref_id matches Some(ref_id) ==> event@.ref_id == Some(ref_id@),
        item@.event == item.event@,
        item@.fetched_message is Some == item.fetched_message is Some,
        item.fetched_message matches Some(message) ==> item@.fetched_message == Some(message@),
{
}

/// What contracts say of a message, they say of all its fields.
pub proof fn law_message_is_shown_in_full(message: ReceivedMessageInput)
    ensures
        message@.message_id == message.message_id@,
        message@.sender_agent_id == message.sender_agent_id@,
        message@.subject == message.subject@,
        message@.message_body == message.message_body@,
        message@.addresses.len() == message.addresses@.len(),
        forall|i: int|
            0 <= i < message.addresses@.len() ==> #[trigger] message@.addresses[i]
                == message.addresses@[i]@,
{
}

/// What contracts say of a lifecycle event or of an entry of the queue, they
/// say of all its fields.
pub proof fn law_entry_is_shown_in_full(event: AgentEvent, entry: PendingEvent)
    ensures
        event@.event_id == event.event_id@,
        event@.run_id == event.run_id@,
        event@.lifecycle_type == event.lifecycle_type,
        event@.occurred_at == event.occurred_at,
        event@.detail.stage == event.detail.stage,
        event@.detail.reason is Some == event.detail.reason is Some,
        event.detail.reason matches Some(reason) ==> event@.detail.reason == Some(reason@),
        entry@.event_id == entry.event_id@,
        entry@.source_agent_id == entry.source_agent_id@,
        entry@.attempt_count == entry.attempt_count,
        entry.detail matches PendingEventDetail::Lifecycle { event: of } ==> entry@.detail == (
        PendingEventDetailView::Lifecycle { event: of@ }),
        entry.detail matches PendingEventDetail::Message {
            message_id,
            addresses,
            subject,
            message_body,
        } ==> entry@.detail == (PendingEventDetailView::Message {
            message_id: message_id@,
            addresses: Seq::new(addresses@.len(), |i: int| addresses@[i]@),
            subject: subject@,
            message_body: message_body@,
        }),
{
    if let PendingEventDetail::Message { addresses, .. } = entry.detail {
        assert(texts(addresses@) =~= Seq::new(addresses@.len(), |i: int| addresses@[i]@));
    }
}

/// What contracts say of an effect, they say of all its fields but for the
/// sender that goes with a stream.
pub proof fn law_effect_is_shown_in_full(effect: StreamerEffect)
    ensures
        match effect {
            StreamerEffect::OpenStream {
                conversation_id,
                generation,
                run_ids,
                cursor,
                self_run_id,
                ..
            } => effect@ matches StreamerEffectView::OpenStream {
                conversation_id: id,
                generation: given,
                run_ids: runs,
                cursor: from,
                self_run_id: own,
            } && {
                &&& id == conversation_id
                &&& given == generation
                &&& from == cursor
                &&& own == self_run_id@
                &&& forall|run_id: Seq<char>| #[trigger]
                    runs.contains(run_id) <==> exists|k: int|
                        0 <= k < run_ids@.len() && (#[trigger] run_ids@[k])@ == run_id
            },
            StreamerEffect::StartDrainTimer { conversation_id, generation, delay_ms } => effect@
                == (StreamerEffectView::StartDrainTimer {
                conversation_id,
                generation: generation as nat,
                delay_ms,
            }),
            StreamerEffect::MarkMessagesDelivered { message_ids } => effect@ == (
            StreamerEffectView::MarkMessagesDelivered {
                message_ids: Seq::new(message_ids@.len(), |i: int| message_ids@[i]@),
            }),
            StreamerEffect::UpdateEventSequence { conversation_id, sequence } => effect@ == (
            StreamerEffectView::UpdateEventSequence { conversation_id, sequence }),
            StreamerEffect::UpdateEventSequenceOnServer { conversation_id, run_id, sequence } =>
                effect@ == (StreamerEffectView::UpdateEventSequenceOnServer {
                conversation_id,
                run_id: run_id@,
                sequence,
            }),
            StreamerEffect::EnqueueEventBatch { conversation_id, events } => effect@ == (
            StreamerEffectView::EnqueueEventBatch {
                conversation_id,
                events: Seq::new(events@.len(), |i: int| events@[i]@),
            }),
            StreamerEffect::FetchTask { conversation_id, task_id, sqlite_cursor } => effect@ == (
            StreamerEffectView::FetchTask { conversation_id, task_id, sqlite_cursor }),
            StreamerEffect::StartRestoreFetchRetryTimer {
                conversation_id,
                task_id,
                sqlite_cursor,
                delay_secs,
            } => effect@ == (StreamerEffectView::StartRestoreFetchRetryTimer {
                conversation_id,
                task_id,
                sqlite_cursor,
                delay_secs,
            }),
        },
{
    match effect {
        StreamerEffect::OpenStream { run_ids, .. } => {
            let names = texts(run_ids@);
            assert forall|run_id: Seq<char>| #[trigger]
                names.to_set().contains(run_id) <==> exists|k: int|
                    0 <= k < run_ids@.len() && (#[trigger] run_ids@[k])@ == run_id by {
                if names.to_set().contains(run_id) {
                    let k = names.index_of(run_id);
                    assert(run_ids@[k]@ == run_id);
                }
                if exists|k: int|
                    0 <= k < run_ids@.len() && (#[trigger] run_ids@[k])@ == run_id {
                    let k = choose|k: int|
                        0 <= k < run_ids@.len() && (#[trigger] run_ids@[k])@ == run_id;
                    assert(names[k] == run_id);
                }
            }
        },
        StreamerEffect::MarkMessagesDelivered { message_ids } => {
            assert(texts(message_ids@) =~= Seq::new(
                message_ids@.len(),
                |i: int| message_ids@[i]@,
            ));
        },
        StreamerEffect::EnqueueEventBatch { events, .. } => {
            assert(effect@->EnqueueEventBatch_events =~= Seq::new(
                events@.len(),
                |i: int| events@[i]@,
            ));
        },
        _ => {},
    }
}

/// What contracts say of sequences, they say of each element in its place.
pub proof fn law_sequences_are_shown_in_order(
    effects: Seq<StreamerEffect>,
    events: Seq<AgentRunEvent>,
    messages: Seq<ReceivedMessageInput>,
    told: Seq<AgentEvent>,
    entries: Seq<PendingEvent>,
    items: Seq<SseStreamItem>,
)
    ensures
        effects_view(effects) == Seq::new(effects.len(), |i: int| effects[i]@),
        events_view(events) == Seq::new(events.len(), |i: int| events[i]@),
        messages_view(messages) == Seq::new(messages.len(), |i: int| messages[i]@),
        agent_events_view(told) == Seq::new(told.len(), |i: int| told[i]@),
        pending_events_view(entries) == Seq::new(entries.len(), |i: int| entries[i]@),
        items_view(items) == Seq::new(items.len(), |i: int| items[i]@),
{
    assert(effects_view(effects) =~= Seq::new(effects.len(), |i: int| effects[i]@));
    assert(events_view(events) =~= Seq::new(events.len(), |i: int| events[i]@));
    assert(messages_view(messages) =~= Seq::new(messages.len(), |i: int| messages[i]@));
    assert(agent_events_view(told) =~= Seq::new(told.len(), |i: int| told[i]@));
    assert(pending_events_view(entries) =~= Seq::new(entries.len(), |i: int| entries[i]@));
    assert(items_view(items) =~= Seq::new(items.len(), |i: int| items[i]@));
}

// ---- The streamer between calls ----------------------------------------

/// A new streamer knows of nothing, and its first stream has the generation
/// zero.
pub proof fn law_new_streamer_knows_nothing(id: AIConversationId)
    ensures
        ({
            let new = StreamerState::initial();
            &&& !new.watched.contains_key(id)
            &&& !new.cursors.contains_key(id)
            &&& !new.pending.contains_key(id)
            &&& !new.consumers.contains_key(id)
            &&& !new.connections.contains_key(id)
            &&& !new.failures.contains_key(id)
            &&& new.next_generation == 0
        }),
{
}

/// Between calls, a conversation that holds a stream is consumed and follows a
/// run, and its stream has a generation that no other has and that has been
/// given out.
pub proof fn law_held_streams_are_in_order(
    streamer: OrchestrationEventStreamer,
    id: AIConversationId,
    other: AIConversationId,
)
    requires
        streamer.wf(),
        streamer@.connections.contains_key(id),
    ensures
        is_consumed(streamer@, id),
        exists|run_id: Seq<char>| #[trigger] followed(streamer@, id).contains(run_id),
        streamer@.connections[id] < streamer@.next_generation,
        other != id && streamer@.connections.contains_key(other) ==> streamer@.connections[other]
            != streamer@.connections[id],
        streamer@.inv(),
{
    assert(streamer@.has_consumer(id));
    lemma_some_run(streamer@, id);
    if forall|consumer: EntityId| !streamer@.consumers_of(id).contains(consumer) {
        assert(streamer@.consumers_of(id) =~= Set::<EntityId>::empty());
    }
    assert(is_consumed(streamer@, id));
}

/// The sender that is handed out with a stream feeds that stream as long as it
/// is held, nothing has gone through it yet, and no run is listed twice.
pub proof fn law_opened_stream_is_fed(
    streamer: OrchestrationEventStreamer,
    effects: Seq<StreamerEffect>,
    i: int,
)
    requires
        streamer.hands_out(effects),
        0 <= i < effects.len(),
    ensures
        effects[i] matches StreamerEffect::OpenStream {
            conversation_id,
            generation,
            run_ids,
            sender,
            ..
        } ==> {
            &&& holds(streamer@, conversation_id, generation as nat) ==> streamer.feeds(
                conversation_id,
                sender,
            )
            &&& sent(sender) == Seq::<SseStreamItem>::empty()
            &&& forall|j: int, k: int|
                0 <= j < k < run_ids@.len() ==> (#[trigger] run_ids@[j])@ != (
                #[trigger] run_ids@[k])@
        },
{
    if let StreamerEffect::OpenStream { run_ids, .. } = effects[i] {
        let names = texts(run_ids@);
        assert forall|j: int, k: int| 0 <= j < k < run_ids@.len() implies (
        #[trigger] run_ids@[j])@ != (#[trigger] run_ids@[k])@ by {
            assert(names[j] != names[k]);
        }
    }
}

/// The wait after failed fetches is one second, then two, then five, then ten.
pub proof fn law_waits_follow_the_schedule(failures: nat)
    ensures
        failures <= 1 ==> backoff_secs(failures) == 1,
        failures == 2 ==> backoff_secs(failures) == 2,
        failures == 3 ==> backoff_secs(failures) == 5,
        failures >= 4 ==> backoff_secs(failures) == 10,
{
}

/// A date that can be read gives the instant that it denotes.
pub proof fn law_readable_date_is_kept(at: Timestamp, text: Seq<char>)
    requires
        stands_for(at, text),
    ensures
        rfc3339_instant(text) matches Some((seconds, nanos)) ==> at.seconds == seconds && at.nanos
            == nanos,
        rfc3339_instant(text) is None ==> 0 <= at.nanos < 1_000_000_000,
{
}

/// A change of the history opens at most one stream where a run was assigned,
/// one for each conversation that follows runs where one has gone, and one for
/// each conversation that comes back from disk.
pub proof fn law_streams_that_may_be_opened(
    event: BlocklistAIHistoryEvent,
    orchestration_v2: bool,
    state: StreamerState,
)
    ensures
        match event {
            BlocklistAIHistoryEvent::ConversationServerTokenAssigned { .. } => streams_at_most(
                event,
                orchestration_v2,
                state,
            ) == 1,
            BlocklistAIHistoryEvent::RemoveConversation { .. } => streams_at_most(
                event,
                orchestration_v2,
                state,
            ) == state.watched.dom().len(),
            BlocklistAIHistoryEvent::DeletedConversation { .. } => streams_at_most(
                event,
                orchestration_v2,
                state,
            ) == state.watched.dom().len(),
            BlocklistAIHistoryEvent::RestoredConversations { conversation_ids } =>
                streams_at_most(event, orchestration_v2, state) == if orchestration_v2 {
                    conversation_ids@.len()
                } else {
                    0
                },
            _ => streams_at_most(event, orchestration_v2, state) == 0,
        },
{
}

/// With the second version of orchestration switched on, consumers register and
/// leave; without it neither has any effect.
pub proof fn law_consumers_need_the_second_version(
    before: OrchestrationEventStreamer,
    history: BlocklistAIHistoryModel,
    orchestration_v2: bool,
    id: AIConversationId,
    consumer: EntityId,
    after: Step,
)
    ensures
        consumer_registered_if_enabled(before, history@, orchestration_v2, id, consumer, after)
            <==> {
            &&& orchestration_v2 ==> consumer_registered(before, history@, id, consumer, after)
            &&& !orchestration_v2 ==> after.state == before@ && after.effects.len() == 0
        },
        consumer_unregistered_if_enabled(before, history@, orchestration_v2, id, consumer, after)
            <==> {
            &&& orchestration_v2 ==> consumer_unregistered(before, history@, id, consumer, after)
            &&& !orchestration_v2 ==> after.state == before@ && after.effects.len() == 0
        },
{
    if after.state == before@ && after.effects.len() == 0 {
        assert(after =~= Step::none(before@));
    }
}

/// A fetch that brings a task has it merged, and one that fails is to be tried
/// again.
pub proof fn law_ended_fetch_is_followed_up(
    before: OrchestrationEventStreamer,
    history: BlocklistAIHistoryModel,
    id: AIConversationId,
    task_id: AmbientAgentTaskId,
    sqlite_cursor: i64,
    run_result: Result<AmbientAgentTask, RestoreFetchFailed>,
    after: Step,
)
    requires
        fetch_finished(before, history@, id, task_id, sqlite_cursor, run_result, after),
    ensures
        run_result matches Ok(task) ==> task_fetched(
            before,
            history@,
            id,
            sqlite_cursor,
            task@,
            after,
        ),
        run_result is Err ==> {
            &&& after == restore_failed(before@, id, task_id, sqlite_cursor)
            &&& after.state.failures.contains_key(id)
            &&& after.effects.len() == 1
            &&& after.effects[0] matches StreamerEffectView::StartRestoreFetchRetryTimer {
                conversation_id,
                task_id: again,
                sqlite_cursor: from,
                ..
            }
            &&& conversation_id == id && again == task_id && from == sqlite_cursor
        },
{
}

} // verus!
