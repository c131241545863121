//! What holds of the streamer as a whole.

use crate::channel::SseStreamItemView;
use crate::effects::StreamerEffectView;
use crate::events::{
    converts, lifecycle_entry, lifecycle_reports, message_entry, pending_entries,
    reports_lifecycle, AgentEventView, AgentRunEventView, PendingEventView, ReceivedMessageView,
};
use crate::history::{
    has_child_role, is_passive, run_id_of, run_id_or_blank, AIAgentExchangeId, AIConversationId,
    AmbientAgentTaskId, AmbientAgentTaskView, BlocklistAIHistoryEvent, HistoryView,
};
use crate::model::{
    absorb, announced_ids, announces_message_to, backoff_secs, confirm, confirmable, deliver,
    drain_timer, drawn_from, drawn_from_each, driver_exited, eligible, forget, fresh_items,
    item_events, item_messages, lemma_handling_opens_nothing, lemma_highest_is_upper_bound,
    lists_watchers, merge_task, misses_own_run, open, opening, owns_inbox, persisted_by,
    persisted_cursor, recall, remove, restore, retry_restore, server_cursor, settle, settle_each,
    teardown, watch, watch_self, watches, watches_child, with_consumer, without_consumer, Drawn,
    EntityId, Step, StreamerState,
};
use crate::streamer::{
    consumer_registered, consumer_unregistered, conversation_removed, driver_finished,
    history_changed, server_token_assigned, task_fetched, watched_run_registered,
    OrchestrationEventStreamer,
};
use crate::text::{lemma_filter_all_out, lemma_filter_members};
use vstd::prelude::*;

verus! {

// ---- Which conversations hold a stream ---------------------------------

/// Once its stream has been brought in line, a conversation holds one exactly
/// if it is eligible and has a run to follow.
pub proof fn law_streams_follow_eligibility(
    state: StreamerState,
    history: HistoryView,
    id: AIConversationId,
    drawn: Drawn,
)
    ensures
        ({
            let after = settle(state, history, id, drawn).state;
            after.connected(id) <==> eligible(after, history, id) && after.watched_by(id) != Set::<
                Seq<char>,
            >::empty()
        }),
{
    let after = settle(state, history, id, drawn).state;
    assert(after.watched_by(id) == state.watched_by(id));
    assert(after.consumers_of(id) == state.consumers_of(id));
    assert(watches_child(after, history, id) == watches_child(state, history, id));
}

/// A passive view of a run hosted elsewhere is not subscribed: its own run is
/// not watched on its account, and it is left without a stream.
pub proof fn law_passive_views_are_not_subscribed(
    state: StreamerState,
    history: HistoryView,
    id: AIConversationId,
    cursor: i64,
    drawn: Drawn,
)
    requires
        is_passive(history, id),
    ensures
        !misses_own_run(state, history, id),
        watch_self(state, history, id) == state,
        restore(state, history, id, cursor, drawn) == Step::none(state),
        !settle(state, history, id, drawn).state.connected(id),
{
}

/// A child whose run has an id gets a stream with its first consumer.
pub proof fn law_consumer_connects_child(
    state: StreamerState,
    history: HistoryView,
    id: AIConversationId,
    consumer: EntityId,
    drawn: Drawn,
)
    requires
        has_child_role(history, id),
        !is_passive(history, id),
        run_id_of(history, id) is Some,
    ensures
        settle(
            watch_self(with_consumer(state, id, consumer), history, id),
            history,
            id,
            drawn,
        ).state.connected(id),
{
    let registered = with_consumer(state, id, consumer);
    let ready = watch_self(registered, history, id);
    assert(registered.consumers_of(id).contains(consumer));
    assert(ready.consumers_of(id) == registered.consumers_of(id));
    assert(ready.watched_by(id).contains(history[id].run_id->0));
}

/// A conversation with a consumer gets a stream with its first child, and the
/// stream covers its own inbox as well, once its run has an id.
pub proof fn law_first_child_connects_parent(
    state: StreamerState,
    history: HistoryView,
    id: AIConversationId,
    child_run_id: Seq<char>,
    drawn: Drawn,
)
    requires
        state.has_consumer(id),
        !is_passive(history, id),
        run_id_of(history, id) != Some(child_run_id),
    ensures
        ({
            let after = settle(
                watch_self(watch(state, id, child_run_id), history, id),
                history,
                id,
                drawn,
            ).state;
            &&& after.connected(id)
            &&& after.watched_by(id).contains(child_run_id)
            &&& run_id_of(history, id) matches Some(run_id) ==> after.watched_by(id).contains(
                run_id,
            )
        }),
{
    let watching = watch(state, id, child_run_id);
    let ready = watch_self(watching, history, id);
    assert(watching.watched_by(id).contains(child_run_id));
    assert(watches_child(watching, history, id));
    assert(ready.watched_by(id).contains(child_run_id));
    assert(watches_child(ready, history, id));
    assert(ready.consumers_of(id) == state.consumers_of(id));
}

/// When the last consumer of a conversation leaves, its stream is closed.
pub proof fn law_last_consumer_disconnects(
    state: StreamerState,
    history: HistoryView,
    id: AIConversationId,
    consumer: EntityId,
    drawn: Drawn,
)
    requires
        state.consumers_of(id).remove(consumer) == Set::<EntityId>::empty(),
    ensures
        !settle(without_consumer(state, id, consumer), history, id, drawn).state.connected(id),
{
}

/// Bringing a stream in line changes neither the watched runs nor the
/// consumers nor the count of failures, and nothing about other
/// conversations.
pub proof fn law_settling_is_local(
    state: StreamerState,
    history: HistoryView,
    id: AIConversationId,
    drawn: Drawn,
)
    ensures
        ({
            let after = settle(state, history, id, drawn).state;
            &&& after.watched == state.watched
            &&& after.consumers == state.consumers
            &&& after.failures == state.failures
            &&& after.cursors.remove(id) == state.cursors.remove(id)
            &&& after.pending.remove(id) == state.pending.remove(id)
            &&& after.connections.remove(id) == state.connections.remove(id)
        }),
{
    let after = settle(state, history, id, drawn).state;
    assert(after.cursors.remove(id) =~= state.cursors.remove(id));
    assert(after.pending.remove(id) =~= state.pending.remove(id));
    assert(after.connections.remove(id) =~= state.connections.remove(id));
}

/// A stream is opened on exactly the runs that are watched, from the cursor
/// on, under the generation that the conversation holds from then on; and at
/// most one is opened.
pub proof fn law_stream_covers_watched_runs(
    state: StreamerState,
    history: HistoryView,
    id: AIConversationId,
    drawn: Drawn,
)
    ensures
        ({
            let step = settle(state, history, id, drawn);
            let opened = StreamerEffectView::OpenStream {
                conversation_id: id,
                generation: step.state.connections[id],
                run_ids: step.state.watched_by(id),
                cursor: step.state.cursor_of(id),
                self_run_id: run_id_or_blank(history, id),
            };
            &&& step.state.connected(id) ==> step.effects.contains(opened)
            &&& forall|i: int|
                0 <= i < step.effects.len() && #[trigger] step.effects[i] is OpenStream
                    ==> step.state.connected(id) && step.effects[i] == opened && i
                    == step.effects.len() - 2
        }),
{
    let closed = teardown(state, history, id, drawn);
    let step = settle(state, history, id, drawn);
    lemma_handling_opens_nothing(state, history, id, drawn);
    assert(closed.state.watched_by(id) == state.watched_by(id));
    if step.state.connected(id) {
        let more = opening(closed.state, history, id);
        assert(step.effects == closed.effects + more);
        assert(step.effects[closed.effects.len() as int] == more[0]);
        assert(step.effects[closed.effects.len() as int + 1] == more[1]);
        assert(step.state.watched_by(id) == closed.state.watched_by(id));
        assert(step.state.cursor_of(id) == closed.state.cursor_of(id));
        assert forall|i: int|
            0 <= i < step.effects.len() && #[trigger] step.effects[i] is OpenStream implies i
            == step.effects.len() - 2 by {
            if i < closed.effects.len() {
                assert(step.effects[i] == closed.effects[i]);
            }
        }
    } else {
        assert(step.effects =~= closed.effects);
    }
}

/// Before a stream is closed or replaced, what waits in its channel is handled
/// as if it had been drained in time.
pub proof fn law_closing_discards_nothing(
    state: StreamerState,
    history: HistoryView,
    id: AIConversationId,
    drawn: Drawn,
)
    ensures
        ({
            let handled = absorb(state, history, id, drawn);
            let settled = settle(state, history, id, drawn);
            &&& handled.effects.is_prefix_of(settled.effects)
            &&& settled.state.cursors == handled.state.cursors
            &&& settled.state.pending == handled.state.pending
        }),
{
    let handled = absorb(state, history, id, drawn);
    let settled = settle(state, history, id, drawn);
    assert(settled.effects.take(handled.effects.len() as int) =~= handled.effects);
}

/// To bring a stream in line again, with nothing new in its channel, renews it
/// and changes nothing else.
pub proof fn law_settling_is_idempotent(
    state: StreamerState,
    history: HistoryView,
    id: AIConversationId,
    drawn: Drawn,
    nothing: Drawn,
)
    requires
        nothing.items.len() == 0,
    ensures
        ({
            let once = settle(state, history, id, drawn).state;
            let twice = settle(once, history, id, nothing).state;
            &&& twice.connected(id) == once.connected(id)
            &&& twice.watched == once.watched
            &&& twice.cursors == once.cursors
            &&& twice.pending == once.pending
            &&& twice.consumers == once.consumers
            &&& twice.failures == once.failures
            &&& twice.connections.remove(id) == once.connections.remove(id)
        }),
{
    let once = settle(state, history, id, drawn).state;
    let twice = settle(once, history, id, nothing).state;
    let keep = |i: SseStreamItemView| i.event.sequence > once.cursor_of(id);
    lemma_filter_all_out(nothing.items, keep);
    law_streams_follow_eligibility(state, history, id, drawn);
    law_streams_follow_eligibility(once, history, id, nothing);
    assert(twice.watched_by(id) == once.watched_by(id));
    assert(twice.consumers_of(id) == once.consumers_of(id));
    assert(watches_child(twice, history, id) == watches_child(once, history, id));
    assert(twice.connections.remove(id) =~= once.connections.remove(id));
}

/// A conversation that neither holds a stream nor is eligible for one is left
/// alone.
pub proof fn law_uninvolved_conversation_is_left_alone(
    state: StreamerState,
    history: HistoryView,
    id: AIConversationId,
    drawn: Drawn,
)
    requires
        drawn_from(state, history, id, drawn),
        !state.connected(id),
        !eligible(state, history, id),
    ensures
        settle(state, history, id, drawn) == Step::none(state),
{
    let keep = |i: SseStreamItemView| i.event.sequence > state.cursor_of(id);
    lemma_filter_all_out(drawn.items, keep);
    assert(settle(state, history, id, drawn).state =~= state);
}

// ---- Generations -------------------------------------------------------

/// A generation that a conversation does not hold is never held by it again,
/// and a stream that is opened gets a generation that no stream had before.
pub proof fn law_generations_do_not_return(
    state: StreamerState,
    history: HistoryView,
    id: AIConversationId,
    drawn: Drawn,
    other: AIConversationId,
    generation: nat,
)
    requires
        generation < state.next_generation,
    ensures
        ({
            let after = settle(state, history, id, drawn).state;
            &&& after.is_current(other, generation) ==> state.is_current(other, generation)
            &&& after.next_generation >= state.next_generation
            &&& after.connected(id) ==> after.connections[id] == state.next_generation
        }),
{
}

/// Whether no two streams have the same generation, and none has one that is
/// yet to be given out.
pub open spec fn generations_apart(state: StreamerState) -> bool {
    &&& forall|id: AIConversationId| #[trigger]
        state.connections.contains_key(id) ==> state.connections[id] < state.next_generation
    &&& forall|a: AIConversationId, b: AIConversationId|
        #![trigger state.connections[a], state.connections[b]]
        state.connected(a) && state.connected(b) && a != b ==> state.connections[a]
            != state.connections[b]
}

/// To open a stream keeps the generations apart: the stream, be it the first
/// of its conversation or a replacement, gets a generation that no stream has
/// had, and the generations are never counted back. Without a run to follow
/// none is taken.
pub proof fn law_opening_keeps_generations_apart(
    state: StreamerState,
    history: HistoryView,
    id: AIConversationId,
)
    requires
        generations_apart(state),
    ensures
        ({
            let after = open(state, history, id).state;
            &&& generations_apart(after)
            &&& after.next_generation >= state.next_generation
            &&& state.watched_by(id) != Set::<Seq<char>>::empty() ==> {
                &&& after.is_current(id, state.next_generation)
                &&& after.next_generation == state.next_generation + 1
                &&& after.connections == state.connections.insert(id, state.next_generation)
                &&& forall|other: AIConversationId|
                    !#[trigger] state.is_current(other, state.next_generation)
            }
            &&& state.watched_by(id) == Set::<Seq<char>>::empty() ==> after == state
        }),
{
}

/// The end of a reading is of no concern once the stream has been closed or
/// replaced. Otherwise a reading that ended well leaves the stream as it is,
/// and one that failed has it replaced by one of a new generation, if the
/// conversation is still eligible and watches a run.
pub proof fn law_driver_exit_concerns_its_own_stream(
    before: OrchestrationEventStreamer,
    history: HistoryView,
    id: AIConversationId,
    generation: nat,
    failed: bool,
    after: OrchestrationEventStreamer,
    effects: Seq<StreamerEffectView>,
)
    requires
        before@.inv(),
        driver_finished(before, history, id, generation, failed, after, effects),
    ensures
        !before@.is_current(id, generation) ==> {
            &&& after@ == before@
            &&& after.same_channels(before)
            &&& effects.len() == 0
        },
        before@.is_current(id, generation) && !failed ==> after@.connections
            == before@.connections,
        before@.is_current(id, generation) && failed ==> {
            &&& !after@.is_current(id, generation)
            &&& after@.connected(id) ==> after@.connections[id] == before@.next_generation
            &&& after@.connected(id) <==> eligible(after@, history, id) && after@.watched_by(id)
                != Set::<Seq<char>>::empty()
        },
        after@.cursor_of(id) >= before@.cursor_of(id),
{
    let (drawn, drawn_again) = choose|drawn: Drawn, drawn_again: Drawn|
        {
            &&& #[trigger] drawn_from(before@, history, id, drawn)
            &&& #[trigger] drawn_from(
                absorb(before@, history, id, drawn).state,
                history,
                id,
                drawn_again,
            )
            &&& (Step { state: after@, effects }) == driver_exited(
                before@,
                history,
                id,
                generation,
                failed,
                drawn,
                drawn_again,
            )
        };
    let handled = absorb(before@, history, id, drawn);
    law_cursor_covers_what_was_handled(before@, history, id, drawn);
    law_cursor_covers_what_was_handled(handled.state, history, id, drawn_again);
    law_streams_follow_eligibility(handled.state, history, id, drawn_again);
    assert(before@.connections.contains_key(id) ==> before@.connections[id]
        < before@.next_generation);
}

/// Callbacks of a stream that has been closed or replaced change no state and
/// ask for nothing.
pub proof fn law_stale_callbacks_change_no_state(
    state: StreamerState,
    history: HistoryView,
    id: AIConversationId,
    drawn: Drawn,
    generation: nat,
    failed: bool,
    later_history: HistoryView,
    drawn_later: Drawn,
    drawn_again: Drawn,
)
    requires
        state.inv(),
        state.is_current(id, generation),
    ensures
        ({
            let after = settle(state, history, id, drawn).state;
            &&& driver_exited(
                after,
                later_history,
                id,
                generation,
                failed,
                drawn_later,
                drawn_again,
            ) == Step::none(after)
            &&& drain_timer(after, later_history, id, generation, drawn_later) == Step::none(after)
        }),
{
    assert(state.connections.contains_key(id));
}

// ---- Cursors and redelivery --------------------------------------------

/// Handling items never moves a cursor back, and afterwards the cursor covers
/// every one of them.
pub proof fn law_cursor_covers_what_was_handled(
    state: StreamerState,
    history: HistoryView,
    id: AIConversationId,
    drawn: Drawn,
)
    ensures
        ({
            let after = absorb(state, history, id, drawn).state;
            &&& after.cursor_of(id) >= state.cursor_of(id)
            &&& forall|i: int|
                0 <= i < drawn.items.len() ==> (#[trigger] drawn.items[i]).event.sequence
                    <= after.cursor_of(id)
        }),
{
    let cursor = state.cursor_of(id);
    let keep = |i: SseStreamItemView| i.event.sequence > cursor;
    let fresh = fresh_items(drawn.items, cursor);
    let events = item_events(fresh);
    let after = absorb(state, history, id, drawn).state;
    lemma_highest_is_upper_bound(events, cursor);
    if fresh.len() > 0 {
        drawn.items.lemma_filter_pred(keep, 0);
        assert(events[0].sequence == fresh[0].event.sequence);
    }
    assert forall|i: int| 0 <= i < drawn.items.len() implies (
    #[trigger] drawn.items[i]).event.sequence <= after.cursor_of(id) by {
        if keep(drawn.items[i]) {
            drawn.items.lemma_filter_contains(keep, i);
            let k = fresh.index_of(drawn.items[i]);
            assert(events[k] == drawn.items[i].event);
        }
    }
}

/// An event that comes again after it was handled, be it over a new stream or
/// among others like it, is dropped.
pub proof fn law_handled_events_are_not_redelivered(
    state: StreamerState,
    history: HistoryView,
    id: AIConversationId,
    drawn: Drawn,
    again: Drawn,
)
    requires
        forall|j: int|
            0 <= j < again.items.len() ==> drawn.items.contains(#[trigger] again.items[j]),
    ensures
        ({
            let after = absorb(state, history, id, drawn).state;
            absorb(after, history, id, again) == Step::none(after)
        }),
{
    let after = absorb(state, history, id, drawn).state;
    let cursor = after.cursor_of(id);
    let keep = |i: SseStreamItemView| i.event.sequence > cursor;
    law_cursor_covers_what_was_handled(state, history, id, drawn);
    assert forall|j: int| 0 <= j < again.items.len() implies !keep(#[trigger] again.items[j]) by {
        let i = drawn.items.index_of(again.items[j]);
        assert(drawn.items[i] == again.items[j]);
    }
    lemma_filter_all_out(again.items, keep);
}

/// The cursor that a conversation goes on from once its task has been fetched
/// is not below the one that it has reached, the persisted one or the
/// server's, and is one of the three.
pub proof fn law_merged_cursor_is_the_latest(
    state: StreamerState,
    id: AIConversationId,
    sqlite_cursor: i64,
    task: AmbientAgentTaskView,
)
    ensures
        ({
            let merged = merge_task(state, id, sqlite_cursor, task).cursor_of(id);
            &&& merged >= state.cursor_of(id)
            &&& merged >= sqlite_cursor
            &&& merged >= server_cursor(task)
            &&& merged == state.cursor_of(id) || merged == sqlite_cursor || merged
                == server_cursor(task)
        }),
{
}

/// A fetch that ends late, after events have been handled, moves no cursor
/// back; what was handled before does not come again, neither out of the
/// channel that is drained on the way nor later.
pub proof fn law_late_fetch_redelivers_nothing(
    before: OrchestrationEventStreamer,
    history: HistoryView,
    id: AIConversationId,
    sqlite_cursor: i64,
    task: AmbientAgentTaskView,
    after: Step,
    other: AIConversationId,
    again: Drawn,
)
    requires
        task_fetched(before, history, id, sqlite_cursor, task, after),
        forall|j: int|
            0 <= j < again.items.len() ==> (#[trigger] again.items[j]).event.sequence
                <= before@.cursor_of(id),
    ensures
        after.state.cursor_of(other) >= before@.cursor_of(other),
        absorb(merge_task(before@, id, sqlite_cursor, task), history, id, again) == Step::none(
            merge_task(before@, id, sqlite_cursor, task),
        ),
        absorb(after.state, history, id, again) == Step::none(after.state),
{
    let merged = merge_task(before@, id, sqlite_cursor, task);
    let keep = |i: SseStreamItemView| i.event.sequence > merged.cursor_of(id);
    lemma_filter_all_out(again.items, keep);
    if before@.cursors.contains_key(id) {
        let drawn = choose|drawn: Drawn|
            {
                &&& #[trigger] drawn_from(merged, history, id, drawn)
                &&& after == settle(merged, history, id, drawn)
            };
        law_cursor_covers_what_was_handled(merged, history, id, drawn);
    }
    let keep_later = |i: SseStreamItemView| i.event.sequence > after.state.cursor_of(id);
    lemma_filter_all_out(again.items, keep_later);
}

// ---- What becomes of events --------------------------------------------

/// Every message that was fetched for an event beyond the cursor is queued for
/// the conversation, and so is every lifecycle event that was reported.
pub proof fn law_nothing_fetched_is_lost(
    state: StreamerState,
    history: HistoryView,
    id: AIConversationId,
    drawn: Drawn,
    i: int,
)
    requires
        drawn_from(state, history, id, drawn),
        0 <= i < drawn.items.len(),
        drawn.items[i].event.sequence > state.cursor_of(id),
    ensures
        ({
            let step = absorb(state, history, id, drawn);
            &&& drawn.items[i].fetched_message matches Some(message) ==> exists|k: int|
                0 <= k < step.effects.len() && queues(
                    #[trigger] step.effects[k],
                    id,
                    message_entry(message),
                )
            &&& reports_lifecycle(drawn.items[i].event, run_id_or_blank(history, id)) ==> exists|
                k: int,
                j: int,
            |
                0 <= k < step.effects.len() && 0 <= j < drawn.lifecycle.len()
                    && drawn.lifecycle[j].run_id == drawn.items[i].event.run_id && queues(
                    #[trigger] step.effects[k],
                    id,
                    lifecycle_entry(#[trigger] drawn.lifecycle[j]),
                )
        }),
{
    let item = drawn.items[i];
    let cursor = state.cursor_of(id);
    let self_run_id = run_id_or_blank(history, id);
    let keep = |i: SseStreamItemView| i.event.sequence > cursor;
    let with_message = |i: SseStreamItemView| i.fetched_message is Some;
    let fresh = fresh_items(drawn.items, cursor);
    let events = item_events(fresh);
    let messages = item_messages(fresh);
    let step = absorb(state, history, id, drawn);
    drawn.items.lemma_filter_contains(keep, i);
    let at = fresh.index_of(item);
    assert(fresh[at] == item);
    let entries = pending_entries(messages, drawn.lifecycle);
    let queued = StreamerEffectView::EnqueueEventBatch { conversation_id: id, events: entries };
    if messages.len() > 0 || drawn.lifecycle.len() > 0 {
        assert(step.effects[step.effects.len() - 1] == queued);
    }
    if item.fetched_message is Some {
        let message = item.fetched_message->0;
        fresh.lemma_filter_contains(with_message, at);
        let m = fresh.filter(with_message).index_of(item);
        assert(messages[m] == message);
        assert(entries[m] == message_entry(message));
        assert(queues(step.effects[step.effects.len() - 1], id, message_entry(message)));
    }
    if reports_lifecycle(item.event, self_run_id) {
        let reporting = |e: AgentRunEventView| reports_lifecycle(e, self_run_id);
        assert(events[at] == item.event);
        events.lemma_filter_contains(reporting, at);
        let reports = lifecycle_reports(events, self_run_id);
        let j = reports.index_of(item.event);
        assert(reports[j] == item.event);
        let told = drawn.lifecycle[j];
        assert(told.run_id == item.event.run_id);
        assert(entries[messages.len() as int + j] == lifecycle_entry(told));
        assert(queues(step.effects[step.effects.len() - 1], id, lifecycle_entry(told)));
    }
}

/// Whether an effect queues an entry for a conversation.
pub open spec fn queues(
    effect: StreamerEffectView,
    id: AIConversationId,
    entry: PendingEventView,
) -> bool {
    effect matches StreamerEffectView::EnqueueEventBatch { conversation_id, events }
        && conversation_id == id && events.contains(entry)
}

/// A run is not told about its own life: what a batch is converted into
/// concerns other runs only.
pub proof fn law_own_life_is_not_reported(
    events: Seq<AgentRunEventView>,
    self_run_id: Seq<char>,
    converted: Seq<AgentEventView>,
    i: int,
)
    requires
        converts(events, self_run_id, converted),
        0 <= i < converted.len(),
    ensures
        converted[i].run_id != self_run_id,
{
    let reporting = |e: AgentRunEventView| reports_lifecycle(e, self_run_id);
    events.lemma_filter_pred(reporting, i);
}

/// Every message that a batch announces to the conversation's own run waits
/// for confirmation afterwards.
pub proof fn law_announced_messages_wait(
    state: StreamerState,
    history: HistoryView,
    id: AIConversationId,
    self_run_id: Seq<char>,
    previous_cursor: i64,
    events: Seq<AgentRunEventView>,
    messages: Seq<ReceivedMessageView>,
    lifecycle: Seq<AgentEventView>,
    i: int,
)
    requires
        0 <= i < events.len(),
        announces_message_to(events[i], self_run_id),
    ensures
        deliver(
            state,
            history,
            id,
            self_run_id,
            previous_cursor,
            events,
            messages,
            lifecycle,
        ).state.pending_of(id).contains(events[i].ref_id->0),
{
    let announcing = |e: AgentRunEventView| announces_message_to(e, self_run_id);
    events.lemma_filter_contains(announcing, i);
    let k = events.filter(announcing).index_of(events[i]);
    let announced = announced_ids(events, self_run_id);
    assert(announced[k] == events[i].ref_id->0);
    let waiting = state.pending_of(id) + announced;
    assert(waiting[state.pending_of(id).len() as int + k] == announced[k]);
}

/// A confirmation concerns messages that were waiting; they wait no longer,
/// the others still do; and what has been confirmed is not confirmed again.
pub proof fn law_confirmed_once(
    state: StreamerState,
    history: HistoryView,
    id: AIConversationId,
    exchange_id: AIAgentExchangeId,
    message_id: Seq<char>,
)
    ensures
        ({
            let confirmed = confirmable(state, history, id, exchange_id);
            let after = confirm(state, history, id, exchange_id).state;
            &&& confirmed.contains(message_id) ==> state.pending_of(id).contains(message_id)
            &&& after.pending_of(id).contains(message_id) <==> state.pending_of(id).contains(
                message_id,
            ) && !confirmed.contains(message_id)
            &&& confirm(after, history, id, exchange_id) == Step::none(after)
        }),
{
    let confirmed = confirmable(state, history, id, exchange_id);
    let waiting = |m: Seq<char>| state.pending_of(id).contains(m);
    let other = |m: Seq<char>| !confirmed.contains(m);
    let rest = state.pending_of(id).filter(other);
    let after = confirm(state, history, id, exchange_id).state;
    if history.contains_key(id) && history[id].exchanges.contains_key(exchange_id) {
        let seen = history[id].exchanges[exchange_id];
        if confirmed.contains(message_id) {
            let k = confirmed.index_of(message_id);
            seen.lemma_filter_pred(waiting, k);
        }
        lemma_filter_members(state.pending_of(id), other);
        assert(after.pending_of(id).contains(message_id) <==> state.pending_of(id).contains(
            message_id,
        ) && !confirmed.contains(message_id)) by {
            if confirmed.len() > 0 && rest.len() == 0 {
                assert(!rest.contains(message_id));
            }
        }
        let waiting_now = |m: Seq<char>| after.pending_of(id).contains(m);
        assert forall|i: int| 0 <= i < seen.len() implies !waiting_now(#[trigger] seen[i]) by {
            if waiting(seen[i]) {
                seen.lemma_filter_contains(waiting, i);
                if after.pending_of(id).contains(seen[i]) {
                    assert(rest.contains(seen[i]));
                }
            } else if after.pending_of(id).contains(seen[i]) {
                assert(confirmed.len() > 0 ==> rest.contains(seen[i]));
            }
        }
        lemma_filter_all_out(seen, waiting_now);
    }
}

// ---- The registry ------------------------------------------------------

/// To register a consumer again changes nothing in the registry.
pub proof fn law_registering_is_idempotent(
    state: StreamerState,
    id: AIConversationId,
    consumer: EntityId,
)
    ensures
        ({
            let once = with_consumer(state, id, consumer);
            with_consumer(once, id, consumer) == once
        }),
{
    let once = with_consumer(state, id, consumer);
    assert(once.consumers_of(id).insert(consumer) =~= once.consumers_of(id));
    assert(with_consumer(once, id, consumer) =~= once);
}

/// To unregister a consumer undoes its registration.
pub proof fn law_unregistering_undoes_registering(
    state: StreamerState,
    id: AIConversationId,
    consumer: EntityId,
)
    requires
        state.inv(),
        !state.consumers_of(id).contains(consumer),
    ensures
        without_consumer(with_consumer(state, id, consumer), id, consumer) == state,
{
    let there = with_consumer(state, id, consumer);
    assert(there.consumers_of(id).remove(consumer) =~= state.consumers_of(id));
    assert(without_consumer(there, id, consumer) =~= state);
}

/// To unregister a consumer that is not registered changes nothing in the
/// registry.
pub proof fn law_unregistering_a_stranger_changes_nothing(
    state: StreamerState,
    id: AIConversationId,
    consumer: EntityId,
)
    requires
        state.inv(),
        !state.consumers_of(id).contains(consumer),
    ensures
        without_consumer(state, id, consumer) == state,
{
    assert(state.consumers_of(id).remove(consumer) =~= state.consumers_of(id));
    assert(without_consumer(state, id, consumer) =~= state);
}

/// When a consumer leaves, it is taken out of the registry, and the
/// conversation too once no consumer of it is left; nothing else in the
/// registry changes, and no watched run.
pub proof fn law_unregistering_concerns_one_consumer(
    before: OrchestrationEventStreamer,
    history: HistoryView,
    id: AIConversationId,
    consumer: EntityId,
    after: Step,
)
    requires
        before@.inv(),
        consumer_unregistered(before, history, id, consumer, after),
    ensures
        after.state.consumers_of(id) == before@.consumers_of(id).remove(consumer),
        after.state.consumers.contains_key(id) <==> before@.consumers_of(id).remove(consumer)
            != Set::<EntityId>::empty(),
        after.state.consumers.remove(id) == before@.consumers.remove(id),
        !before@.consumers_of(id).contains(consumer) ==> after.state.consumers == before@.consumers,
        forall|other: AIConversationId| #[trigger]
            after.state.consumers.contains_key(other) ==> after.state.consumers[other] != Set::<
                EntityId,
            >::empty(),
        after.state.watched == before@.watched,
{
    let left = without_consumer(before@, id, consumer);
    assert(after.state.consumers == left.consumers);
    assert(left.consumers.remove(id) =~= before@.consumers.remove(id));
    if !before@.consumers_of(id).contains(consumer) {
        law_unregistering_a_stranger_changes_nothing(before@, id, consumer);
    }
    assert forall|other: AIConversationId| #[trigger]
        after.state.consumers.contains_key(other) implies after.state.consumers[other] != Set::<
        EntityId,
    >::empty() by {
        if other != id {
            assert(before@.consumers.contains_key(other));
        }
    }
}

/// However often a consumer has been registered, to unregister it once undoes
/// that.
pub proof fn law_unregistering_undoes_repeated_registering(
    registered: Seq<OrchestrationEventStreamer>,
    histories: Seq<HistoryView>,
    effects: Seq<Seq<StreamerEffectView>>,
    id: AIConversationId,
    consumer: EntityId,
    history: HistoryView,
    after: Step,
)
    requires
        registered.len() > 1,
        registered[0]@.inv(),
        !registered[0]@.consumers_of(id).contains(consumer),
        forall|i: int| #![trigger effects[i]]
            0 <= i && i + 1 < registered.len() ==> consumer_registered(
                registered[i],
                histories[i],
                id,
                consumer,
                (Step { state: registered[i + 1]@, effects: effects[i] }),
            ),
        consumer_unregistered(registered.last(), history, id, consumer, after),
    ensures
        after.state.consumers == registered[0]@.consumers,
{
    let first = registered[0]@;
    let there = with_consumer(first, id, consumer);
    lemma_repeated_registering(
        registered,
        histories,
        effects,
        id,
        consumer,
        registered.len() - 1,
    );
    assert(registered.last()@.consumers == there.consumers);
    assert(registered.last()@.consumers_of(id) == there.consumers_of(id));
    law_unregistering_undoes_registering(first, id, consumer);
    assert(without_consumer(registered.last()@, id, consumer).consumers == without_consumer(
        there,
        id,
        consumer,
    ).consumers);
}

/// Registering a consumer several times leaves the registry as doing so once.
proof fn lemma_repeated_registering(
    registered: Seq<OrchestrationEventStreamer>,
    histories: Seq<HistoryView>,
    effects: Seq<Seq<StreamerEffectView>>,
    id: AIConversationId,
    consumer: EntityId,
    i: int,
)
    requires
        0 < i < registered.len(),
        forall|i: int| #![trigger effects[i]]
            0 <= i && i + 1 < registered.len() ==> consumer_registered(
                registered[i],
                histories[i],
                id,
                consumer,
                (Step { state: registered[i + 1]@, effects: effects[i] }),
            ),
    ensures
        registered[i]@.consumers == with_consumer(registered[0]@, id, consumer).consumers,
    decreases i,
{
    let before = registered[i - 1]@;
    let step = Step { state: registered[i]@, effects: effects[i - 1] };
    assert(registered[i - 1 + 1] == registered[i]);
    assert(step.state.consumers == with_consumer(before, id, consumer).consumers);
    if i > 1 {
        let once = with_consumer(registered[0]@, id, consumer);
        lemma_repeated_registering(registered, histories, effects, id, consumer, i - 1);
        assert(before.consumers_of(id) == once.consumers_of(id));
        law_registering_is_idempotent(registered[0]@, id, consumer);
        assert(with_consumer(before, id, consumer).consumers == with_consumer(
            once,
            id,
            consumer,
        ).consumers);
    }
}

/// To register a consumer again, with nothing new in the channel, renews the
/// stream and changes nothing else.
pub proof fn law_registering_again_renews_only_the_stream(
    before: OrchestrationEventStreamer,
    history: HistoryView,
    id: AIConversationId,
    consumer: EntityId,
    first: Step,
    between: OrchestrationEventStreamer,
    second: Step,
)
    requires
        consumer_registered(before, history, id, consumer, first),
        between@ == first.state,
        forall|items: Seq<SseStreamItemView>| #[trigger]
            between.gives(id, items) ==> items.len() == 0,
        consumer_registered(between, history, id, consumer, second),
    ensures
        second.state.consumers == first.state.consumers,
        second.state.watched == first.state.watched,
        second.state.cursors == first.state.cursors,
        second.state.pending == first.state.pending,
        second.state.failures == first.state.failures,
        second.state.connections.dom() == first.state.connections.dom(),
        second.state.connections.remove(id) == first.state.connections.remove(id),
{
    let registered = with_consumer(before@, id, consumer);
    let ready = watch_self(registered, history, id);
    let drawn = choose|drawn: Drawn|
        {
            &&& #[trigger] drawn_from(ready, history, id, drawn)
            &&& first == settle(ready, history, id, drawn)
        };
    let registered_again = with_consumer(between@, id, consumer);
    let ready_again = watch_self(registered_again, history, id);
    let nothing = choose|drawn: Drawn|
        {
            &&& #[trigger] drawn_from(ready_again, history, id, drawn)
            &&& between.gives(id, drawn.items)
            &&& second == settle(ready_again, history, id, drawn)
        };
    assert(between@.consumers == registered.consumers);
    assert(between@.consumers_of(id) == registered.consumers_of(id));
    law_registering_is_idempotent(before@, id, consumer);
    assert(registered_again.consumers == between@.consumers);
    assert(registered_again =~= between@);
    law_watching_oneself_is_idempotent(registered, history, id);
    lemma_same_inbox(ready, between@, history, id);
    law_watching_oneself_is_idempotent(between@, history, id);
    assert(ready_again == between@);
    law_settling_is_idempotent(ready, history, id, drawn, nothing);
    assert(second.state.connections.dom() =~= first.state.connections.dom());
}

/// Once a conversation watches its own run, it does not miss it any more, and
/// to have it watch that run again changes nothing.
pub proof fn law_watching_oneself_is_idempotent(
    state: StreamerState,
    history: HistoryView,
    id: AIConversationId,
)
    ensures
        ({
            let once = watch_self(state, history, id);
            &&& !misses_own_run(once, history, id)
            &&& watch_self(once, history, id) == once
            &&& !misses_own_run(state, history, id) ==> once == state
        }),
{
    let once = watch_self(state, history, id);
    if owns_inbox(state, history, id) {
        let run_id = history[id].run_id->0;
        assert(once.watched_by(id) == state.watched_by(id).insert(run_id));
        assert(once.watched_by(id).insert(run_id) =~= once.watched_by(id));
        assert(watch_self(once, history, id) =~= once);
        if state.watched_by(id).contains(run_id) {
            assert(state.watched_by(id).insert(run_id) =~= state.watched_by(id));
            assert(once =~= state);
        }
    }
}

/// To have a run watched again changes nothing, takes nothing out of any
/// channel and asks for nothing.
pub proof fn law_watching_again_changes_nothing(
    before: OrchestrationEventStreamer,
    history: HistoryView,
    id: AIConversationId,
    run_id: Seq<char>,
    first: Step,
    between: OrchestrationEventStreamer,
    second: Step,
    last: OrchestrationEventStreamer,
)
    requires
        between@.inv(),
        watched_run_registered(before, history, id, run_id, first),
        between@ == first.state,
        watched_run_registered(between, history, id, run_id, second),
        last@ == second.state,
        last.keeps_channels(between),
    ensures
        second == Step::none(between@),
        last.same_channels(between),
{
    let watching = watch(before@, id, run_id);
    let ready = watch_self(watching, history, id);
    law_watching_oneself_is_idempotent(watching, history, id);
    if !watches(before@, id, run_id) || misses_own_run(watching, history, id) {
        let drawn = choose|drawn: Drawn|
            {
                &&& #[trigger] drawn_from(ready, history, id, drawn)
                &&& first == settle(ready, history, id, drawn)
            };
        assert(between@.watched == ready.watched);
        lemma_same_inbox(ready, between@, history, id);
        assert(watches(between@, id, run_id));
    }
    assert(between@.watched_by(id).insert(run_id) =~= between@.watched_by(id));
    lemma_same_inbox(between@, watch(between@, id, run_id), history, id);
    OrchestrationEventStreamer::law_same_state_same_channels(between, last);
}

/// That the server has assigned a run is news once.
pub proof fn law_token_is_news_once(
    before: OrchestrationEventStreamer,
    history: HistoryView,
    id: AIConversationId,
    first: Step,
    between: OrchestrationEventStreamer,
    second: Step,
    last: OrchestrationEventStreamer,
)
    requires
        between@.inv(),
        server_token_assigned(before, history, id, first),
        between@ == first.state,
        server_token_assigned(between, history, id, second),
        last@ == second.state,
        last.keeps_channels(between),
    ensures
        second == Step::none(between@),
        last.same_channels(between),
{
    let ready = watch_self(before@, history, id);
    law_watching_oneself_is_idempotent(before@, history, id);
    if misses_own_run(before@, history, id) {
        let drawn = choose|drawn: Drawn|
            {
                &&& #[trigger] drawn_from(ready, history, id, drawn)
                &&& first == settle(ready, history, id, drawn)
            };
        assert(between@.watched == ready.watched);
        lemma_same_inbox(ready, between@, history, id);
    }
    OrchestrationEventStreamer::law_same_state_same_channels(between, last);
}

/// Whether a conversation misses its own run depends on nothing but the runs
/// that it watches.
proof fn lemma_same_inbox(
    a: StreamerState,
    b: StreamerState,
    history: HistoryView,
    id: AIConversationId,
)
    requires
        a.watched_by(id) == b.watched_by(id),
    ensures
        misses_own_run(a, history, id) == misses_own_run(b, history, id),
{
    assert(watches_child(a, history, id) == watches_child(b, history, id));
}

// ---- Changes of the history --------------------------------------------

/// Whether a change of the history is of concern.
pub open spec fn concerns_streamer(event: BlocklistAIHistoryEvent) -> bool {
    ||| event is ConversationServerTokenAssigned
    ||| event is UpdatedStreamingExchange
    ||| event is RemoveConversation
    ||| event is DeletedConversation
    ||| event is RestoredConversations
}

/// The other changes of the history change nothing, take nothing out of any
/// channel and ask for nothing.
pub proof fn law_other_changes_are_of_no_concern(
    before: OrchestrationEventStreamer,
    history: HistoryView,
    orchestration_v2: bool,
    event: BlocklistAIHistoryEvent,
    after: OrchestrationEventStreamer,
    effects: Seq<StreamerEffectView>,
)
    requires
        before@.inv(),
        !concerns_streamer(event),
        history_changed(
            before,
            history,
            orchestration_v2,
            event,
            (Step { state: after@, effects }),
        ),
        after.keeps_channels(before),
    ensures
        after@ == before@,
        after.same_channels(before),
        effects.len() == 0,
{
    OrchestrationEventStreamer::law_same_state_same_channels(before, after);
}

/// It is the same to the streamer whether a conversation is removed or deleted.
pub proof fn law_removal_and_deletion_are_alike(
    before: OrchestrationEventStreamer,
    history: HistoryView,
    orchestration_v2: bool,
    conversation_id: AIConversationId,
    after: Step,
)
    ensures
        history_changed(
            before,
            history,
            orchestration_v2,
            (BlocklistAIHistoryEvent::RemoveConversation { conversation_id }),
            after,
        ) <==> conversation_removed(before, history, conversation_id, after),
        history_changed(
            before,
            history,
            orchestration_v2,
            (BlocklistAIHistoryEvent::DeletedConversation { conversation_id }),
            after,
        ) <==> conversation_removed(before, history, conversation_id, after),
{
}

// ---- Removal and restoring ---------------------------------------------

/// Bringing streams in line leaves a conversation alone that is not among
/// those concerned.
pub proof fn lemma_settle_each_is_local(
    state: StreamerState,
    history: HistoryView,
    ids: Seq<AIConversationId>,
    drawn: Seq<Drawn>,
    other: AIConversationId,
)
    requires
        !ids.contains(other),
        drawn.len() == ids.len(),
    ensures
        ({
            let after = settle_each(state, history, ids, drawn).state;
            &&& after.watched == state.watched
            &&& after.consumers == state.consumers
            &&& after.failures == state.failures
            &&& after.cursors.contains_key(other) == state.cursors.contains_key(other)
            &&& after.cursors[other] == state.cursors[other]
            &&& after.pending.contains_key(other) == state.pending.contains_key(other)
            &&& after.pending[other] == state.pending[other]
            &&& after.connections.contains_key(other) == state.connections.contains_key(other)
            &&& after.connections[other] == state.connections[other]
        }),
    decreases ids.len(),
{
    if ids.len() > 0 {
        let rest = ids.drop_last();
        assert forall|i: int| 0 <= i < rest.len() implies rest[i] != other by {
            assert(ids.contains(ids[i]));
        }
        assert(ids.contains(ids[ids.len() - 1]));
        lemma_settle_each_is_local(state, history, rest, drawn.drop_last(), other);
    }
}

/// Nothing about a conversation that has gone is left, and nobody watches its
/// run.
pub proof fn law_removal_leaves_no_trace(
    before: OrchestrationEventStreamer,
    history: HistoryView,
    id: AIConversationId,
    after: Step,
)
    requires
        conversation_removed(before, history, id, after),
    ensures
        !after.state.watched.contains_key(id),
        !after.state.cursors.contains_key(id),
        !after.state.pending.contains_key(id),
        !after.state.consumers.contains_key(id),
        !after.state.connections.contains_key(id),
        !after.state.failures.contains_key(id),
        run_id_of(history, id) matches Some(run_id) ==> forall|other: AIConversationId|
            !#[trigger] watches(after.state, other, run_id),
{
    let left = remove(before@, history, id);
    let (ids, drawn) = choose|ids: Seq<AIConversationId>, drawn: Seq<Drawn>|
        {
            &&& lists_watchers(before@, history, id, ids)
            &&& #[trigger] drawn_from_each(left, history, ids, drawn)
            &&& after == settle_each(left, history, ids, drawn)
        };
    assert(!ids.contains(id));
    lemma_settle_each_is_local(left, history, ids, drawn, id);
    if let Some(run_id) = run_id_of(history, id) {
        assert forall|other: AIConversationId| !#[trigger] watches(after.state, other, run_id) by {
            assert(after.state.watched_by(other) == left.watched_by(other));
        }
    }
}

/// Bringing several streams in line brings each of them in line.
proof fn lemma_settle_each_settles(
    state: StreamerState,
    history: HistoryView,
    ids: Seq<AIConversationId>,
    drawn: Seq<Drawn>,
    other: AIConversationId,
)
    requires
        ids.no_duplicates(),
        ids.contains(other),
        drawn.len() == ids.len(),
    ensures
        ({
            let after = settle_each(state, history, ids, drawn).state;
            after.connected(other) <==> eligible(after, history, other) && after.watched_by(other)
                != Set::<Seq<char>>::empty()
        }),
    decreases ids.len(),
{
    let rest = ids.drop_last();
    let last = ids.last();
    let between = settle_each(state, history, rest, drawn.drop_last()).state;
    let after = settle_each(state, history, ids, drawn).state;
    if other == last {
        law_streams_follow_eligibility(between, history, other, drawn.last());
    } else {
        let k = ids.index_of(other);
        assert(rest[k] == other);
        lemma_settle_each_settles(state, history, rest, drawn.drop_last(), other);
        assert(after.watched_by(other) == between.watched_by(other));
        assert(after.consumers_of(other) == between.consumers_of(other));
        assert(watches_child(after, history, other) == watches_child(between, history, other));
        assert(after.connected(other) == between.connected(other));
    }
}

/// After a conversation has gone, each one that watched its run holds a stream
/// exactly if it is eligible and still watches a run.
pub proof fn law_removal_settles_the_watchers(
    before: OrchestrationEventStreamer,
    history: HistoryView,
    id: AIConversationId,
    after: Step,
    other: AIConversationId,
)
    requires
        conversation_removed(before, history, id, after),
        other != id,
        run_id_of(history, id) is Some,
        watches(before@, other, run_id_of(history, id)->0),
    ensures
        after.state.connected(other) <==> eligible(after.state, history, other)
            && after.state.watched_by(other) != Set::<Seq<char>>::empty(),
        after.state.watched_by(other) == before@.watched_by(other).remove(
            run_id_of(history, id)->0,
        ),
{
    let run_id = run_id_of(history, id)->0;
    let gone = forget(before@, id);
    let left = remove(before@, history, id);
    let (ids, drawn) = choose|ids: Seq<AIConversationId>, drawn: Seq<Drawn>|
        {
            &&& lists_watchers(before@, history, id, ids)
            &&& #[trigger] drawn_from_each(left, history, ids, drawn)
            &&& after == settle_each(left, history, ids, drawn)
        };
    assert(gone.watched_by(other) == before@.watched_by(other));
    assert(watches(gone, other, run_id));
    assert(ids.contains(other));
    lemma_settle_each_settles(left, history, ids, drawn, other);
    lemma_settle_each_is_local(left, history, ids, drawn, id);
    assert(left.watched_by(other) =~= before@.watched_by(other).remove(run_id));
}

/// A conversation that did not watch the run of one that has gone keeps all
/// that is known about it, its stream included.
pub proof fn law_removal_spares_bystanders(
    before: OrchestrationEventStreamer,
    history: HistoryView,
    id: AIConversationId,
    after: Step,
    other: AIConversationId,
)
    requires
        conversation_removed(before, history, id, after),
        other != id,
        run_id_of(history, id) matches Some(run_id) ==> !watches(before@, other, run_id),
    ensures
        after.state.watched_by(other) == before@.watched_by(other),
        after.state.cursor_of(other) == before@.cursor_of(other),
        after.state.pending_of(other) == before@.pending_of(other),
        after.state.consumers_of(other) == before@.consumers_of(other),
        after.state.failures_of(other) == before@.failures_of(other),
        forall|generation: nat|
            after.state.is_current(other, generation) <==> #[trigger] before@.is_current(
                other,
                generation,
            ),
{
    let gone = forget(before@, id);
    let left = remove(before@, history, id);
    let (ids, drawn) = choose|ids: Seq<AIConversationId>, drawn: Seq<Drawn>|
        {
            &&& lists_watchers(before@, history, id, ids)
            &&& #[trigger] drawn_from_each(left, history, ids, drawn)
            &&& after == settle_each(left, history, ids, drawn)
        };
    assert(gone.watched_by(other) == before@.watched_by(other));
    assert(!ids.contains(other));
    lemma_settle_each_is_local(left, history, ids, drawn, other);
    if let Some(run_id) = run_id_of(history, id) {
        assert(before@.watched_by(other).remove(run_id) =~= before@.watched_by(other));
    }
}

/// A task or a retry that comes for a conversation after it has gone brings
/// nothing back and asks for nothing; even a failure that was counted since is
/// forgotten.
pub proof fn law_late_answers_bring_nothing_back(
    before: OrchestrationEventStreamer,
    history: HistoryView,
    id: AIConversationId,
    task_id: AmbientAgentTaskId,
    sqlite_cursor: i64,
    task: AmbientAgentTaskView,
    after: Step,
)
    requires
        !before@.cursors.contains_key(id),
        task_fetched(before, history, id, sqlite_cursor, task, after) || after == retry_restore(
            before@,
            id,
            task_id,
            sqlite_cursor,
        ),
    ensures
        after.effects.len() == 0,
        !after.state.failures.contains_key(id),
        after.state.failures == before@.failures.remove(id),
        after.state.watched == before@.watched,
        after.state.cursors == before@.cursors,
        after.state.pending == before@.pending,
        after.state.consumers == before@.consumers,
        after.state.connections == before@.connections,
        after.state.next_generation == before@.next_generation,
{
}

/// The wait between fetches starts at one second, never shrinks while fetches
/// fail, and never exceeds ten seconds; a fetch that succeeds starts it over.
pub proof fn law_backoff_grows_to_a_cap(
    state: StreamerState,
    id: AIConversationId,
    sqlite_cursor: i64,
    task: AmbientAgentTaskView,
    few: nat,
    many: nat,
)
    requires
        few <= many,
    ensures
        1 <= backoff_secs(few) <= backoff_secs(many) <= 10,
        merge_task(state, id, sqlite_cursor, task).failures_of(id) == 0,
        backoff_secs(merge_task(state, id, sqlite_cursor, task).failures_of(id) + 1) == 1,
{
}

/// To restore a conversation from disk keeps the runs that it watches, and has
/// it watch its own run and resume from the persisted cursor.
pub proof fn law_restoring_recalls_cursor_and_inbox(
    state: StreamerState,
    history: HistoryView,
    id: AIConversationId,
    cursor: i64,
)
    requires
        history.contains_key(id),
    ensures
        ({
            let after = recall(state, history, id, cursor);
            &&& state.watched_by(id).subset_of(after.watched_by(id))
            &&& run_id_of(history, id) matches Some(run_id) ==> watches(after, id, run_id)
            &&& after.cursor_of(id) == cursor
        }),
{
}

/// What is handled is persisted: a cursor that has moved is the one that the
/// history, and the server for the conversation's run, are asked to keep.
pub proof fn law_moved_cursor_is_persisted(
    state: StreamerState,
    history: HistoryView,
    id: AIConversationId,
    drawn: Drawn,
)
    requires
        fresh_items(drawn.items, state.cursor_of(id)).len() > 0,
    ensures
        ({
            let step = absorb(state, history, id, drawn);
            let sequence = step.state.cursor_of(id);
            &&& step.effects.contains(
                StreamerEffectView::UpdateEventSequence { conversation_id: id, sequence },
            )
            &&& run_id_of(history, id) matches Some(run_id) ==> step.effects.contains(
                StreamerEffectView::UpdateEventSequenceOnServer {
                    conversation_id: id,
                    run_id,
                    sequence,
                },
            )
            &&& persisted_cursor(step.effects, history, id) == sequence
        }),
{
    let step = absorb(state, history, id, drawn);
    let sequence = step.state.cursor_of(id);
    let kept = StreamerEffectView::UpdateEventSequence { conversation_id: id, sequence };
    assert(step.effects[0] == kept);
    if let Some(run_id) = run_id_of(history, id) {
        assert(step.effects[1] == (StreamerEffectView::UpdateEventSequenceOnServer {
            conversation_id: id,
            run_id,
            sequence,
        }));
    }
    let otherwise = match history[id].last_event_sequence {
        Some(sequence) => sequence,
        None => 0,
    };
    assert(step.effects.take(1).last() == kept);
    assert(persisted_by(step.effects.take(1), id, otherwise) == sequence);
    assert(step.effects.len() <= 3);
    if step.effects.len() > 1 {
        assert(step.effects.take(2).drop_last() =~= step.effects.take(1));
        assert(!(step.effects.take(2).last() is UpdateEventSequence));
        assert(persisted_by(step.effects.take(2), id, otherwise) == sequence);
        if step.effects.len() > 2 {
            assert(step.effects.drop_last() =~= step.effects.take(2));
            assert(!(step.effects.last() is UpdateEventSequence));
            assert(persisted_by(step.effects, id, otherwise) == sequence);
        } else {
            assert(step.effects =~= step.effects.take(2));
        }
    } else {
        assert(step.effects =~= step.effects.take(1));
    }
}

/// A streamer that starts over, and restores a conversation from what was
/// persisted, does not deliver again what was handled before.
pub proof fn law_restart_redelivers_nothing(
    state: StreamerState,
    history: HistoryView,
    id: AIConversationId,
    drawn: Drawn,
    started: StreamerState,
    later_history: HistoryView,
    again: Drawn,
)
    requires
        fresh_items(drawn.items, state.cursor_of(id)).len() > 0,
        forall|j: int|
            0 <= j < again.items.len() ==> drawn.items.contains(#[trigger] again.items[j]),
    ensures
        ({
            let kept = persisted_cursor(absorb(state, history, id, drawn).effects, history, id);
            let restored = recall(started, later_history, id, kept);
            absorb(restored, later_history, id, again) == Step::none(restored)
        }),
{
    let handled = absorb(state, history, id, drawn);
    let kept = persisted_cursor(handled.effects, history, id);
    let keep = |i: SseStreamItemView| i.event.sequence > kept;
    law_moved_cursor_is_persisted(state, history, id, drawn);
    law_cursor_covers_what_was_handled(state, history, id, drawn);
    assert forall|j: int| 0 <= j < again.items.len() implies !keep(#[trigger] again.items[j]) by {
        let i = drawn.items.index_of(again.items[j]);
        assert(drawn.items[i] == again.items[j]);
    }
    lemma_filter_all_out(again.items, keep);
}

} // verus!
