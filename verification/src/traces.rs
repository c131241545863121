//! What holds over any number of calls.

use crate::effects::StreamerEffectView;
use crate::history::{
    run_id_of, AIConversationId, AmbientAgentTaskId, AmbientAgentTaskView,
    BlocklistAIHistoryEvent, HistoryView,
};
use crate::laws::law_cursor_covers_what_was_handled;
use crate::model::{
    absorb, drain_timer, drawn_from, drawn_from_each, driver_exited, forget,
    lemma_handling_opens_nothing, lists_watchers, merge_task, open, persisted_cursor, recall,
    remove, restore, restore_each, restore_failed, retry_restore, settle, settle_each, teardown,
    unwatch, watch, watch_self, watches, with_consumer, without_consumer, Drawn, EntityId, Step,
    StreamerState,
};
use crate::streamer::{
    consumer_registered, consumer_unregistered, conversation_removed, drain_due, driver_finished,
    history_changed, restored_through, settles, task_fetched, watched_run_registered,
    OrchestrationEventStreamer,
};
use crate::text::lemma_push;
use vstd::prelude::*;

verus! {

/// A call of the streamer.
pub enum StreamerCall {
    RegisterConsumer { id: AIConversationId, consumer: EntityId },
    UnregisterConsumer { id: AIConversationId, consumer: EntityId },
    RegisterWatchedRunId { id: AIConversationId, run_id: Seq<char> },
    HistoryEvent { orchestration_v2: bool, event: BlocklistAIHistoryEvent },
    TaskFetched { id: AIConversationId, sqlite_cursor: i64, task: AmbientAgentTaskView },
    FetchFailed { id: AIConversationId, task_id: AmbientAgentTaskId, sqlite_cursor: i64 },
    FetchRetryDue { id: AIConversationId, task_id: AmbientAgentTaskId, sqlite_cursor: i64 },
    DriverExited { id: AIConversationId, generation: nat, failed: bool },
    DrainTimer { id: AIConversationId, generation: nat },
}

/// Whether the streamer `after`, with these effects, can come of a call, as the
/// contract of the method says that is called.
pub open spec fn comes_of(
    call: StreamerCall,
    before: OrchestrationEventStreamer,
    history: HistoryView,
    after: OrchestrationEventStreamer,
    effects: Seq<StreamerEffectView>,
) -> bool {
    let step = Step { state: after@, effects };
    match call {
        StreamerCall::RegisterConsumer { id, consumer } => {
            &&& consumer_registered(before, history, id, consumer, step)
            &&& after.touches_only(before, id)
            &&& after.keeps_channels(before)
        },
        StreamerCall::UnregisterConsumer { id, consumer } => {
            &&& consumer_unregistered(before, history, id, consumer, step)
            &&& after.touches_only(before, id)
            &&& after.keeps_channels(before)
        },
        StreamerCall::RegisterWatchedRunId { id, run_id } => {
            &&& watched_run_registered(before, history, id, run_id, step)
            &&& after.touches_only(before, id)
            &&& after.keeps_channels(before)
        },
        StreamerCall::HistoryEvent { orchestration_v2, event } => {
            &&& history_changed(before, history, orchestration_v2, event, step)
            &&& after.keeps_channels(before)
        },
        StreamerCall::TaskFetched { id, sqlite_cursor, task } => {
            &&& task_fetched(before, history, id, sqlite_cursor, task, step)
            &&& after.touches_only(before, id)
            &&& after.keeps_channels(before)
        },
        StreamerCall::FetchFailed { id, task_id, sqlite_cursor } => {
            &&& step == restore_failed(before@, id, task_id, sqlite_cursor)
            &&& after.touches_only(before, id)
            &&& after.keeps_channels(before)
        },
        StreamerCall::FetchRetryDue { id, task_id, sqlite_cursor } => {
            &&& step == retry_restore(before@, id, task_id, sqlite_cursor)
            &&& after.same_channels(before)
        },
        StreamerCall::DriverExited { id, generation, failed } => driver_finished(
            before,
            history,
            id,
            generation,
            failed,
            after,
            effects,
        ),
        StreamerCall::DrainTimer { id, generation } => drain_due(
            before,
            history,
            id,
            generation,
            after,
            effects,
        ),
    }
}

// ---- Generations -------------------------------------------------------

/// Whether the generations have gone on: they are not counted back, and a
/// stream held under an old generation was held before.
pub open spec fn generations_advance(before: StreamerState, after: StreamerState) -> bool {
    &&& before.next_generation <= after.next_generation
    &&& forall|id: AIConversationId, generation: nat|
        generation < before.next_generation && #[trigger] after.is_current(id, generation)
            ==> before.is_current(id, generation)
}

/// The generation that an effect opens a stream under.
pub open spec fn opens(effect: StreamerEffectView, generation: nat) -> bool {
    effect matches StreamerEffectView::OpenStream { generation: given, .. } && given == generation
}

/// Whether the streams that `effects` open have rising generations from `low`
/// up to but not including `high`.
pub open spec fn opens_between(effects: Seq<StreamerEffectView>, low: nat, high: nat) -> bool {
    &&& low <= high
    &&& forall|i: int, generation: nat|
        0 <= i < effects.len() && #[trigger] opens(effects[i], generation) ==> low <= generation
            < high
    &&& forall|i: int, j: int, a: nat, b: nat|
        0 <= i < j < effects.len() && #[trigger] opens(effects[i], a) && #[trigger] opens(
            effects[j],
            b,
        ) ==> a < b
}

/// A step with which the generations have gone on.
pub open spec fn advances(before: StreamerState, after: Step) -> bool {
    &&& generations_advance(before, after.state)
    &&& opens_between(after.effects, before.next_generation, after.state.next_generation)
}

/// One step after another.
proof fn lemma_advances_twice(
    first: StreamerState,
    second: Step,
    third: Step,
    effects: Seq<StreamerEffectView>,
)
    requires
        advances(first, second),
        advances(second.state, third),
        effects == second.effects + third.effects,
    ensures
        advances(first, (Step { state: third.state, effects })),
{
    let low = first.next_generation;
    let middle = second.state.next_generation;
    let high = third.state.next_generation;
    let n = second.effects.len() as int;
    assert forall|i: int, generation: nat|
        0 <= i < effects.len() && #[trigger] opens(effects[i], generation) implies low
        <= generation < high by {
        if i < n {
            assert(opens(second.effects[i], generation));
        } else {
            assert(opens(third.effects[i - n], generation));
        }
    }
    assert forall|i: int, j: int, a: nat, b: nat|
        0 <= i < j < effects.len() && #[trigger] opens(effects[i], a) && #[trigger] opens(
            effects[j],
            b,
        ) implies a < b by {
        if j < n {
            assert(opens(second.effects[i], a) && opens(second.effects[j], b));
        } else if i < n {
            assert(opens(second.effects[i], a) && opens(third.effects[j - n], b));
        } else {
            assert(opens(third.effects[i - n], a) && opens(third.effects[j - n], b));
        }
    }
}

/// Handling items opens no stream and closes none.
proof fn lemma_handling_advances(
    state: StreamerState,
    history: HistoryView,
    id: AIConversationId,
    drawn: Drawn,
)
    ensures
        advances(state, absorb(state, history, id, drawn)),
{
    lemma_handling_opens_nothing(state, history, id, drawn);
}

/// Bringing a stream in line.
proof fn lemma_settling_advances(
    state: StreamerState,
    history: HistoryView,
    id: AIConversationId,
    drawn: Drawn,
)
    ensures
        advances(state, settle(state, history, id, drawn)),
{
    let closed = teardown(state, history, id, drawn);
    let settled = settle(state, history, id, drawn);
    lemma_handling_opens_nothing(state, history, id, drawn);
    let opened = open(closed.state, history, id);
    assert(advances(state, closed));
    assert(advances(closed.state, opened)) by {
        assert forall|i: int, j: int, a: nat, b: nat|
            0 <= i < j < opened.effects.len() && #[trigger] opens(opened.effects[i], a)
                && #[trigger] opens(opened.effects[j], b) implies a < b by {
            assert(i == 0 && j == 1);
        }
    }
    lemma_advances_twice(state, closed, opened, closed.effects + opened.effects);
    assert(settled == closed || settled == opened.after(closed.effects));
}

/// Bringing several streams in line.
proof fn lemma_settling_each_advances(
    state: StreamerState,
    history: HistoryView,
    ids: Seq<AIConversationId>,
    drawn: Seq<Drawn>,
)
    ensures
        advances(state, settle_each(state, history, ids, drawn)),
    decreases ids.len(),
{
    if ids.len() > 0 {
        let before = settle_each(state, history, ids.drop_last(), drawn.drop_last());
        let last = settle(before.state, history, ids.last(), drawn.last());
        lemma_settling_each_advances(state, history, ids.drop_last(), drawn.drop_last());
        lemma_settling_advances(before.state, history, ids.last(), drawn.last());
        lemma_advances_twice(state, before, last, before.effects + last.effects);
    }
}

/// Restoring several conversations.
proof fn lemma_restoring_each_advances(
    state: StreamerState,
    history: HistoryView,
    ids: Seq<AIConversationId>,
    drawn: Seq<Drawn>,
)
    ensures
        advances(state, restore_each(state, history, ids, drawn)),
    decreases ids.len(),
{
    if ids.len() > 0 {
        let id = ids.last();
        let before = restore_each(state, history, ids.drop_last(), drawn.drop_last());
        let cursor = persisted_cursor(before.effects, history, id);
        let last = restore(before.state, history, id, cursor, drawn.last());
        let recalled = recall(before.state, history, id, cursor);
        lemma_restoring_each_advances(state, history, ids.drop_last(), drawn.drop_last());
        lemma_settling_advances(recalled, history, id, drawn.last());
        assert(recalled.connections == before.state.connections);
        assert(recalled.next_generation == before.state.next_generation);
        assert(advances(before.state, last)) by {
            let settled = settle(recalled, history, id, drawn.last());
            assert(advances(recalled, settled));
            assert forall|other: AIConversationId, generation: nat|
                generation < before.state.next_generation && #[trigger] settled.state.is_current(
                    other,
                    generation,
                ) implies before.state.is_current(other, generation) by {
                assert(recalled.is_current(other, generation));
            }
        }
        lemma_advances_twice(state, before, last, before.effects + last.effects);
    }
}

/// With every call the generations go on: a generation that a conversation
/// does not hold is not held by it again, and the streams that a call opens
/// have generations that no stream had before, each its own.
pub proof fn law_generations_advance_with_every_call(
    call: StreamerCall,
    before: OrchestrationEventStreamer,
    history: HistoryView,
    last: OrchestrationEventStreamer,
    effects: Seq<StreamerEffectView>,
)
    requires
        comes_of(call, before, history, last, effects),
    ensures
        generations_advance(before@, last@),
        opens_between(effects, before@.next_generation, last@.next_generation),
{
    let after = Step { state: last@, effects };
    match call {
        StreamerCall::RegisterConsumer { id, consumer } => {
            let state = watch_self(with_consumer(before@, id, consumer), history, id);
            lemma_settles_advances(before, state, history, id, after);
        },
        StreamerCall::UnregisterConsumer { id, consumer } => {
            let state = without_consumer(before@, id, consumer);
            lemma_settles_advances(before, state, history, id, after);
        },
        StreamerCall::RegisterWatchedRunId { id, run_id } => {
            let state = watch_self(watch(before@, id, run_id), history, id);
            if after != Step::none(before@) {
                lemma_settles_advances(before, state, history, id, after);
            }
        },
        StreamerCall::HistoryEvent { orchestration_v2, event } => {
            lemma_history_event_advances(before, history, orchestration_v2, event, after);
        },
        StreamerCall::TaskFetched { id, sqlite_cursor, task } => {
            if before@.cursors.contains_key(id) {
                let state = merge_task(before@, id, sqlite_cursor, task);
                lemma_settles_advances(before, state, history, id, after);
            }
        },
        StreamerCall::FetchFailed { .. } => {},
        StreamerCall::FetchRetryDue { .. } => {},
        StreamerCall::DriverExited { id, generation, failed } => {
            let (drawn, drawn_again) = choose|drawn: Drawn, drawn_again: Drawn|
                {
                    &&& #[trigger] drawn_from(before@, history, id, drawn)
                    &&& #[trigger] drawn_from(
                        absorb(before@, history, id, drawn).state,
                        history,
                        id,
                        drawn_again,
                    )
                    &&& after == driver_exited(
                        before@,
                        history,
                        id,
                        generation,
                        failed,
                        drawn,
                        drawn_again,
                    )
                };
            let handled = absorb(before@, history, id, drawn);
            let settled = settle(handled.state, history, id, drawn_again);
            lemma_handling_advances(before@, history, id, drawn);
            lemma_settling_advances(handled.state, history, id, drawn_again);
            lemma_advances_twice(before@, handled, settled, handled.effects + settled.effects);
        },
        StreamerCall::DrainTimer { id, generation } => {
            let drawn = choose|drawn: Drawn|
                {
                    &&& #[trigger] drawn_from(before@, history, id, drawn)
                    &&& after == drain_timer(before@, history, id, generation, drawn)
                };
            lemma_handling_opens_nothing(before@, history, id, drawn);
            assert forall|i: int, generation: nat|
                0 <= i < after.effects.len() implies !#[trigger] opens(
                after.effects[i],
                generation,
            ) by {
                let handled = absorb(before@, history, id, drawn).effects;
                if i < handled.len() {
                    assert(after.effects[i] == handled[i]);
                }
            }
        },
    }
}

/// A call that brings one stream in line.
proof fn lemma_settles_advances(
    before: OrchestrationEventStreamer,
    state: StreamerState,
    history: HistoryView,
    id: AIConversationId,
    after: Step,
)
    requires
        settles(before, state, history, id, after),
        state.connections == before@.connections,
        state.next_generation == before@.next_generation,
    ensures
        advances(before@, after),
{
    let drawn = choose|drawn: Drawn|
        {
            &&& #[trigger] drawn_from(state, history, id, drawn)
            &&& after == settle(state, history, id, drawn)
        };
    lemma_settling_advances(state, history, id, drawn);
    assert forall|other: AIConversationId, generation: nat|
        generation < before@.next_generation && #[trigger] after.state.is_current(
            other,
            generation,
        ) implies before@.is_current(other, generation) by {
        assert(state.is_current(other, generation));
    }
}

/// A change of the history.
proof fn lemma_history_event_advances(
    before: OrchestrationEventStreamer,
    history: HistoryView,
    orchestration_v2: bool,
    event: BlocklistAIHistoryEvent,
    after: Step,
)
    requires
        history_changed(before, history, orchestration_v2, event, after),
    ensures
        advances(before@, after),
{
    match event {
        BlocklistAIHistoryEvent::ConversationServerTokenAssigned { conversation_id } => {
            if after != Step::none(before@) {
                let state = watch_self(before@, history, conversation_id);
                lemma_settles_advances(before, state, history, conversation_id, after);
            }
        },
        BlocklistAIHistoryEvent::RemoveConversation { conversation_id } => {
            lemma_removal_advances(before, history, conversation_id, after);
        },
        BlocklistAIHistoryEvent::DeletedConversation { conversation_id } => {
            lemma_removal_advances(before, history, conversation_id, after);
        },
        BlocklistAIHistoryEvent::RestoredConversations { conversation_ids } => {
            if orchestration_v2 {
                let ids = conversation_ids@;
                let (drawn, stages) = choose|
                    drawn: Seq<Drawn>,
                    stages: Seq<OrchestrationEventStreamer>,
                |
                    {
                        &&& #[trigger] restored_through(before, history, ids, drawn, stages)
                        &&& after == restore_each(before@, history, ids, drawn)
                    };
                lemma_restoring_each_advances(before@, history, ids, drawn);
            }
        },
        _ => {},
    }
}

/// A conversation that has gone.
proof fn lemma_removal_advances(
    before: OrchestrationEventStreamer,
    history: HistoryView,
    id: AIConversationId,
    after: Step,
)
    requires
        conversation_removed(before, history, id, after),
    ensures
        advances(before@, after),
{
    let left = remove(before@, history, id);
    let (ids, drawn) = choose|ids: Seq<AIConversationId>, drawn: Seq<Drawn>|
        {
            &&& #[trigger] drawn_from_each(left, history, ids, drawn)
            &&& after == settle_each(left, history, ids, drawn)
        };
    lemma_settling_each_advances(left, history, ids, drawn);
    assert forall|other: AIConversationId, generation: nat|
        generation < before@.next_generation && #[trigger] after.state.is_current(
            other,
            generation,
        ) implies before@.is_current(other, generation) by {
        assert(left.is_current(other, generation));
    }
}

// ---- The invariant -----------------------------------------------------

/// Handling items keeps what holds between calls.
proof fn lemma_handling_keeps_inv(
    state: StreamerState,
    history: HistoryView,
    id: AIConversationId,
    drawn: Drawn,
    loose: Set<AIConversationId>,
)
    requires
        state.inv_except(loose),
    ensures
        absorb(state, history, id, drawn).state.inv_except(loose),
{
    let after = absorb(state, history, id, drawn).state;
    assert forall|other: AIConversationId| #[trigger]
        after.connections.contains_key(other) && !loose.contains(other) implies {
        &&& after.has_consumer(other)
        &&& after.watched_by(other) != Set::<Seq<char>>::empty()
    } by {
        assert(state.connections.contains_key(other));
        assert(after.consumers_of(other) == state.consumers_of(other));
        assert(after.watched_by(other) == state.watched_by(other));
    }
    assert forall|other: AIConversationId| #[trigger]
        after.pending.contains_key(other) implies after.pending[other].len() > 0 by {
        if other != id {
            assert(state.pending.contains_key(other));
        }
    }
}

/// Bringing a stream in line keeps what holds between calls, and restores it
/// for the conversation concerned.
proof fn lemma_settling_keeps_inv(
    state: StreamerState,
    history: HistoryView,
    id: AIConversationId,
    drawn: Drawn,
    loose: Set<AIConversationId>,
)
    requires
        state.inv_except(loose),
    ensures
        settle(state, history, id, drawn).state.inv_except(loose.remove(id)),
{
    let handled = absorb(state, history, id, drawn).state;
    let after = settle(state, history, id, drawn).state;
    lemma_handling_keeps_inv(state, history, id, drawn, loose);
    assert forall|other: AIConversationId| #[trigger]
        after.connections.contains_key(other) implies after.connections[other]
        < after.next_generation by {
        if other != id {
            assert(handled.connections.contains_key(other));
        }
    }
    assert forall|other: AIConversationId| #[trigger]
        after.connections.contains_key(other) && !loose.remove(id).contains(other) implies {
        &&& after.has_consumer(other)
        &&& after.watched_by(other) != Set::<Seq<char>>::empty()
    } by {
        assert(after.consumers_of(other) == state.consumers_of(other));
        assert(after.watched_by(other) == state.watched_by(other));
        if other != id {
            assert(state.connections.contains_key(other));
            assert(!loose.contains(other));
        }
    }
    assert forall|a: AIConversationId, b: AIConversationId|
        #![trigger after.connections[a], after.connections[b]]
        after.connections.contains_key(a) && after.connections.contains_key(b) && a
            != b implies after.connections[a] != after.connections[b] by {
        if a != id {
            assert(handled.connections.contains_key(a));
        }
        if b != id {
            assert(handled.connections.contains_key(b));
        }
        if a != id && b != id {
            assert(handled.connections[a] != handled.connections[b]);
        }
    }
}

/// Bringing several streams in line.
proof fn lemma_settling_each_keeps_inv(
    state: StreamerState,
    history: HistoryView,
    ids: Seq<AIConversationId>,
    drawn: Seq<Drawn>,
    loose: Set<AIConversationId>,
)
    requires
        state.inv_except(loose),
    ensures
        settle_each(state, history, ids, drawn).state.inv_except(loose.difference(ids.to_set())),
    decreases ids.len(),
{
    if ids.len() > 0 {
        let rest = ids.drop_last();
        let last = ids.last();
        let before = settle_each(state, history, rest, drawn.drop_last());
        let still = loose.difference(rest.to_set());
        lemma_settling_each_keeps_inv(state, history, rest, drawn.drop_last(), loose);
        lemma_settling_keeps_inv(before.state, history, last, drawn.last(), still);
        assert(still.remove(last) =~= loose.difference(ids.to_set())) by {
            assert(ids =~= rest.push(last));
            lemma_push(rest, last);
        }
    } else {
        assert(loose.difference(ids.to_set()) =~= loose);
    }
}

/// A state that differs only in more watched runs, in cursors and in failures.
proof fn lemma_more_watched_keeps_inv(before: StreamerState, after: StreamerState)
    requires
        before.inv(),
        after.connections == before.connections,
        after.next_generation == before.next_generation,
        after.consumers == before.consumers,
        after.pending == before.pending,
        forall|id: AIConversationId| #[trigger]
            before.watched_by(id).subset_of(after.watched_by(id)),
    ensures
        after.inv(),
{
    assert forall|id: AIConversationId| #[trigger]
        after.connections.contains_key(id) && !Set::<AIConversationId>::empty().contains(
            id,
        ) implies {
        &&& after.has_consumer(id)
        &&& after.watched_by(id) != Set::<Seq<char>>::empty()
    } by {
        assert(before.connections.contains_key(id));
        assert(after.consumers_of(id) == before.consumers_of(id));
        let run_id = choose|run_id: Seq<char>| before.watched_by(id).contains(run_id);
        assert(before.watched_by(id).subset_of(after.watched_by(id)));
        if forall|run_id: Seq<char>| !before.watched_by(id).contains(run_id) {
            assert(before.watched_by(id) =~= Set::<Seq<char>>::empty());
        }
        assert(after.watched_by(id).contains(run_id));
    }
}

/// Having a run watched keeps what holds between calls.
proof fn lemma_watching_keeps_inv(state: StreamerState, id: AIConversationId, run_id: Seq<char>)
    requires
        state.inv(),
    ensures
        watch(state, id, run_id).inv(),
{
    lemma_more_watched_keeps_inv(state, watch(state, id, run_id));
}

/// Restoring several conversations.
proof fn lemma_restoring_each_keeps_inv(
    state: StreamerState,
    history: HistoryView,
    ids: Seq<AIConversationId>,
    drawn: Seq<Drawn>,
)
    requires
        state.inv(),
    ensures
        restore_each(state, history, ids, drawn).state.inv(),
    decreases ids.len(),
{
    if ids.len() > 0 {
        let id = ids.last();
        let before = restore_each(state, history, ids.drop_last(), drawn.drop_last());
        let cursor = persisted_cursor(before.effects, history, id);
        let recalled = recall(before.state, history, id, cursor);
        lemma_restoring_each_keeps_inv(state, history, ids.drop_last(), drawn.drop_last());
        lemma_more_watched_keeps_inv(before.state, recalled);
        lemma_settling_keeps_inv(recalled, history, id, drawn.last(), Set::empty());
        assert(Set::<AIConversationId>::empty().remove(id) =~= Set::empty());
    }
}

/// What is left when a conversation goes, before the streams of those that
/// watched its run are brought in line.
proof fn lemma_removing_keeps_inv(
    state: StreamerState,
    history: HistoryView,
    id: AIConversationId,
    ids: Seq<AIConversationId>,
)
    requires
        state.inv(),
        lists_watchers(state, history, id, ids),
    ensures
        remove(state, history, id).inv_except(ids.to_set()),
{
    let gone = forget(state, id);
    let left = remove(state, history, id);
    assert forall|other: AIConversationId| #[trigger]
        left.connections.contains_key(other) && !ids.to_set().contains(other) implies {
        &&& left.has_consumer(other)
        &&& left.watched_by(other) != Set::<Seq<char>>::empty()
    } by {
        assert(state.connections.contains_key(other));
        assert(left.consumers_of(other) == state.consumers_of(other));
        assert(!ids.contains(other));
        assert(gone.watched_by(other) == state.watched_by(other));
        if let Some(run_id) = run_id_of(history, id) {
            assert(!watches(gone, other, run_id));
            assert(gone.watched_by(other).remove(run_id) =~= gone.watched_by(other));
            assert(unwatch(gone, run_id).watched_by(other) == gone.watched_by(other));
        }
    }
    assert forall|other: AIConversationId| #[trigger]
        left.connections.contains_key(other) implies left.connections[other]
        < left.next_generation by {
        assert(state.connections.contains_key(other));
    }
    assert forall|a: AIConversationId, b: AIConversationId|
        #![trigger left.connections[a], left.connections[b]]
        left.connections.contains_key(a) && left.connections.contains_key(b) && a
            != b implies left.connections[a] != left.connections[b] by {
        assert(state.connections[a] != state.connections[b]);
    }
    assert forall|other: AIConversationId| #[trigger]
        left.consumers.contains_key(other) implies left.consumers[other] != Set::<
        EntityId,
    >::empty() by {
        assert(state.consumers.contains_key(other));
    }
    assert forall|other: AIConversationId| #[trigger]
        left.pending.contains_key(other) implies left.pending[other].len() > 0 by {
        assert(state.pending.contains_key(other));
    }
}

/// A conversation that has gone.
proof fn lemma_removal_keeps_inv(
    before: OrchestrationEventStreamer,
    history: HistoryView,
    id: AIConversationId,
    after: Step,
)
    requires
        before@.inv(),
        conversation_removed(before, history, id, after),
    ensures
        after.state.inv(),
{
    let left = remove(before@, history, id);
    let (ids, drawn) = choose|ids: Seq<AIConversationId>, drawn: Seq<Drawn>|
        {
            &&& lists_watchers(before@, history, id, ids)
            &&& #[trigger] drawn_from_each(left, history, ids, drawn)
            &&& after == settle_each(left, history, ids, drawn)
        };
    lemma_removing_keeps_inv(before@, history, id, ids);
    lemma_settling_each_keeps_inv(left, history, ids, drawn, ids.to_set());
    assert(ids.to_set().difference(ids.to_set()) =~= Set::empty());
}

/// A call that brings one stream in line.
proof fn lemma_settles_keeps_inv(
    before: OrchestrationEventStreamer,
    state: StreamerState,
    history: HistoryView,
    id: AIConversationId,
    after: Step,
)
    requires
        settles(before, state, history, id, after),
        state.inv_except(set![id]),
    ensures
        after.state.inv(),
{
    let drawn = choose|drawn: Drawn|
        {
            &&& #[trigger] drawn_from(state, history, id, drawn)
            &&& after == settle(state, history, id, drawn)
        };
    lemma_settling_keeps_inv(state, history, id, drawn, set![id]);
    assert(set![id].remove(id) =~= Set::empty());
}

/// Changes of the registry.
proof fn lemma_registry_keeps_inv(state: StreamerState, id: AIConversationId, consumer: EntityId)
    requires
        state.inv(),
    ensures
        with_consumer(state, id, consumer).inv(),
        without_consumer(state, id, consumer).inv_except(set![id]),
{
    let more = with_consumer(state, id, consumer);
    let less = without_consumer(state, id, consumer);
    assert(more.consumers_of(id).contains(consumer));
    assert forall|other: AIConversationId| #[trigger]
        state.connections.contains_key(other) implies {
        &&& more.has_consumer(other)
        &&& more.watched_by(other) != Set::<Seq<char>>::empty()
        &&& other != id ==> less.has_consumer(other)
        &&& less.watched_by(other) != Set::<Seq<char>>::empty()
    } by {
        assert(state.has_consumer(other));
        assert(more.watched_by(other) == state.watched_by(other));
        assert(less.watched_by(other) == state.watched_by(other));
        if other != id {
            assert(more.consumers_of(other) == state.consumers_of(other));
            assert(less.consumers_of(other) == state.consumers_of(other));
        }
    }
    assert forall|other: AIConversationId| #[trigger]
        more.consumers.contains_key(other) implies more.consumers[other] != Set::<
        EntityId,
    >::empty() by {
        if other != id {
            assert(state.consumers.contains_key(other));
        }
    }
    assert forall|other: AIConversationId| #[trigger]
        less.consumers.contains_key(other) implies less.consumers[other] != Set::<
        EntityId,
    >::empty() by {
        if other != id {
            assert(state.consumers.contains_key(other));
        }
    }
}

/// What holds of the state between calls is kept by every call: a stream has a
/// generation of its own, a consumer and a run to follow, and nothing is listed
/// that is empty.
pub proof fn law_every_call_keeps_the_invariant(
    call: StreamerCall,
    before: OrchestrationEventStreamer,
    history: HistoryView,
    last: OrchestrationEventStreamer,
    effects: Seq<StreamerEffectView>,
)
    requires
        before@.inv(),
        comes_of(call, before, history, last, effects),
    ensures
        last@.inv(),
{
    let after = Step { state: last@, effects };
    match call {
        StreamerCall::RegisterConsumer { id, consumer } => {
            let registered = with_consumer(before@, id, consumer);
            lemma_registry_keeps_inv(before@, id, consumer);
            lemma_watching_oneself_keeps_inv(registered, history, id);
            let state = watch_self(registered, history, id);
            lemma_settles_keeps_inv(before, state, history, id, after);
        },
        StreamerCall::UnregisterConsumer { id, consumer } => {
            lemma_registry_keeps_inv(before@, id, consumer);
            let state = without_consumer(before@, id, consumer);
            lemma_settles_keeps_inv(before, state, history, id, after);
        },
        StreamerCall::RegisterWatchedRunId { id, run_id } => {
            let watching = watch(before@, id, run_id);
            lemma_watching_keeps_inv(before@, id, run_id);
            lemma_watching_oneself_keeps_inv(watching, history, id);
            if after != Step::none(before@) {
                let state = watch_self(watching, history, id);
                lemma_settles_keeps_inv(before, state, history, id, after);
            }
        },
        StreamerCall::HistoryEvent { orchestration_v2, event } => {
            lemma_history_event_keeps_inv(before, history, orchestration_v2, event, after);
        },
        StreamerCall::TaskFetched { id, sqlite_cursor, task } => {
            if before@.cursors.contains_key(id) {
                let state = merge_task(before@, id, sqlite_cursor, task);
                lemma_more_watched_keeps_inv(before@, state);
                lemma_settles_keeps_inv(before, state, history, id, after);
            } else {
                lemma_more_watched_keeps_inv(before@, after.state);
            }
        },
        StreamerCall::FetchFailed { .. } => {
            lemma_more_watched_keeps_inv(before@, after.state);
        },
        StreamerCall::FetchRetryDue { .. } => {
            lemma_more_watched_keeps_inv(before@, after.state);
        },
        StreamerCall::DriverExited { id, generation, failed } => {
            let (drawn, drawn_again) = choose|drawn: Drawn, drawn_again: Drawn|
                {
                    &&& #[trigger] drawn_from(before@, history, id, drawn)
                    &&& #[trigger] drawn_from(
                        absorb(before@, history, id, drawn).state,
                        history,
                        id,
                        drawn_again,
                    )
                    &&& after == driver_exited(
                        before@,
                        history,
                        id,
                        generation,
                        failed,
                        drawn,
                        drawn_again,
                    )
                };
            let handled = absorb(before@, history, id, drawn).state;
            lemma_handling_keeps_inv(before@, history, id, drawn, Set::empty());
            lemma_settling_keeps_inv(handled, history, id, drawn_again, Set::empty());
            assert(Set::<AIConversationId>::empty().remove(id) =~= Set::empty());
        },
        StreamerCall::DrainTimer { id, generation } => {
            let drawn = choose|drawn: Drawn|
                {
                    &&& #[trigger] drawn_from(before@, history, id, drawn)
                    &&& after == drain_timer(before@, history, id, generation, drawn)
                };
            lemma_handling_keeps_inv(before@, history, id, drawn, Set::empty());
        },
    }
}

/// Watching one's own run keeps what holds between calls.
proof fn lemma_watching_oneself_keeps_inv(
    state: StreamerState,
    history: HistoryView,
    id: AIConversationId,
)
    requires
        state.inv(),
    ensures
        watch_self(state, history, id).inv(),
{
    lemma_more_watched_keeps_inv(state, watch_self(state, history, id));
}

/// A change of the history.
proof fn lemma_history_event_keeps_inv(
    before: OrchestrationEventStreamer,
    history: HistoryView,
    orchestration_v2: bool,
    event: BlocklistAIHistoryEvent,
    after: Step,
)
    requires
        before@.inv(),
        history_changed(before, history, orchestration_v2, event, after),
    ensures
        after.state.inv(),
{
    match event {
        BlocklistAIHistoryEvent::ConversationServerTokenAssigned { conversation_id } => {
            if after != Step::none(before@) {
                let state = watch_self(before@, history, conversation_id);
                lemma_watching_oneself_keeps_inv(before@, history, conversation_id);
                lemma_settles_keeps_inv(before, state, history, conversation_id, after);
            }
        },
        BlocklistAIHistoryEvent::UpdatedStreamingExchange { .. } => {
            assert forall|id: AIConversationId| #[trigger]
                after.state.connections.contains_key(id) implies {
                &&& after.state.has_consumer(id)
                &&& after.state.watched_by(id) != Set::<Seq<char>>::empty()
            } by {
                assert(before@.connections.contains_key(id));
                assert(after.state.consumers_of(id) == before@.consumers_of(id));
                assert(after.state.watched_by(id) == before@.watched_by(id));
            }
            assert forall|id: AIConversationId| #[trigger]
                after.state.pending.contains_key(id) implies after.state.pending[id].len() > 0 by {
                if after.state.pending[id] == before@.pending[id] {
                    assert(before@.pending.contains_key(id));
                }
            }
        },
        BlocklistAIHistoryEvent::RemoveConversation { conversation_id } => {
            lemma_removal_keeps_inv(before, history, conversation_id, after);
        },
        BlocklistAIHistoryEvent::DeletedConversation { conversation_id } => {
            lemma_removal_keeps_inv(before, history, conversation_id, after);
        },
        BlocklistAIHistoryEvent::RestoredConversations { conversation_ids } => {
            if orchestration_v2 {
                let ids = conversation_ids@;
                let (drawn, stages) = choose|
                    drawn: Seq<Drawn>,
                    stages: Seq<OrchestrationEventStreamer>,
                |
                    {
                        &&& #[trigger] restored_through(before, history, ids, drawn, stages)
                        &&& after == restore_each(before@, history, ids, drawn)
                    };
                lemma_restoring_each_keeps_inv(before@, history, ids, drawn);
            }
        },
        _ => {},
    }
}

// ---- Cursors -----------------------------------------------------------

/// Whether a call may set the cursor of a conversation anew: it has the
/// conversation restored, or forgotten.
pub open spec fn resets_cursor(call: StreamerCall, id: AIConversationId) -> bool {
    match call {
        StreamerCall::HistoryEvent { event, .. } => match event {
            BlocklistAIHistoryEvent::RemoveConversation { conversation_id } => conversation_id
                == id,
            BlocklistAIHistoryEvent::DeletedConversation { conversation_id } => conversation_id
                == id,
            BlocklistAIHistoryEvent::RestoredConversations { conversation_ids } =>
                conversation_ids@.contains(id),
            _ => false,
        },
        _ => false,
    }
}

/// Bringing several streams in line moves no cursor back.
proof fn lemma_settling_each_keeps_cursors(
    state: StreamerState,
    history: HistoryView,
    ids: Seq<AIConversationId>,
    drawn: Seq<Drawn>,
    other: AIConversationId,
)
    ensures
        settle_each(state, history, ids, drawn).state.cursor_of(other) >= state.cursor_of(other),
    decreases ids.len(),
{
    if ids.len() > 0 {
        let before = settle_each(state, history, ids.drop_last(), drawn.drop_last());
        lemma_settling_each_keeps_cursors(
            state,
            history,
            ids.drop_last(),
            drawn.drop_last(),
            other,
        );
        law_cursor_covers_what_was_handled(before.state, history, ids.last(), drawn.last());
    }
}

/// Restoring conversations leaves the cursors of others alone.
proof fn lemma_restoring_each_keeps_cursors(
    state: StreamerState,
    history: HistoryView,
    ids: Seq<AIConversationId>,
    drawn: Seq<Drawn>,
    other: AIConversationId,
)
    requires
        !ids.contains(other),
    ensures
        restore_each(state, history, ids, drawn).state.cursor_of(other) == state.cursor_of(other),
    decreases ids.len(),
{
    if ids.len() > 0 {
        assert(ids.contains(ids[ids.len() - 1]));
        assert forall|i: int| 0 <= i < ids.drop_last().len() implies ids.drop_last()[i]
            != other by {
            assert(ids.contains(ids[i]));
        }
        lemma_restoring_each_keeps_cursors(
            state,
            history,
            ids.drop_last(),
            drawn.drop_last(),
            other,
        );
    }
}

/// No call moves the cursor of a conversation back, but for those that have it
/// restored or forgotten.
pub proof fn law_cursors_do_not_fall(
    call: StreamerCall,
    before: OrchestrationEventStreamer,
    history: HistoryView,
    last: OrchestrationEventStreamer,
    effects: Seq<StreamerEffectView>,
    other: AIConversationId,
)
    requires
        comes_of(call, before, history, last, effects),
        !resets_cursor(call, other),
    ensures
        last@.cursor_of(other) >= before@.cursor_of(other),
{
    let after = Step { state: last@, effects };
    match call {
        StreamerCall::RegisterConsumer { id, consumer } => {
            let state = watch_self(with_consumer(before@, id, consumer), history, id);
            lemma_settles_keeps_cursors(before, state, history, id, after, other);
        },
        StreamerCall::UnregisterConsumer { id, consumer } => {
            let state = without_consumer(before@, id, consumer);
            lemma_settles_keeps_cursors(before, state, history, id, after, other);
        },
        StreamerCall::RegisterWatchedRunId { id, run_id } => {
            if after != Step::none(before@) {
                let state = watch_self(watch(before@, id, run_id), history, id);
                lemma_settles_keeps_cursors(before, state, history, id, after, other);
            }
        },
        StreamerCall::HistoryEvent { orchestration_v2, event } => {
            lemma_history_event_keeps_cursors(
                before,
                history,
                orchestration_v2,
                event,
                after,
                other,
            );
        },
        StreamerCall::TaskFetched { id, sqlite_cursor, task } => {
            if before@.cursors.contains_key(id) {
                let state = merge_task(before@, id, sqlite_cursor, task);
                lemma_settles_keeps_cursors(before, state, history, id, after, other);
            }
        },
        StreamerCall::FetchFailed { .. } => {},
        StreamerCall::FetchRetryDue { .. } => {},
        StreamerCall::DriverExited { id, generation, failed } => {
            let (drawn, drawn_again) = choose|drawn: Drawn, drawn_again: Drawn|
                {
                    &&& #[trigger] drawn_from(before@, history, id, drawn)
                    &&& #[trigger] drawn_from(
                        absorb(before@, history, id, drawn).state,
                        history,
                        id,
                        drawn_again,
                    )
                    &&& after == driver_exited(
                        before@,
                        history,
                        id,
                        generation,
                        failed,
                        drawn,
                        drawn_again,
                    )
                };
            let handled = absorb(before@, history, id, drawn).state;
            law_cursor_covers_what_was_handled(before@, history, id, drawn);
            law_cursor_covers_what_was_handled(handled, history, id, drawn_again);
        },
        StreamerCall::DrainTimer { id, generation } => {
            let drawn = choose|drawn: Drawn|
                {
                    &&& #[trigger] drawn_from(before@, history, id, drawn)
                    &&& after == drain_timer(before@, history, id, generation, drawn)
                };
            law_cursor_covers_what_was_handled(before@, history, id, drawn);
        },
    }
}

/// A call that brings one stream in line.
proof fn lemma_settles_keeps_cursors(
    before: OrchestrationEventStreamer,
    state: StreamerState,
    history: HistoryView,
    id: AIConversationId,
    after: Step,
    other: AIConversationId,
)
    requires
        settles(before, state, history, id, after),
        state.cursor_of(other) >= before@.cursor_of(other),
    ensures
        after.state.cursor_of(other) >= before@.cursor_of(other),
{
    let drawn = choose|drawn: Drawn|
        {
            &&& #[trigger] drawn_from(state, history, id, drawn)
            &&& after == settle(state, history, id, drawn)
        };
    law_cursor_covers_what_was_handled(state, history, id, drawn);
}

/// A change of the history.
proof fn lemma_history_event_keeps_cursors(
    before: OrchestrationEventStreamer,
    history: HistoryView,
    orchestration_v2: bool,
    event: BlocklistAIHistoryEvent,
    after: Step,
    other: AIConversationId,
)
    requires
        history_changed(before, history, orchestration_v2, event, after),
        !resets_cursor((StreamerCall::HistoryEvent { orchestration_v2, event }), other),
    ensures
        after.state.cursor_of(other) >= before@.cursor_of(other),
{
    match event {
        BlocklistAIHistoryEvent::ConversationServerTokenAssigned { conversation_id } => {
            if after != Step::none(before@) {
                let state = watch_self(before@, history, conversation_id);
                lemma_settles_keeps_cursors(before, state, history, conversation_id, after, other);
            }
        },
        BlocklistAIHistoryEvent::RemoveConversation { conversation_id } => {
            lemma_removal_keeps_cursors(before, history, conversation_id, after, other);
        },
        BlocklistAIHistoryEvent::DeletedConversation { conversation_id } => {
            lemma_removal_keeps_cursors(before, history, conversation_id, after, other);
        },
        BlocklistAIHistoryEvent::RestoredConversations { conversation_ids } => {
            if orchestration_v2 {
                let ids = conversation_ids@;
                let (drawn, stages) = choose|
                    drawn: Seq<Drawn>,
                    stages: Seq<OrchestrationEventStreamer>,
                |
                    {
                        &&& #[trigger] restored_through(before, history, ids, drawn, stages)
                        &&& after == restore_each(before@, history, ids, drawn)
                    };
                lemma_restoring_each_keeps_cursors(before@, history, ids, drawn, other);
            }
        },
        _ => {},
    }
}

/// A conversation that has gone.
proof fn lemma_removal_keeps_cursors(
    before: OrchestrationEventStreamer,
    history: HistoryView,
    id: AIConversationId,
    after: Step,
    other: AIConversationId,
)
    requires
        conversation_removed(before, history, id, after),
        other != id,
    ensures
        after.state.cursor_of(other) >= before@.cursor_of(other),
{
    let left = remove(before@, history, id);
    let (ids, drawn) = choose|ids: Seq<AIConversationId>, drawn: Seq<Drawn>|
        {
            &&& #[trigger] drawn_from_each(left, history, ids, drawn)
            &&& after == settle_each(left, history, ids, drawn)
        };
    lemma_settling_each_keeps_cursors(left, history, ids, drawn, other);
}

// ---- Traces ------------------------------------------------------------

/// A streamer as it goes through a series of calls.
pub struct Trace {
    /// The streamer before each call, and after the last one.
    pub streamers: Seq<OrchestrationEventStreamer>,
    /// The calls.
    pub calls: Seq<StreamerCall>,
    /// The history at each call.
    pub histories: Seq<HistoryView>,
    /// What each call asked for.
    pub effects: Seq<Seq<StreamerEffectView>>,
}

impl Trace {
    /// Each call came to what its contract says.
    pub open spec fn valid(self) -> bool {
        &&& self.streamers.len() == self.calls.len() + 1
        &&& forall|i: int| #![trigger self.calls[i]]
            0 <= i < self.calls.len() ==> comes_of(
                self.calls[i],
                self.streamers[i],
                self.histories[i],
                self.streamers[i + 1],
                self.effects[i],
            )
    }
}

/// The generations go on through any number of calls: one that a conversation
/// does not hold, and that has been given out, is never held by it again.
pub proof fn law_generations_never_return(trace: Trace, i: int, j: int)
    requires
        trace.valid(),
        0 <= i <= j < trace.streamers.len(),
    ensures
        generations_advance(trace.streamers[i]@, trace.streamers[j]@),
    decreases j - i,
{
    if i < j {
        law_generations_never_return(trace, i, j - 1);
        law_generations_advance_with_every_call(
            trace.calls[j - 1],
            trace.streamers[j - 1],
            trace.histories[j - 1],
            trace.streamers[j],
            trace.effects[j - 1],
        );
        let (first, middle, last) = (
            trace.streamers[i]@,
            trace.streamers[j - 1]@,
            trace.streamers[j]@,
        );
        assert forall|id: AIConversationId, generation: nat|
            generation < first.next_generation && #[trigger] last.is_current(
                id,
                generation,
            ) implies first.is_current(id, generation) by {
            assert(middle.is_current(id, generation));
        }
    }
}

/// No generation is given to two streams, be it of two conversations or of one
/// and the same, in one call or in two.
pub proof fn law_no_generation_is_given_twice(
    trace: Trace,
    i: int,
    j: int,
    m: int,
    n: int,
    generation: nat,
)
    requires
        trace.valid(),
        0 <= i <= j < trace.calls.len(),
        0 <= m < trace.effects[i].len(),
        0 <= n < trace.effects[j].len(),
        opens(trace.effects[i][m], generation),
        opens(trace.effects[j][n], generation),
    ensures
        i == j && m == n,
{
    law_generations_advance_with_every_call(
        trace.calls[i],
        trace.streamers[i],
        trace.histories[i],
        trace.streamers[i + 1],
        trace.effects[i],
    );
    law_generations_advance_with_every_call(
        trace.calls[j],
        trace.streamers[j],
        trace.histories[j],
        trace.streamers[j + 1],
        trace.effects[j],
    );
    if i < j {
        law_generations_never_return(trace, i + 1, j);
        assert(generation < trace.streamers[i + 1]@.next_generation);
        assert(generation >= trace.streamers[j]@.next_generation);
    }
}

/// Once a conversation no longer holds a stream, whatever closed or replaced
/// it, callbacks of that stream change no state, take nothing out of any
/// channel and ask for nothing, however many calls later they come.
pub proof fn law_callbacks_stay_stale(
    trace: Trace,
    i: int,
    j: int,
    id: AIConversationId,
    generation: nat,
)
    requires
        trace.valid(),
        0 <= i <= j < trace.calls.len(),
        generation < trace.streamers[i]@.next_generation,
        !trace.streamers[i]@.is_current(id, generation),
        match trace.calls[j] {
            StreamerCall::DriverExited { id: of, generation: given, .. } => of == id && given
                == generation,
            StreamerCall::DrainTimer { id: of, generation: given } => of == id && given
                == generation,
            _ => false,
        },
    ensures
        trace.streamers[j + 1]@ == trace.streamers[j]@,
        trace.streamers[j + 1].same_channels(trace.streamers[j]),
        trace.effects[j].len() == 0,
{
    law_generations_never_return(trace, i, j);
    assert(comes_of(
        trace.calls[j],
        trace.streamers[j],
        trace.histories[j],
        trace.streamers[j + 1],
        trace.effects[j],
    ));
    assert(!trace.streamers[j]@.is_current(id, generation));
}

/// What holds between calls holds after any number of calls.
pub proof fn law_invariant_holds_throughout(trace: Trace, i: int)
    requires
        trace.valid(),
        trace.streamers[0]@ == StreamerState::initial(),
        0 <= i < trace.streamers.len(),
    ensures
        trace.streamers[i]@.inv(),
    decreases i,
{
    if i > 0 {
        law_invariant_holds_throughout(trace, i - 1);
        law_every_call_keeps_the_invariant(
            trace.calls[i - 1],
            trace.streamers[i - 1],
            trace.histories[i - 1],
            trace.streamers[i],
            trace.effects[i - 1],
        );
    }
}

} // verus!
