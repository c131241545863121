//! The streamer as a state machine: its state, and what each call makes of it.

use crate::channel::SseStreamItemView;
use crate::effects::StreamerEffectView;
use crate::events::{
    announces_message, converts, pending_entries, AgentEventView, AgentRunEventView,
    ReceivedMessageView,
};
use crate::history::{
    has_child_role, is_passive, run_id_of, run_id_or_blank, AIAgentExchangeId, AIConversationId,
    AmbientAgentTaskId, AmbientAgentTaskView, BlocklistAIHistoryEvent, HistoryView,
};
use vstd::prelude::*;

verus! {

/// Identifies a consumer: the pane of an agent view, or a driver.
pub type EntityId = u64;

/// How long, in milliseconds, events may wait in a channel before they are
/// drained.
pub const SSE_DRAIN_INTERVAL_MS: u64 = 500;

/// What the streamer remembers.
#[verifier::ext_equal]
pub struct StreamerState {
    /// The runs that are watched on behalf of each conversation: its own run,
    /// and those of its children.
    pub watched: Map<AIConversationId, Set<Seq<char>>>,
    /// The sequence of the last event that was handled, per conversation.
    pub cursors: Map<AIConversationId, i64>,
    /// The messages whose delivery has yet to be confirmed, per conversation.
    pub pending: Map<AIConversationId, Seq<Seq<char>>>,
    /// The registered consumers of each conversation.
    pub consumers: Map<AIConversationId, Set<EntityId>>,
    /// The generation of the stream that each connected conversation holds.
    pub connections: Map<AIConversationId, nat>,
    /// The generation of the next stream.
    pub next_generation: nat,
    /// How many fetches in a row have failed since a conversation was
    /// restored.
    pub failures: Map<AIConversationId, nat>,
}

impl StreamerState {
    /// Nothing is remembered.
    pub open spec fn initial() -> StreamerState {
        StreamerState {
            watched: Map::empty(),
            cursors: Map::empty(),
            pending: Map::empty(),
            consumers: Map::empty(),
            connections: Map::empty(),
            next_generation: 0,
            failures: Map::empty(),
        }
    }

    /// The runs watched on behalf of a conversation.
    pub open spec fn watched_by(self, id: AIConversationId) -> Set<Seq<char>> {
        if self.watched.contains_key(id) {
            self.watched[id]
        } else {
            Set::empty()
        }
    }

    /// The sequence of the last event that a conversation handled.
    pub open spec fn cursor_of(self, id: AIConversationId) -> i64 {
        if self.cursors.contains_key(id) {
            self.cursors[id]
        } else {
            0
        }
    }

    /// The messages of a conversation that wait for confirmation.
    pub open spec fn pending_of(self, id: AIConversationId) -> Seq<Seq<char>> {
        if self.pending.contains_key(id) {
            self.pending[id]
        } else {
            Seq::empty()
        }
    }

    /// The consumers of a conversation.
    pub open spec fn consumers_of(self, id: AIConversationId) -> Set<EntityId> {
        if self.consumers.contains_key(id) {
            self.consumers[id]
        } else {
            Set::empty()
        }
    }

    /// How many fetches in a row have failed for a conversation.
    pub open spec fn failures_of(self, id: AIConversationId) -> nat {
        if self.failures.contains_key(id) {
            self.failures[id]
        } else {
            0
        }
    }

    /// Whether a conversation holds a stream.
    pub open spec fn connected(self, id: AIConversationId) -> bool {
        self.connections.contains_key(id)
    }

    /// Whether a conversation holds the stream of this generation.
    pub open spec fn is_current(self, id: AIConversationId, generation: nat) -> bool {
        self.connections.contains_key(id) && self.connections[id] == generation
    }

    /// Whether a conversation has an active consumer.
    pub open spec fn has_consumer(self, id: AIConversationId) -> bool {
        self.consumers_of(id) != Set::<EntityId>::empty()
    }

    /// What holds of the state between any two calls: a stream has a
    /// generation of its own, which will not be given out again, has a
    /// consumer and a run to follow; no set of consumers and no list of
    /// unconfirmed messages is kept when it is empty.
    pub open spec fn inv(self) -> bool {
        self.inv_except(Set::empty())
    }

    /// The same, except that streams of the conversations in `loose` may have
    /// lost their consumer or their runs.
    pub open spec fn inv_except(self, loose: Set<AIConversationId>) -> bool {
        &&& forall|id: AIConversationId| #[trigger]
            self.connections.contains_key(id) ==> self.connections[id] < self.next_generation
        &&& forall|id: AIConversationId| #[trigger]
            self.connections.contains_key(id) && !loose.contains(id) ==> {
                &&& self.has_consumer(id)
                &&& self.watched_by(id) != Set::<Seq<char>>::empty()
            }
        &&& forall|a: AIConversationId, b: AIConversationId|
            #![trigger self.connections[a], self.connections[b]]
            self.connections.contains_key(a) && self.connections.contains_key(b) && a != b
                ==> self.connections[a] != self.connections[b]
        &&& forall|id: AIConversationId| #[trigger]
            self.consumers.contains_key(id) ==> self.consumers[id] != Set::<EntityId>::empty()
        &&& forall|id: AIConversationId| #[trigger]
            self.pending.contains_key(id) ==> self.pending[id].len() > 0
    }
}

/// A state, and the effects of getting there.
#[verifier::ext_equal]
pub struct Step {
    pub state: StreamerState,
    pub effects: Seq<StreamerEffectView>,
}

impl Step {
    /// Staying where one is.
    pub open spec fn none(state: StreamerState) -> Step {
        Step { state, effects: Seq::empty() }
    }

    /// One step after another: the effects of both.
    pub open spec fn after(self, effects: Seq<StreamerEffectView>) -> Step {
        Step { state: self.state, effects: effects + self.effects }
    }
}

// ---- Eligibility -------------------------------------------------------

/// Whether a conversation watches the run of a child: a run other than its
/// own.
pub open spec fn watches_child(
    state: StreamerState,
    history: HistoryView,
    id: AIConversationId,
) -> bool {
    exists|run_id: Seq<char>| #[trigger]
        state.watched_by(id).contains(run_id) && run_id_of(history, id) != Some(run_id)
}

/// Whether a conversation should hold a stream: it has an active consumer in
/// this process, it is not a passive view of a run hosted elsewhere, and it is
/// the child or the parent of another agent.
pub open spec fn eligible(
    state: StreamerState,
    history: HistoryView,
    id: AIConversationId,
) -> bool {
    &&& state.has_consumer(id)
    &&& !is_passive(history, id)
    &&& has_child_role(history, id) || watches_child(state, history, id)
}

/// Whether a conversation owns an inbox in a tree of agents: it has a run of
/// its own in this process, and it is the child or the parent of another
/// agent.
pub open spec fn owns_inbox(
    state: StreamerState,
    history: HistoryView,
    id: AIConversationId,
) -> bool {
    &&& history.contains_key(id)
    &&& !is_passive(history, id)
    &&& history[id].run_id is Some
    &&& has_child_role(history, id) || watches_child(state, history, id)
}

/// Has a run watched on behalf of a conversation.
pub open spec fn watch(
    state: StreamerState,
    id: AIConversationId,
    run_id: Seq<char>,
) -> StreamerState {
    StreamerState {
        watched: state.watched.insert(id, state.watched_by(id).insert(run_id)),
        ..state
    }
}

/// Has a conversation that owns an inbox watch its own run.
pub open spec fn watch_self(
    state: StreamerState,
    history: HistoryView,
    id: AIConversationId,
) -> StreamerState {
    if owns_inbox(state, history, id) {
        watch(state, id, history[id].run_id->0)
    } else {
        state
    }
}

/// Whether a conversation that owns an inbox does not watch its own run yet.
pub open spec fn misses_own_run(
    state: StreamerState,
    history: HistoryView,
    id: AIConversationId,
) -> bool {
    owns_inbox(state, history, id) && !state.watched_by(id).contains(history[id].run_id->0)
}

// ---- Streams -----------------------------------------------------------

/// What comes from outside while a channel is drained.
pub struct Drawn {
    /// The items that were waiting.
    pub items: Seq<SseStreamItemView>,
    /// The lifecycle events that they report, with the ids and the times that
    /// they were given.
    pub lifecycle: Seq<AgentEventView>,
}

/// The items of a batch beyond a cursor. The others have been handled before.
pub open spec fn fresh_items(
    items: Seq<SseStreamItemView>,
    cursor: i64,
) -> Seq<SseStreamItemView> {
    items.filter(|i: SseStreamItemView| i.event.sequence > cursor)
}

/// The events of a batch of items.
pub open spec fn item_events(items: Seq<SseStreamItemView>) -> Seq<AgentRunEventView> {
    items.map_values(|i: SseStreamItemView| i.event)
}

/// The messages that came with a batch of items.
pub open spec fn item_messages(items: Seq<SseStreamItemView>) -> Seq<ReceivedMessageView> {
    items.filter(|i: SseStreamItemView| i.fetched_message is Some).map_values(
        |i: SseStreamItemView| i.fetched_message->0,
    )
}

/// The highest sequence in a batch, or `otherwise` if the batch is empty.
pub open spec fn highest_sequence(events: Seq<AgentRunEventView>, otherwise: i64) -> i64
    decreases events.len(),
{
    if events.len() == 0 {
        otherwise
    } else if events.len() == 1 {
        events[0].sequence
    } else {
        let rest = highest_sequence(events.drop_last(), otherwise);
        if events.last().sequence > rest {
            events.last().sequence
        } else {
            rest
        }
    }
}

/// No sequence of a batch is above the highest one, which one of them has.
pub proof fn lemma_highest_is_upper_bound(events: Seq<AgentRunEventView>, otherwise: i64)
    ensures
        forall|i: int|
            0 <= i < events.len() ==> (#[trigger] events[i]).sequence <= highest_sequence(
                events,
                otherwise,
            ),
        events.len() > 0 ==> exists|i: int|
            0 <= i < events.len() && (#[trigger] events[i]).sequence == highest_sequence(
                events,
                otherwise,
            ),
    decreases events.len(),
{
    if events.len() == 1 {
        assert(events[0].sequence == highest_sequence(events, otherwise));
    } else if events.len() > 1 {
        let rest = events.drop_last();
        lemma_highest_is_upper_bound(rest, otherwise);
        assert forall|i: int| 0 <= i < events.len() implies (#[trigger] events[i]).sequence
            <= highest_sequence(events, otherwise) by {
            if i < rest.len() {
                assert(rest[i] == events[i]);
            }
        }
        if events.last().sequence > highest_sequence(rest, otherwise) {
            assert(events[events.len() - 1].sequence == highest_sequence(events, otherwise));
        } else {
            let k = choose|k: int|
                0 <= k < rest.len() && (#[trigger] rest[k]).sequence == highest_sequence(
                    rest,
                    otherwise,
                );
            assert(events[k].sequence == highest_sequence(events, otherwise));
        }
    }
}

/// Whether an event announces a message to the run `self_run_id`, by its id.
pub open spec fn announces_message_to(event: AgentRunEventView, self_run_id: Seq<char>) -> bool {
    &&& announces_message(event)
    &&& event.run_id == self_run_id
    &&& event.ref_id is Some
}

/// The ids of the messages to the run `self_run_id` that a batch announces.
pub open spec fn announced_ids(
    events: Seq<AgentRunEventView>,
    self_run_id: Seq<char>,
) -> Seq<Seq<char>> {
    events.filter(|e: AgentRunEventView| announces_message_to(e, self_run_id)).map_values(
        |e: AgentRunEventView| e.ref_id->0,
    )
}

/// Handles a batch of events: the cursor moves to the highest sequence and is
/// persisted, the announced messages wait for confirmation, and the messages
/// and lifecycle events, if there are any, are queued.
pub open spec fn deliver(
    state: StreamerState,
    history: HistoryView,
    id: AIConversationId,
    self_run_id: Seq<char>,
    previous_cursor: i64,
    events: Seq<AgentRunEventView>,
    messages: Seq<ReceivedMessageView>,
    lifecycle: Seq<AgentEventView>,
) -> Step {
    let sequence = highest_sequence(events, previous_cursor);
    let announced = announced_ids(events, self_run_id);
    Step {
        state: StreamerState {
            cursors: state.cursors.insert(id, sequence),
            pending: if announced.len() > 0 {
                state.pending.insert(id, state.pending_of(id) + announced)
            } else {
                state.pending
            },
            ..state
        },
        effects: seq![StreamerEffectView::UpdateEventSequence { conversation_id: id, sequence }]
            + match run_id_of(history, id) {
            Some(run_id) => seq![
                StreamerEffectView::UpdateEventSequenceOnServer {
                    conversation_id: id,
                    run_id,
                    sequence,
                },
            ],
            None => Seq::empty(),
        } + if messages.len() > 0 || lifecycle.len() > 0 {
            seq![
                StreamerEffectView::EnqueueEventBatch {
                    conversation_id: id,
                    events: pending_entries(messages, lifecycle),
                },
            ]
        } else {
            Seq::empty()
        },
    }
}

/// Handles the items that came through a conversation's channel. Those at or
/// below its cursor are dropped; if none is left, nothing happens.
pub open spec fn absorb(
    state: StreamerState,
    history: HistoryView,
    id: AIConversationId,
    drawn: Drawn,
) -> Step {
    let fresh = fresh_items(drawn.items, state.cursor_of(id));
    if fresh.len() == 0 {
        Step::none(state)
    } else {
        deliver(
            state,
            history,
            id,
            run_id_or_blank(history, id),
            state.cursor_of(id),
            item_events(fresh),
            item_messages(fresh),
            drawn.lifecycle,
        )
    }
}

/// Handling items opens no stream.
pub proof fn lemma_handling_opens_nothing(
    state: StreamerState,
    history: HistoryView,
    id: AIConversationId,
    drawn: Drawn,
)
    ensures
        forall|i: int|
            0 <= i < absorb(state, history, id, drawn).effects.len() ==> !(
            #[trigger] absorb(state, history, id, drawn).effects[i] is OpenStream),
{
    let asked = absorb(state, history, id, drawn).effects;
    assert(asked.len() <= 3);
    assert(asked.len() > 0 ==> asked[0] is UpdateEventSequence);
    assert(asked.len() > 1 ==> asked[1] is UpdateEventSequenceOnServer || asked[1] is
        EnqueueEventBatch);
    assert(asked.len() > 2 ==> asked[2] is EnqueueEventBatch);
    assert forall|i: int| 0 <= i < asked.len() implies !(#[trigger] asked[i] is OpenStream) by {
        assert(i == 0 || i == 1 || i == 2);
    }
}

/// Whether `drawn` can be what comes from outside when the channel of a
/// conversation is drained: nothing where it holds no stream; otherwise any
/// items, with the lifecycle events that the fresh ones report.
pub open spec fn drawn_from(
    state: StreamerState,
    history: HistoryView,
    id: AIConversationId,
    drawn: Drawn,
) -> bool {
    &&& !state.connected(id) ==> drawn.items.len() == 0
    &&& converts(
        item_events(fresh_items(drawn.items, state.cursor_of(id))),
        run_id_or_blank(history, id),
        drawn.lifecycle,
    )
}

/// What is asked for when a conversation's stream is opened.
pub open spec fn opening(
    state: StreamerState,
    history: HistoryView,
    id: AIConversationId,
) -> Seq<StreamerEffectView> {
    seq![
        StreamerEffectView::OpenStream {
            conversation_id: id,
            generation: state.next_generation,
            run_ids: state.watched_by(id),
            cursor: state.cursor_of(id),
            self_run_id: run_id_or_blank(history, id),
        },
        StreamerEffectView::StartDrainTimer {
            conversation_id: id,
            generation: state.next_generation,
            delay_ms: SSE_DRAIN_INTERVAL_MS,
        },
    ]
}

/// Opens a stream for a conversation, under a new generation; without a run to
/// follow none is opened.
pub open spec fn open(state: StreamerState, history: HistoryView, id: AIConversationId) -> Step {
    if state.watched_by(id) == Set::<Seq<char>>::empty() {
        Step::none(state)
    } else {
        Step {
            state: StreamerState {
                connections: state.connections.insert(id, state.next_generation),
                next_generation: state.next_generation + 1,
                ..state
            },
            effects: opening(state, history, id),
        }
    }
}

/// Closes the stream of a conversation, if it holds one.
pub open spec fn close(state: StreamerState, id: AIConversationId) -> StreamerState {
    StreamerState { connections: state.connections.remove(id), ..state }
}

/// Closes the stream of a conversation once what had come through it is
/// handled.
pub open spec fn teardown(
    state: StreamerState,
    history: HistoryView,
    id: AIConversationId,
    drawn: Drawn,
) -> Step {
    let handled = absorb(state, history, id, drawn);
    Step { state: close(handled.state, id), effects: handled.effects }
}

/// Brings the stream of a conversation in line with its eligibility. What had
/// come through a stream that it held is handled, and that stream is closed.
/// If the conversation is eligible, a new one is opened on the runs that are
/// watched now, from the cursor on.
pub open spec fn settle(
    state: StreamerState,
    history: HistoryView,
    id: AIConversationId,
    drawn: Drawn,
) -> Step {
    let closed = teardown(state, history, id, drawn);
    if eligible(state, history, id) {
        open(closed.state, history, id).after(closed.effects)
    } else {
        closed
    }
}

/// Brings the streams of several conversations in line, one after the other.
pub open spec fn settle_each(
    state: StreamerState,
    history: HistoryView,
    ids: Seq<AIConversationId>,
    drawn: Seq<Drawn>,
) -> Step
    decreases ids.len(),
{
    if ids.len() == 0 {
        Step::none(state)
    } else {
        let before = settle_each(state, history, ids.drop_last(), drawn.drop_last());
        settle(before.state, history, ids.last(), drawn.last()).after(before.effects)
    }
}

/// Whether `drawn` can be what comes from outside meanwhile.
pub open spec fn drawn_from_each(
    state: StreamerState,
    history: HistoryView,
    ids: Seq<AIConversationId>,
    drawn: Seq<Drawn>,
) -> bool
    decreases ids.len(),
{
    &&& drawn.len() == ids.len()
    &&& ids.len() > 0 ==> {
        let before = settle_each(state, history, ids.drop_last(), drawn.drop_last());
        &&& drawn_from_each(state, history, ids.drop_last(), drawn.drop_last())
        &&& drawn_from(before.state, history, ids.last(), drawn.last())
    }
}

// ---- Calls -------------------------------------------------------------

/// A consumer registers for a conversation.
pub open spec fn with_consumer(
    state: StreamerState,
    id: AIConversationId,
    consumer: EntityId,
) -> StreamerState {
    StreamerState {
        consumers: state.consumers.insert(id, state.consumers_of(id).insert(consumer)),
        ..state
    }
}

/// A consumer of a conversation leaves.
pub open spec fn without_consumer(
    state: StreamerState,
    id: AIConversationId,
    consumer: EntityId,
) -> StreamerState {
    let rest = state.consumers_of(id).remove(consumer);
    StreamerState {
        consumers: if rest == Set::<EntityId>::empty() {
            state.consumers.remove(id)
        } else {
            state.consumers.insert(id, rest)
        },
        ..state
    }
}

/// The messages that an exchange has taken in and that wait for confirmation.
pub open spec fn confirmable(
    state: StreamerState,
    history: HistoryView,
    id: AIConversationId,
    exchange_id: AIAgentExchangeId,
) -> Seq<Seq<char>> {
    if history.contains_key(id) && history[id].exchanges.contains_key(exchange_id) {
        history[id].exchanges[exchange_id].filter(
            |message_id: Seq<char>| state.pending_of(id).contains(message_id),
        )
    } else {
        Seq::empty()
    }
}

/// An exchange has been streamed: messages that it has taken in no longer wait
/// for confirmation, and the server is told.
pub open spec fn confirm(
    state: StreamerState,
    history: HistoryView,
    id: AIConversationId,
    exchange_id: AIAgentExchangeId,
) -> Step {
    let confirmed = confirmable(state, history, id, exchange_id);
    let rest = state.pending_of(id).filter(
        |message_id: Seq<char>| !confirmed.contains(message_id),
    );
    if confirmed.len() == 0 {
        Step::none(state)
    } else {
        Step {
            state: StreamerState {
                pending: if rest.len() == 0 {
                    state.pending.remove(id)
                } else {
                    state.pending.insert(id, rest)
                },
                ..state
            },
            effects: seq![StreamerEffectView::MarkMessagesDelivered { message_ids: confirmed }],
        }
    }
}

/// Everything about a conversation is forgotten.
pub open spec fn forget(state: StreamerState, id: AIConversationId) -> StreamerState {
    StreamerState {
        watched: state.watched.remove(id),
        cursors: state.cursors.remove(id),
        pending: state.pending.remove(id),
        consumers: state.consumers.remove(id),
        connections: state.connections.remove(id),
        failures: state.failures.remove(id),
        ..state
    }
}

/// Whether a conversation watches a run.
pub open spec fn watches(state: StreamerState, id: AIConversationId, run_id: Seq<char>) -> bool {
    state.watched_by(id).contains(run_id)
}

/// A run is no longer watched by anybody. A conversation that is left without
/// any run to watch is not listed any more.
pub open spec fn unwatch(state: StreamerState, run_id: Seq<char>) -> StreamerState {
    StreamerState {
        watched: Map::new(
            |id: AIConversationId|
                {
                    &&& state.watched.contains_key(id)
                    &&& watches(state, id, run_id) ==> state.watched[id].remove(run_id) != Set::<
                        Seq<char>,
                    >::empty()
                },
            |id: AIConversationId| state.watched[id].remove(run_id),
        ),
        ..state
    }
}

/// What is left when a conversation goes, before the streams of those that
/// watched its run are brought in line.
pub open spec fn remove(
    state: StreamerState,
    history: HistoryView,
    id: AIConversationId,
) -> StreamerState {
    match run_id_of(history, id) {
        Some(run_id) => unwatch(forget(state, id), run_id),
        None => forget(state, id),
    }
}

/// Whether `ids` lists the conversations that watched the run of a
/// conversation that goes, each once, in any order.
pub open spec fn lists_watchers(
    state: StreamerState,
    history: HistoryView,
    id: AIConversationId,
    ids: Seq<AIConversationId>,
) -> bool {
    &&& ids.no_duplicates()
    &&& forall|other: AIConversationId| #[trigger]
        ids.contains(other) <==> {
            &&& run_id_of(history, id) is Some
            &&& watches(forget(state, id), other, run_id_of(history, id)->0)
        }
}

/// The event sequence that `effects` persist last for a conversation, or
/// `otherwise` if they persist none.
pub open spec fn persisted_by(
    effects: Seq<StreamerEffectView>,
    id: AIConversationId,
    otherwise: i64,
) -> i64
    decreases effects.len(),
{
    if effects.len() == 0 {
        otherwise
    } else {
        let before = persisted_by(effects.drop_last(), id, otherwise);
        match effects.last() {
            StreamerEffectView::UpdateEventSequence { conversation_id, sequence } => if
                conversation_id == id {
                sequence
            } else {
                before
            },
            _ => before,
        }
    }
}

/// The cursor that is persisted for a conversation once `effects` have been
/// performed.
pub open spec fn persisted_cursor(
    effects: Seq<StreamerEffectView>,
    history: HistoryView,
    id: AIConversationId,
) -> i64 {
    persisted_by(
        effects,
        id,
        match history[id].last_event_sequence {
            Some(sequence) => sequence,
            None => 0,
        },
    )
}

/// A conversation is back from disk: its cursor and its own run are known
/// again.
pub open spec fn recall(
    state: StreamerState,
    history: HistoryView,
    id: AIConversationId,
    cursor: i64,
) -> StreamerState {
    let known = StreamerState { cursors: state.cursors.insert(id, cursor), ..state };
    match history[id].run_id {
        Some(run_id) => watch(known, id, run_id),
        None => known,
    }
}

/// Whether the task of a conversation that is back from disk is to be fetched.
pub open spec fn names_task(history: HistoryView, id: AIConversationId) -> bool {
    history[id].run_id is Some && history[id].task_id is Some
}

/// Whether the stream of a conversation that is back from disk is brought in
/// line without waiting for its task.
pub open spec fn settles_at_once(history: HistoryView, id: AIConversationId) -> bool {
    history.contains_key(id) && !is_passive(history, id) && !names_task(history, id)
}

/// A conversation is back from disk. If its run is a task of the server, that
/// is fetched, for its children and its cursor; otherwise the stream is
/// brought in line at once. A passive view is left alone.
pub open spec fn restore(
    state: StreamerState,
    history: HistoryView,
    id: AIConversationId,
    cursor: i64,
    drawn: Drawn,
) -> Step {
    if !history.contains_key(id) || is_passive(history, id) {
        Step::none(state)
    } else if names_task(history, id) {
        Step {
            state: recall(state, history, id, cursor),
            effects: seq![
                StreamerEffectView::FetchTask {
                    conversation_id: id,
                    task_id: history[id].task_id->0,
                    sqlite_cursor: cursor,
                },
            ],
        }
    } else {
        settle(recall(state, history, id, cursor), history, id, drawn)
    }
}

/// Several conversations are back from disk, one after the other. One that is
/// listed again resumes from the cursor that was persisted meanwhile.
pub open spec fn restore_each(
    state: StreamerState,
    history: HistoryView,
    ids: Seq<AIConversationId>,
    drawn: Seq<Drawn>,
) -> Step
    decreases ids.len(),
{
    if ids.len() == 0 {
        Step::none(state)
    } else {
        let before = restore_each(state, history, ids.drop_last(), drawn.drop_last());
        restore(
            before.state,
            history,
            ids.last(),
            persisted_cursor(before.effects, history, ids.last()),
            drawn.last(),
        ).after(before.effects)
    }
}

/// Whether `drawn` can be what comes from outside meanwhile.
pub open spec fn drawn_on_restore(
    state: StreamerState,
    history: HistoryView,
    ids: Seq<AIConversationId>,
    drawn: Seq<Drawn>,
) -> bool
    decreases ids.len(),
{
    &&& drawn.len() == ids.len()
    &&& ids.len() > 0 ==> {
        let before = restore_each(state, history, ids.drop_last(), drawn.drop_last());
        &&& drawn_on_restore(state, history, ids.drop_last(), drawn.drop_last())
        &&& history.contains_key(ids.last()) ==> drawn_from(
            recall(
                before.state,
                history,
                ids.last(),
                persisted_cursor(before.effects, history, ids.last()),
            ),
            history,
            ids.last(),
            drawn.last(),
        )
    }
}

/// The larger of two cursors.
pub open spec fn later(a: i64, b: i64) -> i64 {
    if a >= b {
        a
    } else {
        b
    }
}

/// The server's cursor for the run of a task.
pub open spec fn server_cursor(task: AmbientAgentTaskView) -> i64 {
    match task.last_event_sequence {
        Some(sequence) => sequence,
        None => 0,
    }
}

/// What is known of a conversation once its task has been fetched: the latest
/// of the cursor it has reached meanwhile, the one that was persisted and the
/// server's, and the runs of its children.
pub open spec fn merge_task(
    state: StreamerState,
    id: AIConversationId,
    sqlite_cursor: i64,
    task: AmbientAgentTaskView,
) -> StreamerState {
    StreamerState {
        cursors: state.cursors.insert(
            id,
            later(state.cursor_of(id), later(sqlite_cursor, server_cursor(task))),
        ),
        watched: state.watched.insert(id, state.watched_by(id).union(task.children)),
        failures: state.failures.remove(id),
        ..state
    }
}

/// The wait, in seconds, after so many failed fetches in a row.
pub open spec fn backoff_secs(failures: nat) -> u64 {
    if failures <= 1 {
        1
    } else if failures == 2 {
        2
    } else if failures == 3 {
        5
    } else {
        10
    }
}

/// A fetch has failed: it is tried again after a while.
pub open spec fn restore_failed(
    state: StreamerState,
    id: AIConversationId,
    task_id: AmbientAgentTaskId,
    sqlite_cursor: i64,
) -> Step {
    let failures = state.failures_of(id) + 1;
    Step {
        state: StreamerState { failures: state.failures.insert(id, failures), ..state },
        effects: seq![
            StreamerEffectView::StartRestoreFetchRetryTimer {
                conversation_id: id,
                task_id,
                sqlite_cursor,
                delay_secs: backoff_secs(failures),
            },
        ],
    }
}

/// The wait after a failed fetch is over. The fetch is tried again unless the
/// conversation has gone meanwhile.
pub open spec fn retry_restore(
    state: StreamerState,
    id: AIConversationId,
    task_id: AmbientAgentTaskId,
    sqlite_cursor: i64,
) -> Step {
    if state.cursors.contains_key(id) {
        Step {
            state,
            effects: seq![
                StreamerEffectView::FetchTask { conversation_id: id, task_id, sqlite_cursor },
            ],
        }
    } else {
        Step::none(StreamerState { failures: state.failures.remove(id), ..state })
    }
}

/// The reading of a stream has ended. What had come through it is handled, and
/// if it ended in failure the stream is brought in line again. A stream that
/// has been replaced is of no concern.
pub open spec fn driver_exited(
    state: StreamerState,
    history: HistoryView,
    id: AIConversationId,
    generation: nat,
    failed: bool,
    drawn: Drawn,
    drawn_again: Drawn,
) -> Step {
    if !state.is_current(id, generation) {
        Step::none(state)
    } else {
        let handled = absorb(state, history, id, drawn);
        if failed {
            settle(handled.state, history, id, drawn_again).after(handled.effects)
        } else {
            handled
        }
    }
}

/// It is time to drain a channel. What has come through it is handled, and the
/// timer starts again. A stream that has been replaced is of no concern.
pub open spec fn drain_timer(
    state: StreamerState,
    history: HistoryView,
    id: AIConversationId,
    generation: nat,
    drawn: Drawn,
) -> Step {
    if !state.is_current(id, generation) {
        Step::none(state)
    } else {
        let handled = absorb(state, history, id, drawn);
        Step {
            state: handled.state,
            effects: handled.effects.push(
                StreamerEffectView::StartDrainTimer {
                    conversation_id: id,
                    generation,
                    delay_ms: SSE_DRAIN_INTERVAL_MS,
                },
            ),
        }
    }
}

/// How many streams a change of the history may have opened at most.
pub open spec fn streams_at_most(
    event: BlocklistAIHistoryEvent,
    orchestration_v2: bool,
    state: StreamerState,
) -> nat {
    match event {
        BlocklistAIHistoryEvent::ConversationServerTokenAssigned { .. } => 1,
        BlocklistAIHistoryEvent::RemoveConversation { .. } => state.watched.dom().len(),
        BlocklistAIHistoryEvent::DeletedConversation { .. } => state.watched.dom().len(),
        BlocklistAIHistoryEvent::RestoredConversations { conversation_ids } => if orchestration_v2 {
            conversation_ids@.len()
        } else {
            0
        },
        _ => 0,
    }
}

} // verus!
