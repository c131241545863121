//! The streamer: which conversations hold a server stream, and what becomes of
//! the events that come through.

use crate::channel::{
    drained_from, found_empty, items_view, open_channel, paired, received, sent, take_items,
    SseStreamItem, SseStreamItemView,
};
use crate::effects::{effects_view, StreamerEffect, StreamerEffectView};
use crate::events::{
    agent_events_view, build_pending_events, convert_lifecycle_events, converts, events_view,
    messages_view, AgentEvent, AgentEventView, AgentRunEvent, AgentRunEventView,
    ReceivedMessageInput,
};
use crate::history::{
    all_ids, has_child_role, is_passive, output_ids, run_id_of, run_id_or_blank, AIAgentExchange,
    AIAgentExchangeId, AIAgentOutputMessageType, AIConversationId, AmbientAgentTask,
    AmbientAgentTaskId, AmbientAgentTaskView, BlocklistAIHistoryEvent, BlocklistAIHistoryModel,
    HistoryView,
};
use crate::model::{
    absorb, announced_ids, announces_message_to, backoff_secs, close, confirm, confirmable,
    deliver, drain_timer, drawn_from, drawn_from_each, drawn_on_restore, driver_exited, eligible,
    forget, fresh_items, highest_sequence, item_events, item_messages,
    lemma_handling_opens_nothing, lists_watchers, merge_task, misses_own_run, open, persisted_by,
    persisted_cursor, recall, remove, restore, restore_each, restore_failed, retry_restore, settle,
    settle_each, settles_at_once, streams_at_most, teardown, unwatch, watch, watch_self, watches,
    watches_child, with_consumer, without_consumer, Drawn, EntityId, Step, StreamerState,
    SSE_DRAIN_INTERVAL_MS,
};
use crate::promises::{
    has_child, has_parent, law_eligibility, law_records_are_read, lives_elsewhere, ought_to_stream,
    own_run,
};
use crate::run_ids::RunIdSet;
use crate::text::{
    copy_opt, is_among, lemma_filter_none, lemma_filter_step, lemma_push, opt_text, reads, texts,
};
use futures::channel::mpsc::{UnboundedReceiver, UnboundedSender};
use std::collections::{HashMap, HashSet};
use vstd::prelude::*;
use vstd::std_specs::iter::IteratorSpec;

verus! {

/// Signals of the streamer to its observers. None are defined yet: the one
/// variant cannot be built.
pub enum OrchestrationEventStreamerEvent {
    Reserved(core::convert::Infallible),
}

/// A task could not be fetched.
#[derive(Clone, Copy, Debug, PartialEq, Eq, Structural)]
pub struct RestoreFetchFailed;

/// The messages of a conversation that wait for the server to be told of their
/// delivery.
struct PendingDeliveryConfirmation {
    message_ids: Vec<String>,
}

/// A stream that a conversation holds.
struct SseConnectionState {
    /// Where the events of the stream come in.
    event_receiver: UnboundedReceiver<SseStreamItem>,
    /// Tells the stream from those that it replaced.
    generation: u64,
}

/// Coordinates the delivery of agent events over server streams.
///
/// A conversation holds a long-lived stream while it is eligible, that is,
/// while it has an active consumer and a role in a tree of agents, and is not
/// a passive view of a run hosted elsewhere. A child has its own run watched
/// as soon as that run has an id, but no stream is opened until something in
/// this process consumes the events. What a consumer misses until it
/// registers is made up for by way of the cursor.
pub struct OrchestrationEventStreamer {
    /// The runs watched on behalf of each conversation: for a child its own
    /// run, which is its inbox; for a parent the runs of its children; for a
    /// conversation in both roles both.
    watched_run_ids: HashMap<AIConversationId, RunIdSet>,
    /// The sequence of the last event that was fully handled.
    event_cursor: HashMap<AIConversationId, i64>,
    /// The messages that wait for confirmation, until their recipient streams
    /// an exchange that took them in.
    pending_delivery: HashMap<AIConversationId, PendingDeliveryConfirmation>,
    /// The registered consumers.
    consumers: HashMap<AIConversationId, HashSet<EntityId>>,
    /// The streams that are held.
    sse_connections: HashMap<AIConversationId, SseConnectionState>,
    /// The generation of the next stream.
    next_sse_generation: u64,
    /// How many fetches in a row have failed since a conversation was
    /// restored.
    restore_fetch_failures: HashMap<AIConversationId, usize>,
}

impl View for OrchestrationEventStreamer {
    type V = StreamerState;

    closed spec fn view(&self) -> StreamerState {
        StreamerState {
            watched: self.watched_run_ids@.map_values(|s: RunIdSet| s@),
            cursors: self.event_cursor@,
            pending: self.pending_delivery@.map_values(
                |p: PendingDeliveryConfirmation| texts(p.message_ids@),
            ),
            consumers: self.consumers@.map_values(|s: HashSet<EntityId>| s@),
            connections: self.sse_connections@.map_values(
                |c: SseConnectionState| c.generation as nat,
            ),
            next_generation: self.next_sse_generation as nat,
            failures: self.restore_fetch_failures@.map_values(|n: usize| n as nat),
        }
    }
}

// ---- What calls come to ------------------------------------------------

/// What a call came to: the state it left, and what its effects ask for.
pub open spec fn step_of(
    streamer: OrchestrationEventStreamer,
    effects: Vec<StreamerEffect>,
) -> Step {
    Step { state: streamer@, effects: effects_view(effects@) }
}

/// Whether `after` can come of bringing the stream of a conversation in line
/// from `state` on. Whatever the streamer `before` had waiting in the
/// conversation's channel is drawn from it.
pub open spec fn settles(
    before: OrchestrationEventStreamer,
    state: StreamerState,
    history: HistoryView,
    id: AIConversationId,
    after: Step,
) -> bool {
    exists|drawn: Drawn|
        {
            &&& #[trigger] drawn_from(state, history, id, drawn)
            &&& before.gives(id, drawn.items)
            &&& after == settle(state, history, id, drawn)
        }
}

/// A consumer has registered for a conversation. If that has a role in a tree
/// of agents, it watches its own run from now on; its stream is brought in
/// line.
pub open spec fn consumer_registered(
    before: OrchestrationEventStreamer,
    history: HistoryView,
    id: AIConversationId,
    consumer: EntityId,
    after: Step,
) -> bool {
    settles(
        before,
        watch_self(with_consumer(before@, id, consumer), history, id),
        history,
        id,
        after,
    )
}

/// A consumer of a conversation has left. The stream of the conversation is
/// brought in line.
pub open spec fn consumer_unregistered(
    before: OrchestrationEventStreamer,
    history: HistoryView,
    id: AIConversationId,
    consumer: EntityId,
    after: Step,
) -> bool {
    settles(before, without_consumer(before@, id, consumer), history, id, after)
}

/// A run is to be watched on behalf of a conversation. The first child makes
/// the conversation a parent, which watches its own run too. Only what is new
/// renews the stream.
pub open spec fn watched_run_registered(
    before: OrchestrationEventStreamer,
    history: HistoryView,
    id: AIConversationId,
    run_id: Seq<char>,
    after: Step,
) -> bool {
    let watching = watch(before@, id, run_id);
    if !watches(before@, id, run_id) || misses_own_run(watching, history, id) {
        settles(before, watch_self(watching, history, id), history, id, after)
    } else {
        after == Step::none(before@)
    }
}

/// The server has assigned a run to a conversation. If the conversation has a
/// role in a tree of agents, it watches that run from now on.
pub open spec fn server_token_assigned(
    before: OrchestrationEventStreamer,
    history: HistoryView,
    id: AIConversationId,
    after: Step,
) -> bool {
    if misses_own_run(before@, history, id) {
        settles(before, watch_self(before@, history, id), history, id, after)
    } else {
        after == Step::none(before@)
    }
}

/// A conversation has gone: everything about it is forgotten, its run is no
/// longer watched, and the streams of those that watched it are brought in
/// line, in any order.
pub open spec fn conversation_removed(
    before: OrchestrationEventStreamer,
    history: HistoryView,
    id: AIConversationId,
    after: Step,
) -> bool {
    exists|ids: Seq<AIConversationId>, drawn: Seq<Drawn>|
        {
            &&& lists_watchers(before@, history, id, ids)
            &&& #[trigger] drawn_from_each(remove(before@, history, id), history, ids, drawn)
            &&& forall|i: int|
                0 <= i < ids.len() ==> before.gives(#[trigger] ids[i], drawn[i].items)
            &&& after == settle_each(remove(before@, history, id), history, ids, drawn)
        }
}

/// Whether `stages` are the streamer as it stood before each conversation of
/// `ids` was restored: each came of the one before, and whatever it had waiting
/// in the conversation's channel is drawn from it.
pub open spec fn restored_through(
    before: OrchestrationEventStreamer,
    history: HistoryView,
    ids: Seq<AIConversationId>,
    drawn: Seq<Drawn>,
    stages: Seq<OrchestrationEventStreamer>,
) -> bool {
    &&& stages.len() == ids.len()
    &&& stages.len() > 0 ==> stages[0] == before
    &&& forall|i: int| #![trigger stages[i]]
        0 <= i < ids.len() ==> {
            &&& stages[i]@ == restore_each(before@, history, ids.take(i), drawn.take(i)).state
            &&& settles_at_once(history, ids[i]) ==> stages[i].gives(ids[i], drawn[i].items)
        }
    &&& forall|i: int| #![trigger ids[i]]
        0 <= i && i + 1 < ids.len() ==> {
            &&& stages[i + 1].touches_only(stages[i], ids[i])
            &&& stages[i + 1].keeps_channels(stages[i])
        }
}

/// Conversations are back from disk. Restoring belongs to the second version
/// of orchestration; without it nothing happens.
pub open spec fn conversations_restored(
    before: OrchestrationEventStreamer,
    history: HistoryView,
    orchestration_v2: bool,
    ids: Seq<AIConversationId>,
    after: Step,
) -> bool {
    if orchestration_v2 {
        exists|drawn: Seq<Drawn>, stages: Seq<OrchestrationEventStreamer>|
            {
                &&& drawn_on_restore(before@, history, ids, drawn)
                &&& #[trigger] restored_through(before, history, ids, drawn, stages)
                &&& after == restore_each(before@, history, ids, drawn)
            }
    } else {
        after == Step::none(before@)
    }
}

/// A fetch has brought a task. If the conversation has gone meanwhile, the
/// task is dropped.
pub open spec fn task_fetched(
    before: OrchestrationEventStreamer,
    history: HistoryView,
    id: AIConversationId,
    sqlite_cursor: i64,
    task: AmbientAgentTaskView,
    after: Step,
) -> bool {
    if before@.cursors.contains_key(id) {
        settles(before, merge_task(before@, id, sqlite_cursor, task), history, id, after)
    } else {
        after == Step::none(StreamerState { failures: before@.failures.remove(id), ..before@ })
    }
}

/// A fetch has ended: with a task, or in failure.
pub open spec fn fetch_finished(
    before: OrchestrationEventStreamer,
    history: HistoryView,
    id: AIConversationId,
    task_id: AmbientAgentTaskId,
    sqlite_cursor: i64,
    run_result: Result<AmbientAgentTask, RestoreFetchFailed>,
    after: Step,
) -> bool {
    match run_result {
        Ok(task) => task_fetched(before, history, id, sqlite_cursor, task@, after),
        Err(_) => after == restore_failed(before@, id, task_id, sqlite_cursor),
    }
}

/// A consumer has registered through the second version of orchestration, or
/// not at all.
pub open spec fn consumer_registered_if_enabled(
    before: OrchestrationEventStreamer,
    history: HistoryView,
    orchestration_v2: bool,
    id: AIConversationId,
    consumer: EntityId,
    after: Step,
) -> bool {
    if orchestration_v2 {
        consumer_registered(before, history, id, consumer, after)
    } else {
        after == Step::none(before@)
    }
}

/// A consumer has left through the second version of orchestration, or not at
/// all.
pub open spec fn consumer_unregistered_if_enabled(
    before: OrchestrationEventStreamer,
    history: HistoryView,
    orchestration_v2: bool,
    id: AIConversationId,
    consumer: EntityId,
    after: Step,
) -> bool {
    if orchestration_v2 {
        consumer_unregistered(before, history, id, consumer, after)
    } else {
        after == Step::none(before@)
    }
}

/// Whether `items` are what has come in at the stream of a conversation
/// between `before` and `after`.
pub open spec fn took_in(
    before: OrchestrationEventStreamer,
    after: OrchestrationEventStreamer,
    id: AIConversationId,
    items: Seq<SseStreamItemView>,
) -> bool {
    let first = before.received_by(id);
    let all = after.received_by(id);
    &&& all.len() >= first.len()
    &&& all.take(first.len() as int) == first
    &&& items == items_view(all.skip(first.len() as int))
}

/// The reading of a stream has ended. Whatever the streamer `before` had
/// waiting in the channel is drawn from it, and after a failure, when the
/// stream is replaced, whatever has come in since. If the stream had been
/// closed or replaced before, no channel is touched.
pub open spec fn driver_finished(
    before: OrchestrationEventStreamer,
    history: HistoryView,
    id: AIConversationId,
    generation: nat,
    failed: bool,
    after: OrchestrationEventStreamer,
    effects: Seq<StreamerEffectView>,
) -> bool {
    &&& after.touches_only(before, id)
    &&& !before@.is_current(id, generation) ==> after.same_channels(before)
    &&& failed ==> after.keeps_channels(before)
    &&& !failed ==> after.feeds_as(before, id)
    &&& exists|drawn: Drawn, drawn_again: Drawn|
        {
            &&& #[trigger] drawn_from(before@, history, id, drawn)
            &&& #[trigger] drawn_from(
                absorb(before@, history, id, drawn).state,
                history,
                id,
                drawn_again,
            )
            &&& before@.is_current(id, generation) ==> {
                &&& before.gives(id, drawn.items)
                &&& failed ==> before.gives(id, drawn.items + drawn_again.items)
                &&& !failed ==> took_in(before, after, id, drawn.items)
            }
            &&& (Step { state: after@, effects }) == driver_exited(
                before@,
                history,
                id,
                generation,
                failed,
                drawn,
                drawn_again,
            )
        }
}

/// It is time to drain a channel. Whatever the streamer `before` had waiting in
/// it is drawn from it, and nothing more. If the stream had been closed or
/// replaced before, no channel is touched.
pub open spec fn drain_due(
    before: OrchestrationEventStreamer,
    history: HistoryView,
    id: AIConversationId,
    generation: nat,
    after: OrchestrationEventStreamer,
    effects: Seq<StreamerEffectView>,
) -> bool {
    &&& after.touches_only(before, id)
    &&& after.feeds_as(before, id)
    &&& !before@.is_current(id, generation) ==> after.same_channels(before)
    &&& exists|drawn: Drawn|
        {
            &&& #[trigger] drawn_from(before@, history, id, drawn)
            &&& before@.is_current(id, generation) ==> {
                &&& before.gives(id, drawn.items)
                &&& took_in(before, after, id, drawn.items)
            }
            &&& (Step { state: after@, effects }) == drain_timer(
                before@,
                history,
                id,
                generation,
                drawn,
            )
        }
}

/// Whether `after` can come of a change of the history.
pub open spec fn history_changed(
    before: OrchestrationEventStreamer,
    history: HistoryView,
    orchestration_v2: bool,
    event: BlocklistAIHistoryEvent,
    after: Step,
) -> bool {
    match event {
        BlocklistAIHistoryEvent::ConversationServerTokenAssigned { conversation_id } =>
            server_token_assigned(before, history, conversation_id, after),
        BlocklistAIHistoryEvent::UpdatedStreamingExchange { conversation_id, exchange_id } => after
            == confirm(before@, history, conversation_id, exchange_id),
        BlocklistAIHistoryEvent::RemoveConversation { conversation_id } => conversation_removed(
            before,
            history,
            conversation_id,
            after,
        ),
        BlocklistAIHistoryEvent::DeletedConversation { conversation_id } => conversation_removed(
            before,
            history,
            conversation_id,
            after,
        ),
        BlocklistAIHistoryEvent::RestoredConversations { conversation_ids } =>
            conversations_restored(
            before,
            history,
            orchestration_v2,
            conversation_ids@,
            after,
        ),
        _ => after == Step::none(before@),
    }
}

impl OrchestrationEventStreamer {
    /// The sets of watched runs are in order.
    pub closed spec fn sets_wf(&self) -> bool {
        forall|id: AIConversationId| #[trigger]
            self.watched_run_ids@.contains_key(id) ==> self.watched_run_ids@[id].wf()
    }

    /// The streamer is well-formed, and its state is what states are between
    /// calls.
    pub open spec fn wf(&self) -> bool {
        self.sets_wf() && self.wf_except(Set::empty())
    }

    /// The same, except that streams of the conversations in `loose` may have
    /// lost their consumer or their runs.
    pub open spec fn wf_except(&self, loose: Set<AIConversationId>) -> bool {
        self.sets_wf() && self@.inv_except(loose)
    }

    /// What is put into `sender` comes in at the stream that a conversation
    /// holds.
    pub closed spec fn feeds(
        &self,
        id: AIConversationId,
        sender: UnboundedSender<SseStreamItem>,
    ) -> bool {
        &&& self.sse_connections@.contains_key(id)
        &&& paired(sender, self.sse_connections@[id].event_receiver)
    }

    /// The items that have come in so far at the stream that a conversation
    /// holds.
    pub closed spec fn received_by(&self, id: AIConversationId) -> Seq<SseStreamItem> {
        received(self.sse_connections@[id].event_receiver)
    }

    /// The stream that a conversation holds had nothing more to give when it
    /// was last asked.
    pub closed spec fn ran_dry(&self, id: AIConversationId) -> bool {
        found_empty(self.sse_connections@[id].event_receiver)
    }

    /// Whether `items` are what the stream that a conversation holds gives when
    /// everything that waits in its channel is taken; without a stream it gives
    /// nothing.
    pub closed spec fn gives(&self, id: AIConversationId, items: Seq<SseStreamItemView>) -> bool {
        if self.sse_connections@.contains_key(id) {
            exists|taken: Seq<SseStreamItem>| #[trigger]
                drained_from(self.sse_connections@[id].event_receiver, taken) && items
                    == items_view(taken)
        } else {
            items.len() == 0
        }
    }

    /// The effects list each run of a stream once, and hand out the sending
    /// end of a new channel with it: the one that feeds the stream, as long as
    /// that is not replaced.
    pub open spec fn hands_out(&self, effects: Seq<StreamerEffect>) -> bool {
        forall|i: int| #![trigger effects[i]]
            0 <= i < effects.len() ==> (effects[i] matches StreamerEffect::OpenStream {
                conversation_id,
                generation,
                run_ids,
                sender,
                ..
            } ==> {
                &&& texts(run_ids@).no_duplicates()
                &&& sent(sender) == Seq::<SseStreamItem>::empty()
                &&& generation < self@.next_generation
                &&& self@.is_current(conversation_id, generation as nat) ==> self.feeds(
                    conversation_id,
                    sender,
                )
            })
    }

    /// The streams held now are those held before, or newer ones, through
    /// which nothing has come in yet.
    pub closed spec fn keeps_channels(&self, before: OrchestrationEventStreamer) -> bool {
        &&& before.next_sse_generation <= self.next_sse_generation
        &&& forall|id: AIConversationId| #[trigger]
            self.sse_connections@.contains_key(id) ==> {
                ||| before.sse_connections@.contains_key(id) && before.sse_connections@[id]
                    == self.sse_connections@[id]
                ||| self.sse_connections@[id].generation >= before.next_sse_generation
                    && self.received_by(id) == Seq::<SseStreamItem>::empty()
            }
    }

    /// What is put into a sender comes in at the stream of a conversation
    /// exactly if it did before.
    pub open spec fn feeds_as(
        &self,
        before: OrchestrationEventStreamer,
        conversation_id: AIConversationId,
    ) -> bool {
        forall|sender: UnboundedSender<SseStreamItem>| #[trigger]
            self.feeds(conversation_id, sender) == before.feeds(conversation_id, sender)
    }

    /// The streams of other conversations are as before.
    pub closed spec fn touches_only(
        &self,
        before: OrchestrationEventStreamer,
        conversation_id: AIConversationId,
    ) -> bool {
        forall|other: AIConversationId|
            other != conversation_id ==> {
                &&& #[trigger] self.sse_connections@.contains_key(other)
                    == before.sse_connections@.contains_key(other)
                &&& before.sse_connections@.contains_key(other) ==> self.sse_connections@[other]
                    == before.sse_connections@[other]
            }
    }

    /// The streams are the same, with the same channels.
    pub closed spec fn same_channels(&self, before: OrchestrationEventStreamer) -> bool {
        self.sse_connections@ == before.sse_connections@ && self.next_sse_generation
            == before.next_sse_generation
    }

    /// Streams that are kept through two steps are kept through both.
    proof fn lemma_keeps_channels(
        first: OrchestrationEventStreamer,
        second: OrchestrationEventStreamer,
        third: OrchestrationEventStreamer,
    )
        requires
            second.keeps_channels(first),
            third.keeps_channels(second),
        ensures
            third.keeps_channels(first),
    {
    }

    /// What touches one stream only, after what touched none, touches that one
    /// only.
    proof fn lemma_touches_after_none(
        first: OrchestrationEventStreamer,
        second: OrchestrationEventStreamer,
        third: OrchestrationEventStreamer,
        id: AIConversationId,
    )
        requires
            second.same_channels(first),
            third.touches_only(second, id),
            third.keeps_channels(second),
        ensures
            third.touches_only(first, id),
            third.keeps_channels(first),
    {
    }

    /// Effects that were in order stay so.
    proof fn lemma_hands_out_still(
        before: OrchestrationEventStreamer,
        after: OrchestrationEventStreamer,
        effects: Seq<StreamerEffect>,
    )
        requires
            before.hands_out(effects),
            after.keeps_channels(before),
        ensures
            after.hands_out(effects),
    {
        assert forall|i: int| #![trigger effects[i]] 0 <= i < effects.len() implies (
        effects[i] matches StreamerEffect::OpenStream {
            conversation_id,
            generation,
            run_ids,
            sender,
            ..
        } ==> {
            &&& texts(run_ids@).no_duplicates()
            &&& sent(sender) == Seq::<SseStreamItem>::empty()
            &&& generation < after@.next_generation
            &&& after@.is_current(conversation_id, generation as nat) ==> after.feeds(
                conversation_id,
                sender,
            )
        }) by {
            if let StreamerEffect::OpenStream { conversation_id, generation, sender, .. } =
                effects[i] {
                if after@.is_current(conversation_id, generation as nat) {
                    assert(after.sse_connections@.contains_key(conversation_id));
                    assert(before@.is_current(conversation_id, generation as nat));
                }
            }
        }
    }

    /// What a stream gives at first, and what it gives after that, is what it
    /// gives when everything is taken at once.
    proof fn lemma_gives_in_two_parts(
        before: OrchestrationEventStreamer,
        between: OrchestrationEventStreamer,
        id: AIConversationId,
        first: Seq<SseStreamItemView>,
        second: Seq<SseStreamItemView>,
    )
        requires
            before.sse_connections@.contains_key(id),
            between.sse_connections@.contains_key(id),
            between.received_by(id).len() >= before.received_by(id).len(),
            between.received_by(id).take(before.received_by(id).len() as int)
                == before.received_by(id),
            first == items_view(between.received_by(id).skip(before.received_by(id).len() as int)),
            between.gives(id, second),
        ensures
            before.gives(id, first + second),
    {
        let start = before.sse_connections@[id].event_receiver;
        let half = between.sse_connections@[id].event_receiver;
        let taken = received(half).skip(received(start).len() as int);
        let more = choose|more: Seq<SseStreamItem>| #[trigger]
            drained_from(half, more) && second == items_view(more);
        let last = choose|last: UnboundedReceiver<SseStreamItem>|
            {
                &&& #[trigger] received(last) == received(half) + more
                &&& found_empty(last) || more.len() >= usize::MAX
            };
        assert(received(half) =~= received(start) + taken);
        assert(received(last) =~= received(start) + (taken + more));
        assert(drained_from(start, taken + more));
        assert(items_view(taken + more) =~= first + second);
    }

    /// Where a call changes nothing in the state and keeps the streams, it has
    /// taken nothing out of any channel.
    pub proof fn law_same_state_same_channels(
        before: OrchestrationEventStreamer,
        after: OrchestrationEventStreamer,
    )
        requires
            before@.inv(),
            after@ == before@,
            after.keeps_channels(before),
        ensures
            after.same_channels(before),
    {
        assert(after@.connections.dom() =~= after.sse_connections@.dom());
        assert(before@.connections.dom() =~= before.sse_connections@.dom());
        assert forall|id: AIConversationId| #[trigger]
            after.sse_connections@.contains_key(id) implies after.sse_connections@[id]
            == before.sse_connections@[id] by {
            assert(before@.connections.contains_key(id));
            assert(after@.connections[id] == after.sse_connections@[id].generation);
        }
        assert(after.sse_connections@ =~= before.sse_connections@);
    }

    /// What a stream gives is all that the receiving end of its channel hands
    /// out when it is asked until it has nothing more, or more than a vector
    /// holds. Without a stream there is nothing to give.
    pub proof fn law_stream_gives_all_that_waits(
        streamer: OrchestrationEventStreamer,
        id: AIConversationId,
        items: Seq<SseStreamItemView>,
    )
        requires
            streamer.gives(id, items),
        ensures
            !streamer@.connections.contains_key(id) ==> items.len() == 0,
            streamer@.connections.contains_key(id) ==> exists|
                taken: Seq<SseStreamItem>,
                last: UnboundedReceiver<SseStreamItem>,
            |
                {
                    &&& #[trigger] received(last) == streamer.received_by(id) + taken
                    &&& found_empty(last) || taken.len() >= usize::MAX
                    &&& items == #[trigger] items_view(taken)
                },
    {
        if streamer@.connections.contains_key(id) {
            let taken = choose|taken: Seq<SseStreamItem>| #[trigger]
                drained_from(streamer.sse_connections@[id].event_receiver, taken) && items
                    == items_view(taken);
            let last = choose|last: UnboundedReceiver<SseStreamItem>|
                {
                    &&& #[trigger] received(last) == streamer.received_by(id) + taken
                    &&& found_empty(last) || taken.len() >= usize::MAX
                };
            assert(received(last) == streamer.received_by(id) + taken);
            assert(items == items_view(taken));
        }
    }

    /// Streamers with the same channels have the same streams, which have
    /// received the same, give the same and are fed by the same senders.
    pub proof fn law_same_channels_are_the_same(
        before: OrchestrationEventStreamer,
        after: OrchestrationEventStreamer,
        id: AIConversationId,
        sender: UnboundedSender<SseStreamItem>,
        items: Seq<SseStreamItemView>,
    )
        requires
            after.same_channels(before),
        ensures
            after@.connections == before@.connections,
            after@.next_generation == before@.next_generation,
            after.received_by(id) == before.received_by(id),
            after.ran_dry(id) == before.ran_dry(id),
            after.gives(id, items) == before.gives(id, items),
            after.feeds(id, sender) == before.feeds(id, sender),
    {
    }

    /// A stream of a new generation has received nothing yet.
    pub proof fn law_new_streams_have_received_nothing(
        before: OrchestrationEventStreamer,
        after: OrchestrationEventStreamer,
        id: AIConversationId,
    )
        requires
            before@.inv(),
            after.keeps_channels(before),
            after@.connections.contains_key(id),
            after@.connections[id] >= before@.next_generation,
        ensures
            after.received_by(id) == Seq::<SseStreamItem>::empty(),
    {
        assert(after.sse_connections@.contains_key(id));
        if before.sse_connections@.contains_key(id) {
            assert(before@.connections.contains_key(id));
        }
    }

    /// A stream that is left alone keeps its senders and what it has received,
    /// and gives what it gave.
    pub proof fn law_other_streams_keep_their_senders(
        before: OrchestrationEventStreamer,
        after: OrchestrationEventStreamer,
        id: AIConversationId,
        other: AIConversationId,
        sender: UnboundedSender<SseStreamItem>,
        items: Seq<SseStreamItemView>,
    )
        requires
            after.touches_only(before, id),
            other != id,
        ensures
            after.feeds(other, sender) == before.feeds(other, sender),
            after.gives(other, items) == before.gives(other, items),
            before@.connected(other) ==> after.received_by(other) == before.received_by(other),
    {
        assert(after.sse_connections@.contains_key(other) == before.sse_connections@.contains_key(
            other,
        ));
    }

    /// A stream that is still held under its generation keeps its senders and
    /// what it has received, and gives what it gave.
    pub proof fn law_held_streams_keep_their_senders(
        before: OrchestrationEventStreamer,
        after: OrchestrationEventStreamer,
        id: AIConversationId,
        generation: nat,
        sender: UnboundedSender<SseStreamItem>,
        items: Seq<SseStreamItemView>,
    )
        requires
            after.keeps_channels(before),
            generation < before@.next_generation,
            after@.is_current(id, generation),
        ensures
            before@.is_current(id, generation),
            after.feeds(id, sender) == before.feeds(id, sender),
            after.gives(id, items) == before.gives(id, items),
            after.received_by(id) == before.received_by(id),
    {
        assert(after.sse_connections@.contains_key(id));
    }

    // ---- Construction --------------------------------------------------

    /// A streamer that knows of no conversation.
    pub fn new() -> (streamer: Self)
        ensures
            streamer.wf(),
            streamer@ == StreamerState::initial(),
    {
        let streamer = OrchestrationEventStreamer {
            watched_run_ids: HashMap::new(),
            event_cursor: HashMap::new(),
            pending_delivery: HashMap::new(),
            consumers: HashMap::new(),
            sse_connections: HashMap::new(),
            next_sse_generation: 0,
            restore_fetch_failures: HashMap::new(),
        };
        assert(streamer@ =~= StreamerState::initial());
        streamer
    }

    /// How many streams can still be opened before the generations run out.
    pub fn generations_left(&self) -> (left: u64)
        ensures
            left == u64::MAX - self@.next_generation,
    {
        u64::MAX - self.next_sse_generation
    }

    /// How many fetches in a row have failed for a conversation since it was
    /// restored.
    pub fn restore_fetch_failures(&self, conversation_id: AIConversationId) -> (failures: usize)
        ensures
            failures == self@.failures_of(conversation_id),
    {
        match self.restore_fetch_failures.get(&conversation_id) {
            Some(failures) => *failures,
            None => 0,
        }
    }

    /// Whether enough generations are left for whatever streams a change of
    /// the history may have opened.
    pub fn has_generations_for(
        &self,
        event: &BlocklistAIHistoryEvent,
        orchestration_v2: bool,
    ) -> (enough: bool)
        ensures
            enough == (self@.next_generation + streams_at_most(*event, orchestration_v2, self@)
                <= u64::MAX),
    {
        let needed: usize = match event {
            BlocklistAIHistoryEvent::ConversationServerTokenAssigned { .. } => 1,
            BlocklistAIHistoryEvent::RemoveConversation { .. } => self.watched_run_ids.len(),
            BlocklistAIHistoryEvent::DeletedConversation { .. } => self.watched_run_ids.len(),
            BlocklistAIHistoryEvent::RestoredConversations { conversation_ids } =>
                if orchestration_v2 {
                    conversation_ids.len()
                } else {
                    0
                },
            _ => 0,
        };
        assert(self@.watched.dom() =~= self.watched_run_ids@.dom());
        needed as u64 <= self.generations_left()
    }

    // ---- Eligibility predicate -----------------------------------------

    /// The run id of a conversation.
    pub fn self_run_id(
        &self,
        conversation_id: AIConversationId,
        history: &BlocklistAIHistoryModel,
    ) -> (run_id: Option<String>)
        ensures
            opt_text(run_id) == run_id_of(history@, conversation_id),
            opt_text(run_id) == own_run(*history, conversation_id),
    {
        proof {
            law_records_are_read(self@, *history, conversation_id);
        }
        match history.conversation(conversation_id) {
            Some(conversation) => copy_opt(&conversation.run_id),
            None => None,
        }
    }

    /// Whether a conversation has the child role: its parent has a
    /// conversation in this process, or the run id of its parent is known.
    pub fn is_child_agent_conversation(
        &self,
        conversation_id: AIConversationId,
        history: &BlocklistAIHistoryModel,
    ) -> (child: bool)
        ensures
            child == has_child_role(history@, conversation_id),
            child == has_parent(*history, conversation_id),
    {
        proof {
            law_records_are_read(self@, *history, conversation_id);
        }
        match history.conversation(conversation_id) {
            Some(conversation) => conversation.is_child(),
            None => false,
        }
    }

    /// Whether a conversation watches a run other than its own.
    pub fn has_watched_child_run_id(
        &self,
        conversation_id: AIConversationId,
        history: &BlocklistAIHistoryModel,
    ) -> (watches: bool)
        ensures
            watches == watches_child(self@, history@, conversation_id),
            watches == has_child(self@, *history, conversation_id),
    {
        proof {
            law_eligibility(self@, *history, conversation_id);
        }
        match self.watched_run_ids.get(&conversation_id) {
            Some(set) => {
                let self_run_id = self.self_run_id(conversation_id, history);
                assert(self@.watched_by(conversation_id) == set@);
                set.has_other_than(&self_run_id)
            },
            None => false,
        }
    }

    /// Whether a conversation has an active consumer.
    pub fn has_active_consumer(&self, conversation_id: AIConversationId) -> (active: bool)
        ensures
            active == self@.has_consumer(conversation_id),
    {
        match self.consumers.get(&conversation_id) {
            Some(set) => {
                assert(self@.consumers_of(conversation_id) == set@);
                !set.is_empty()
            },
            None => false,
        }
    }

    /// Whether a conversation is a passive view of a run that another process
    /// hosts: of a shared session, or of a child agent that runs elsewhere.
    pub fn is_remote_run_view(
        &self,
        conversation_id: AIConversationId,
        history: &BlocklistAIHistoryModel,
    ) -> (remote: bool)
        ensures
            remote == is_passive(history@, conversation_id),
            remote == lives_elsewhere(*history, conversation_id),
    {
        proof {
            law_records_are_read(self@, *history, conversation_id);
        }
        match history.conversation(conversation_id) {
            Some(conversation) => conversation.is_remote_view(),
            None => false,
        }
    }

    /// Whether a conversation should hold a stream now.
    pub fn is_eligible(
        &self,
        conversation_id: AIConversationId,
        history: &BlocklistAIHistoryModel,
    ) -> (is_eligible: bool)
        ensures
            is_eligible == eligible(self@, history@, conversation_id),
            is_eligible == ought_to_stream(self@, *history, conversation_id),
    {
        proof {
            law_eligibility(self@, *history, conversation_id);
        }
        if !self.has_active_consumer(conversation_id) {
            return false;
        }
        if self.is_remote_run_view(conversation_id, history) {
            return false;
        }
        self.is_child_agent_conversation(conversation_id, history) || self.has_watched_child_run_id(
            conversation_id,
            history,
        )
    }

    /// The runs to follow on behalf of a conversation, each listed once.
    pub fn run_ids_for_sse(&self, conversation_id: AIConversationId) -> (run_ids: Vec<String>)
        requires
            self.sets_wf(),
        ensures
            texts(run_ids@).no_duplicates(),
            texts(run_ids@).to_set() == self@.watched_by(conversation_id),
    {
        match self.watched_run_ids.get(&conversation_id) {
            Some(set) => {
                assert(self@.watched_by(conversation_id) == set@);
                set.to_vec()
            },
            None => {
                let run_ids: Vec<String> = Vec::new();
                assert(texts(run_ids@).to_set() =~= Set::<Seq<char>>::empty());
                run_ids
            },
        }
    }

    // ---- Handling events -----------------------------------------------

    /// Handles a batch of events together with the lifecycle events that it
    /// reports: moves the cursor and has it persisted, notes the announced
    /// messages as unconfirmed, and has the messages and lifecycle events
    /// queued.
    pub fn deliver_batch(
        &mut self,
        conversation_id: AIConversationId,
        self_run_id: &str,
        previous_cursor: i64,
        events: &Vec<AgentRunEvent>,
        messages: Vec<ReceivedMessageInput>,
        lifecycle_events: Vec<AgentEvent>,
        history: &BlocklistAIHistoryModel,
    ) -> (effects: Vec<StreamerEffect>)
        ensures
            forall|loose: Set<AIConversationId>| #[trigger]
                old(self).wf_except(loose) ==> final(self).wf_except(loose),
            old(self).sets_wf() ==> final(self).sets_wf(),
            step_of(*final(self), effects) == deliver(
                old(self)@,
                history@,
                conversation_id,
                self_run_id@,
                previous_cursor,
                events_view(events@),
                messages_view(messages@),
                agent_events_view(lifecycle_events@),
            ),
            final(self).hands_out(effects@),
            final(self).same_channels(*old(self)),
    {
        let ghost before = *self;
        let ghost said = messages_view(messages@);
        let ghost told = agent_events_view(lifecycle_events@);
        let mut effects: Vec<StreamerEffect> = Vec::new();
        let sequence = highest_sequence_in(events, previous_cursor);
        self.event_cursor.insert(conversation_id, sequence);
        effects.push(StreamerEffect::UpdateEventSequence { conversation_id, sequence });

        let own_run_id = self.self_run_id(conversation_id, history);
        match own_run_id {
            Some(run_id) => {
                effects.push(
                    StreamerEffect::UpdateEventSequenceOnServer {
                        conversation_id,
                        run_id,
                        sequence,
                    },
                );
            },
            None => {},
        }

        let ghost announced = announced_ids(events_view(events@), self_run_id@);
        let mut message_ids = announced_in(events, self_run_id);
        if message_ids.len() > 0 {
            let mut confirmation = match self.pending_delivery.remove(&conversation_id) {
                Some(confirmation) => confirmation,
                None => PendingDeliveryConfirmation { message_ids: Vec::new() },
            };
            proof {
                assert(texts(confirmation.message_ids@) =~= before@.pending_of(conversation_id));
            }
            let ghost first = confirmation.message_ids@;
            let ghost second = message_ids@;
            confirmation.message_ids.append(&mut message_ids);
            assert(texts(confirmation.message_ids@) =~= texts(first) + texts(second));
            self.pending_delivery.insert(conversation_id, confirmation);
        }
        let ghost wanted = deliver(
            before@,
            history@,
            conversation_id,
            self_run_id@,
            previous_cursor,
            events_view(events@),
            said,
            told,
        );
        proof {
            assert(self@.pending =~= wanted.state.pending);
            assert(self@ =~= wanted.state);
        }

        if messages.len() > 0 || lifecycle_events.len() > 0 {
            let events = build_pending_events(messages, lifecycle_events);
            effects.push(StreamerEffect::EnqueueEventBatch { conversation_id, events });
        }
        assert(effects_view(effects@) =~= wanted.effects);
        effects
    }

    /// Handles a batch of events, with the messages that were fetched for
    /// them.
    pub fn handle_event_batch(
        &mut self,
        conversation_id: AIConversationId,
        self_run_id: &str,
        previous_cursor: i64,
        events: Vec<AgentRunEvent>,
        messages: Vec<ReceivedMessageInput>,
        history: &BlocklistAIHistoryModel,
    ) -> (effects: Vec<StreamerEffect>)
        ensures
            forall|loose: Set<AIConversationId>| #[trigger]
                old(self).wf_except(loose) ==> final(self).wf_except(loose),
            old(self).sets_wf() ==> final(self).sets_wf(),
            exists|lifecycle: Seq<AgentEventView>|
                {
                    &&& #[trigger] converts(events_view(events@), self_run_id@, lifecycle)
                    &&& step_of(*final(self), effects) == deliver(
                        old(self)@,
                        history@,
                        conversation_id,
                        self_run_id@,
                        previous_cursor,
                        events_view(events@),
                        messages_view(messages@),
                        lifecycle,
                    )
                },
            final(self).hands_out(effects@),
            final(self).same_channels(*old(self)),
    {
        let lifecycle_events = convert_lifecycle_events(&events, self_run_id);
        assert(converts(
            events_view(events@),
            self_run_id@,
            agent_events_view(lifecycle_events@),
        ));
        self.deliver_batch(
            conversation_id,
            self_run_id,
            previous_cursor,
            &events,
            messages,
            lifecycle_events,
            history,
        )
    }

    /// Handles items that came through a conversation's channel. Those at or
    /// below the cursor have been handled before and are dropped.
    pub fn handle_items(
        &mut self,
        conversation_id: AIConversationId,
        items: Vec<SseStreamItem>,
        history: &BlocklistAIHistoryModel,
    ) -> (effects: Vec<StreamerEffect>)
        ensures
            forall|loose: Set<AIConversationId>| #[trigger]
                old(self).wf_except(loose) ==> final(self).wf_except(loose),
            old(self).sets_wf() ==> final(self).sets_wf(),
            exists|lifecycle: Seq<AgentEventView>|
                {
                    &&& #[trigger] converts(
                        item_events(
                            fresh_items(items_view(items@), old(self)@.cursor_of(conversation_id)),
                        ),
                        run_id_or_blank(history@, conversation_id),
                        lifecycle,
                    )
                    &&& step_of(*final(self), effects) == absorb(
                        old(self)@,
                        history@,
                        conversation_id,
                        (Drawn { items: items_view(items@), lifecycle }),
                    )
                },
            final(self).hands_out(effects@),
            final(self).same_channels(*old(self)),
    {
        let cursor = match self.event_cursor.get(&conversation_id) {
            Some(cursor) => *cursor,
            None => 0,
        };
        let ghost all = items_view(items@);
        let ghost fresh = fresh_items(all, cursor);
        let (events, messages) = split_fresh(items, cursor);
        if events.len() == 0 {
            let effects: Vec<StreamerEffect> = Vec::new();
            proof {
                let lifecycle = Seq::<AgentEventView>::empty();
                lemma_nothing_converts(
                    item_events(fresh),
                    run_id_or_blank(history@, conversation_id),
                );
                assert(converts(
                    item_events(fresh),
                    run_id_or_blank(history@, conversation_id),
                    lifecycle,
                ));
                assert(step_of(*self, effects) =~= absorb(
                    old(self)@,
                    history@,
                    conversation_id,
                    Drawn { items: all, lifecycle },
                ));
            }
            return effects;
        }
        let self_run_id = match self.self_run_id(conversation_id, history) {
            Some(run_id) => run_id,
            None => String::new(),
        };
        assert(self_run_id@ == run_id_or_blank(history@, conversation_id));
        assert(events_view(events@).len() == events.len());
        let effects = self.handle_event_batch(
            conversation_id,
            self_run_id.as_str(),
            cursor,
            events,
            messages,
            history,
        );
        proof {
            let lifecycle = choose|lifecycle: Seq<AgentEventView>|
                {
                    &&& #[trigger] converts(item_events(fresh), self_run_id@, lifecycle)
                    &&& step_of(*self, effects) == deliver(
                        old(self)@,
                        history@,
                        conversation_id,
                        self_run_id@,
                        cursor,
                        item_events(fresh),
                        item_messages(fresh),
                        lifecycle,
                    )
                };
            assert(converts(
                item_events(fresh),
                run_id_or_blank(history@, conversation_id),
                lifecycle,
            ));
            assert(step_of(*self, effects) == absorb(
                old(self)@,
                history@,
                conversation_id,
                Drawn { items: all, lifecycle },
            ));
        }
        effects
    }

    /// Handles everything that waits in the channel of a conversation's
    /// stream.
    pub fn drain_sse_events(
        &mut self,
        conversation_id: AIConversationId,
        history: &BlocklistAIHistoryModel,
    ) -> (effects: Vec<StreamerEffect>)
        ensures
            forall|loose: Set<AIConversationId>| #[trigger]
                old(self).wf_except(loose) ==> final(self).wf_except(loose),
            old(self).sets_wf() ==> final(self).sets_wf(),
            !old(self)@.connected(conversation_id) ==> step_of(*final(self), effects) == Step::none(
                old(self)@,
            ),
            old(self)@.connected(conversation_id) ==> {
                &&& final(self).received_by(conversation_id).len() >= old(self).received_by(
                    conversation_id,
                ).len()
                &&& final(self).received_by(conversation_id).take(
                    old(self).received_by(conversation_id).len() as int,
                ) == old(self).received_by(conversation_id)
                &&& exists|drawn: Drawn|
                    {
                        &&& #[trigger] drawn_from(old(self)@, history@, conversation_id, drawn)
                        &&& drawn.items == items_view(
                            final(self).received_by(conversation_id).skip(
                                old(self).received_by(conversation_id).len() as int,
                            ),
                        )
                        &&& old(self).gives(conversation_id, drawn.items)
                        &&& final(self).ran_dry(conversation_id) || drawn.items.len() == usize::MAX
                        &&& step_of(*final(self), effects) == absorb(
                            old(self)@,
                            history@,
                            conversation_id,
                            drawn,
                        )
                    }
            },
            forall|other: AIConversationId|
                other != conversation_id ==> #[trigger] final(self).received_by(other) == old(
                    self,
                ).received_by(other),
            final(self).hands_out(effects@),
            final(self).touches_only(*old(self), conversation_id),
            final(self).feeds_as(*old(self), conversation_id),
    {
        let (effects, drawn) = self.drain(conversation_id, history);
        effects
    }

    /// Drains a channel, and remembers what was drawn.
    fn drain(
        &mut self,
        conversation_id: AIConversationId,
        history: &BlocklistAIHistoryModel,
    ) -> (out: (Vec<StreamerEffect>, Ghost<Drawn>))
        ensures
            forall|loose: Set<AIConversationId>| #[trigger]
                old(self).wf_except(loose) ==> final(self).wf_except(loose),
            old(self).sets_wf() ==> final(self).sets_wf(),
            drawn_from(old(self)@, history@, conversation_id, out.1@),
            step_of(*final(self), out.0) == absorb(old(self)@, history@, conversation_id, out.1@),
            final(self).hands_out(out.0@),
            final(self).next_sse_generation == old(self).next_sse_generation,
            final(self).touches_only(*old(self), conversation_id),
            old(self).gives(conversation_id, out.1@.items),
            final(self).feeds_as(*old(self), conversation_id),
            forall|other: AIConversationId|
                other != conversation_id ==> #[trigger] final(self).received_by(other) == old(
                    self,
                ).received_by(other),
            old(self)@.connected(conversation_id) ==> {
                let before = old(self).received_by(conversation_id);
                let after = final(self).received_by(conversation_id);
                &&& after.len() >= before.len()
                &&& after.take(before.len() as int) == before
                &&& out.1@.items == items_view(after.skip(before.len() as int))
                &&& final(self).ran_dry(conversation_id) || out.1@.items.len() == usize::MAX
            },
    {
        match self.sse_connections.remove(&conversation_id) {
            Some(sse) => {
                let mut sse = sse;
                let ghost before = received(sse.event_receiver);
                let items = take_items(&mut sse.event_receiver);
                let ghost all = items_view(items@);
                let ghost after = received(sse.event_receiver);
                self.sse_connections.insert(conversation_id, sse);
                proof {
                    assert(self@ =~= old(self)@);
                    assert(after.take(before.len() as int) =~= before);
                    assert(after.skip(before.len() as int) =~= items@);
                }
                let ghost opened = *self;
                let effects = self.handle_items(conversation_id, items, history);
                proof {
                    assert forall|loose: Set<AIConversationId>| #[trigger]
                        old(self).wf_except(loose) implies self.wf_except(loose) by {
                        assert(opened.wf_except(loose));
                    }
                }
                let ghost lifecycle = choose|lifecycle: Seq<AgentEventView>|
                    {
                        &&& #[trigger] converts(
                            item_events(fresh_items(all, old(self)@.cursor_of(conversation_id))),
                            run_id_or_blank(history@, conversation_id),
                            lifecycle,
                        )
                        &&& step_of(*self, effects) == absorb(
                            old(self)@,
                            history@,
                            conversation_id,
                            (Drawn { items: all, lifecycle }),
                        )
                    };
                (effects, Ghost(Drawn { items: all, lifecycle }))
            },
            None => {
                let effects: Vec<StreamerEffect> = Vec::new();
                let ghost drawn = Drawn { items: Seq::empty(), lifecycle: Seq::empty() };
                proof {
                    lemma_nothing_drawn(self@, history@, conversation_id);
                    assert(self@ =~= old(self)@);
                    assert(step_of(*self, effects) =~= Step::none(old(self)@));
                }
                (effects, Ghost(drawn))
            },
        }
    }

    // ---- Streams -------------------------------------------------------

    /// Asks for a drain of a channel after the usual wait.
    fn start_sse_drain_timer(
        &self,
        conversation_id: AIConversationId,
        generation: u64,
    ) -> (effect: StreamerEffect)
        ensures
            effect@ == (StreamerEffectView::StartDrainTimer {
                conversation_id,
                generation: generation as nat,
                delay_ms: SSE_DRAIN_INTERVAL_MS,
            }),
            !(effect is OpenStream),
    {
        StreamerEffect::StartDrainTimer {
            conversation_id,
            generation,
            delay_ms: SSE_DRAIN_INTERVAL_MS,
        }
    }

    /// Opens a stream for a conversation on the runs that are watched now,
    /// from the cursor on.
    fn start_sse_connection(
        &mut self,
        conversation_id: AIConversationId,
        history: &BlocklistAIHistoryModel,
    ) -> (effects: Vec<StreamerEffect>)
        requires
            old(self).sets_wf(),
            old(self)@.next_generation < u64::MAX,
        ensures
            old(self)@.has_consumer(conversation_id) && !old(self)@.connected(conversation_id)
                ==> forall|loose: Set<AIConversationId>| #[trigger]
                old(self).wf_except(loose) ==> final(self).wf_except(loose.remove(conversation_id)),
            old(self).sets_wf() ==> final(self).sets_wf(),
            step_of(*final(self), effects) == open(old(self)@, history@, conversation_id),
            final(self).hands_out(effects@),
            final(self).keeps_channels(*old(self)),
            final(self).touches_only(*old(self), conversation_id),
    {
        let mut effects: Vec<StreamerEffect> = Vec::new();
        let run_ids = self.run_ids_for_sse(conversation_id);
        proof {
            let listed = texts(run_ids@);
            if listed.len() == 0 {
                assert(listed.to_set() =~= Set::<Seq<char>>::empty());
            } else {
                assert(listed.contains(listed[0]));
                assert(listed.to_set().contains(listed[0]));
            }
        }
        if run_ids.len() == 0 {
            assert(step_of(*self, effects) =~= Step::none(old(self)@));
            return effects;
        }
        let cursor = match self.event_cursor.get(&conversation_id) {
            Some(cursor) => *cursor,
            None => 0,
        };
        let self_run_id = match self.self_run_id(conversation_id, history) {
            Some(run_id) => run_id,
            None => String::new(),
        };
        let (sender, event_receiver) = open_channel();
        let generation: u64 = self.next_sse_generation;
        self.next_sse_generation = self.next_sse_generation + 1;
        self.sse_connections.insert(
            conversation_id,
            SseConnectionState { event_receiver, generation },
        );
        effects.push(
            StreamerEffect::OpenStream {
                conversation_id,
                generation,
                run_ids,
                cursor,
                self_run_id,
                sender,
            },
        );
        effects.push(self.start_sse_drain_timer(conversation_id, generation));
        proof {
            let wanted = open(old(self)@, history@, conversation_id);
            assert(self@ =~= wanted.state);
            assert(effects_view(effects@) =~= wanted.effects);
        }
        effects
    }

    /// Closes the stream of a conversation. What waits in its channel is
    /// handled first, so that no fetched message is lost. The watched runs and
    /// the consumers stay.
    fn teardown_sse(
        &mut self,
        conversation_id: AIConversationId,
        history: &BlocklistAIHistoryModel,
    ) -> (out: (Vec<StreamerEffect>, Ghost<Drawn>))
        ensures
            forall|loose: Set<AIConversationId>| #[trigger]
                old(self).wf_except(loose) ==> final(self).wf_except(loose.remove(conversation_id)),
            old(self).sets_wf() ==> final(self).sets_wf(),
            drawn_from(old(self)@, history@, conversation_id, out.1@),
            step_of(*final(self), out.0) == teardown(old(self)@, history@, conversation_id, out.1@),
            final(self).hands_out(out.0@),
            final(self).keeps_channels(*old(self)),
            final(self).touches_only(*old(self), conversation_id),
            old(self).gives(conversation_id, out.1@.items),
            final(self).next_sse_generation == old(self).next_sse_generation,
    {
        let (effects, drawn) = self.drain(conversation_id, history);
        let ghost drained = *self;
        self.sse_connections.remove(&conversation_id);
        proof {
            assert(self@ =~= close(drained@, conversation_id));
            lemma_no_streams_opened(old(self)@, history@, conversation_id, drawn@, effects@);
        }
        (effects, drawn)
    }

    /// Closes the stream of a conversation and, if the conversation is still
    /// eligible, opens a new one on the runs that are watched now, from the
    /// cursor on.
    fn reconnect_sse(
        &mut self,
        conversation_id: AIConversationId,
        history: &BlocklistAIHistoryModel,
    ) -> (out: (Vec<StreamerEffect>, Ghost<Drawn>))
        requires
            old(self).sets_wf(),
            old(self)@.next_generation < u64::MAX,
        ensures
            forall|loose: Set<AIConversationId>| #[trigger]
                old(self).wf_except(loose) ==> final(self).wf_except(loose.remove(conversation_id)),
            old(self).sets_wf() ==> final(self).sets_wf(),
            drawn_from(old(self)@, history@, conversation_id, out.1@),
            step_of(*final(self), out.0) == settle(old(self)@, history@, conversation_id, out.1@),
            final(self).hands_out(out.0@),
            final(self).keeps_channels(*old(self)),
            final(self).touches_only(*old(self), conversation_id),
            old(self).gives(conversation_id, out.1@.items),
    {
        let (mut effects, drawn) = self.teardown_sse(conversation_id, history);
        let ghost closed = *self;
        proof {
            lemma_same_eligibility(old(self)@, closed@, history@, conversation_id);
        }
        if self.is_eligible(conversation_id, history) {
            let ghost first = effects@;
            let mut opened = self.start_sse_connection(conversation_id, history);
            let ghost second = opened@;
            proof {
                Self::lemma_hands_out_still(closed, *self, first);
            }
            effects.append(&mut opened);
            assert(effects_view(effects@) =~= effects_view(first) + effects_view(second));
        }
        (effects, drawn)
    }

    /// Opens, renews or closes the stream of a conversation, as its
    /// eligibility demands.
    fn reevaluate_eligibility(
        &mut self,
        conversation_id: AIConversationId,
        history: &BlocklistAIHistoryModel,
    ) -> (out: (Vec<StreamerEffect>, Ghost<Drawn>))
        requires
            old(self).sets_wf(),
            old(self)@.next_generation < u64::MAX,
        ensures
            forall|loose: Set<AIConversationId>| #[trigger]
                old(self).wf_except(loose) ==> final(self).wf_except(loose.remove(conversation_id)),
            old(self).sets_wf() ==> final(self).sets_wf(),
            drawn_from(old(self)@, history@, conversation_id, out.1@),
            step_of(*final(self), out.0) == settle(old(self)@, history@, conversation_id, out.1@),
            final(self).hands_out(out.0@),
            final(self).keeps_channels(*old(self)),
            final(self).touches_only(*old(self), conversation_id),
            old(self).gives(conversation_id, out.1@.items),
    {
        let is_eligible = self.is_eligible(conversation_id, history);
        let connected = self.sse_connections.contains_key(&conversation_id);
        let ghost nothing = Drawn { items: Seq::empty(), lifecycle: Seq::empty() };
        proof {
            assert(connected == self@.connected(conversation_id));
            if !connected {
                lemma_nothing_drawn(self@, history@, conversation_id);
                assert(close(self@, conversation_id) =~= self@);
            }
        }
        match (is_eligible, connected) {
            (true, false) => {
                let effects = self.start_sse_connection(conversation_id, history);
                assert(step_of(*self, effects) =~= settle(
                    old(self)@,
                    history@,
                    conversation_id,
                    nothing,
                ));
                (effects, Ghost(nothing))
            },
            (true, true) => self.reconnect_sse(conversation_id, history),
            (false, true) => self.teardown_sse(conversation_id, history),
            (false, false) => {
                let effects: Vec<StreamerEffect> = Vec::new();
                assert(step_of(*self, effects) =~= Step::none(old(self)@));
                (effects, Ghost(nothing))
            },
        }
    }

    // ---- Consumers and watched runs ------------------------------------

    /// Registers a consumer for a conversation, and opens or renews its stream
    /// if it is eligible now. Registering a consumer again changes nothing in
    /// the registry.
    pub fn register_consumer(
        &mut self,
        conversation_id: AIConversationId,
        consumer_id: EntityId,
        history: &BlocklistAIHistoryModel,
    ) -> (effects: Vec<StreamerEffect>)
        requires
            old(self).wf(),
            old(self)@.next_generation < u64::MAX,
        ensures
            final(self).wf(),
            consumer_registered(
                *old(self),
                history@,
                conversation_id,
                consumer_id,
                step_of(*final(self), effects),
            ),
            final(self).hands_out(effects@),
            final(self).touches_only(*old(self), conversation_id),
            final(self).keeps_channels(*old(self)),
    {
        let mut set = match self.consumers.remove(&conversation_id) {
            Some(set) => set,
            None => HashSet::new(),
        };
        assert(set@ =~= old(self)@.consumers_of(conversation_id));
        set.insert(consumer_id);
        self.consumers.insert(conversation_id, set);
        proof {
            assert(self@ =~= with_consumer(old(self)@, conversation_id, consumer_id));
            assert(set@.contains(consumer_id));
        }
        self.try_insert_self_run_id_if_in_tree(conversation_id, history);
        let (effects, drawn) = self.reevaluate_eligibility(conversation_id, history);
        assert(Set::<AIConversationId>::empty().remove(conversation_id) =~= Set::empty());
        effects
    }

    /// Takes a consumer of a conversation out of the registry, and closes the
    /// conversation's stream if it is not eligible any more.
    pub fn unregister_consumer(
        &mut self,
        conversation_id: AIConversationId,
        consumer_id: EntityId,
        history: &BlocklistAIHistoryModel,
    ) -> (effects: Vec<StreamerEffect>)
        requires
            old(self).wf(),
            old(self)@.next_generation < u64::MAX,
        ensures
            final(self).wf(),
            consumer_unregistered(
                *old(self),
                history@,
                conversation_id,
                consumer_id,
                step_of(*final(self), effects),
            ),
            final(self).hands_out(effects@),
            final(self).touches_only(*old(self), conversation_id),
            final(self).keeps_channels(*old(self)),
    {
        match self.consumers.remove(&conversation_id) {
            Some(set) => {
                let mut set = set;
                assert(set@ == old(self)@.consumers_of(conversation_id));
                set.remove(&consumer_id);
                if !set.is_empty() {
                    self.consumers.insert(conversation_id, set);
                }
            },
            None => {
                assert(old(self)@.consumers_of(conversation_id).remove(consumer_id) =~= Set::<
                    EntityId,
                >::empty());
            },
        }
        proof {
            assert(self@ =~= without_consumer(old(self)@, conversation_id, consumer_id));
            assert(self.wf_except(Set::empty().insert(conversation_id)));
        }
        let (effects, drawn) = self.reevaluate_eligibility(conversation_id, history);
        assert(Set::<AIConversationId>::empty().insert(conversation_id).remove(conversation_id)
            =~= Set::empty());
        effects
    }

    /// Has a run watched on behalf of a conversation. The first child makes
    /// the conversation a parent, and from then on its own run, its inbox, is
    /// watched too. Only what is new renews the stream.
    pub fn register_watched_run_id(
        &mut self,
        conversation_id: AIConversationId,
        run_id: String,
        history: &BlocklistAIHistoryModel,
    ) -> (effects: Vec<StreamerEffect>)
        requires
            old(self).wf(),
            old(self)@.next_generation < u64::MAX,
        ensures
            final(self).wf(),
            watched_run_registered(
                *old(self),
                history@,
                conversation_id,
                run_id@,
                step_of(*final(self), effects),
            ),
            final(self).hands_out(effects@),
            final(self).touches_only(*old(self), conversation_id),
            final(self).keeps_channels(*old(self)),
    {
        let inserted = self.watch_run(conversation_id, run_id);
        let ghost watching = *self;
        let self_inserted = self.try_insert_self_run_id_if_in_tree(conversation_id, history);
        assert(Set::<AIConversationId>::empty().remove(conversation_id) =~= Set::empty());
        if inserted || self_inserted {
            let (effects, drawn) = self.reevaluate_eligibility(conversation_id, history);
            effects
        } else {
            let effects: Vec<StreamerEffect> = Vec::new();
            proof {
                assert(watching@ =~= old(self)@) by {
                    assert(old(self)@.watched_by(conversation_id).insert(run_id@) =~= old(
                        self,
                    )@.watched_by(conversation_id));
                }
                assert(step_of(*self, effects) =~= Step::none(old(self)@));
            }
            effects
        }
    }

    /// Has a run watched on behalf of a conversation; says whether that is
    /// new.
    fn watch_run(&mut self, conversation_id: AIConversationId, run_id: String) -> (inserted: bool)
        requires
            old(self).sets_wf(),
        ensures
            final(self).sets_wf(),
            forall|loose: Set<AIConversationId>| #[trigger]
                old(self).wf_except(loose) ==> final(self).wf_except(loose),
            final(self)@ == watch(old(self)@, conversation_id, run_id@),
            inserted == !old(self)@.watched_by(conversation_id).contains(run_id@),
            final(self).same_channels(*old(self)),
    {
        let mut set = match self.watched_run_ids.remove(&conversation_id) {
            Some(set) => set,
            None => RunIdSet::new(),
        };
        assert(set@ =~= old(self)@.watched_by(conversation_id));
        let inserted = set.insert(run_id);
        self.watched_run_ids.insert(conversation_id, set);
        proof {
            assert(self@ =~= watch(old(self)@, conversation_id, run_id@));
            assert(set@.contains(run_id@));
        }
        inserted
    }

    /// Has a conversation watch its own run if it has a role in a tree of
    /// agents and is not a passive view; says whether that is new.
    fn try_insert_self_run_id_if_in_tree(
        &mut self,
        conversation_id: AIConversationId,
        history: &BlocklistAIHistoryModel,
    ) -> (inserted: bool)
        requires
            old(self).sets_wf(),
        ensures
            final(self).sets_wf(),
            forall|loose: Set<AIConversationId>| #[trigger]
                old(self).wf_except(loose) ==> final(self).wf_except(loose),
            final(self)@ == watch_self(old(self)@, history@, conversation_id),
            inserted == misses_own_run(old(self)@, history@, conversation_id),
            !inserted ==> final(self)@ == old(self)@,
            final(self).same_channels(*old(self)),
    {
        let conversation = match history.conversation(conversation_id) {
            Some(conversation) => conversation,
            None => {
                return false;
            },
        };
        if conversation.is_remote_view() {
            return false;
        }
        let run_id = match copy_opt(&conversation.run_id) {
            Some(run_id) => run_id,
            None => {
                return false;
            },
        };
        if !conversation.is_child() && !self.has_watched_child_run_id(conversation_id, history) {
            return false;
        }
        let inserted = self.watch_run(conversation_id, run_id);
        proof {
            if !inserted {
                assert(old(self)@.watched_by(conversation_id).insert(run_id@) =~= old(
                    self,
                )@.watched_by(conversation_id));
                assert(self@ =~= old(self)@);
            }
        }
        inserted
    }

    // ---- Changes of the history ----------------------------------------

    /// A conversation's run has got its id. If the conversation has a role in
    /// a tree of agents, its inbox is watched from now on.
    pub fn on_server_token_assigned(
        &mut self,
        conversation_id: AIConversationId,
        history: &BlocklistAIHistoryModel,
    ) -> (effects: Vec<StreamerEffect>)
        requires
            old(self).wf(),
            old(self)@.next_generation < u64::MAX,
        ensures
            final(self).wf(),
            server_token_assigned(
                *old(self),
                history@,
                conversation_id,
                step_of(*final(self), effects),
            ),
            final(self).hands_out(effects@),
            final(self).touches_only(*old(self), conversation_id),
            final(self).keeps_channels(*old(self)),
    {
        assert(Set::<AIConversationId>::empty().remove(conversation_id) =~= Set::empty());
        if self.try_insert_self_run_id_if_in_tree(conversation_id, history) {
            let (effects, drawn) = self.reevaluate_eligibility(conversation_id, history);
            effects
        } else {
            let effects: Vec<StreamerEffect> = Vec::new();
            assert(step_of(*self, effects) =~= Step::none(old(self)@));
            effects
        }
    }

    /// More of an exchange has been streamed. Messages that it shows to have
    /// been taken in no longer wait for confirmation, and the server is told
    /// of their delivery.
    pub fn on_streaming_exchange_updated(
        &mut self,
        conversation_id: AIConversationId,
        exchange_id: AIAgentExchangeId,
        history: &BlocklistAIHistoryModel,
    ) -> (effects: Vec<StreamerEffect>)
        requires
            old(self).wf(),
        ensures
            final(self).wf(),
            step_of(*final(self), effects) == confirm(
                old(self)@,
                history@,
                conversation_id,
                exchange_id,
            ),
            final(self).hands_out(effects@),
            final(self).same_channels(*old(self)),
    {
        let mut effects: Vec<StreamerEffect> = Vec::new();
        let ghost nothing = effects;
        assert(step_of(*self, nothing) =~= Step::none(old(self)@));
        let pending = match self.pending_delivery.get(&conversation_id) {
            Some(pending) => pending,
            None => {
                proof {
                    lemma_none_confirmable(old(self)@, history@, conversation_id, exchange_id);
                }
                return effects;
            },
        };
        assert(texts(pending.message_ids@) == old(self)@.pending_of(conversation_id));
        let conversation = match history.conversation(conversation_id) {
            Some(conversation) => conversation,
            None => {
                return effects;
            },
        };
        let exchange = match conversation.exchange_with_id(exchange_id) {
            Some(exchange) => exchange,
            None => {
                return effects;
            },
        };
        let confirmed = taken_in(exchange, &pending.message_ids);
        let ghost ids = confirmable(old(self)@, history@, conversation_id, exchange_id);
        assert(texts(confirmed@) == ids);
        assert(confirmed.len() == ids.len());
        if confirmed.len() == 0 {
            return effects;
        }
        let rest = all_but(&pending.message_ids, &confirmed);
        assert(texts(rest@).len() == rest.len());
        if rest.len() == 0 {
            self.pending_delivery.remove(&conversation_id);
        } else {
            self.pending_delivery.insert(
                conversation_id,
                PendingDeliveryConfirmation { message_ids: rest },
            );
        }
        effects.push(StreamerEffect::MarkMessagesDelivered { message_ids: confirmed });
        proof {
            let wanted = confirm(old(self)@, history@, conversation_id, exchange_id);
            assert(self@ =~= wanted.state);
            assert(effects_view(effects@) =~= wanted.effects);
        }
        effects
    }

    /// A conversation has gone. Everything about it is forgotten; its run is
    /// no longer watched by the other conversations, and the streams of those
    /// that watched it are brought in line.
    pub fn on_conversation_removed(
        &mut self,
        conversation_id: AIConversationId,
        history: &BlocklistAIHistoryModel,
    ) -> (effects: Vec<StreamerEffect>)
        requires
            old(self).wf(),
            old(self)@.next_generation + old(self)@.watched.dom().len() <= u64::MAX,
        ensures
            final(self).wf(),
            conversation_removed(
                *old(self),
                history@,
                conversation_id,
                step_of(*final(self), effects),
            ),
            final(self).hands_out(effects@),
            final(self).keeps_channels(*old(self)),
    {
        let removed_run_id = self.self_run_id(conversation_id, history);
        self.forget_conversation(conversation_id);
        match removed_run_id {
            Some(run_id) => {
                let ghost forgotten = *self;
                let affected = self.unwatch_run(run_id.as_str());
                let ghost left = self@;
                proof {
                    assert(left == remove(old(self)@, history@, conversation_id));
                    assert(lists_watchers(old(self)@, history@, conversation_id, affected@));
                }
                let ghost pruned = *self;
                let (effects, drawn) = self.reevaluate_each(affected, history);
                proof {
                    Self::lemma_keeps_channels(*old(self), pruned, *self);
                    assert(drawn_from_each(left, history@, affected@, drawn@));
                    assert forall|i: int| 0 <= i < affected@.len() implies old(self).gives(
                        #[trigger] affected@[i],
                        drawn@[i].items,
                    ) by {
                        let other = affected@[i];
                        assert(affected@.contains(other));
                        assert(watches(forgotten@, other, run_id@));
                        assert(other != conversation_id);
                        assert(forgotten.sse_connections@.contains_key(other)
                            == old(self).sse_connections@.contains_key(other));
                        assert(forgotten.gives(other, drawn@[i].items));
                    }
                }
                effects
            },
            None => {
                let effects: Vec<StreamerEffect> = Vec::new();
                proof {
                    let ids = Seq::<AIConversationId>::empty();
                    let drawn = Seq::<Drawn>::empty();
                    let left = remove(old(self)@, history@, conversation_id);
                    assert(lists_watchers(old(self)@, history@, conversation_id, ids));
                    assert(drawn_from_each(left, history@, ids, drawn));
                    assert(step_of(*self, effects) =~= settle_each(left, history@, ids, drawn));
                }
                effects
            },
        }
    }

    /// Forgets everything about a conversation. If it held a stream, its
    /// channel goes, which ends the reading of the stream.
    fn forget_conversation(&mut self, conversation_id: AIConversationId)
        requires
            old(self).wf(),
        ensures
            final(self).wf(),
            final(self)@ == forget(old(self)@, conversation_id),
            final(self).touches_only(*old(self), conversation_id),
            final(self).keeps_channels(*old(self)),
            final(self)@.watched.dom().len() <= old(self)@.watched.dom().len(),
    {
        self.watched_run_ids.remove(&conversation_id);
        self.event_cursor.remove(&conversation_id);
        self.pending_delivery.remove(&conversation_id);
        self.consumers.remove(&conversation_id);
        self.restore_fetch_failures.remove(&conversation_id);
        self.sse_connections.remove(&conversation_id);
        proof {
            assert(self@ =~= forget(old(self)@, conversation_id));
            let before = old(self)@.watched.dom();
            assert(old(self).watched_run_ids@.dom() =~= before);
            assert(self@.watched.dom() =~= before.remove(conversation_id));
        }
    }

    /// Has a run watched by nobody any more; lists the conversations that
    /// watched it.
    fn unwatch_run(&mut self, run_id: &str) -> (affected: Vec<AIConversationId>)
        requires
            old(self).wf(),
        ensures
            final(self).sets_wf(),
            final(self).wf_except(affected@.to_set()),
            final(self)@ == unwatch(old(self)@, run_id@),
            affected@.no_duplicates(),
            affected@.len() <= old(self)@.watched.dom().len(),
            forall|id: AIConversationId| #[trigger]
                affected@.contains(id) <==> watches(old(self)@, id, run_id@),
            final(self).same_channels(*old(self)),
    {
        let ids = listed_keys(&self.watched_run_ids);
        let ghost before = old(self)@;
        let ghost run = run_id@;
        let mut affected: Vec<AIConversationId> = Vec::new();
        proof {
            assert(before.watched.dom() =~= self.watched_run_ids@.dom());
            assert(affected@.to_set() =~= Set::empty());
        }
        let mut i: usize = 0;
        while i < ids.len()
            invariant
                i <= ids.len(),
                before == old(self)@,
                run == run_id@,
                ids@.no_duplicates(),
                ids@.to_set() == before.watched.dom(),
                self.sets_wf(),
                self@ == (StreamerState { watched: self@.watched, ..before }),
                self.same_channels(*old(self)),
                forall|id: AIConversationId| #![trigger self@.watched.contains_key(id)]
                    if ids@.take(i as int).contains(id) {
                        let after = unwatch(before, run).watched;
                        &&& self@.watched.contains_key(id) == after.contains_key(id)
                        &&& after.contains_key(id) ==> self@.watched[id] == after[id]
                    } else {
                        &&& self@.watched.contains_key(id) == before.watched.contains_key(id)
                        &&& before.watched.contains_key(id) ==> self@.watched[id]
                            == before.watched[id]
                    },
                affected@.no_duplicates(),
                affected@.len() <= i,
                forall|id: AIConversationId| #[trigger]
                    affected@.contains(id) <==> ids@.take(i as int).contains(id) && watches(
                        before,
                        id,
                        run,
                    ),
            decreases ids.len() - i,
        {
            let id = ids[i];
            let ghost here = *self;
            let ghost done = ids@.take(i as int);
            let ghost next = ids@.take(i + 1);
            proof {
                assert(next =~= done.push(id));
                lemma_push(done, id);
                assert(!done.contains(id)) by {
                    if done.contains(id) {
                        let j = done.index_of(id);
                        assert(ids@[j] == ids@[i as int]);
                    }
                }
                assert(ids@.contains(id));
                assert(ids@.to_set().contains(id));
                assert(here@.watched.contains_key(id));
            }
            let ghost affected_before = affected@;
            match self.watched_run_ids.remove(&id) {
                Some(set) => {
                    let mut set = set;
                    assert(set@ == before.watched[id]);
                    let removed = set.remove(run_id);
                    if removed {
                        affected.push(id);
                        proof {
                            assert(!affected_before.contains(id));
                            lemma_push(affected_before, id);
                        }
                    }
                    if !removed || !set.is_empty() {
                        self.watched_run_ids.insert(id, set);
                    }
                    proof {
                        if !removed {
                            assert(before.watched[id].remove(run) =~= before.watched[id]);
                        }
                        assert(self@ =~= StreamerState { watched: self@.watched, ..before });
                        let after = unwatch(before, run).watched;
                        assert(self@.watched.contains_key(id) == after.contains_key(id));
                        assert(after.contains_key(id) ==> self@.watched[id] == after[id]);
                        assert forall|other: AIConversationId|
                            #![trigger self@.watched.contains_key(other)]
                            if next.contains(other) {
                                &&& self@.watched.contains_key(other) == after.contains_key(other)
                                &&& after.contains_key(other) ==> self@.watched[other]
                                    == after[other]
                            } else {
                                &&& self@.watched.contains_key(other)
                                    == before.watched.contains_key(other)
                                &&& before.watched.contains_key(other) ==> self@.watched[other]
                                    == before.watched[other]
                            } by {
                            if other != id {
                                assert(self@.watched.contains_key(other)
                                    == here@.watched.contains_key(other));
                            }
                        }
                    }
                },
                None => {},
            }
            i += 1;
        }
        proof {
            assert(ids@.take(ids.len() as int) =~= ids@);
            assert forall|id: AIConversationId| before.watched.contains_key(id) == ids@.contains(
                id,
            ) by {
                assert(ids@.to_set().contains(id) == ids@.contains(id));
            }
            assert(self@.watched =~= unwatch(before, run).watched);
            assert(self@ =~= unwatch(before, run));
            assert forall|id: AIConversationId| #[trigger]
                self@.connections.contains_key(id) && !affected@.to_set().contains(id) implies {
                &&& self@.has_consumer(id)
                &&& self@.watched_by(id) != Set::<Seq<char>>::empty()
            } by {
                assert(before.connections.contains_key(id));
                assert(!watches(before, id, run));
                assert(before.watched_by(id).remove(run) =~= before.watched_by(id));
            }
        }
        affected
    }

    /// Brings the streams of several conversations in line, one after the
    /// other.
    fn reevaluate_each(
        &mut self,
        ids: Vec<AIConversationId>,
        history: &BlocklistAIHistoryModel,
    ) -> (out: (Vec<StreamerEffect>, Ghost<Seq<Drawn>>))
        requires
            old(self).sets_wf(),
            old(self).wf_except(ids@.to_set()),
            ids@.no_duplicates(),
            old(self)@.next_generation + ids.len() <= u64::MAX,
        ensures
            final(self).wf(),
            forall|i: int|
                0 <= i < ids.len() ==> old(self).gives(#[trigger] ids@[i], out.1@[i].items),
            drawn_from_each(old(self)@, history@, ids@, out.1@),
            step_of(*final(self), out.0) == settle_each(old(self)@, history@, ids@, out.1@),
            final(self).hands_out(out.0@),
            final(self).keeps_channels(*old(self)),
    {
        let ghost start = old(self)@;
        let ghost mut drawn = Seq::<Drawn>::empty();
        let mut effects: Vec<StreamerEffect> = Vec::new();
        let mut i: usize = 0;
        proof {
            assert(ids@.skip(0) =~= ids@);
            assert(ids@.take(0) =~= Seq::<AIConversationId>::empty());
            assert(step_of(*self, effects) =~= Step::none(start));
        }
        while i < ids.len()
            invariant
                i <= ids.len(),
                start == old(self)@,
                self.sets_wf(),
                self.wf_except(ids@.skip(i as int).to_set()),
                ids@.no_duplicates(),
                forall|j: int| #![trigger ids@[j]]
                    i <= j < ids.len() ==> {
                        &&& self.sse_connections@.contains_key(ids@[j]) == old(
                            self,
                        ).sse_connections@.contains_key(ids@[j])
                        &&& old(self).sse_connections@.contains_key(ids@[j])
                            ==> self.sse_connections@[ids@[j]] == old(self).sse_connections@[ids@[j]]
                    },
                drawn.len() == i,
                forall|j: int|
                    0 <= j < i ==> old(self).gives(#[trigger] ids@[j], drawn[j].items),
                self@.next_generation + (ids.len() - i) <= u64::MAX,
                drawn_from_each(start, history@, ids@.take(i as int), drawn),
                step_of(*self, effects) == settle_each(
                    start,
                    history@,
                    ids@.take(i as int),
                    drawn,
                ),
                self.hands_out(effects@),
                self.keeps_channels(*old(self)),
            decreases ids.len() - i,
        {
            let id = ids[i];
            let ghost here = *self;
            let ghost first = effects@;
            let (mut more, drawn_now) = self.reevaluate_eligibility(id, history);
            let ghost second = more@;
            proof {
                Self::lemma_hands_out_still(here, *self, first);
                Self::lemma_keeps_channels(*old(self), here, *self);
            }
            effects.append(&mut more);
            proof {
                let done = ids@.take(i as int);
                let next = ids@.take(i + 1);
                let drawn_next = drawn.push(drawn_now@);
                assert(next.drop_last() =~= done);
                assert(next.last() == id);
                assert(drawn_next.drop_last() =~= drawn);
                assert(effects_view(effects@) =~= effects_view(first) + effects_view(second));
                assert(step_of(*self, effects) =~= settle_each(start, history@, next, drawn_next));
                assert(drawn_from_each(start, history@, next, drawn_next));
                drawn = drawn_next;
                assert(old(self).gives(id, drawn_now@.items));
                assert forall|j: int| #![trigger ids@[j]] i < j < ids.len() implies {
                    &&& self.sse_connections@.contains_key(ids@[j]) == old(
                        self,
                    ).sse_connections@.contains_key(ids@[j])
                    &&& old(self).sse_connections@.contains_key(ids@[j])
                        ==> self.sse_connections@[ids@[j]] == old(self).sse_connections@[ids@[j]]
                } by {
                    assert(ids@[j] != ids@[i as int]);
                    assert(self.sse_connections@.contains_key(ids@[j])
                        == here.sse_connections@.contains_key(ids@[j]));
                }
                let loose = ids@.skip(i as int).to_set().remove(id);
                let rest = ids@.skip(i + 1).to_set();
                assert forall|other: AIConversationId| loose.contains(other) implies rest.contains(
                    other,
                ) by {
                    let j = choose|j: int|
                        0 <= j < ids@.skip(i as int).len() && ids@.skip(i as int)[j] == other;
                    assert(ids@.skip(i + 1)[j - 1] == other);
                }
                assert(self.wf_except(loose));
            }
            i += 1;
        }
        proof {
            assert(ids@.take(ids.len() as int) =~= ids@);
            assert(ids@.skip(ids.len() as int).to_set() =~= Set::empty());
        }
        (effects, Ghost(drawn))
    }

    // ---- Restore on startup --------------------------------------------

    /// Conversations are back from disk. Each one's cursor is set to the
    /// persisted one, and its own run is watched. If that run is a task of the
    /// server, the task is fetched, for the runs of its children and for the
    /// server's cursor. Passive views are left alone. Without the second
    /// version of orchestration nothing happens. The history is read as it
    /// stood when the conversations came back, apart from the cursors that are
    /// persisted on the way.
    pub fn on_restored_conversations(
        &mut self,
        conversation_ids: &Vec<AIConversationId>,
        orchestration_v2: bool,
        history: &BlocklistAIHistoryModel,
    ) -> (effects: Vec<StreamerEffect>)
        requires
            old(self).wf(),
            orchestration_v2 ==> old(self)@.next_generation + conversation_ids.len() <= u64::MAX,
        ensures
            final(self).wf(),
            conversations_restored(
                *old(self),
                history@,
                orchestration_v2,
                conversation_ids@,
                step_of(*final(self), effects),
            ),
            final(self).hands_out(effects@),
            final(self).keeps_channels(*old(self)),
    {
        let mut effects: Vec<StreamerEffect> = Vec::new();
        assert(step_of(*self, effects) =~= Step::none(old(self)@));
        if !orchestration_v2 {
            return effects;
        }
        let ghost start = old(self)@;
        let ghost ids = conversation_ids@;
        let ghost mut drawn = Seq::<Drawn>::empty();
        let ghost mut stages = Seq::<OrchestrationEventStreamer>::empty();
        let mut i: usize = 0;
        assert(ids.take(0) =~= Seq::<AIConversationId>::empty());
        while i < conversation_ids.len()
            invariant
                i <= conversation_ids.len(),
                start == old(self)@,
                ids == conversation_ids@,
                self.wf(),
                drawn.len() == i,
                stages.len() == i,
                i == 0 ==> *self == *old(self),
                i > 0 ==> stages[0] == *old(self),
                forall|j: int| #![trigger stages[j]]
                    0 <= j < i ==> {
                        &&& stages[j]@ == restore_each(
                            start,
                            history@,
                            ids.take(j),
                            drawn.take(j),
                        ).state
                        &&& settles_at_once(history@, ids[j]) ==> stages[j].gives(
                            ids[j],
                            drawn[j].items,
                        )
                    },
                forall|j: int| #![trigger ids[j]]
                    0 <= j && j + 1 < i ==> {
                        &&& stages[j + 1].touches_only(stages[j], ids[j])
                        &&& stages[j + 1].keeps_channels(stages[j])
                    },
                i > 0 ==> {
                    &&& self.touches_only(stages[i - 1], ids[i - 1])
                    &&& self.keeps_channels(stages[i - 1])
                },
                self@.next_generation + (conversation_ids.len() - i) <= u64::MAX,
                drawn_on_restore(start, history@, ids.take(i as int), drawn),
                step_of(*self, effects) == restore_each(
                    start,
                    history@,
                    ids.take(i as int),
                    drawn,
                ),
                self.hands_out(effects@),
                self.keeps_channels(*old(self)),
            decreases conversation_ids.len() - i,
        {
            let id = conversation_ids[i];
            let ghost here = *self;
            let ghost first = effects@;
            let (mut more, drawn_now) = self.restore_conversation(id, &effects, history);
            let ghost second = more@;
            proof {
                Self::lemma_hands_out_still(here, *self, first);
                Self::lemma_keeps_channels(*old(self), here, *self);
            }
            effects.append(&mut more);
            proof {
                let next = ids.take(i + 1);
                let drawn_next = drawn.push(drawn_now@);
                let stages_next = stages.push(here);
                assert(next.drop_last() =~= ids.take(i as int));
                assert(next.last() == id);
                assert(drawn_next.drop_last() =~= drawn);
                assert(effects_view(effects@) =~= effects_view(first) + effects_view(second));
                assert(step_of(*self, effects) =~= restore_each(start, history@, next, drawn_next));
                assert(drawn_on_restore(start, history@, next, drawn_next));
                assert forall|j: int| #![trigger stages_next[j]] 0 <= j < i + 1 implies {
                    &&& stages_next[j]@ == restore_each(
                        start,
                        history@,
                        ids.take(j),
                        drawn_next.take(j),
                    ).state
                    &&& settles_at_once(history@, ids[j]) ==> stages_next[j].gives(
                        ids[j],
                        drawn_next[j].items,
                    )
                } by {
                    if j < i {
                        assert(stages_next[j] == stages[j]);
                        assert(drawn_next.take(j) =~= drawn.take(j));
                    } else {
                        assert(drawn_next.take(j) =~= drawn);
                    }
                }
                assert forall|j: int| #![trigger ids[j]] 0 <= j && j + 1 < i + 1 implies {
                    &&& stages_next[j + 1].touches_only(stages_next[j], ids[j])
                    &&& stages_next[j + 1].keeps_channels(stages_next[j])
                } by {
                    assert(stages_next[j] == stages[j]);
                    if j + 1 < i {
                        assert(stages_next[j + 1] == stages[j + 1]);
                    } else {
                        assert(stages_next[j + 1] == here);
                    }
                }
                drawn = drawn_next;
                stages = stages_next;
            }
            i += 1;
        }
        proof {
            assert(ids.take(ids.len() as int) =~= ids);
            assert(restored_through(*old(self), history@, ids, drawn, stages));
        }
        effects
    }

    /// One conversation is back from disk. What `effects` persist is on disk
    /// too by now.
    fn restore_conversation(
        &mut self,
        conversation_id: AIConversationId,
        effects: &Vec<StreamerEffect>,
        history: &BlocklistAIHistoryModel,
    ) -> (out: (Vec<StreamerEffect>, Ghost<Drawn>))
        requires
            old(self).wf(),
            old(self)@.next_generation < u64::MAX,
        ensures
            final(self).wf(),
            history@.contains_key(conversation_id) ==> drawn_from(
                recall(
                    old(self)@,
                    history@,
                    conversation_id,
                    persisted_cursor(effects_view(effects@), history@, conversation_id),
                ),
                history@,
                conversation_id,
                out.1@,
            ),
            step_of(*final(self), out.0) == restore(
                old(self)@,
                history@,
                conversation_id,
                persisted_cursor(effects_view(effects@), history@, conversation_id),
                out.1@,
            ),
            final(self).hands_out(out.0@),
            final(self).keeps_channels(*old(self)),
            final(self).touches_only(*old(self), conversation_id),
            settles_at_once(history@, conversation_id) ==> old(self).gives(
                conversation_id,
                out.1@.items,
            ),
            final(self)@.next_generation <= old(self)@.next_generation + 1,
    {
        let mut more: Vec<StreamerEffect> = Vec::new();
        let ghost cursor_now = persisted_cursor(
            effects_view(effects@),
            history@,
            conversation_id,
        );
        let ghost nothing = Drawn { items: Seq::empty(), lifecycle: Seq::empty() };
        proof {
            assert(step_of(*self, more) =~= Step::none(old(self)@));
            lemma_nothing_drawn(
                recall(old(self)@, history@, conversation_id, cursor_now),
                history@,
                conversation_id,
            );
            assert(Set::<AIConversationId>::empty().remove(conversation_id) =~= Set::empty());
        }
        let conversation = match history.conversation(conversation_id) {
            Some(conversation) => conversation,
            None => {
                return (more, Ghost(nothing));
            },
        };
        if conversation.is_remote_view() {
            return (more, Ghost(nothing));
        }
        let recorded: i64 = match conversation.last_event_sequence {
            Some(sequence) => sequence,
            None => 0,
        };
        let cursor: i64 = last_persisted(effects, conversation_id, recorded);
        self.event_cursor.insert(conversation_id, cursor);
        let ghost known = StreamerState {
            cursors: old(self)@.cursors.insert(conversation_id, cursor),
            ..old(self)@
        };
        assert(self@ =~= known);
        assert(self.wf_except(Set::empty()));
        match copy_opt(&conversation.run_id) {
            Some(run_id) => {
                self.watch_run(conversation_id, run_id);
                match conversation.task_id {
                    Some(task_id) => {
                        more.push(self.spawn_restore_fetch(conversation_id, task_id, cursor));
                        assert(step_of(*self, more) =~= restore(
                            old(self)@,
                            history@,
                            conversation_id,
                            cursor,
                            nothing,
                        ));
                        return (more, Ghost(nothing));
                    },
                    None => {},
                }
            },
            None => {},
        }
        let ghost ready = *self;
        assert(ready.same_channels(*old(self)));
        assert(ready@ == recall(old(self)@, history@, conversation_id, cursor));
        let out = self.reevaluate_eligibility(conversation_id, history);
        proof {
            Self::lemma_touches_after_none(*old(self), ready, *self, conversation_id);
        }
        out
    }

    /// Asks for the task of a restored conversation.
    fn spawn_restore_fetch(
        &self,
        conversation_id: AIConversationId,
        task_id: AmbientAgentTaskId,
        sqlite_cursor: i64,
    ) -> (effect: StreamerEffect)
        ensures
            effect@ == (StreamerEffectView::FetchTask { conversation_id, task_id, sqlite_cursor }),
            !(effect is OpenStream),
    {
        StreamerEffect::FetchTask { conversation_id, task_id, sqlite_cursor }
    }

    /// The fetch of a restored conversation's task has ended.
    ///
    /// A task brings the server's cursor and the runs of the conversation's
    /// children, which are watched from now on. The conversation goes on from
    /// the latest of that cursor, the persisted one and the one that it has
    /// reached while the fetch was under way, so that nothing comes again. The
    /// server is the authority on the children, so a failed fetch is tried
    /// again after a while.
    pub fn finish_restore_fetch(
        &mut self,
        conversation_id: AIConversationId,
        task_id: AmbientAgentTaskId,
        sqlite_cursor: i64,
        run_result: Result<AmbientAgentTask, RestoreFetchFailed>,
        history: &BlocklistAIHistoryModel,
    ) -> (effects: Vec<StreamerEffect>)
        requires
            old(self).wf(),
            run_result is Ok ==> old(self)@.next_generation < u64::MAX,
            run_result is Err ==> old(self)@.failures_of(conversation_id) < usize::MAX,
        ensures
            final(self).wf(),
            fetch_finished(
                *old(self),
                history@,
                conversation_id,
                task_id,
                sqlite_cursor,
                run_result,
                step_of(*final(self), effects),
            ),
            final(self).hands_out(effects@),
            final(self).touches_only(*old(self), conversation_id),
            final(self).keeps_channels(*old(self)),
    {
        match run_result {
            Ok(task) => {
                self.restore_fetch_failures.remove(&conversation_id);
                if !self.event_cursor.contains_key(&conversation_id) {
                    let effects: Vec<StreamerEffect> = Vec::new();
                    assert(step_of(*self, effects) =~= Step::none(
                        StreamerState {
                            failures: old(self)@.failures.remove(conversation_id),
                            ..old(self)@
                        },
                    ));
                    return effects;
                }
                let server_cursor: i64 = match task.last_event_sequence {
                    Some(sequence) => sequence,
                    None => 0,
                };
                let fetched: i64 = if sqlite_cursor >= server_cursor {
                    sqlite_cursor
                } else {
                    server_cursor
                };
                let reached: i64 = match self.event_cursor.get(&conversation_id) {
                    Some(cursor) => *cursor,
                    None => 0,
                };
                let merged: i64 = if reached >= fetched {
                    reached
                } else {
                    fetched
                };
                self.event_cursor.insert(conversation_id, merged);
                let had_sse = self.sse_connections.contains_key(&conversation_id);
                let any_new_children = self.watch_children(conversation_id, &task.children);
                proof {
                    assert(self@ =~= merge_task(
                        old(self)@,
                        conversation_id,
                        sqlite_cursor,
                        task@,
                    ));
                    assert(Set::<AIConversationId>::empty().remove(conversation_id)
                        =~= Set::empty());
                }
                if any_new_children && had_sse {
                    let (effects, drawn) = self.reconnect_sse(conversation_id, history);
                    effects
                } else {
                    let (effects, drawn) = self.reevaluate_eligibility(conversation_id, history);
                    effects
                }
            },
            Err(_) => self.start_restore_fetch_retry_timer(conversation_id, task_id, sqlite_cursor),
        }
    }

    /// Has the runs of children watched on behalf of a conversation, which is
    /// listed from then on even if there are none; says whether any is new.
    fn watch_children(
        &mut self,
        conversation_id: AIConversationId,
        children: &Vec<String>,
    ) -> (any_new: bool)
        requires
            old(self).wf(),
        ensures
            final(self).wf(),
            final(self)@ == (StreamerState {
                watched: old(self)@.watched.insert(
                    conversation_id,
                    old(self)@.watched_by(conversation_id).union(texts(children@).to_set()),
                ),
                ..old(self)@
            }),
            any_new == !texts(children@).to_set().subset_of(
                old(self)@.watched_by(conversation_id),
            ),
            final(self).same_channels(*old(self)),
    {
        let ghost before = old(self)@.watched_by(conversation_id);
        let ghost runs = texts(children@);
        let mut set = match self.watched_run_ids.remove(&conversation_id) {
            Some(set) => set,
            None => RunIdSet::new(),
        };
        proof {
            assert(set@ =~= before);
            assert(runs.take(0).to_set() =~= Set::empty());
            assert(before.union(runs.take(0).to_set()) =~= before);
        }
        let mut any_new = false;
        let mut i: usize = 0;
        while i < children.len()
            invariant
                i <= children.len(),
                runs == texts(children@),
                set.wf(),
                set@ == before.union(runs.take(i as int).to_set()),
                any_new == !runs.take(i as int).to_set().subset_of(before),
            decreases children.len() - i,
        {
            let ghost done = runs.take(i as int);
            let ghost run = runs[i as int];
            proof {
                assert(run == children[i as int]@);
                assert(runs.take(i + 1) =~= done.push(run));
                lemma_push(done, run);
                assert(done.push(run).to_set() =~= done.to_set().insert(run));
                assert(before.union(done.to_set().insert(run)) =~= before.union(
                    done.to_set(),
                ).insert(run));
            }
            if set.insert(children[i].clone()) {
                any_new = true;
            }
            proof {
                let now = done.to_set().insert(run);
                assert(now.contains(run));
                assert(done.to_set().subset_of(now));
                if !before.contains(run) {
                    assert(!now.subset_of(before));
                    if done.to_set().contains(run) {
                        assert(!done.to_set().subset_of(before));
                    }
                } else if done.to_set().subset_of(before) {
                    assert(now.subset_of(before));
                } else {
                    let odd = choose|r: Seq<char>|
                        done.to_set().contains(r) && !before.contains(r);
                    assert(now.contains(odd));
                }
            }
            i += 1;
        }
        self.watched_run_ids.insert(conversation_id, set);
        proof {
            assert(runs.take(children.len() as int) =~= runs);
            assert(self@ =~= StreamerState {
                watched: old(self)@.watched.insert(
                    conversation_id,
                    before.union(runs.to_set()),
                ),
                ..old(self)@
            });
            if self@.connected(conversation_id) {
                let run = choose|r: Seq<char>| before.contains(r);
                assert(before =~= Set::empty() || before.contains(run));
                assert(set@.contains(run));
            }
        }
        any_new
    }

    /// A fetch has failed: asks for another after a wait that grows with the
    /// number of failures in a row.
    fn start_restore_fetch_retry_timer(
        &mut self,
        conversation_id: AIConversationId,
        task_id: AmbientAgentTaskId,
        sqlite_cursor: i64,
    ) -> (effects: Vec<StreamerEffect>)
        requires
            old(self).wf(),
            old(self)@.failures_of(conversation_id) < usize::MAX,
        ensures
            final(self).wf(),
            step_of(*final(self), effects) == restore_failed(
                old(self)@,
                conversation_id,
                task_id,
                sqlite_cursor,
            ),
            final(self).hands_out(effects@),
            final(self).same_channels(*old(self)),
    {
        let failures: usize = match self.restore_fetch_failures.get(&conversation_id) {
            Some(failures) => *failures + 1,
            None => 1,
        };
        self.restore_fetch_failures.insert(conversation_id, failures);
        let mut effects: Vec<StreamerEffect> = Vec::new();
        effects.push(
            StreamerEffect::StartRestoreFetchRetryTimer {
                conversation_id,
                task_id,
                sqlite_cursor,
                delay_secs: restore_fetch_backoff_secs(failures),
            },
        );
        proof {
            let wanted = restore_failed(old(self)@, conversation_id, task_id, sqlite_cursor);
            assert(self@ =~= wanted.state);
            assert(effects_view(effects@) =~= wanted.effects);
        }
        effects
    }

    /// The wait after a failed fetch is over: the fetch is tried again, unless
    /// the conversation has gone meanwhile.
    pub fn on_restore_fetch_retry(
        &mut self,
        conversation_id: AIConversationId,
        task_id: AmbientAgentTaskId,
        sqlite_cursor: i64,
    ) -> (effects: Vec<StreamerEffect>)
        requires
            old(self).wf(),
        ensures
            final(self).wf(),
            step_of(*final(self), effects) == retry_restore(
                old(self)@,
                conversation_id,
                task_id,
                sqlite_cursor,
            ),
            final(self).hands_out(effects@),
            final(self).same_channels(*old(self)),
    {
        let mut effects: Vec<StreamerEffect> = Vec::new();
        if self.event_cursor.contains_key(&conversation_id) {
            effects.push(self.spawn_restore_fetch(conversation_id, task_id, sqlite_cursor));
        } else {
            self.restore_fetch_failures.remove(&conversation_id);
        }
        assert(step_of(*self, effects) =~= retry_restore(
            old(self)@,
            conversation_id,
            task_id,
            sqlite_cursor,
        ));
        effects
    }

    // ---- Callbacks of a stream -----------------------------------------

    /// Whether a conversation holds the stream of this generation.
    pub fn is_current(&self, conversation_id: AIConversationId, generation: u64) -> (current: bool)
        ensures
            current == self@.is_current(conversation_id, generation as nat),
    {
        match self.sse_connections.get(&conversation_id) {
            Some(sse) => sse.generation == generation,
            None => false,
        }
    }

    /// The reading of a stream has ended for good, in failure or not. What
    /// waits in its channel is handled; after a failure the stream is renewed
    /// if the conversation is still eligible. If the stream has been replaced
    /// meanwhile, nothing happens.
    pub fn on_driver_exited(
        &mut self,
        conversation_id: AIConversationId,
        generation: u64,
        failed: bool,
        history: &BlocklistAIHistoryModel,
    ) -> (effects: Vec<StreamerEffect>)
        requires
            old(self).wf(),
            failed && old(self)@.is_current(conversation_id, generation as nat) ==> old(
                self,
            )@.next_generation < u64::MAX,
        ensures
            final(self).wf(),
            driver_finished(
                *old(self),
                history@,
                conversation_id,
                generation as nat,
                failed,
                *final(self),
                effects_view(effects@),
            ),
            final(self).hands_out(effects@),
    {
        let ghost nothing = Drawn { items: Seq::empty(), lifecycle: Seq::empty() };
        proof {
            lemma_nothing_drawn(old(self)@, history@, conversation_id);
            assert(Set::<AIConversationId>::empty().remove(conversation_id) =~= Set::empty());
        }
        if !self.is_current(conversation_id, generation) {
            let effects: Vec<StreamerEffect> = Vec::new();
            proof {
                assert(step_of(*self, effects) =~= Step::none(old(self)@));
                assert(drawn_from(old(self)@, history@, conversation_id, nothing));
                assert(drawn_from(
                    absorb(old(self)@, history@, conversation_id, nothing).state,
                    history@,
                    conversation_id,
                    nothing,
                ));
            }
            return effects;
        }
        let (mut effects, drawn) = self.drain(conversation_id, history);
        let ghost handled = *self;
        proof {
            lemma_nothing_drawn(handled@, history@, conversation_id);
            assert(took_in(*old(self), handled, conversation_id, drawn@.items));
            assert(drawn_from(
                absorb(old(self)@, history@, conversation_id, drawn@).state,
                history@,
                conversation_id,
                nothing,
            ));
        }
        if failed {
            let ghost first = effects@;
            let (mut more, drawn_again) = self.reconnect_sse(conversation_id, history);
            let ghost second = more@;
            proof {
                Self::lemma_hands_out_still(handled, *self, first);
                assert(drawn_from(
                    absorb(old(self)@, history@, conversation_id, drawn@).state,
                    history@,
                    conversation_id,
                    drawn_again@,
                ));
                Self::lemma_gives_in_two_parts(
                    *old(self),
                    handled,
                    conversation_id,
                    drawn@.items,
                    drawn_again@.items,
                );
                assert(self.keeps_channels(*old(self))) by {
                    assert forall|id: AIConversationId| #[trigger]
                        self.sse_connections@.contains_key(id) implies {
                        ||| old(self).sse_connections@.contains_key(id) && old(
                            self,
                        ).sse_connections@[id] == self.sse_connections@[id]
                        ||| self.sse_connections@[id].generation >= old(self).next_sse_generation
                            && self.received_by(id) == Seq::<SseStreamItem>::empty()
                    } by {
                        if id == conversation_id {
                            let renewed = settle(handled@, history@, id, drawn_again@);
                            assert(step_of(*self, more).state == renewed.state);
                            assert(renewed.state.connected(id));
                            assert(self@.connections[id] == handled@.next_generation);
                            assert(self@.connections[id] == self.sse_connections@[id].generation);
                            assert(handled@.inv());
                            assert(handled@.connections.contains_key(id));
                        } else {
                            assert(handled.sse_connections@.contains_key(id));
                        }
                    }
                }
            }
            effects.append(&mut more);
            assert(effects_view(effects@) =~= effects_view(first) + effects_view(second));
        }
        effects
    }

    /// It is time to drain the channel of a stream: what waits in it is
    /// handled, and the timer starts again. If the stream has been replaced
    /// meanwhile, nothing happens.
    pub fn on_drain_timer(
        &mut self,
        conversation_id: AIConversationId,
        generation: u64,
        history: &BlocklistAIHistoryModel,
    ) -> (effects: Vec<StreamerEffect>)
        requires
            old(self).wf(),
        ensures
            final(self).wf(),
            drain_due(
                *old(self),
                history@,
                conversation_id,
                generation as nat,
                *final(self),
                effects_view(effects@),
            ),
            final(self).hands_out(effects@),
    {
        if !self.is_current(conversation_id, generation) {
            let effects: Vec<StreamerEffect> = Vec::new();
            proof {
                lemma_nothing_drawn(old(self)@, history@, conversation_id);
                assert(step_of(*self, effects) =~= Step::none(old(self)@));
            }
            return effects;
        }
        let (mut effects, drawn) = self.drain(conversation_id, history);
        let ghost first = effects@;
        effects.push(self.start_sse_drain_timer(conversation_id, generation));
        assert(effects_view(effects@) =~= effects_view(first).push(effects@.last()@));
        assert(took_in(*old(self), *self, conversation_id, drawn@.items));
        effects
    }

    // ---- Dispatch ------------------------------------------------------

    /// Reacts to a change of the history.
    pub fn handle_history_event(
        &mut self,
        event: &BlocklistAIHistoryEvent,
        orchestration_v2: bool,
        history: &BlocklistAIHistoryModel,
    ) -> (effects: Vec<StreamerEffect>)
        requires
            old(self).wf(),
            old(self)@.next_generation + streams_at_most(*event, orchestration_v2, old(self)@)
                <= u64::MAX,
        ensures
            final(self).wf(),
            history_changed(
                *old(self),
                history@,
                orchestration_v2,
                *event,
                step_of(*final(self), effects),
            ),
            final(self).hands_out(effects@),
            final(self).keeps_channels(*old(self)),
    {
        match event {
            BlocklistAIHistoryEvent::ConversationServerTokenAssigned { conversation_id } => {
                self.on_server_token_assigned(*conversation_id, history)
            },
            BlocklistAIHistoryEvent::UpdatedStreamingExchange { conversation_id, exchange_id } => {
                self.on_streaming_exchange_updated(*conversation_id, *exchange_id, history)
            },
            BlocklistAIHistoryEvent::RemoveConversation { conversation_id } => {
                self.on_conversation_removed(*conversation_id, history)
            },
            BlocklistAIHistoryEvent::DeletedConversation { conversation_id } => {
                self.on_conversation_removed(*conversation_id, history)
            },
            BlocklistAIHistoryEvent::RestoredConversations { conversation_ids } => {
                self.on_restored_conversations(conversation_ids, orchestration_v2, history)
            },
            BlocklistAIHistoryEvent::StartedNewConversation
            | BlocklistAIHistoryEvent::CreatedSubtask
            | BlocklistAIHistoryEvent::UpgradedTask
            | BlocklistAIHistoryEvent::AppendedExchange
            | BlocklistAIHistoryEvent::ReassignedExchange
            | BlocklistAIHistoryEvent::SetActiveConversation
            | BlocklistAIHistoryEvent::ClearedActiveConversation
            | BlocklistAIHistoryEvent::ClearedConversationsInTerminalView
            | BlocklistAIHistoryEvent::UpdatedTodoList
            | BlocklistAIHistoryEvent::UpdatedAutoexecuteOverride
            | BlocklistAIHistoryEvent::SplitConversation
            | BlocklistAIHistoryEvent::UpdatedConversationStatus
            | BlocklistAIHistoryEvent::UpdatedConversationMetadata
            | BlocklistAIHistoryEvent::UpdatedConversationArtifacts => {
                let effects: Vec<StreamerEffect> = Vec::new();
                assert(step_of(*self, effects) =~= Step::none(old(self)@));
                effects
            },
        }
    }
}

/// The wait, in seconds, after so many failed fetches in a row.
pub fn restore_fetch_backoff_secs(failures: usize) -> (secs: u64)
    ensures
        secs == backoff_secs(failures as nat),
{
    if failures <= 1 {
        1
    } else if failures == 2 {
        2
    } else if failures == 3 {
        5
    } else {
        10
    }
}

/// Registers a consumer of agent events for a conversation. Without the second
/// version of orchestration nothing happens.
pub fn register_agent_event_consumer(
    streamer: &mut OrchestrationEventStreamer,
    orchestration_v2: bool,
    conversation_id: AIConversationId,
    consumer_id: EntityId,
    history: &BlocklistAIHistoryModel,
) -> (effects: Vec<StreamerEffect>)
    requires
        old(streamer).wf(),
        orchestration_v2 ==> old(streamer)@.next_generation < u64::MAX,
    ensures
        final(streamer).wf(),
        consumer_registered_if_enabled(
            *old(streamer),
            history@,
            orchestration_v2,
            conversation_id,
            consumer_id,
            step_of(*final(streamer), effects),
        ),
        final(streamer).hands_out(effects@),
        final(streamer).touches_only(*old(streamer), conversation_id),
        final(streamer).keeps_channels(*old(streamer)),
{
    if !orchestration_v2 {
        let effects: Vec<StreamerEffect> = Vec::new();
        assert(step_of(*streamer, effects) =~= Step::none(old(streamer)@));
        return effects;
    }
    streamer.register_consumer(conversation_id, consumer_id, history)
}

/// The counterpart of [`register_agent_event_consumer`].
pub fn unregister_agent_event_consumer(
    streamer: &mut OrchestrationEventStreamer,
    orchestration_v2: bool,
    conversation_id: AIConversationId,
    consumer_id: EntityId,
    history: &BlocklistAIHistoryModel,
) -> (effects: Vec<StreamerEffect>)
    requires
        old(streamer).wf(),
        orchestration_v2 ==> old(streamer)@.next_generation < u64::MAX,
    ensures
        final(streamer).wf(),
        consumer_unregistered_if_enabled(
            *old(streamer),
            history@,
            orchestration_v2,
            conversation_id,
            consumer_id,
            step_of(*final(streamer), effects),
        ),
        final(streamer).hands_out(effects@),
        final(streamer).touches_only(*old(streamer), conversation_id),
        final(streamer).keeps_channels(*old(streamer)),
{
    if !orchestration_v2 {
        let effects: Vec<StreamerEffect> = Vec::new();
        assert(step_of(*streamer, effects) =~= Step::none(old(streamer)@));
        return effects;
    }
    streamer.unregister_consumer(conversation_id, consumer_id, history)
}

/// The event sequence that `effects` persist last for a conversation, or
/// `otherwise` if they persist none.
fn last_persisted(
    effects: &Vec<StreamerEffect>,
    conversation_id: AIConversationId,
    otherwise: i64,
) -> (sequence: i64)
    ensures
        sequence == persisted_by(effects_view(effects@), conversation_id, otherwise),
{
    let mut persisted: i64 = otherwise;
    let ghost views = effects_view(effects@);
    let mut i: usize = 0;
    while i < effects.len()
        invariant
            i <= effects.len(),
            views == effects_view(effects@),
            persisted == persisted_by(views.take(i as int), conversation_id, otherwise),
        decreases effects.len() - i,
    {
        match &effects[i] {
            StreamerEffect::UpdateEventSequence { conversation_id: other, sequence } => {
                if *other == conversation_id {
                    persisted = *sequence;
                }
            },
            _ => {},
        }
        assert(views.take(i + 1).drop_last() =~= views.take(i as int));
        assert(views.take(i + 1).last() == effects[i as int]@);
        i += 1;
    }
    assert(views.take(views.len() as int) =~= views);
    persisted
}

/// The highest sequence in a batch, or `otherwise` if the batch is empty.
fn highest_sequence_in(events: &Vec<AgentRunEvent>, otherwise: i64) -> (sequence: i64)
    ensures
        sequence == highest_sequence(events_view(events@), otherwise),
{
    if events.len() == 0 {
        return otherwise;
    }
    let ghost log = events_view(events@);
    let mut sequence: i64 = events[0].sequence;
    let mut i: usize = 1;
    assert(log.take(1).len() == 1 && log.take(1)[0] == events[0]@);
    while i < events.len()
        invariant
            1 <= i <= events.len(),
            log == events_view(events@),
            sequence == highest_sequence(log.take(i as int), otherwise),
        decreases events.len() - i,
    {
        proof {
            assert(log.take(i + 1).drop_last() =~= log.take(i as int));
            assert(log.take(i + 1).last() == events[i as int]@);
        }
        if events[i].sequence > sequence {
            sequence = events[i].sequence;
        }
        i += 1;
    }
    assert(log.take(events.len() as int) =~= log);
    sequence
}

/// The ids of the messages to the run `self_run_id` that a batch announces.
fn announced_in(events: &Vec<AgentRunEvent>, self_run_id: &str) -> (message_ids: Vec<String>)
    ensures
        texts(message_ids@) == announced_ids(events_view(events@), self_run_id@),
{
    let ghost log = events_view(events@);
    let ghost keep = |e: AgentRunEventView| announces_message_to(e, self_run_id@);
    let mut message_ids: Vec<String> = Vec::new();
    proof {
        lemma_filter_none(log, keep);
        assert(texts(message_ids@) =~= announced_ids(log.take(0), self_run_id@));
    }
    let mut i: usize = 0;
    while i < events.len()
        invariant
            i <= events.len(),
            log == events_view(events@),
            keep == (|e: AgentRunEventView| announces_message_to(e, self_run_id@)),
            texts(message_ids@) == announced_ids(log.take(i as int), self_run_id@),
        decreases events.len() - i,
    {
        let event = &events[i];
        let ghost before = message_ids@;
        proof {
            assert(log[i as int] == event@);
            lemma_filter_step(log, i as int, keep);
        }
        if reads(&event.event_type, "new_message") && reads(&event.run_id, self_run_id) {
            match &event.ref_id {
                Some(ref_id) => {
                    message_ids.push(ref_id.clone());
                },
                None => {},
            }
        }
        proof {
            if keep(event@) {
                assert(announced_ids(log.take(i + 1), self_run_id@) =~= announced_ids(
                    log.take(i as int),
                    self_run_id@,
                ).push(event.ref_id->0@));
                assert(texts(message_ids@) =~= texts(before).push(event.ref_id->0@));
            }
        }
        i += 1;
    }
    assert(log.take(events.len() as int) =~= log);
    message_ids
}

/// Parts the items of a batch beyond a cursor into events and messages.
fn split_fresh(items: Vec<SseStreamItem>, cursor: i64) -> (parts: (
    Vec<AgentRunEvent>,
    Vec<ReceivedMessageInput>,
))
    ensures
        events_view(parts.0@) == item_events(fresh_items(items_view(items@), cursor)),
        messages_view(parts.1@) == item_messages(fresh_items(items_view(items@), cursor)),
{
    let ghost all = items_view(items@);
    let ghost fresh = |i: SseStreamItemView| i.event.sequence > cursor;
    let ghost with_message = |i: SseStreamItemView| i.fetched_message is Some;
    let mut events: Vec<AgentRunEvent> = Vec::new();
    let mut messages: Vec<ReceivedMessageInput> = Vec::new();
    proof {
        lemma_filter_none(all, fresh);
        lemma_filter_none(all.take(0), with_message);
        assert(all.take(0).take(0) =~= all.take(0));
        assert(fresh_items(all.take(0), cursor) =~= all.take(0));
        assert(events_view(events@) =~= item_events(fresh_items(all.take(0), cursor)));
        assert(messages_view(messages@) =~= item_messages(fresh_items(all.take(0), cursor)));
    }
    for item in it: items
        invariant
            it.seq() == items@,
            all == items_view(items@),
            fresh == (|i: SseStreamItemView| i.event.sequence > cursor),
            with_message == (|i: SseStreamItemView| i.fetched_message is Some),
            events_view(events@) == item_events(fresh_items(all.take(it.index() as int), cursor)),
            messages_view(messages@) == item_messages(
                fresh_items(all.take(it.index() as int), cursor),
            ),
    {
        let ghost k = it.index() as int;
        let ghost so_far = fresh_items(all.take(k), cursor);
        let ghost now = fresh_items(all.take(k + 1), cursor);
        let ghost events_before = events@;
        let ghost messages_before = messages@;
        let ghost said = item@;
        proof {
            assert(all[k] == item@);
            lemma_filter_step(all, k, fresh);
            if fresh(said) {
                assert(now == so_far.push(said));
                assert(now.take(now.len() as int) =~= now);
                assert(now.take(now.len() - 1) =~= so_far);
                lemma_filter_step(now, now.len() - 1, with_message);
            }
        }
        if item.event.sequence > cursor {
            let SseStreamItem { event, fetched_message } = item;
            if let Some(message) = fetched_message {
                messages.push(message);
                proof {
                    assert(messages_view(messages@) =~= messages_view(messages_before).push(
                        message@,
                    ));
                    assert(item_messages(now) =~= item_messages(so_far).push(message@));
                }
            }
            events.push(event);
            proof {
                assert(events_view(events@) =~= events_view(events_before).push(event@));
                assert(item_events(now) =~= item_events(so_far).push(event@));
            }
        }
    }
    assert(all.take(items@.len() as int) =~= all);
    (events, messages)
}

/// An empty batch reports nothing.
proof fn lemma_nothing_converts(events: Seq<AgentRunEventView>, self_run_id: Seq<char>)
    requires
        events.len() == 0,
    ensures
        converts(events, self_run_id, Seq::empty()),
{
    lemma_filter_none(
        events,
        |e: AgentRunEventView| crate::events::reports_lifecycle(e, self_run_id),
    );
    assert(events.take(0) =~= events);
}

/// It is always possible that nothing comes from outside, and then nothing
/// happens.
proof fn lemma_nothing_drawn(
    state: StreamerState,
    history: HistoryView,
    id: AIConversationId,
)
    ensures
        drawn_from(state, history, id, (Drawn { items: Seq::empty(), lifecycle: Seq::empty() })),
        absorb(state, history, id, (Drawn { items: Seq::empty(), lifecycle: Seq::empty() }))
            == Step::none(state),
{
    let items = Seq::<SseStreamItemView>::empty();
    let cursor = state.cursor_of(id);
    lemma_filter_none(items, |i: SseStreamItemView| i.event.sequence > cursor);
    assert(items.take(0) =~= items);
    lemma_nothing_converts(item_events(fresh_items(items, cursor)), run_id_or_blank(history, id));
}

/// Eligibility rests on consumers and watched runs alone.
proof fn lemma_same_eligibility(
    a: StreamerState,
    b: StreamerState,
    history: HistoryView,
    id: AIConversationId,
)
    requires
        a.watched == b.watched,
        a.consumers == b.consumers,
    ensures
        eligible(a, history, id) == eligible(b, history, id),
{
    assert(a.watched_by(id) == b.watched_by(id));
    assert(watches_child(a, history, id) == watches_child(b, history, id));
}

/// Handling items opens no stream.
proof fn lemma_no_streams_opened(
    state: StreamerState,
    history: HistoryView,
    id: AIConversationId,
    drawn: Drawn,
    effects: Seq<StreamerEffect>,
)
    requires
        effects_view(effects) == absorb(state, history, id, drawn).effects,
    ensures
        forall|i: int| 0 <= i < effects.len() ==> !(#[trigger] effects[i] is OpenStream),
{
    lemma_handling_opens_nothing(state, history, id, drawn);
    assert forall|i: int| 0 <= i < effects.len() implies !(#[trigger] effects[i] is OpenStream) by {
        assert(effects_view(effects)[i] == effects[i]@);
    }
}

/// The messages that an exchange has taken in and that are among `pending`.
fn taken_in(exchange: &AIAgentExchange, pending: &Vec<String>) -> (message_ids: Vec<String>)
    ensures
        texts(message_ids@) == exchange@.filter(
            |message_id: Seq<char>| texts(pending@).contains(message_id),
        ),
{
    let ghost keep = |message_id: Seq<char>| texts(pending@).contains(message_id);
    let mut message_ids: Vec<String> = Vec::new();
    proof {
        lemma_filter_none(exchange@, keep);
        assert(texts(message_ids@) =~= Seq::<Seq<char>>::empty());
        assert(exchange@.take(0) =~= Seq::<Seq<char>>::empty());
    }
    match &exchange.output {
        Some(messages) => {
            let ghost lists = output_ids(messages@);
            assert(all_ids(lists.take(0)) =~= Seq::<Seq<char>>::empty());
            let mut i: usize = 0;
            while i < messages.len()
                invariant
                    i <= messages.len(),
                    lists == output_ids(messages@),
                    keep == (|message_id: Seq<char>| texts(pending@).contains(message_id)),
                    texts(message_ids@) == all_ids(lists.take(i as int)).filter(keep),
                decreases messages.len() - i,
            {
                let ghost so_far = all_ids(lists.take(i as int));
                let ghost list = lists[i as int];
                proof {
                    assert(lists.take(i + 1).drop_last() =~= lists.take(i as int));
                    assert(lists.take(i + 1).last() == list);
                    assert(list == messages[i as int]@);
                }
                match &messages[i] {
                    AIAgentOutputMessageType::MessagesReceivedFromAgents { message_ids: ids } => {
                        assert(so_far + list.take(0) =~= so_far);
                        let mut j: usize = 0;
                        while j < ids.len()
                            invariant
                                j <= ids.len(),
                                list == texts(ids@),
                                keep == (|message_id: Seq<char>|
                                    texts(pending@).contains(message_id)),
                                texts(message_ids@) == (so_far + list.take(j as int)).filter(keep),
                            decreases ids.len() - j,
                        {
                            let ghost before = message_ids@;
                            proof {
                                let joined = so_far + list;
                                let at = so_far.len() + j;
                                assert(joined.take(at) =~= so_far + list.take(j as int));
                                assert(joined.take(at + 1) =~= so_far + list.take(j + 1));
                                assert(joined[at] == ids[j as int]@);
                                lemma_filter_step(joined, at, keep);
                            }
                            if is_among(ids[j].as_str(), pending) {
                                message_ids.push(ids[j].clone());
                                assert(texts(message_ids@) =~= texts(before).push(
                                    ids[j as int]@,
                                ));
                            }
                            j += 1;
                        }
                        assert(list.take(ids.len() as int) =~= list);
                    },
                    AIAgentOutputMessageType::Other => {
                        assert(so_far + list =~= so_far);
                    },
                }
                i += 1;
            }
            assert(lists.take(messages.len() as int) =~= lists);
        },
        None => {
            assert(exchange@ =~= exchange@.take(0));
        },
    }
    message_ids
}

/// The strings of a list that are not in another.
fn all_but(strings: &Vec<String>, others: &Vec<String>) -> (rest: Vec<String>)
    ensures
        texts(rest@) == texts(strings@).filter(|s: Seq<char>| !texts(others@).contains(s)),
{
    let ghost all = texts(strings@);
    let ghost keep = |s: Seq<char>| !texts(others@).contains(s);
    let mut rest: Vec<String> = Vec::new();
    proof {
        lemma_filter_none(all, keep);
        assert(texts(rest@) =~= Seq::<Seq<char>>::empty());
    }
    let mut i: usize = 0;
    while i < strings.len()
        invariant
            i <= strings.len(),
            all == texts(strings@),
            keep == (|s: Seq<char>| !texts(others@).contains(s)),
            texts(rest@) == all.take(i as int).filter(keep),
        decreases strings.len() - i,
    {
        let ghost before = rest@;
        proof {
            assert(all[i as int] == strings[i as int]@);
            lemma_filter_step(all, i as int, keep);
        }
        if !is_among(strings[i].as_str(), others) {
            rest.push(strings[i].clone());
            assert(texts(rest@) =~= texts(before).push(strings[i as int]@));
        }
        i += 1;
    }
    assert(all.take(strings.len() as int) =~= all);
    rest
}

/// Where no message waits for confirmation, none can be confirmed.
proof fn lemma_none_confirmable(
    state: StreamerState,
    history: HistoryView,
    id: AIConversationId,
    exchange_id: AIAgentExchangeId,
)
    requires
        state.pending_of(id).len() == 0,
    ensures
        confirmable(state, history, id, exchange_id).len() == 0,
{
    let keep = |message_id: Seq<char>| state.pending_of(id).contains(message_id);
    if history.contains_key(id) && history[id].exchanges.contains_key(exchange_id) {
        let ids = history[id].exchanges[exchange_id];
        if ids.filter(keep).len() > 0 {
            ids.lemma_filter_pred(keep, 0);
        }
    }
}

/// The conversations that a map lists, each once.
fn listed_keys(map: &HashMap<AIConversationId, RunIdSet>) -> (ids: Vec<AIConversationId>)
    ensures
        ids@.no_duplicates(),
        ids@.to_set() == map@.dom(),
        ids@.len() == map@.dom().len(),
{
    let mut ids: Vec<AIConversationId> = Vec::new();
    for id in it: map.keys()
        invariant
            ids@ == it.seq().unref().take(it.index() as int),
    {
        ids.push(*id);
        assert(it.seq().unref().take(it.index() as int + 1) =~= it.seq().unref().take(
            it.index() as int,
        ).push(*id));
    }
    assert(ids@ =~= map.keys().remaining().unref());
    ids
}

} // verus!
