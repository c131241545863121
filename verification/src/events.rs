//! Agent events as the server logs them, and what the streamer makes of them:
//! lifecycle events of other runs and messages, queued for a conversation.

use crate::clock::{is_random_uuid, new_event_id, parse_occurred_at, stands_for, Timestamp};
use crate::promises::{
    law_lifecycle_is_told, law_names_tell_the_stage, law_queue_takes_everything_in,
    names_lifecycle, queues_all, stands_for_stage, told_of,
};
use crate::text::{copy_opt, lemma_filter_none, lemma_filter_step, opt_text, reads, texts};
use vstd::prelude::*;

verus! {

/// One entry of a run's event log.
pub struct AgentRunEvent {
    pub event_type: String,
    pub run_id: String,
    pub ref_id: Option<String>,
    pub occurred_at: String,
    pub sequence: i64,
}

/// What an [`AgentRunEvent`] says.
pub struct AgentRunEventView {
    pub event_type: Seq<char>,
    pub run_id: Seq<char>,
    pub ref_id: Option<Seq<char>>,
    pub occurred_at: Seq<char>,
    pub sequence: i64,
}

impl View for AgentRunEvent {
    type V = AgentRunEventView;

    open spec fn view(&self) -> AgentRunEventView {
        AgentRunEventView {
            event_type: self.event_type@,
            run_id: self.run_id@,
            ref_id: opt_text(self.ref_id),
            occurred_at: self.occurred_at@,
            sequence: self.sequence,
        }
    }
}

/// What a sequence of events says.
pub open spec fn events_view(events: Seq<AgentRunEvent>) -> Seq<AgentRunEventView> {
    events.map_values(|e: AgentRunEvent| e@)
}

/// A message that another agent sent, with its body.
pub struct ReceivedMessageInput {
    pub message_id: String,
    pub sender_agent_id: String,
    pub addresses: Vec<String>,
    pub subject: String,
    pub message_body: String,
}

/// What a [`ReceivedMessageInput`] says.
pub struct ReceivedMessageView {
    pub message_id: Seq<char>,
    pub sender_agent_id: Seq<char>,
    pub addresses: Seq<Seq<char>>,
    pub subject: Seq<char>,
    pub message_body: Seq<char>,
}

impl View for ReceivedMessageInput {
    type V = ReceivedMessageView;

    open spec fn view(&self) -> ReceivedMessageView {
        ReceivedMessageView {
            message_id: self.message_id@,
            sender_agent_id: self.sender_agent_id@,
            addresses: texts(self.addresses@),
            subject: self.subject@,
            message_body: self.message_body@,
        }
    }
}

/// What a sequence of messages says.
pub open spec fn messages_view(messages: Seq<ReceivedMessageInput>) -> Seq<ReceivedMessageView> {
    messages.map_values(|m: ReceivedMessageInput| m@)
}

/// The stages of a run's life that its watchers hear of.
#[derive(Clone, Copy, Debug, PartialEq, Eq, Structural)]
pub enum LifecycleEventType {
    InProgress,
    Succeeded,
    Failed,
    Errored,
    Cancelled,
    Blocked,
}

/// Where in a run an error arose.
#[derive(Clone, Copy, Debug, PartialEq, Eq, Structural)]
pub enum LifecycleEventDetailStage {
    Runtime,
}

/// What is known of a lifecycle event beyond its type. An absent field takes
/// its default.
pub struct LifecycleEventDetailPayload {
    pub stage: Option<LifecycleEventDetailStage>,
    pub reason: Option<String>,
}

/// What a [`LifecycleEventDetailPayload`] says.
pub struct LifecycleEventDetailView {
    pub stage: Option<LifecycleEventDetailStage>,
    pub reason: Option<Seq<char>>,
}

impl View for LifecycleEventDetailPayload {
    type V = LifecycleEventDetailView;

    open spec fn view(&self) -> LifecycleEventDetailView {
        LifecycleEventDetailView { stage: self.stage, reason: opt_text(self.reason) }
    }
}

/// A lifecycle event of one run, ready to be shown to another.
pub struct AgentEvent {
    pub event_id: String,
    pub run_id: String,
    pub lifecycle_type: LifecycleEventType,
    pub occurred_at: Timestamp,
    pub detail: LifecycleEventDetailPayload,
}

/// What an [`AgentEvent`] says.
pub struct AgentEventView {
    pub event_id: Seq<char>,
    pub run_id: Seq<char>,
    pub lifecycle_type: LifecycleEventType,
    pub occurred_at: Timestamp,
    pub detail: LifecycleEventDetailView,
}

impl View for AgentEvent {
    type V = AgentEventView;

    open spec fn view(&self) -> AgentEventView {
        AgentEventView {
            event_id: self.event_id@,
            run_id: self.run_id@,
            lifecycle_type: self.lifecycle_type,
            occurred_at: self.occurred_at,
            detail: self.detail@,
        }
    }
}

/// What a sequence of lifecycle events says.
pub open spec fn agent_events_view(events: Seq<AgentEvent>) -> Seq<AgentEventView> {
    events.map_values(|e: AgentEvent| e@)
}

/// What a queued event is about.
pub enum PendingEventDetail {
    Message {
        message_id: String,
        addresses: Vec<String>,
        subject: String,
        message_body: String,
    },
    Lifecycle { event: AgentEvent },
}

/// What a [`PendingEventDetail`] says.
pub enum PendingEventDetailView {
    Message {
        message_id: Seq<char>,
        addresses: Seq<Seq<char>>,
        subject: Seq<char>,
        message_body: Seq<char>,
    },
    Lifecycle { event: AgentEventView },
}

impl View for PendingEventDetail {
    type V = PendingEventDetailView;

    open spec fn view(&self) -> PendingEventDetailView {
        match *self {
            PendingEventDetail::Message { message_id, addresses, subject, message_body } =>
                PendingEventDetailView::Message {
                message_id: message_id@,
                addresses: texts(addresses@),
                subject: subject@,
                message_body: message_body@,
            },
            PendingEventDetail::Lifecycle { event } => PendingEventDetailView::Lifecycle {
                event: event@,
            },
        }
    }
}

/// An event queued for delivery to a conversation.
pub struct PendingEvent {
    pub event_id: String,
    pub source_agent_id: String,
    pub attempt_count: u32,
    pub detail: PendingEventDetail,
}

/// What a [`PendingEvent`] says.
pub struct PendingEventView {
    pub event_id: Seq<char>,
    pub source_agent_id: Seq<char>,
    pub attempt_count: u32,
    pub detail: PendingEventDetailView,
}

impl View for PendingEvent {
    type V = PendingEventView;

    open spec fn view(&self) -> PendingEventView {
        PendingEventView {
            event_id: self.event_id@,
            source_agent_id: self.source_agent_id@,
            attempt_count: self.attempt_count,
            detail: self.detail@,
        }
    }
}

/// What a sequence of queued events says.
pub open spec fn pending_events_view(events: Seq<PendingEvent>) -> Seq<PendingEventView> {
    events.map_values(|e: PendingEvent| e@)
}

/// The stage of life that an event type reports. Beside the types named after
/// the states of a task there are three older ones.
pub open spec fn lifecycle_type_of(event_type: Seq<char>) -> Option<LifecycleEventType> {
    if event_type == "run_in_progress"@ || event_type == "run_started"@ || event_type
        == "run_restarted"@ {
        Some(LifecycleEventType::InProgress)
    } else if event_type == "run_succeeded"@ || event_type == "run_idle"@ {
        Some(LifecycleEventType::Succeeded)
    } else if event_type == "run_failed"@ {
        Some(LifecycleEventType::Failed)
    } else if event_type == "run_errored"@ {
        Some(LifecycleEventType::Errored)
    } else if event_type == "run_cancelled"@ {
        Some(LifecycleEventType::Cancelled)
    } else if event_type == "run_blocked"@ {
        Some(LifecycleEventType::Blocked)
    } else {
        None
    }
}

/// Reads an event type.
pub fn lifecycle_type(event_type: &String) -> (lifecycle_type: Option<LifecycleEventType>)
    ensures
        lifecycle_type == lifecycle_type_of(event_type@),
        lifecycle_type is Some <==> names_lifecycle(event_type@),
        lifecycle_type matches Some(stage) ==> stands_for_stage(event_type@, stage),
{
    proof {
        law_names_tell_the_stage();
    }
    if reads(event_type, "run_in_progress") || reads(event_type, "run_started") || reads(
        event_type,
        "run_restarted",
    ) {
        Some(LifecycleEventType::InProgress)
    } else if reads(event_type, "run_succeeded") || reads(event_type, "run_idle") {
        Some(LifecycleEventType::Succeeded)
    } else if reads(event_type, "run_failed") {
        Some(LifecycleEventType::Failed)
    } else if reads(event_type, "run_errored") {
        Some(LifecycleEventType::Errored)
    } else if reads(event_type, "run_cancelled") {
        Some(LifecycleEventType::Cancelled)
    } else if reads(event_type, "run_blocked") {
        Some(LifecycleEventType::Blocked)
    } else {
        None
    }
}

/// Whether an event announces a message.
pub open spec fn announces_message(event: AgentRunEventView) -> bool {
    event.event_type == "new_message"@
}

/// Whether an event tells the run `self_run_id` about the life of another run.
pub open spec fn reports_lifecycle(event: AgentRunEventView, self_run_id: Seq<char>) -> bool {
    &&& !announces_message(event)
    &&& event.run_id != self_run_id
    &&& lifecycle_type_of(event.event_type) is Some
}

/// The events of a batch that tell `self_run_id` about the life of other runs.
pub open spec fn lifecycle_reports(
    events: Seq<AgentRunEventView>,
    self_run_id: Seq<char>,
) -> Seq<AgentRunEventView> {
    events.filter(|e: AgentRunEventView| reports_lifecycle(e, self_run_id))
}

/// What is known of a lifecycle event beyond its type: of an error, that it
/// arose at run time, and the reference of its log entry as the reason.
pub open spec fn lifecycle_detail(event: AgentRunEventView) -> LifecycleEventDetailView {
    if lifecycle_type_of(event.event_type) == Some(LifecycleEventType::Errored) {
        LifecycleEventDetailView {
            stage: Some(LifecycleEventDetailStage::Runtime),
            reason: event.ref_id,
        }
    } else {
        LifecycleEventDetailView { stage: None, reason: None }
    }
}

/// The lifecycle event that `event` reports, under the id and the time given.
pub open spec fn lifecycle_event(
    event: AgentRunEventView,
    event_id: Seq<char>,
    occurred_at: Timestamp,
) -> AgentEventView {
    AgentEventView {
        event_id,
        run_id: event.run_id,
        lifecycle_type: lifecycle_type_of(event.event_type)->0,
        occurred_at,
        detail: lifecycle_detail(event),
    }
}

/// Whether `converted` are the lifecycle events of a batch: one for each
/// report, in the order of the log, under a random id, at the time that the
/// log entry gives.
pub open spec fn converts(
    events: Seq<AgentRunEventView>,
    self_run_id: Seq<char>,
    converted: Seq<AgentEventView>,
) -> bool {
    let reports = lifecycle_reports(events, self_run_id);
    &&& converted.len() == reports.len()
    &&& forall|i: int| #![trigger converted[i]]
        0 <= i < converted.len() ==> {
            &&& converted[i] == lifecycle_event(
                reports[i],
                converted[i].event_id,
                converted[i].occurred_at,
            )
            &&& is_random_uuid(converted[i].event_id)
            &&& stands_for(converted[i].occurred_at, reports[i].occurred_at)
        }
}

/// Assembles a lifecycle event.
pub fn build_lifecycle_event(
    event_id: String,
    run_id: String,
    lifecycle_type: LifecycleEventType,
    occurred_at: Timestamp,
    detail: LifecycleEventDetailPayload,
) -> (event: AgentEvent)
    ensures
        event@ == (AgentEventView {
            event_id: event_id@,
            run_id: run_id@,
            lifecycle_type,
            occurred_at,
            detail: detail@,
        }),
{
    AgentEvent { event_id, run_id, lifecycle_type, occurred_at, detail }
}

/// The lifecycle event that `event` reports to the run `self_run_id`, if it
/// reports one, under the id and the time given.
pub fn convert_lifecycle_event(
    event: &AgentRunEvent,
    self_run_id: &str,
    event_id: String,
    occurred_at: Timestamp,
) -> (converted: Option<AgentEvent>)
    ensures
        converted is Some == reports_lifecycle(event@, self_run_id@),
        converted is Some <==> names_lifecycle(event.event_type@) && event.run_id@ != self_run_id@,
        converted matches Some(converted) ==> converted@ == lifecycle_event(
            event@,
            event_id@,
            occurred_at,
        ),
{
    proof {
        law_names_tell_the_stage();
    }
    if reads(&event.event_type, "new_message") || reads(&event.run_id, self_run_id) {
        return None;
    }
    match lifecycle_type(&event.event_type) {
        Some(lifecycle_type) => {
            let detail = match lifecycle_type {
                LifecycleEventType::Errored => LifecycleEventDetailPayload {
                    stage: Some(LifecycleEventDetailStage::Runtime),
                    reason: copy_opt(&event.ref_id),
                },
                _ => LifecycleEventDetailPayload { stage: None, reason: None },
            };
            Some(
                build_lifecycle_event(
                    event_id,
                    event.run_id.clone(),
                    lifecycle_type,
                    occurred_at,
                    detail,
                ),
            )
        },
        None => None,
    }
}

/// Turns the part of a batch that concerns the life of other runs into
/// lifecycle events. Messages, events of the run itself and events of unknown
/// types are passed over.
pub fn convert_lifecycle_events(events: &Vec<AgentRunEvent>, self_run_id: &str) -> (converted: Vec<
    AgentEvent,
>)
    ensures
        converts(events_view(events@), self_run_id@, agent_events_view(converted@)),
        told_of(events_view(events@), self_run_id@, agent_events_view(converted@)),
{
    let ghost log = events_view(events@);
    let ghost keep = |e: AgentRunEventView| reports_lifecycle(e, self_run_id@);
    let mut converted: Vec<AgentEvent> = Vec::new();
    proof {
        lemma_filter_none(log, keep);
    }
    let mut i: usize = 0;
    while i < events.len()
        invariant
            i <= events.len(),
            log == events_view(events@),
            keep == (|e: AgentRunEventView| reports_lifecycle(e, self_run_id@)),
            converts(log.take(i as int), self_run_id@, agent_events_view(converted@)),
        decreases events.len() - i,
    {
        let event = &events[i];
        let ghost before = agent_events_view(converted@);
        proof {
            assert(log[i as int] == event@);
            lemma_filter_step(log, i as int, keep);
        }
        if !reads(&event.event_type, "new_message") && !reads(&event.run_id, self_run_id) {
            if lifecycle_type(&event.event_type).is_some() {
                let occurred_at = parse_occurred_at(event.occurred_at.as_str());
                let event_id = new_event_id();
                match convert_lifecycle_event(event, self_run_id, event_id, occurred_at) {
                    Some(lifecycle) => {
                        converted.push(lifecycle);
                    },
                    None => {},
                }
            }
        }
        proof {
            let after = agent_events_view(converted@);
            let reports = lifecycle_reports(log.take(i + 1), self_run_id@);
            assert(after.len() == reports.len());
            assert forall|j: int| #![trigger after[j]] 0 <= j < after.len() implies {
                &&& after[j] == lifecycle_event(
                    reports[j],
                    after[j].event_id,
                    after[j].occurred_at,
                )
                &&& is_random_uuid(after[j].event_id)
                &&& stands_for(after[j].occurred_at, reports[j].occurred_at)
            } by {
                if j < before.len() {
                    assert(after[j] == before[j]);
                }
            }
        }
        i += 1;
    }
    assert(log.take(events.len() as int) =~= log);
    proof {
        law_lifecycle_is_told(log, self_run_id@, agent_events_view(converted@));
    }
    converted
}

/// The queue entry of a message.
pub open spec fn message_entry(message: ReceivedMessageView) -> PendingEventView {
    PendingEventView {
        event_id: message.message_id,
        source_agent_id: message.sender_agent_id,
        attempt_count: 0,
        detail: PendingEventDetailView::Message {
            message_id: message.message_id,
            addresses: message.addresses,
            subject: message.subject,
            message_body: message.message_body,
        },
    }
}

/// The queue entry of a lifecycle event, which names no source agent.
pub open spec fn lifecycle_entry(event: AgentEventView) -> PendingEventView {
    PendingEventView {
        event_id: event.event_id,
        source_agent_id: Seq::empty(),
        attempt_count: 0,
        detail: PendingEventDetailView::Lifecycle { event },
    }
}

/// The queue entries of a batch: the messages, then the lifecycle events.
pub open spec fn pending_entries(
    messages: Seq<ReceivedMessageView>,
    lifecycle_events: Seq<AgentEventView>,
) -> Seq<PendingEventView> {
    messages.map_values(|m: ReceivedMessageView| message_entry(m)) + lifecycle_events.map_values(
        |e: AgentEventView| lifecycle_entry(e),
    )
}

/// Lines up a batch for delivery: the messages, then the lifecycle events.
pub fn build_pending_events(
    messages: Vec<ReceivedMessageInput>,
    lifecycle_events: Vec<AgentEvent>,
) -> (pending: Vec<PendingEvent>)
    ensures
        pending_events_view(pending@) == pending_entries(
            messages_view(messages@),
            agent_events_view(lifecycle_events@),
        ),
        queues_all(
            pending_events_view(pending@),
            messages_view(messages@),
            agent_events_view(lifecycle_events@),
        ),
{
    let ghost wanted = pending_entries(
        messages_view(messages@),
        agent_events_view(lifecycle_events@),
    );
    let mut pending: Vec<PendingEvent> = Vec::new();
    for msg in it: messages
        invariant
            it.seq() == messages@,
            pending@.len() == it.index(),
            forall|j: int| #![trigger pending@[j]]
                0 <= j < it.index() ==> pending@[j]@ == message_entry(messages@[j]@),
    {
        pending.push(
            PendingEvent {
                event_id: msg.message_id.clone(),
                source_agent_id: msg.sender_agent_id,
                attempt_count: 0,
                detail: PendingEventDetail::Message {
                    message_id: msg.message_id,
                    addresses: msg.addresses,
                    subject: msg.subject,
                    message_body: msg.message_body,
                },
            },
        );
    }
    for event in it: lifecycle_events
        invariant
            it.seq() == lifecycle_events@,
            pending@.len() == messages@.len() + it.index(),
            forall|j: int| #![trigger pending@[j]]
                0 <= j < messages@.len() ==> pending@[j]@ == message_entry(messages@[j]@),
            forall|j: int| #![trigger pending@[j]]
                messages@.len() <= j < pending@.len() ==> pending@[j]@ == lifecycle_entry(
                    lifecycle_events@[j - messages@.len()]@,
                ),
    {
        pending.push(
            PendingEvent {
                event_id: event.event_id.clone(),
                source_agent_id: String::new(),
                attempt_count: 0,
                detail: PendingEventDetail::Lifecycle { event },
            },
        );
    }
    assert(pending_events_view(pending@) =~= wanted);
    proof {
        law_queue_takes_everything_in(
            messages_view(messages@),
            agent_events_view(lifecycle_events@),
        );
    }
    pending
}

} // verus!
