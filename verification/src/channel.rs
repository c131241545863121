//! The in-process channel between the task that reads a server stream and the
//! streamer that owns the receiving end.

use crate::events::{AgentRunEvent, AgentRunEventView, ReceivedMessageInput, ReceivedMessageView};
use futures::channel::mpsc::{UnboundedReceiver, UnboundedSender};
use vstd::prelude::*;

verus! {

/// The sending half of a channel, `futures::channel::mpsc::UnboundedSender`.
#[verifier::external_type_specification]
#[verifier::external_body]
#[verifier::reject_recursive_types(T)]
pub struct ExUnboundedSender<T>(futures::channel::mpsc::UnboundedSender<T>);

/// The receiving half of a channel, `futures::channel::mpsc::UnboundedReceiver`.
#[verifier::external_type_specification]
#[verifier::external_body]
#[verifier::reject_recursive_types(T)]
pub struct ExUnboundedReceiver<T>(futures::channel::mpsc::UnboundedReceiver<T>);

/// One event of a server stream, with the message it announces where that was
/// addressed to the reader and could be fetched.
pub struct SseStreamItem {
    pub event: AgentRunEvent,
    pub fetched_message: Option<ReceivedMessageInput>,
}

/// What an [`SseStreamItem`] says.
pub struct SseStreamItemView {
    pub event: AgentRunEventView,
    pub fetched_message: Option<ReceivedMessageView>,
}

impl View for SseStreamItem {
    type V = SseStreamItemView;

    open spec fn view(&self) -> SseStreamItemView {
        SseStreamItemView {
            event: self.event@,
            fetched_message: match self.fetched_message {
                Some(message) => Some(message@),
                None => None,
            },
        }
    }
}

/// What a sequence of items says.
pub open spec fn items_view(items: Seq<SseStreamItem>) -> Seq<SseStreamItemView> {
    items.map_values(|i: SseStreamItem| i@)
}

/// The items that a receiver has handed out so far, in order.
pub uninterp spec fn received(receiver: UnboundedReceiver<SseStreamItem>) -> Seq<SseStreamItem>;

/// Whether a receiver, when it was last asked for an item, had none.
pub uninterp spec fn found_empty(receiver: UnboundedReceiver<SseStreamItem>) -> bool;

/// The items that a channel has taken from a sender so far, in order.
pub uninterp spec fn sent(sender: UnboundedSender<SseStreamItem>) -> Seq<SseStreamItem>;

/// Whether a sender, when it was last used, found its channel closed.
pub uninterp spec fn found_closed(sender: UnboundedSender<SseStreamItem>) -> bool;

/// Whether two ends were made as the two ends of one channel.
pub uninterp spec fn paired(
    sender: UnboundedSender<SseStreamItem>,
    receiver: UnboundedReceiver<SseStreamItem>,
) -> bool;

/// `futures::channel::mpsc::unbounded`: the two ends of a new channel, through
/// which nothing has gone yet.
#[verifier::external_body]
pub(crate) fn open_channel() -> (ends: (
    UnboundedSender<SseStreamItem>,
    UnboundedReceiver<SseStreamItem>,
))
    ensures
        sent(ends.0) == Seq::<SseStreamItem>::empty(),
        received(ends.1) == Seq::<SseStreamItem>::empty(),
        paired(ends.0, ends.1),
{
    futures::channel::mpsc::unbounded()
}

/// `UnboundedReceiver::try_recv`: the next item, or nothing where the channel
/// is empty, closed or not. Whether an item is there, and which, rests on the
/// task at the other end, so nothing is claimed of that; an item that comes
/// out is the next one that the receiver has handed out. The receiver stays the
/// other end of the senders that it was the other end of.
#[verifier::external_body]
fn next_item(receiver: &mut UnboundedReceiver<SseStreamItem>) -> (item: Option<SseStreamItem>)
    ensures
        received(*final(receiver)) == match item {
            Some(item) => received(*old(receiver)).push(item),
            None => received(*old(receiver)),
        },
        found_empty(*final(receiver)) == (item is None),
        forall|sender: UnboundedSender<SseStreamItem>|
            paired(sender, *final(receiver)) == paired(sender, *old(receiver)),
{
    receiver.try_recv().ok()
}

/// `UnboundedSender::unbounded_send`: puts an item into the channel; `false`
/// where the channel is closed, as it is once the receiver is gone, and the
/// item is lost. A closed channel does not open again, so what was refused once
/// is refused from then on. When the other end closes the channel rests on the
/// task that holds it, so nothing is claimed of that. The call panics when
/// `usize::MAX / 2` items wait in the channel; an item takes more than two
/// bytes, so no memory holds that many.
#[verifier::external_body]
fn send_item(sender: &mut UnboundedSender<SseStreamItem>, item: SseStreamItem) -> (taken: bool)
    ensures
        sent(*final(sender)) == if taken {
            sent(*old(sender)).push(item)
        } else {
            sent(*old(sender))
        },
        found_closed(*final(sender)) == !taken,
        found_closed(*old(sender)) ==> !taken,
{
    sender.unbounded_send(item).is_ok()
}

/// Whether `items` are what a receiver hands out when it is asked again and
/// again until it has nothing more, or until there are at least as many as a
/// vector holds.
pub open spec fn drained_from(
    receiver: UnboundedReceiver<SseStreamItem>,
    items: Seq<SseStreamItem>,
) -> bool {
    exists|last: UnboundedReceiver<SseStreamItem>|
        {
            &&& #[trigger] received(last) == received(receiver) + items
            &&& found_empty(last) || items.len() >= usize::MAX
        }
}

/// Takes all items that are waiting in a channel. A vector holds at most
/// `usize::MAX` of them; whatever is beyond that stays in the channel.
pub(crate) fn take_items(receiver: &mut UnboundedReceiver<SseStreamItem>) -> (items: Vec<
    SseStreamItem,
>)
    ensures
        received(*final(receiver)) == received(*old(receiver)) + items@,
        found_empty(*final(receiver)) || items.len() == usize::MAX,
        drained_from(*old(receiver), items@),
        forall|sender: UnboundedSender<SseStreamItem>|
            paired(sender, *final(receiver)) == paired(sender, *old(receiver)),
{
    let mut items: Vec<SseStreamItem> = Vec::new();
    while items.len() < usize::MAX
        invariant_except_break
            received(*receiver) == received(*old(receiver)) + items@,
            forall|sender: UnboundedSender<SseStreamItem>|
                paired(sender, *receiver) == paired(sender, *old(receiver)),
        ensures
            received(*receiver) == received(*old(receiver)) + items@,
            found_empty(*receiver) || items.len() == usize::MAX,
            forall|sender: UnboundedSender<SseStreamItem>|
                paired(sender, *receiver) == paired(sender, *old(receiver)),
        decreases usize::MAX - items.len(),
    {
        let ghost before = items@;
        match next_item(receiver) {
            Some(item) => {
                items.push(item);
                assert(received(*old(receiver)) + items@ =~= (received(*old(receiver))
                    + before).push(item));
            },
            None => {
                break;
            },
        }
    }
    items
}

/// What the reader of a stream does after an event.
#[derive(Clone, Copy, Debug, PartialEq, Eq, Structural)]
pub enum AgentEventConsumerControlFlow {
    Continue,
}

/// The receiving end of a channel is gone.
#[derive(Clone, Copy, Debug, PartialEq, Eq, Structural)]
pub struct ReceiverDropped;

/// What follows an attempt to forward an event: reading goes on if the channel
/// took the event, and ends if its receiver is gone.
pub fn after_send(taken: bool) -> (flow: Result<AgentEventConsumerControlFlow, ReceiverDropped>)
    ensures
        taken ==> flow == Ok::<_, ReceiverDropped>(AgentEventConsumerControlFlow::Continue),
        !taken ==> flow == Err::<AgentEventConsumerControlFlow, _>(ReceiverDropped),
{
    if taken {
        Ok(AgentEventConsumerControlFlow::Continue)
    } else {
        Err(ReceiverDropped)
    }
}

/// Forwards the events of a server stream to the streamer.
pub struct SseForwardingConsumer {
    tx: UnboundedSender<SseStreamItem>,
    self_run_id: String,
}

impl SseForwardingConsumer {
    /// The items forwarded so far, in order.
    pub closed spec fn forwarded(&self) -> Seq<SseStreamItem> {
        sent(self.tx)
    }

    /// The channel was closed when the last event was forwarded: nobody holds
    /// its other end.
    pub closed spec fn cut_off(&self) -> bool {
        found_closed(self.tx)
    }

    /// The run on whose behalf the stream is read.
    pub closed spec fn run_id(&self) -> Seq<char> {
        self.self_run_id@
    }

    /// A consumer that forwards into the channel of `tx`.
    pub fn new(tx: UnboundedSender<SseStreamItem>, self_run_id: String) -> (consumer: Self)
        ensures
            consumer.forwarded() == sent(tx),
            consumer.cut_off() == found_closed(tx),
            consumer.run_id() == self_run_id@,
    {
        SseForwardingConsumer { tx, self_run_id }
    }

    /// The run on whose behalf the stream is read: messages addressed to it
    /// are the ones to fetch.
    pub fn self_run_id(&self) -> (run_id: &str)
        ensures
            run_id@ == self.run_id(),
    {
        self.self_run_id.as_str()
    }

    /// Forwards one event, with the message that was fetched for it. Reading
    /// goes on as long as the streamer holds the other end; after that there
    /// is nobody to read for, and no event is taken any more. It fails only
    /// where the channel is found closed.
    pub fn on_event(
        &mut self,
        event: AgentRunEvent,
        fetched_message: Option<ReceivedMessageInput>,
    ) -> (flow: Result<AgentEventConsumerControlFlow, ReceiverDropped>)
        ensures
            final(self).run_id() == old(self).run_id(),
            match flow {
                Ok(flow) => {
                    &&& flow == AgentEventConsumerControlFlow::Continue
                    &&& final(self).forwarded() == old(self).forwarded().push(
                        (SseStreamItem { event, fetched_message }),
                    )
                },
                Err(_) => final(self).forwarded() == old(self).forwarded(),
            },
            flow is Err <==> final(self).cut_off(),
            old(self).cut_off() ==> flow is Err,
    {
        let taken = send_item(&mut self.tx, SseStreamItem { event, fetched_message });
        after_send(taken)
    }
}

} // verus!
