//! The ends of a channel.

use orchestration_event_streamer::channel::{
    after_send, AgentEventConsumerControlFlow, ReceiverDropped,
};

#[test]
fn reading_goes_on_while_the_channel_takes_events() {
    assert_eq!(after_send(true), Ok(AgentEventConsumerControlFlow::Continue));
    assert_eq!(after_send(false), Err(ReceiverDropped));
}
