# orchestration_event_streamer

Delivers the events of agent runs to the conversations of an orchestration
tree. A conversation that is a parent or a child of another agent, and that
somebody in this process consumes, holds one long-lived server stream on all
the runs it watches. The library decides when that stream is open, which runs
it covers and where it resumes, drops what was handled before, queues messages
and lifecycle events, and keeps track of deliveries that have yet to be
confirmed.

The library does no I/O. Every call returns the effects that are to be
performed outside, in order, and the callbacks through which their outcome
comes back.

- `src/model.rs` the streamer as a state machine over mathematical values
- `src/streamer.rs` the streamer itself, verified against that machine
- `src/laws.rs`, `src/traces.rs` what holds of the streamer as a whole, and over
  any number of calls
- `src/events.rs`, `src/history.rs`, `src/effects.rs` the data it works on
- `src/channel.rs`, `src/clock.rs` channels, dates and ids, which come from
  outside crates; what is taken on trust about those is stated there
- `app/` performs the effects inside a process
