//! Delivery of agent events to the conversations of an orchestration tree.
//!
//! A conversation that takes part in a tree of agents, as a parent or as a
//! child, follows the event log of the runs it watches over one long-lived
//! server stream. This crate decides when such a stream is open, which runs it
//! covers, where it resumes, and what becomes of every event it brings. What
//! has to be done outside (opening a connection, waiting for a timer, writing
//! a cursor) is handed back to the caller as a list of effects.

pub mod channel;
pub mod clock;
pub mod effects;
pub mod events;
pub mod history;
pub mod laws;
pub mod model;
pub mod promises;
pub mod run_ids;
pub mod streamer;
pub mod text;
pub mod traces;
