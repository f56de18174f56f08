//! A single-room presence and broadcast hub: a registry of joined users, one
//! FIFO mailbox per user, fan-out of each accepted message to every mailbox,
//! and a polling step that turns a mailbox into a stream of envelopes.
pub mod app_event;
pub mod event;
pub mod laws;
pub mod state;
