//! Terminal session capture and replay: an append-only event log fed by
//! concurrent capture sources, its persisted text form, the session
//! lifecycle as a state machine, and the replay of cumulative screen text.

pub mod error;
pub mod event;
mod text;
pub mod codec;
pub mod replay;
pub mod capture;
pub mod checkpoint;
pub mod session;
pub mod handle;
