//! Core of a group-chat companion: an append-only, per-channel segment store
//! with recall reconciliation, a message-segment codec, CSV export, and an
//! edge-triggered presence state machine.
//!
//! Everything here works on plain values; the surrounding process wires these
//! functions to the chat platform, the database engine and the network.

pub mod api;
pub mod codec;
pub mod csv;
pub mod notice;
pub mod presence;
pub mod recent;
pub mod settings;
pub mod sql;
pub mod store;
pub mod text;
pub mod timefmt;
