//! Control-plane library for a fleet of networked audio-streaming endpoints.
//!
//! Each connected client reports telemetry over a persistent connection; the
//! library owns the authoritative live state per client, turns decoded wire
//! messages into state mutations, distributes every state change to every
//! subscriber, and decides how on-disk per-client configuration is kept in
//! step with live state. The surrounding binary only moves bytes: sockets,
//! files and threads live outside this crate.
pub mod config_doc;
pub mod confsync;
pub mod frame;
pub mod json;
pub mod messages;
pub mod parse;
pub mod protocol;
pub mod registry;
pub mod state;
