//! A WebSocket connection lifecycle core: a shared count of live
//! connections, a per-connection state machine, a stub message handler and
//! the JSON codec for its two-field response record.

pub mod codec;
pub mod counter;
pub mod handler;
pub mod lifecycle;
pub mod model;
