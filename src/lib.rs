//! Connection registry and broadcast coordinator of a real-time chat relay.
//!
//! The coordinator is the single writer of the set of live connections: every
//! membership change and every fan-out is decided here, one event at a time.
//! Writing to the transport is left to the caller, who reports back which
//! writes failed.

pub mod registry;
pub mod coordinator;
pub mod ingress;
pub mod laws;
