//! A verified state-synchronization and access-control engine for a
//! "join-to-create" voice-room manager.
//!
//! The crate mirrors platform-pushed guild state in an in-process cache,
//! computes the permission-overwrite lists applied to temporary voice
//! channels, and decides the lifecycle of those channels (provisioning on
//! trigger-join, cleanup when empty, ownership claim and transfer, panel
//! message upkeep). All remote input and output — gateway events, HTTP
//! calls, the persistent store — stays outside: callers hand the engine
//! plain values and carry its decisions back out.

pub mod cache;
pub mod lifecycle;
pub mod perms;
pub mod text;
