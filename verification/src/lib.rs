//! Supervisor for long-lived SSH port-forwarding tunnel processes.
//!
//! The library owns the bookkeeping of the supervisor: the tunnel registry,
//! the health scan that reclassifies dead processes, and the reconnect
//! policy with exponential backoff and attempt limits. Process spawning,
//! file I/O and event delivery live outside the library and hand it plain
//! values.

mod ext;
pub mod strutil;
pub mod config;
pub mod tunnel;
pub mod monitor;
pub mod putty_import;
