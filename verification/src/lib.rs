//! Verified core of a page-oriented embedded storage engine.
//!
//! The crate models the three subsystems of the engine:
//! a disk manager that maps logical page identifiers to slot offsets in a
//! data file and owns an append-only write-ahead log, a disk scheduler that
//! serializes requests through a FIFO queue and reports one completion per
//! request, and an adaptive replacement cache (ARC) that picks eviction
//! victims for a buffer pool.
//!
//! The disk manager and scheduler are verified against an in-memory model of
//! the two backing files; the thin shell that owns real file handles and the
//! worker thread lives outside the verified library and drives the same
//! verified state transitions.

pub mod arc_replacer;
pub mod channel;
pub mod config;
pub mod disk_manager;
pub mod disk_scheduler;
pub mod exception;
