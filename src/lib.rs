//! An in-memory, multi-tenant key-value store: named databases, each holding
//! string entries with an optional time-to-live, a command interpreter for the
//! text protocol, a sweeper for expired entries and the per-connection session
//! dialog that creates and selects databases.
//!
//! Time is a plain `u64` count of milliseconds read from a monotonic clock by
//! the caller; every function that needs the current instant takes it as an
//! argument.
pub mod cleaner;
pub mod db;
pub mod parser;
pub mod registry;
pub mod session;
pub mod table;
pub mod text;
