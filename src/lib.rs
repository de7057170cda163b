//! Keeps a limit order book in step with an exchange from two sources: a
//! stream of incremental diff events and full snapshots fetched on request.
//!
//! - `levels`: price levels and how changes apply to one side of a book.
//! - `store`: the book itself, its records, and read-outs of it.
//! - `gate`: where an event stands against a snapshot, and continuity.
//! - `session`: the reconciliation state machine and the fixed-depth feed.
//! - `resync`: the ceiling on consecutive failures.
//! - `decimal`: decimal quantities read as fixed-point integers.

pub mod gate;
pub mod levels;
pub mod store;
pub mod session;
pub mod resync;
pub mod decimal;
