//! Verified core of a support-ticket workflow.
//!
//! The crate models the durable ticket store (tickets, escalations,
//! reminders, guild settings), the ephemeral TTL lease cache used for
//! scheduler cancellation and edit-session locking, and the decision
//! logic of the time-driven sweeps.  Every state transition is an
//! executable function with a contract; the surrounding process (the
//! chat client, the relational store, the cache server) performs the
//! I/O and feeds plain values in and out.

pub mod config;
pub mod engine;
pub mod lease;
pub mod records;
pub mod store;
pub mod sweeps;
pub mod table;
pub mod time;
