//! An in-process actor and mailbox messaging core: a closed set of addresses,
//! one bounded first-in-first-out mailbox per address, exclusive registration
//! of one consumer per mailbox, and immediate or delayed point-to-point sends.
//!
//! The core never waits and never spawns. Where a caller would have to be
//! suspended, an operation says so in its result and changes nothing; the
//! passing of time is told to the core, which then lets the timers fire. The
//! executor, the clock and the agents themselves live outside.
//!
//! - `address`: addresses and messages.
//! - `error`: the failures surfaced to callers.
//! - `mailbox`: the bounded queue behind each address.
//! - `state`: the postmaster as a mathematical value, and its transitions.
//! - `postmaster`: the table of mailboxes with registrations, task pool and
//!   timers.
//! - `router`: the builder for immediate and delayed sends.
//! - `laws`: what holds of every sequence of operations.

pub mod address;
pub mod error;
pub mod laws;
pub mod mailbox;
pub mod postmaster;
pub mod router;
pub mod state;
