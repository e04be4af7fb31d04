//! Reminders on request: a short expression of time is read from a command,
//! turned into the instant at which the reminder is due, and the reminder
//! waits in a queue until a scan finds it due.
//!
//! - [`date_utils`] recognises the three ways to write a time: a date such
//!   as `13APR2026`, a time of day such as `1300`, a duration such as `3h`.
//! - [`command`] reads a whole command against the instant it arrives at.
//! - [`queue`] keeps the accepted reminders in the order they fall due,
//!   reports the due ones once, and drops the delivered ones.
//! - [`calendar`] holds the instants and the calendar arithmetic, [`text`]
//!   the characters and numerals below the grammars.
//!
//! Connections, timers and locks are the caller's: every function here
//! works on plain values and returns.

pub mod calendar;
pub mod command;
pub mod date_utils;
pub mod queue;
pub mod text;
