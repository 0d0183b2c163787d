//! Shift ledger and directory synchronisation for team rosters.
//!
//! Teams hand a shift from one group of members to the next. From the
//! time-stamped shift history this crate derives, per member, a punch clock:
//! the business days the member has served. It also decides, for one
//! synchronisation cycle, which ledger rows to advance and which identities to
//! push to the external directory group of each team.
//!
//! - [`time`]: the business calendar of `Europe/Berlin`.
//! - [`schedule`]: shifts, and the two most recent shift windows of a team.
//! - [`punch_clock`]: the ledger, recomputed from a history or advanced row
//!   by row.
//! - [`directory`]: the groups and identities of the external directory.
//! - [`sync`]: the cycle of one team, as a machine of states, answers and
//!   questions.
//! - [`hero`], [`error`]: teams, and the errors of the service's edges.
//!
//! Every function is verified against the contract it states. The time zone
//! and the business-day count come from `chrono`, `chrono-tz` and `bdays`, the
//! clock from `std`; what is assumed of them is written on the items of
//! [`time`] that call them.

pub mod directory;
pub mod error;
pub mod hero;
pub mod punch_clock;
pub mod schedule;
pub mod sync;
pub mod time;
