//! Character breakdowns and hourly usage statistics for a chat bot.
//!
//! The crate resolves code points to their Unicode names, renders a bounded,
//! link-bearing breakdown of a run of characters, decides the reply to a
//! message, and folds usage events into fixed-size time buckets that are
//! written out once each.

pub mod breakdown;
pub mod clock;
pub mod commands;
pub mod digits;
pub mod stats;
pub mod tally;
pub mod unicode;
