//! Rolling hourly event counters, one per monitored group, with quartile
//! statistics over the retained window and a burst predicate on top of them.
//!
//! Every count is bucketed by absolute hour. A counter keeps the finished
//! hours of the last thirty days and the hour that is still open; the
//! statistics are exact rationals computed over the finished hours.

pub mod clock;
pub mod counter;
pub mod quantile;
pub mod sorting;
pub mod stats;
pub mod store;

pub use clock::{current_hour, hour_of, hour_reading, ClockError};
pub use counter::{GuildJoins, ReadError, Record, BACKLOG_SIZE};
pub use quantile::{get_percentile, linterp};
pub use sorting::sort_ascending;
pub use stats::{Stat, Threshold};
pub use store::GuildJoinsMap;
