//! Relative-volume scanner: finds equities whose intraday traded volume runs
//! well ahead of what they usually trade by the same time of day, and keeps a
//! bounded, score-ordered leaderboard of them.

pub mod alpaca;
pub mod clock;
pub mod queue;
pub mod ranking;
pub mod readable;
pub mod selection;
pub mod volume;
