//! A plain-text journal: entries addressed by calendar date, merged from
//! timestamped units, walked in calendar order, searched and timed.

pub mod calendar;
pub mod chars;
pub mod commands;
pub mod entry;
pub mod error;
pub mod list;
pub mod logstats;
pub mod navigator;
pub mod search;
pub mod stats;
pub mod store;
