//! Verified core of a system monitor: navigation tabs, performance sensors,
//! parsing of hardware listings, number formatting, counter bookkeeping,
//! bounded sample histories and process ranking.

pub mod tabs;
pub mod text;
pub mod number;
pub mod system_info;
pub mod units;
pub mod performance;
pub mod history;
pub mod counters;
pub mod processes;
pub mod labels;
