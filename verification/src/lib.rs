//! Decision logic of a pop-launcher plugin that drives Toggl Track timers:
//! fuzzy matching, configuration parsing, API request and reply handling,
//! the stale-while-revalidate cache, the launcher wire format and the
//! plugin's request handlers, each with its contract.

pub mod text;
pub mod fuzzy;
pub mod json;
pub mod api;
pub mod dateutil;
pub mod ipc;
pub mod cache;
pub mod config;
pub mod sort;
pub mod plugin;
pub mod setup;
