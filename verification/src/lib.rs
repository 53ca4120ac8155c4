//! Status line engine for a swaybar-protocol host.
//!
//! A fixed set of configured sections each run a shell command on their own
//! schedule; the latest trimmed output of every section is merged into one
//! ordered snapshot, which is emitted as a line of JSON whenever an update
//! arrives and the minimum emission interval has passed.

pub mod config;
pub mod controller;
pub mod generator;
pub mod json;
pub mod listener;
pub mod parse;
pub mod protocol;
pub mod runner;
