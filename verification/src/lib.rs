//! Preserves and restores the window layout and running applications of a
//! desktop session: resolving a re-launchable command for each running
//! process, persisting launch directives and window records, and replaying
//! and reconciling them against live window-manager state.
pub mod adjust;
pub mod cli;
pub mod conf;
pub mod config;
pub mod json;
pub mod model;
pub mod num;
pub mod resolver;
pub mod session;
pub mod strutil;
