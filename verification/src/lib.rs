//! The download engine's logic: plans, headers, transfer attempts, retries, progress and events.

pub mod attempt;
pub mod binary64;
pub mod cli;
pub mod client;
pub mod events;
pub mod format;
pub mod headers;
pub mod models;
pub mod output;
pub mod pacing;
pub mod progress;
pub mod responses;
pub mod runner;
pub mod schedule;
pub mod speed;
pub mod task;
pub mod telling;
pub mod text;
