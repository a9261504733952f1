//! Core of a user-space service supervisor: job descriptions and their
//! validation, the restart policy and backoff scheduler, and the per-job
//! lifecycle state machine that turns commands and child exits into state
//! changes, actions for the runtime, and an ordered stream of events.

pub mod cli;
pub mod job;
pub mod process;
pub mod util;
