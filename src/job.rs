pub mod config;
pub mod manager;
pub mod supervisor;
pub mod validator;

pub use config::{JobConfig, RestartPolicy};
pub use manager::{JobManager, JobState};
