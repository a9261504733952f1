pub mod monitor;

pub use monitor::ProcessMonitor;
