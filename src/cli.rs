pub mod args;

pub use args::{DaemonOptions, ExampleType, LogLevel, OutputFormat};
