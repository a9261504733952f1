use vstd::prelude::*;

verus! {

/// Failures of every public operation of the library.
#[derive(Debug)]
pub enum NusaError {
    Config(ConfigError),
    Process(ProcessError),
    Io(String),
    JobNotFound(String),
    JobExists(String),
    System(String),
}

/// Failures while reading or checking a job description.
#[derive(Debug)]
pub enum ConfigError {
    Parse(String),
    Validation(String),
    FileNotFound(String),
    UnsupportedFormat,
}

/// Failures around a child process.
#[derive(Debug)]
pub enum ProcessError {
    Spawn(String),
    Exit(i32),
    Signal(i32),
    Timeout,
    Other(String),
}

impl From<String> for ProcessError {
    fn from(s: String) -> (r: ProcessError)
        ensures
            r == ProcessError::Other(s),
    {
        ProcessError::Other(s)
    }
}

impl vstd::std_specs::convert::FromSpecImpl<String> for ProcessError {
    open spec fn obeys_from_spec() -> bool {
        true
    }

    open spec fn from_spec(s: String) -> ProcessError {
        ProcessError::Other(s)
    }
}

pub type Result<T> = core::result::Result<T, NusaError>;

} // verus!
