use vstd::prelude::*;

verus! {

/// Verbosity of the supervisor's own log.
#[derive(Clone, Copy, Debug, PartialEq, Eq, Structural)]
pub enum LogLevel {
    Error,
    Warn,
    Info,
    Debug,
    Trace,
}

/// Kinds of example job description.
#[derive(Clone, Copy, Debug, PartialEq, Eq, Structural)]
pub enum ExampleType {
    Simple,
    WebServer,
    Database,
    Cron,
    Socket,
}

/// Formats of the status listing.
#[derive(Clone, Copy, Debug, PartialEq, Eq, Structural)]
pub enum OutputFormat {
    Table,
    Json,
    Yaml,
    Plain,
}

pub open spec fn level_name(l: LogLevel) -> Seq<char> {
    match l {
        LogLevel::Error => "error"@,
        LogLevel::Warn => "warn"@,
        LogLevel::Info => "info"@,
        LogLevel::Debug => "debug"@,
        LogLevel::Trace => "trace"@,
    }
}

impl LogLevel {
    /// The level's name, as a log filter takes it.
    pub fn to_text(&self) -> (r: String)
        ensures
            r@ == level_name(*self),
    {
        match self {
            LogLevel::Error => String::from_str("error"),
            LogLevel::Warn => String::from_str("warn"),
            LogLevel::Info => String::from_str("info"),
            LogLevel::Debug => String::from_str("debug"),
            LogLevel::Trace => String::from_str("trace"),
        }
    }
}

/// Settings of the daemon command.
#[derive(Debug)]
pub struct DaemonOptions {
    pub pid_file: String,
    pub state_dir: String,
    pub runtime_dir: String,
    pub max_jobs: usize,
}

impl Default for DaemonOptions {
    fn default() -> (r: Self)
        ensures
            r.pid_file@ == "/run/nusalaunchd.pid"@,
            r.state_dir@ == "/var/lib/nusalaunchd"@,
            r.runtime_dir@ == "/run/nusalaunchd"@,
            r.max_jobs == 512,
    {
        DaemonOptions {
            pid_file: String::from_str("/run/nusalaunchd.pid"),
            state_dir: String::from_str("/var/lib/nusalaunchd"),
            runtime_dir: String::from_str("/run/nusalaunchd"),
            max_jobs: 512,
        }
    }
}

pub open spec fn example_text(kind: ExampleType) -> Seq<char> {
    match kind {
        ExampleType::Simple => "# Simple one-shot job\nlabel = \"hello\"\n\n[program]\npath = \"/bin/echo\"\narguments = [\"hi\"]\n\n[supervision]\nkeep_alive = false\nrestart_policy = \"never\"\n"@,
        ExampleType::WebServer => "# Web server example\nlabel = \"web-server\"\ndescription = \"Nginx web server\"\nworking_directory = \"/var/www\"\n\n[program]\npath = \"/usr/sbin/nginx\"\narguments = [\"-g\", \"daemon off;\"]\n\n[supervision]\nkeep_alive = true\nrestart_policy = \"on-failure\"\nrestart_delay_sec = 5\nmax_restarts = 3\n\n[[environment]]\nkey = \"NGINX_ENV\"\nvalue = \"production\"\n"@,
        ExampleType::Database => "# Database service example\nlabel = \"database\"\n\n[program]\npath = \"/usr/bin/postgres\"\n"@,
        ExampleType::Cron => "# Cron-like service example\nlabel = \"cron-job\"\n\n[program]\npath = \"/usr/bin/bash\"\narguments = [\"-c\", \"echo 'Hello from cron'\"]\n"@,
        ExampleType::Socket => "# Socket-activated service example\nlabel = \"socket-service\"\n\n[program]\npath = \"/usr/bin/echo\"\n"@,
    }
}

impl ExampleType {
    /// An example job description of this kind.
    pub fn document(&self) -> (r: String)
        ensures
            r@ == example_text(*self),
    {
        match self {
            ExampleType::Simple => String::from_str("# Simple one-shot job\nlabel = \"hello\"\n\n[program]\npath = \"/bin/echo\"\narguments = [\"hi\"]\n\n[supervision]\nkeep_alive = false\nrestart_policy = \"never\"\n"),
            ExampleType::WebServer => String::from_str("# Web server example\nlabel = \"web-server\"\ndescription = \"Nginx web server\"\nworking_directory = \"/var/www\"\n\n[program]\npath = \"/usr/sbin/nginx\"\narguments = [\"-g\", \"daemon off;\"]\n\n[supervision]\nkeep_alive = true\nrestart_policy = \"on-failure\"\nrestart_delay_sec = 5\nmax_restarts = 3\n\n[[environment]]\nkey = \"NGINX_ENV\"\nvalue = \"production\"\n"),
            ExampleType::Database => String::from_str("# Database service example\nlabel = \"database\"\n\n[program]\npath = \"/usr/bin/postgres\"\n"),
            ExampleType::Cron => String::from_str("# Cron-like service example\nlabel = \"cron-job\"\n\n[program]\npath = \"/usr/bin/bash\"\narguments = [\"-c\", \"echo 'Hello from cron'\"]\n"),
            ExampleType::Socket => String::from_str("# Socket-activated service example\nlabel = \"socket-service\"\n\n[program]\npath = \"/usr/bin/echo\"\n"),
        }
    }
}

} // verus!
