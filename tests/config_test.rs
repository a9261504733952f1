use nusalaunchd::cli::{DaemonOptions, ExampleType, LogLevel};
use nusalaunchd::job::config::{
    default_max_restarts, default_restart_delay, default_true, EnvironmentVar, ProgramConfig,
    SupervisionConfig,
};
use nusalaunchd::job::validator::ConfigValidator;
use nusalaunchd::job::{JobConfig, JobState, RestartPolicy};
use nusalaunchd::util::error::{ConfigError, NusaError, ProcessError};
use nusalaunchd::util::text::{decimal_text, same_text};

fn config(label: &str, path: &str) -> JobConfig {
    JobConfig {
        label: label.to_string(),
        description: None,
        program: ProgramConfig { path: path.to_string(), arguments: vec![] },
        supervision: SupervisionConfig::default(),
        environment: vec![],
        working_directory: None,
    }
}

fn is_validation(r: Result<(), NusaError>) -> bool {
    matches!(r, Err(NusaError::Config(ConfigError::Validation(_))))
}

#[test]
fn valid_config_passes() {
    let mut c = config("web-server", "/usr/sbin/nginx");
    c.working_directory = Some("/var/www".to_string());
    c.environment = vec![EnvironmentVar { key: "NGINX_ENV".to_string(), value: "production".to_string() }];
    assert!(c.validate().is_ok());
    assert!(ConfigValidator::validate(&c).is_ok());
}

#[test]
fn empty_label_and_path_rejected() {
    assert!(is_validation(config("", "").validate()));
    assert!(is_validation(config("   ", "/bin/true").validate()));
    assert!(is_validation(config("\u{3000}\t", "/bin/true").validate()));
    assert!(is_validation(config("ok", "").validate()));
}

#[test]
fn label_characters_checked() {
    for bad in ["a/b", "a\\b", "a:b", "a*b", "a?b", "a\"b", "a<b", "a>b", "a|b", "a\0b"] {
        assert!(is_validation(ConfigValidator::validate_label(bad)), "{:?}", bad);
    }
    assert!(ConfigValidator::validate_label("my-service.2").is_ok());
    assert!(ConfigValidator::validate_label(" padded ").is_ok());
}

#[test]
fn label_length_limit_in_characters() {
    let at_limit = "é".repeat(256);
    assert!(ConfigValidator::validate_label(&at_limit).is_ok());
    let over = "x".repeat(257);
    assert!(is_validation(ConfigValidator::validate_label(&over)));
}

#[test]
fn paths_must_be_absolute() {
    assert!(is_validation(ConfigValidator::validate_program_path("relative/bin")));
    assert!(ConfigValidator::validate_program_path("/bin/true").is_ok());
    assert!(is_validation(ConfigValidator::validate_working_directory("var/www")));
    assert!(is_validation(ConfigValidator::validate_working_directory("")));
    let mut c = config("wd", "/bin/true");
    c.working_directory = Some("tmp".to_string());
    assert!(is_validation(c.validate()));
}

#[test]
fn environment_keys_checked() {
    let env = |k: &str| vec![EnvironmentVar { key: k.to_string(), value: "v".to_string() }];
    assert!(is_validation(ConfigValidator::validate_environment(&env(""))));
    assert!(is_validation(ConfigValidator::validate_environment(&env(" "))));
    assert!(is_validation(ConfigValidator::validate_environment(&env("A=B"))));
    assert!(is_validation(ConfigValidator::validate_environment(&env("A\0"))));
    assert!(ConfigValidator::validate_environment(&env("PATH")).is_ok());
}

#[test]
fn restart_delay_limit() {
    let mut s = SupervisionConfig::default();
    s.restart_delay_sec = 3600;
    assert!(ConfigValidator::validate_supervision(&s).is_ok());
    s.restart_delay_sec = 3601;
    assert!(is_validation(ConfigValidator::validate_supervision(&s)));
}

#[test]
fn supervision_defaults() {
    let s = SupervisionConfig::default();
    assert!(s.keep_alive);
    assert_eq!(s.restart_policy, RestartPolicy::OnFailure);
    assert_eq!(s.restart_delay_sec, 1);
    assert_eq!(s.max_restarts, 5);
    assert_eq!(RestartPolicy::default(), RestartPolicy::OnFailure);
    assert!(default_true());
    assert_eq!(default_restart_delay(), 1);
    assert_eq!(default_max_restarts(), 5);
    assert!(!s.policy_dormant());
}

#[test]
fn config_clone_is_equal() {
    let mut c = config("clone-me", "/bin/echo");
    c.description = Some("d".to_string());
    c.program.arguments = vec!["-g".to_string(), "daemon off;".to_string()];
    let d = c.clone();
    assert_eq!(d.label, "clone-me");
    assert_eq!(d.description.as_deref(), Some("d"));
    assert_eq!(d.program.arguments, vec!["-g", "daemon off;"]);
}

#[test]
fn state_and_level_texts() {
    assert_eq!(JobState::Running.to_text(), "running");
    assert_eq!(JobState::Backoff.to_text(), "backoff");
    assert_eq!(JobState::Failed("x".to_string()).to_text(), "failed (x)");
    assert_eq!(LogLevel::Warn.to_text(), "warn");
    assert_eq!(LogLevel::Trace.to_text(), "trace");
}

#[test]
fn daemon_option_defaults() {
    let d = DaemonOptions::default();
    assert_eq!(d.pid_file, "/run/nusalaunchd.pid");
    assert_eq!(d.state_dir, "/var/lib/nusalaunchd");
    assert_eq!(d.runtime_dir, "/run/nusalaunchd");
    assert_eq!(d.max_jobs, 512);
}

#[test]
fn example_documents() {
    assert!(ExampleType::Database.document().contains("label = \"database\""));
    assert!(ExampleType::Simple.document().contains("/bin/echo"));
}

#[test]
fn process_error_from_text() {
    let e: ProcessError = ProcessError::from("boom".to_string());
    assert!(matches!(e, ProcessError::Other(ref s) if s == "boom"));
}

#[test]
fn text_comparison() {
    assert!(same_text("abc", "abc"));
    assert!(!same_text("abc", "abd"));
    assert!(!same_text("abc", "ab"));
    assert!(same_text("", ""));
}

#[test]
fn effective_environment_last_value_wins() {
    let mut c = config("env", "/bin/bash");
    c.environment = vec![
        EnvironmentVar { key: "HOME".to_string(), value: "/tmp/test".to_string() },
        EnvironmentVar { key: "PATH".to_string(), value: "/usr/bin:/bin".to_string() },
        EnvironmentVar { key: "HOME".to_string(), value: "/root".to_string() },
        EnvironmentVar { key: "DEBUG".to_string(), value: "1".to_string() },
    ];
    let env = c.effective_env();
    assert_eq!(env.len(), 3);
    let home: Vec<_> = env.iter().filter(|(k, _)| k == "HOME").collect();
    assert_eq!(home.len(), 1);
    assert_eq!(home[0].1, "/root");
    assert!(env.contains(&("PATH".to_string(), "/usr/bin:/bin".to_string())));
    assert!(env.contains(&("DEBUG".to_string(), "1".to_string())));
    assert!(config("none", "/bin/true").effective_env().is_empty());
}

#[test]
fn decimal_digits() {
    assert_eq!(decimal_text(0), "0");
    assert_eq!(decimal_text(7), "7");
    assert_eq!(decimal_text(10), "10");
    assert_eq!(decimal_text(305), "305");
    assert_eq!(decimal_text(u32::MAX), "4294967295");
}
