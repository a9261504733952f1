use nusalaunchd::job::config::{EnvironmentVar, ProgramConfig, SupervisionConfig};
use nusalaunchd::job::manager::{JobEvent, StartAction, StopAction};
use nusalaunchd::job::supervisor::JobSupervisor;
use nusalaunchd::job::{JobConfig, JobManager, JobState, RestartPolicy};
use nusalaunchd::process::ProcessMonitor;
use nusalaunchd::util::error::{ConfigError, NusaError, ProcessError};

fn job(label: &str, path: &str, args: &[&str], supervision: SupervisionConfig) -> JobConfig {
    JobConfig {
        label: label.to_string(),
        description: None,
        program: ProgramConfig {
            path: path.to_string(),
            arguments: args.iter().map(|a| a.to_string()).collect(),
        },
        supervision,
        environment: vec![],
        working_directory: None,
    }
}

fn supervision(keep_alive: bool, policy: RestartPolicy, delay: u64, max: u32) -> SupervisionConfig {
    SupervisionConfig {
        keep_alive,
        restart_policy: policy,
        restart_delay_sec: delay,
        max_restarts: max,
    }
}

fn started(m: &mut JobManager, label: &str, pid: u32, now: u64) {
    match m.start_job(label, now).unwrap() {
        StartAction::Spawn(c) => assert_eq!(c.label, label),
        other => panic!("expected a spawn, got {:?}", other),
    }
    assert_eq!(m.finish_start(label, Ok(pid), now).unwrap(), true);
}

#[test]
fn test_job_lifecycle() {
    let mut manager = JobManager::new();
    let config = JobConfig {
        label: "test-job".to_string(),
        description: Some("Test job".to_string()),
        program: ProgramConfig {
            path: "/bin/sleep".to_string(),
            arguments: vec!["5".to_string()],
        },
        supervision: SupervisionConfig {
            keep_alive: false,
            restart_policy: RestartPolicy::Never,
            restart_delay_sec: 1,
            max_restarts: 0,
        },
        environment: vec![],
        working_directory: None,
    };

    manager.load_job(config).expect("Failed to load job");

    let events = manager.take_events();
    assert!(matches!(&events[0], JobEvent::JobLoaded(label) if label == "test-job"));

    let status = manager.get_job_status("test-job", 0);
    assert!(status.is_some());
    let status = status.unwrap();
    assert_eq!(status.label, "test-job");

    let jobs = manager.list_jobs(0);
    assert_eq!(jobs.len(), 1);
    assert_eq!(jobs[0].label, "test-job");
}

#[test]
fn test_job_restart_policy() {
    let mut manager = JobManager::new();
    let config = JobConfig {
        label: "restart-job".to_string(),
        description: None,
        program: ProgramConfig {
            path: "/bin/true".to_string(),
            arguments: vec![],
        },
        supervision: SupervisionConfig {
            keep_alive: true,
            restart_policy: RestartPolicy::OnFailure,
            restart_delay_sec: 1,
            max_restarts: 3,
        },
        environment: vec![],
        working_directory: None,
    };

    manager.load_job(config.clone()).expect("Failed to load job");

    let supervisor = JobSupervisor::new();

    let should_restart = supervisor.should_restart(&config.supervision, 1, None, 0);
    assert!(should_restart);

    let mut never_config = config.supervision.clone();
    never_config.restart_policy = RestartPolicy::Never;
    let should_restart = supervisor.should_restart(&never_config, 1, None, 0);
    assert!(!should_restart);

    let should_restart = supervisor.should_restart(&config.supervision, 1, None, 3);
    assert!(!should_restart);
}

#[test]
fn test_backoff_calculation() {
    let supervisor = JobSupervisor::new();
    let config = SupervisionConfig {
        keep_alive: true,
        restart_policy: RestartPolicy::Always,
        restart_delay_sec: 2,
        max_restarts: 5,
    };

    let backoff1 = supervisor.calculate_backoff(&config, 0);
    assert_eq!(backoff1.as_secs(), 2);

    let backoff2 = supervisor.calculate_backoff(&config, 1);
    assert_eq!(backoff2.as_secs(), 4);

    let backoff3 = supervisor.calculate_backoff(&config, 2);
    assert_eq!(backoff3.as_secs(), 8);

    let backoff_large = supervisor.calculate_backoff(&config, 10);
    assert!(backoff_large.as_secs() <= 300);
}

#[test]
fn simple_one_shot() {
    let mut m = JobManager::new();
    let c = job("hello", "/bin/echo", &["hi"], supervision(false, RestartPolicy::OnFailure, 1, 5));
    assert_eq!(m.load_job(c).unwrap(), false);
    started(&mut m, "hello", 42, 1_000);
    let report = ProcessMonitor::exit_report(&supervision(false, RestartPolicy::OnFailure, 1, 5), Some(0), None);
    let r = m.handle_process_exit("hello".to_string(), report.exit_code, report.signal, report.restart_needed, 2_000).unwrap();
    assert!(r.is_none());
    let events = m.take_events();
    assert_eq!(events.len(), 3);
    assert!(matches!(&events[0], JobEvent::JobLoaded(l) if l == "hello"));
    assert!(matches!(&events[1], JobEvent::JobStarted(l, 42, 1_000) if l == "hello"));
    assert!(matches!(&events[2], JobEvent::JobExited(l, 0, None, 0) if l == "hello"));
    let s = m.get_job_status("hello", 2_000).unwrap();
    assert!(matches!(s.state, JobState::Stopped));
    assert_eq!(s.pid, None);
    assert_eq!(s.exit_code, Some(0));
}

#[test]
fn auto_start_and_crash_restart() {
    let sup = supervision(true, RestartPolicy::OnFailure, 1, 3);
    let mut m = JobManager::new();
    assert_eq!(m.load_job(job("svc", "/bin/false", &[], sup)).unwrap(), true);
    let mut now: u64 = 0;
    let mut all = m.take_events();
    for attempt in 1..=3u32 {
        started(&mut m, "svc", 100 + attempt, now);
        let report = ProcessMonitor::exit_report(&sup, Some(1), None);
        assert!(report.restart_needed);
        let req = m.handle_process_exit("svc".to_string(), report.exit_code, None, true, now + 10).unwrap();
        if attempt < 3 {
            let req = req.expect("a restart is scheduled");
            assert_eq!(req.label, "svc");
            assert_eq!(req.delay.as_secs(), 1u64 << (attempt - 1));
            now += 10 + req.delay.as_millis();
            assert!(m.handle_restart_request("svc", now));
        } else {
            assert!(req.is_none());
        }
        all.extend(m.take_events());
    }
    assert!(matches!(&all[0], JobEvent::JobLoaded(l) if l == "svc"));
    assert!(matches!(&all[1], JobEvent::JobStarted(l, 101, _) if l == "svc"));
    assert!(matches!(&all[2], JobEvent::JobExited(l, 1, None, 0) if l == "svc"));
    assert!(matches!(&all[3], JobEvent::JobRestartScheduled(l, d, 1) if l == "svc" && d.as_secs() == 1));
    assert!(matches!(&all[4], JobEvent::JobReadyForRestart(l) if l == "svc"));
    assert!(matches!(&all[5], JobEvent::JobStarted(l, 102, _) if l == "svc"));
    match all.last().unwrap() {
        JobEvent::JobFailed(l, JobState::Failed(reason)) => {
            assert_eq!(l, "svc");
            assert_eq!(reason, "Exceeded max restarts (3)");
        }
        other => panic!("unexpected last event {:?}", other),
    }
    let s = m.get_job_status("svc", now).unwrap();
    assert!(matches!(&s.state, JobState::Failed(r) if r == "Exceeded max restarts (3)"));
    assert_eq!(s.restart_count, 3);
    assert_eq!(s.state.to_text(), "failed (Exceeded max restarts (3))");
}

#[test]
fn graceful_stop_with_hang() {
    let mut m = JobManager::new();
    m.load_job(job("hang", "/bin/sleep", &["100"], supervision(false, RestartPolicy::Never, 1, 5))).unwrap();
    started(&mut m, "hang", 7, 0);
    m.take_events();
    let previous = match m.stop_job("hang").unwrap() {
        StopAction::Terminate(pid, previous) => {
            assert_eq!(pid, 7);
            previous
        }
        StopAction::Done => panic!("a running job must be terminated"),
    };
    assert!(matches!(m.get_job_status("hang", 5).unwrap().state, JobState::Stopping));
    assert_eq!(m.get_job_status("hang", 5).unwrap().pid, Some(7));
    let r = m.handle_process_exit("hang".to_string(), -1, Some(9), false, 10_000).unwrap();
    assert!(r.is_none());
    m.finish_stop("hang", previous).unwrap();
    let s = m.get_job_status("hang", 10_000).unwrap();
    assert!(matches!(s.state, JobState::Stopped));
    assert_eq!(s.pid, None);
    let events = m.take_events();
    assert!(matches!(events.last().unwrap(), JobEvent::JobStopped(l, JobState::Running) if l == "hang"));
}

#[test]
fn duplicate_load_rejected() {
    let mut m = JobManager::new();
    m.load_job(job("dup", "/bin/true", &[], supervision(false, RestartPolicy::Never, 1, 5))).unwrap();
    let err = m.load_job(job("dup", "/bin/false", &[], supervision(false, RestartPolicy::Never, 1, 5))).unwrap_err();
    assert!(matches!(err, NusaError::JobExists(ref l) if l == "dup"));
    let s = m.get_job_status("dup", 0).unwrap();
    assert_eq!(s.config.program.path, "/bin/true");
    assert_eq!(m.list_jobs(0).len(), 1);
}

#[test]
fn relative_program_path_rejected_at_load() {
    let mut m = JobManager::new();
    let err = m.load_job(job("rel", "relative/bin", &[], SupervisionConfig::default())).unwrap_err();
    assert!(matches!(err, NusaError::Config(ConfigError::Validation(_))));
    assert!(m.get_job_status("rel", 0).is_none());
}

#[test]
fn slash_label_rejected_at_load() {
    let mut m = JobManager::new();
    let err = m.load_job(job("a/b", "/bin/true", &[], SupervisionConfig::default())).unwrap_err();
    assert!(matches!(err, NusaError::Config(ConfigError::Validation(_))));
    assert!(m.take_events().is_empty());
}

#[test]
fn dormant_policy_schedules_nothing() {
    let sup = supervision(false, RestartPolicy::Always, 1, 5);
    assert!(sup.policy_dormant());
    let mut m = JobManager::new();
    m.load_job(job("dormant", "/bin/true", &[], sup)).unwrap();
    started(&mut m, "dormant", 9, 0);
    let report = ProcessMonitor::exit_report(&sup, Some(0), None);
    assert!(!report.restart_needed);
    let r = m.handle_process_exit("dormant".to_string(), report.exit_code, report.signal, report.restart_needed, 5).unwrap();
    assert!(r.is_none());
    let events = m.take_events();
    assert!(matches!(events.last().unwrap(), JobEvent::JobExited(l, 0, None, 0) if l == "dormant"));
    assert!(!events.iter().any(|e| matches!(e, JobEvent::JobRestartScheduled(..))));
    assert!(matches!(m.get_job_status("dormant", 5).unwrap().state, JobState::Stopped));
}

#[test]
fn pid_present_only_while_running_or_stopping() {
    let mut m = JobManager::new();
    m.load_job(job("p", "/bin/true", &[], supervision(true, RestartPolicy::Always, 1, 0))).unwrap();
    assert_eq!(m.get_job_status("p", 0).unwrap().pid, None);
    assert!(matches!(m.start_job("p", 0).unwrap(), StartAction::Spawn(_)));
    assert_eq!(m.get_job_status("p", 0).unwrap().pid, None);
    m.finish_start("p", Ok(5), 0).unwrap();
    assert_eq!(m.get_job_status("p", 0).unwrap().pid, Some(5));
    m.handle_process_exit("p".to_string(), 3, None, true, 1).unwrap();
    let s = m.get_job_status("p", 1).unwrap();
    assert!(matches!(s.state, JobState::Backoff));
    assert_eq!(s.pid, None);
}

#[test]
fn unlimited_restarts_never_fail() {
    let sup = supervision(true, RestartPolicy::Always, 1, 0);
    let mut m = JobManager::new();
    m.load_job(job("forever", "/bin/true", &[], sup)).unwrap();
    let mut now: u64 = 0;
    for n in 1..=20u32 {
        started(&mut m, "forever", n, now);
        let req = m.handle_process_exit("forever".to_string(), 0, None, true, now).unwrap().unwrap();
        assert!(req.delay.as_secs() <= 300);
        now += req.delay.as_millis();
        assert!(m.handle_restart_request("forever", now));
        assert_eq!(m.get_job_status("forever", now).unwrap().restart_count, n);
    }
}

#[test]
fn concurrent_starts_spawn_once() {
    let mut m = JobManager::new();
    m.load_job(job("once", "/bin/true", &[], supervision(false, RestartPolicy::Never, 1, 5))).unwrap();
    let mut spawns = 0;
    for _ in 0..5 {
        if let StartAction::Spawn(_) = m.start_job("once", 0).unwrap() {
            spawns += 1;
        }
    }
    assert_eq!(spawns, 1);
}

#[test]
fn stop_on_stopped_is_noop() {
    let mut m = JobManager::new();
    m.load_job(job("idle", "/bin/true", &[], supervision(false, RestartPolicy::Never, 1, 5))).unwrap();
    m.take_events();
    assert!(matches!(m.stop_job("idle").unwrap(), StopAction::Done));
    assert!(m.take_events().is_empty());
    assert!(matches!(m.get_job_status("idle", 0).unwrap().state, JobState::Stopped));
}

#[test]
fn stop_then_start_is_clean() {
    let sup = supervision(true, RestartPolicy::Always, 1, 5);
    let mut m = JobManager::new();
    m.load_job(job("r", "/bin/true", &[], sup)).unwrap();
    started(&mut m, "r", 1, 0);
    m.handle_process_exit("r".to_string(), 1, None, true, 0).unwrap();
    assert!(m.handle_restart_request("r", 1_000));
    started(&mut m, "r", 2, 1_000);
    assert_eq!(m.get_job_status("r", 1_000).unwrap().restart_count, 1);
    let previous = match m.stop_job("r").unwrap() {
        StopAction::Terminate(_, p) => p,
        StopAction::Done => panic!("expected a terminate"),
    };
    m.finish_stop("r", previous).unwrap();
    assert!(matches!(m.start_job("r", 2_000).unwrap(), StartAction::Spawn(_)));
    assert_eq!(m.get_job_status("r", 2_000).unwrap().restart_count, 0);
}

#[test]
fn start_in_backoff_waits() {
    let mut m = JobManager::new();
    m.load_job(job("b", "/bin/true", &[], supervision(true, RestartPolicy::Always, 2, 5))).unwrap();
    started(&mut m, "b", 1, 0);
    m.handle_process_exit("b".to_string(), 0, None, true, 100).unwrap();
    match m.start_job("b", 600).unwrap() {
        StartAction::Waiting(d) => assert_eq!(d.as_millis(), 1_500),
        other => panic!("expected a wait, got {:?}", other),
    }
    assert!(!m.handle_restart_request("b", 600));
    assert!(matches!(m.start_job("b", 2_100).unwrap(), StartAction::Spawn(_)));
}

#[test]
fn spawn_failure_marks_failed() {
    let mut m = JobManager::new();
    m.load_job(job("bad", "/nonexistent", &[], supervision(false, RestartPolicy::Never, 1, 5))).unwrap();
    m.take_events();
    assert!(matches!(m.start_job("bad", 0).unwrap(), StartAction::Spawn(_)));
    let err = m.finish_start("bad", Err("No such file".to_string()), 0).unwrap_err();
    assert!(matches!(err, NusaError::Process(ProcessError::Spawn(ref s)) if s == "No such file"));
    let s = m.get_job_status("bad", 0).unwrap();
    assert!(matches!(&s.state, JobState::Failed(r) if r == "Failed to start: No such file"));
    let events = m.take_events();
    assert!(matches!(&events[0], JobEvent::JobFailed(l, _) if l == "bad"));
}

#[test]
fn unknown_label_is_not_found() {
    let mut m = JobManager::new();
    assert!(matches!(m.start_job("ghost", 0), Err(NusaError::JobNotFound(ref l)) if l == "ghost"));
    assert!(matches!(m.stop_job("ghost"), Err(NusaError::JobNotFound(_))));
    assert!(matches!(m.finish_stop("ghost", JobState::Running), Err(NusaError::JobNotFound(_))));
    assert!(matches!(m.handle_process_exit("ghost".to_string(), 0, None, false, 0), Err(NusaError::JobNotFound(_))));
    assert!(!m.handle_restart_request("ghost", 0));
    assert!(m.get_job_status("ghost", 0).is_none());
}

#[test]
fn stopped_while_starting_reports_stale_child() {
    let mut m = JobManager::new();
    m.load_job(job("s", "/bin/true", &[], supervision(false, RestartPolicy::Never, 1, 5))).unwrap();
    assert!(matches!(m.start_job("s", 0).unwrap(), StartAction::Spawn(_)));
    assert!(matches!(m.stop_job("s").unwrap(), StopAction::Done));
    assert_eq!(m.finish_start("s", Ok(11), 0).unwrap(), false);
    assert!(matches!(m.get_job_status("s", 0).unwrap().state, JobState::Stopped));
}

#[test]
fn uptime_counts_from_start() {
    let mut m = JobManager::new();
    m.load_job(job("u", "/bin/true", &[], supervision(false, RestartPolicy::Never, 1, 5))).unwrap();
    assert!(m.get_job_status("u", 0).unwrap().uptime.is_none());
    started(&mut m, "u", 3, 1_000);
    assert_eq!(m.get_job_status("u", 4_500).unwrap().uptime.unwrap().as_millis(), 3_500);
}

#[test]
fn environment_pairs_keep_order() {
    let mut c = job("env", "/bin/bash", &[], SupervisionConfig::default());
    c.environment = vec![
        EnvironmentVar { key: "HOME".to_string(), value: "/tmp/test".to_string() },
        EnvironmentVar { key: "PATH".to_string(), value: "/usr/bin:/bin".to_string() },
        EnvironmentVar { key: "HOME".to_string(), value: "/root".to_string() },
    ];
    let pairs = c.get_env_vars();
    assert_eq!(pairs.len(), 3);
    assert_eq!(pairs[0], ("HOME".to_string(), "/tmp/test".to_string()));
    assert_eq!(pairs[2], ("HOME".to_string(), "/root".to_string()));
}

#[test]
fn stop_on_failed_job_stops_it() {
    let mut m = JobManager::new();
    m.load_job(job("f", "/nonexistent", &[], supervision(false, RestartPolicy::Never, 1, 5))).unwrap();
    assert!(matches!(m.start_job("f", 0).unwrap(), StartAction::Spawn(_)));
    m.finish_start("f", Err("denied".to_string()), 0).unwrap_err();
    m.take_events();
    assert!(matches!(m.stop_job("f").unwrap(), StopAction::Done));
    assert!(matches!(m.get_job_status("f", 0).unwrap().state, JobState::Stopped));
    let events = m.take_events();
    assert_eq!(events.len(), 1);
    assert!(matches!(&events[0], JobEvent::JobStopped(l, JobState::Failed(r)) if l == "f" && r == "Failed to start: denied"));
}

#[test]
fn exit_while_stopping_applies_policy() {
    let sup = supervision(true, RestartPolicy::Always, 2, 0);
    let mut m = JobManager::new();
    m.load_job(job("st", "/bin/true", &[], sup)).unwrap();
    started(&mut m, "st", 8, 0);
    m.take_events();
    let previous = match m.stop_job("st").unwrap() {
        StopAction::Terminate(_, p) => p,
        StopAction::Done => panic!("expected a terminate"),
    };
    let req = m.handle_process_exit("st".to_string(), 0, Some(15), true, 100).unwrap().unwrap();
    assert_eq!(req.delay.as_secs(), 2);
    assert_eq!(req.attempt, 0);
    let s = m.get_job_status("st", 100).unwrap();
    assert!(matches!(s.state, JobState::Backoff));
    assert_eq!(s.pid, None);
    assert_eq!(s.restart_count, 1);
    m.finish_stop("st", previous).unwrap();
    assert!(matches!(m.get_job_status("st", 200).unwrap().state, JobState::Stopped));
    assert!(!m.handle_restart_request("st", 5_000));
    let events = m.take_events();
    assert!(matches!(&events[0], JobEvent::JobExited(l, 0, Some(15), 0) if l == "st"));
    assert!(matches!(&events[1], JobEvent::JobRestartScheduled(_, d, 1) if d.as_secs() == 2));
    assert!(matches!(&events[2], JobEvent::JobStopped(_, JobState::Running)));
}

#[test]
fn exit_of_untracked_child_emits_nothing() {
    let mut m = JobManager::new();
    m.load_job(job("gone", "/bin/true", &[], supervision(false, RestartPolicy::Never, 1, 5))).unwrap();
    m.take_events();
    assert!(m.handle_process_exit("gone".to_string(), 3, None, false, 0).unwrap().is_none());
    assert!(m.take_events().is_empty());
    let s = m.get_job_status("gone", 0).unwrap();
    assert!(matches!(s.state, JobState::Stopped));
    assert_eq!(s.exit_code, Some(3));
}
