use vstd::prelude::*;

use crate::job::config::{JobConfig, JobConfigView};
use crate::job::supervisor::{backoff, backoff_secs, cap_reached};
use crate::job::validator::{config_is_valid, is_validation_error};
use crate::util::error::{NusaError, ProcessError, Result};
use crate::util::text::{decimal, decimal_text, same_text};
use crate::util::time::Duration;

verus! {

/// How long `stop_job` waits for a child to end after TERM before it sends KILL, in seconds.
pub const STOP_GRACE_SECS: u64 = 10;

/// Pause between the stop and the start of `restart_job`, in milliseconds.
pub const RESTART_SETTLE_MILLIS: u64 = 100;

/// Lifecycle state of a job.
#[derive(Debug)]
pub enum JobState {
    Stopped,
    Starting,
    Running,
    Stopping,
    /// Woken from backoff; the next start is a restart attempt.
    Restarting,
    Failed(String),
    /// Waiting before restart
    Backoff,
}

/// The mathematical content of a [`JobState`].
pub enum StateView {
    Stopped,
    Starting,
    Running,
    Stopping,
    Restarting,
    Failed(Seq<char>),
    Backoff,
}

impl View for JobState {
    type V = StateView;

    open spec fn view(&self) -> StateView {
        match self {
            JobState::Stopped => StateView::Stopped,
            JobState::Starting => StateView::Starting,
            JobState::Running => StateView::Running,
            JobState::Stopping => StateView::Stopping,
            JobState::Restarting => StateView::Restarting,
            JobState::Failed(reason) => StateView::Failed(reason@),
            JobState::Backoff => StateView::Backoff,
        }
    }
}

impl Clone for JobState {
    fn clone(&self) -> (r: Self)
        ensures
            r == *self,
    {
        match self {
            JobState::Stopped => JobState::Stopped,
            JobState::Starting => JobState::Starting,
            JobState::Running => JobState::Running,
            JobState::Stopping => JobState::Stopping,
            JobState::Restarting => JobState::Restarting,
            JobState::Failed(reason) => JobState::Failed(reason.clone()),
            JobState::Backoff => JobState::Backoff,
        }
    }
}

pub open spec fn state_text(s: StateView) -> Seq<char> {
    match s {
        StateView::Stopped => "stopped"@,
        StateView::Starting => "starting"@,
        StateView::Running => "running"@,
        StateView::Stopping => "stopping"@,
        StateView::Restarting => "restarting"@,
        StateView::Failed(reason) => "failed ("@ + reason + ")"@,
        StateView::Backoff => "backoff"@,
    }
}

impl JobState {
    /// The state as shown to users: `running`, `failed (<reason>)`, ...
    pub fn to_text(&self) -> (r: String)
        ensures
            r@ == state_text(self@),
    {
        proof {
            reveal_strlit("stopped");
            reveal_strlit("starting");
            reveal_strlit("running");
            reveal_strlit("stopping");
            reveal_strlit("restarting");
            reveal_strlit("failed (");
            reveal_strlit(")");
            reveal_strlit("backoff");
        }
        match self {
            JobState::Stopped => "stopped".to_string(),
            JobState::Starting => "starting".to_string(),
            JobState::Running => "running".to_string(),
            JobState::Stopping => "stopping".to_string(),
            JobState::Restarting => "restarting".to_string(),
            JobState::Failed(reason) => "failed (".to_string().concat(reason.as_str()).concat(")"),
            JobState::Backoff => "backoff".to_string(),
        }
    }
}

/// A loaded job and what is known of its child.
#[derive(Debug)]
pub struct JobInstance {
    pub config: JobConfig,
    pub state: JobState,
    pub pid: Option<u32>,
    /// Monotonic instant of the most recent successful start, in milliseconds
    pub start_time: Option<u64>,
    pub restart_count: u32,
    pub last_exit_code: Option<i32>,
    pub last_exit_signal: Option<i32>,
    /// Monotonic deadline of the backoff, in milliseconds
    pub backoff_until: Option<u64>,
    /// Whether a monitor task watches a child of this job
    pub monitor_attached: bool,
}

pub struct InstanceView {
    pub config: JobConfigView,
    pub state: StateView,
    pub pid: Option<u32>,
    pub start_time: Option<u64>,
    pub restart_count: u32,
    pub last_exit_code: Option<i32>,
    pub last_exit_signal: Option<i32>,
    pub backoff_until: Option<u64>,
    pub monitor_attached: bool,
}

impl View for JobInstance {
    type V = InstanceView;

    open spec fn view(&self) -> InstanceView {
        InstanceView {
            config: self.config@,
            state: self.state@,
            pid: self.pid,
            start_time: self.start_time,
            restart_count: self.restart_count,
            last_exit_code: self.last_exit_code,
            last_exit_signal: self.last_exit_signal,
            backoff_until: self.backoff_until,
            monitor_attached: self.monitor_attached,
        }
    }
}

/// A lifecycle notification.
#[derive(Debug)]
pub enum JobEvent {
    JobLoaded(String),
    /// label, pid, start instant in milliseconds
    JobStarted(String, u32, u64),
    /// label, state before the stop
    JobStopped(String, JobState),
    /// label, exit code, signal, restart count
    JobExited(String, i32, Option<i32>, u32),
    JobFailed(String, JobState),
    /// label, delay, attempt
    JobRestartScheduled(String, Duration, u32),
    JobReadyForRestart(String),
}

pub enum EventView {
    Loaded(Seq<char>),
    Started(Seq<char>, u32, u64),
    Stopped(Seq<char>, StateView),
    Exited(Seq<char>, i32, Option<i32>, u32),
    Failed(Seq<char>, StateView),
    RestartScheduled(Seq<char>, u64, u32),
    ReadyForRestart(Seq<char>),
}

impl View for JobEvent {
    type V = EventView;

    open spec fn view(&self) -> EventView {
        match self {
            JobEvent::JobLoaded(l) => EventView::Loaded(l@),
            JobEvent::JobStarted(l, pid, t) => EventView::Started(l@, *pid, *t),
            JobEvent::JobStopped(l, s) => EventView::Stopped(l@, s@),
            JobEvent::JobExited(l, c, s, n) => EventView::Exited(l@, *c, *s, *n),
            JobEvent::JobFailed(l, s) => EventView::Failed(l@, s@),
            JobEvent::JobRestartScheduled(l, d, n) => EventView::RestartScheduled(l@, d.millis, *n),
            JobEvent::JobReadyForRestart(l) => EventView::ReadyForRestart(l@),
        }
    }
}

/// The label of the job an event is about.
pub open spec fn event_label(e: EventView) -> Seq<char> {
    match e {
        EventView::Loaded(l) => l,
        EventView::Started(l, _, _) => l,
        EventView::Stopped(l, _) => l,
        EventView::Exited(l, _, _, _) => l,
        EventView::Failed(l, _) => l,
        EventView::RestartScheduled(l, _, _) => l,
        EventView::ReadyForRestart(l) => l,
    }
}

/// A snapshot of one job.
#[derive(Debug)]
pub struct JobStatus {
    pub label: String,
    pub state: JobState,
    pub pid: Option<u32>,
    pub restart_count: u32,
    pub uptime: Option<Duration>,
    pub exit_code: Option<i32>,
    pub exit_signal: Option<i32>,
    pub config: JobConfig,
}

/// A wake-up that the runtime owes the manager after `delay`.
#[derive(Debug)]
pub struct RestartRequest {
    pub label: String,
    pub delay: Duration,
    /// The restart count whose backoff `delay` is
    pub attempt: u32,
}

/// What the runtime does after `start_job`.
#[derive(Debug)]
pub enum StartAction {
    /// Running, starting or being stopped: nothing to do.
    Unchanged,
    /// In backoff for this much longer: nothing to do.
    Waiting(Duration),
    /// Now `Starting`: spawn this program and report with `finish_start`.
    Spawn(JobConfig),
}

/// What the runtime does after `stop_job`.
#[derive(Debug)]
pub enum StopAction {
    /// The job is stopped or a stop is under way: nothing to do.
    Done,
    /// Now `Stopping`: send TERM to the pid, wait for the child up to the
    /// grace period, send KILL if it is still there, then report with
    /// `finish_stop`, handing back the state.
    Terminate(u32, JobState),
}


/// The registry and the events not yet handed out.
pub struct ManagerView {
    pub jobs: Seq<InstanceView>,
    pub events: Seq<EventView>,
}

/// A child is associated with the job.
pub open spec fn has_child(s: StateView) -> bool {
    s is Running || s is Stopping
}

/// What holds of every job at every public observation point.
pub open spec fn instance_inv(i: InstanceView) -> bool {
    &&& (i.pid is Some <==> has_child(i.state))
    &&& (i.backoff_until is Some <==> i.state is Backoff)
    &&& (i.monitor_attached ==> (i.state is Starting || i.state is Running || i.state is Stopping))
    &&& (i.config.supervision.max_restarts > 0 ==> i.restart_count
        <= i.config.supervision.max_restarts)
    &&& (cap_reached(i.config.supervision, i.restart_count) ==> (i.state is Failed
        || i.state is Stopped))
}

pub open spec fn labels_unique(jobs: Seq<InstanceView>) -> bool {
    forall|i: int, j: int|
        0 <= i < jobs.len() && 0 <= j < jobs.len() && i != j ==> jobs[i].config.label
            != jobs[j].config.label
}

pub open spec fn registry_wf(jobs: Seq<InstanceView>) -> bool {
    &&& labels_unique(jobs)
    &&& forall|i: int| 0 <= i < jobs.len() ==> instance_inv(#[trigger] jobs[i])
}

pub open spec fn has_job(jobs: Seq<InstanceView>, l: Seq<char>) -> bool {
    exists|i: int| 0 <= i < jobs.len() && jobs[i].config.label == l
}

/// Where the job labelled `l` stands in the registry.
pub open spec fn job_index(jobs: Seq<InstanceView>, l: Seq<char>) -> int {
    choose|i: int| 0 <= i < jobs.len() && jobs[i].config.label == l
}

pub open spec fn fresh_instance(c: JobConfigView) -> InstanceView {
    InstanceView {
        config: c,
        state: StateView::Stopped,
        pid: None,
        start_time: None,
        restart_count: 0,
        last_exit_code: None,
        last_exit_signal: None,
        backoff_until: None,
        monitor_attached: false,
    }
}

/// `start_job` on a job in this state is a no-op.
pub open spec fn start_is_noop(i: InstanceView, now: u64) -> bool {
    ||| i.state is Running
    ||| i.state is Starting
    ||| i.state is Stopping
    ||| (i.state is Backoff && i.backoff_until is Some && now < i.backoff_until->0)
}

/// A start out of backoff is a restart attempt and keeps the count; any
/// other start is clean and sets it to zero.
pub open spec fn is_restart_start(s: StateView) -> bool {
    s is Backoff || s is Restarting
}

pub open spec fn starting(i: InstanceView) -> InstanceView {
    InstanceView {
        state: StateView::Starting,
        backoff_until: None,
        restart_count: if is_restart_start(i.state) {
            i.restart_count
        } else {
            0
        },
        ..i
    }
}

pub open spec fn running(i: InstanceView, pid: u32, now: u64) -> InstanceView {
    InstanceView {
        state: StateView::Running,
        pid: Some(pid),
        start_time: Some(now),
        monitor_attached: true,
        ..i
    }
}

pub open spec fn spawn_failure_reason(msg: Seq<char>) -> Seq<char> {
    "Failed to start: "@ + msg
}

pub open spec fn spawn_failed(i: InstanceView, msg: Seq<char>) -> InstanceView {
    InstanceView {
        state: StateView::Failed(spawn_failure_reason(msg)),
        monitor_attached: false,
        ..i
    }
}

/// `finish_stop` ends the stop of a job in this state; a job that is
/// starting or running again belongs to a later start.
pub open spec fn stop_ends(s: StateView) -> bool {
    !(s is Starting || s is Running)
}

/// `stop_job` on a job in this state is a no-op.
pub open spec fn stop_is_noop(s: StateView) -> bool {
    s is Stopped || s is Stopping
}

pub open spec fn stopping(i: InstanceView) -> InstanceView {
    InstanceView { state: StateView::Stopping, monitor_attached: false, ..i }
}

pub open spec fn halted(i: InstanceView) -> InstanceView {
    InstanceView {
        state: StateView::Stopped,
        pid: None,
        start_time: None,
        backoff_until: None,
        monitor_attached: false,
        ..i
    }
}

pub open spec fn bumped(n: u32) -> u32 {
    if n < u32::MAX {
        (n + 1) as u32
    } else {
        n
    }
}

pub open spec fn cap_reason(max: u32) -> Seq<char> {
    "Exceeded max restarts ("@ + decimal(max as nat) + ")"@
}

/// Deadline of the backoff that an exit at `now` starts.
pub open spec fn backoff_deadline(i: InstanceView, now: u64) -> int {
    now + backoff_secs(i.config.supervision.restart_delay_sec, i.restart_count) * 1000
}

/// The job after its child exited.
pub open spec fn after_exit(
    i: InstanceView,
    code: i32,
    signal: Option<i32>,
    restart_needed: bool,
    now: u64,
) -> InstanceView {
    let r = InstanceView { last_exit_code: Some(code), last_exit_signal: signal, ..i };
    if has_child(i.state) {
        let base = InstanceView { pid: None, monitor_attached: false, ..r };
        let n = bumped(i.restart_count);
        if !restart_needed {
            InstanceView { state: StateView::Stopped, ..base }
        } else if cap_reached(i.config.supervision, n) {
            InstanceView {
                state: StateView::Failed(cap_reason(i.config.supervision.max_restarts)),
                restart_count: n,
                ..base
            }
        } else {
            InstanceView {
                state: StateView::Backoff,
                restart_count: n,
                backoff_until: Some(backoff_deadline(i, now) as u64),
                ..base
            }
        }
    } else {
        r
    }
}

/// The events that an exit emits. The exit of a child that the job no
/// longer tracks emits none.
pub open spec fn exit_events(
    i: InstanceView,
    code: i32,
    signal: Option<i32>,
    restart_needed: bool,
) -> Seq<EventView> {
    let l = i.config.label;
    let exited = EventView::Exited(l, code, signal, i.restart_count);
    let n = bumped(i.restart_count);
    if !has_child(i.state) {
        Seq::empty()
    } else if restart_needed {
        if cap_reached(i.config.supervision, n) {
            seq![
                exited,
                EventView::Failed(
                    l,
                    StateView::Failed(cap_reason(i.config.supervision.max_restarts)),
                ),
            ]
        } else {
            seq![
                exited,
                EventView::RestartScheduled(
                    l,
                    (backoff_secs(i.config.supervision.restart_delay_sec, i.restart_count)
                        * 1000) as u64,
                    n,
                ),
            ]
        }
    } else {
        seq![exited]
    }
}

/// The backoff of the job is over and it waits for its restart.
pub open spec fn wake_is_due(i: InstanceView, now: u64) -> bool {
    i.state is Backoff && i.backoff_until is Some && now >= i.backoff_until->0
}

pub open spec fn woken(i: InstanceView) -> InstanceView {
    InstanceView { state: StateView::Restarting, backoff_until: None, ..i }
}

pub open spec fn uptime_millis(start: u64, now: u64) -> u64 {
    if now >= start {
        (now - start) as u64
    } else {
        0
    }
}

/// `s` is a faithful snapshot of `i` at `now`.
pub open spec fn is_status_of(s: JobStatus, i: InstanceView, now: u64) -> bool {
    &&& s.label@ == i.config.label
    &&& s.state@ == i.state
    &&& s.pid == i.pid
    &&& s.restart_count == i.restart_count
    &&& s.exit_code == i.last_exit_code
    &&& s.exit_signal == i.last_exit_signal
    &&& s.config@ == i.config
    &&& (s.uptime is Some <==> i.start_time is Some)
    &&& (s.uptime is Some ==> s.uptime->0.millis == uptime_millis(i.start_time->0, now))
}

pub open spec fn is_spawn_error(e: NusaError, msg: Seq<char>) -> bool {
    e is Process && e->Process_0 is Spawn && e->Process_0->Spawn_0@ == msg
}

pub open spec fn not_found(r: NusaError, l: Seq<char>) -> bool {
    r is JobNotFound && r->JobNotFound_0@ == l
}

fn owned(s: &str) -> (r: String)
    ensures
        r@ == s@,
{
    String::from_str(s)
}

fn snapshot(inst: &JobInstance, now: u64) -> (s: JobStatus)
    ensures
        is_status_of(s, inst@, now),
{
    let uptime = match inst.start_time {
        Some(t) => Some(Duration::from_millis(if now >= t { now - t } else { 0 })),
        None => None,
    };
    JobStatus {
        label: inst.config.label.clone(),
        state: inst.state.clone(),
        pid: inst.pid,
        restart_count: inst.restart_count,
        uptime,
        exit_code: inst.last_exit_code,
        exit_signal: inst.last_exit_signal,
        config: inst.config.clone(),
    }
}

proof fn lemma_job_index(jobs: Seq<InstanceView>, l: Seq<char>, k: int)
    requires
        labels_unique(jobs),
        0 <= k < jobs.len(),
        jobs[k].config.label == l,
    ensures
        has_job(jobs, l),
        job_index(jobs, l) == k,
{
    assert(has_job(jobs, l));
    let c = job_index(jobs, l);
    assert(jobs[c].config.label == l);
}

proof fn lemma_update_wf(jobs: Seq<InstanceView>, k: int, v: InstanceView)
    requires
        registry_wf(jobs),
        0 <= k < jobs.len(),
        v.config.label == jobs[k].config.label,
        instance_inv(v),
    ensures
        registry_wf(jobs.update(k, v)),
{
    let n = jobs.update(k, v);
    assert forall|i: int| 0 <= i < n.len() implies instance_inv(#[trigger] n[i]) by {
        if i != k {
            assert(n[i] == jobs[i]);
        }
    }
}

/// In every registry the manager can reach, a job has a pid exactly when it
/// is running or being stopped.
pub proof fn lemma_pid_iff_child(m: &JobManager, l: Seq<char>)
    requires
        m.wf(),
        has_job(m@.jobs, l),
    ensures
        ({
            let i = m@.jobs[job_index(m@.jobs, l)];
            i.pid is Some <==> (i.state is Running || i.state is Stopping)
        }),
{
    let k = job_index(m@.jobs, l);
    assert(instance_inv(m@.jobs[k]));
}

/// In every registry the manager can reach, a job with `max_restarts` set
/// has a restart count of at most `max_restarts`, and one that has reached
/// it is `Failed`, or `Stopped` by a command after it failed.
pub proof fn lemma_restart_count_capped(m: &JobManager, l: Seq<char>)
    requires
        m.wf(),
        has_job(m@.jobs, l),
    ensures
        ({
            let i = m@.jobs[job_index(m@.jobs, l)];
            let max = i.config.supervision.max_restarts;
            max > 0 ==> i.restart_count <= max && (i.restart_count == max ==> (i.state is Failed
                || i.state is Stopped))
        }),
{
    let k = job_index(m@.jobs, l);
    assert(instance_inv(m@.jobs[k]));
}

/// An exit that schedules a restart sets a deadline at most five minutes ahead.
pub proof fn lemma_exit_deadline_within_cap(
    i: InstanceView,
    code: i32,
    signal: Option<i32>,
    restart_needed: bool,
    now: u64,
)
    requires
        now <= u64::MAX - 300_000,
        has_child(i.state),
    ensures
        ({
            let next = after_exit(i, code, signal, restart_needed, now);
            next.state is Backoff ==> now <= next.backoff_until->0 <= now + 300_000
        }),
{
}

/// Once a start has begun, every further `start_job` on that job is a
/// no-op until the start ends: concurrent starts spawn one child.
pub proof fn lemma_one_spawn(jobs: Seq<InstanceView>, l: Seq<char>, now: u64, later: u64)
    requires
        registry_wf(jobs),
        has_job(jobs, l),
        !start_is_noop(jobs[job_index(jobs, l)], now),
    ensures
        ({
            let k = job_index(jobs, l);
            let after = jobs.update(k, starting(jobs[k]));
            &&& registry_wf(after)
            &&& has_job(after, l)
            &&& job_index(after, l) == k
            &&& start_is_noop(after[k], later)
        }),
{
    let k = job_index(jobs, l);
    assert(instance_inv(jobs[k]));
    lemma_update_wf(jobs, k, starting(jobs[k]));
    lemma_job_index(jobs.update(k, starting(jobs[k])), l, k);
}

/// A job just loaded is in the registry and `Stopped`.
pub proof fn lemma_loaded_job_is_stopped(jobs: Seq<InstanceView>, c: JobConfigView)
    requires
        registry_wf(jobs),
        !has_job(jobs, c.label),
    ensures
        ({
            let after = jobs.push(fresh_instance(c));
            &&& registry_wf(after)
            &&& has_job(after, c.label)
            &&& after[job_index(after, c.label)].state is Stopped
        }),
{
    let after = jobs.push(fresh_instance(c));
    assert forall|i: int, j: int|
        0 <= i < after.len() && 0 <= j < after.len() && i != j implies after[i].config.label
        != after[j].config.label by {
        if i < jobs.len() && j < jobs.len() {
            assert(after[i] == jobs[i] && after[j] == jobs[j]);
        } else if i < jobs.len() {
            assert(after[i] == jobs[i]);
        } else {
            assert(after[j] == jobs[j]);
        }
    }
    assert forall|i: int| 0 <= i < after.len() implies instance_inv(#[trigger] after[i]) by {
        if i < jobs.len() {
            assert(after[i] == jobs[i]);
        }
    }
    lemma_job_index(after, c.label, jobs.len() as int);
}

/// A stop followed by a start gives a clean start: the stopped job is not
/// skipped by `start_job`, and its restart count starts from zero.
pub proof fn lemma_stop_then_start(i: InstanceView, now: u64)
    ensures
        !start_is_noop(halted(i), now),
        starting(halted(i)).state is Starting,
        starting(halted(i)).restart_count == 0,
        starting(halted(i)).config == i.config,
{
}

/// The events of a child's exit are all about the exiting job and come in causal
/// order: `JobExited` first, then at most one of `JobRestartScheduled` and
/// `JobFailed`. Every transition appends its events after those already
/// emitted, so `take_events` hands them out in the order they occurred.
pub proof fn lemma_exit_events_in_order(
    i: InstanceView,
    code: i32,
    signal: Option<i32>,
    restart_needed: bool,
)
    requires
        has_child(i.state),
    ensures
        ({
            let ev = exit_events(i, code, signal, restart_needed);
            &&& 1 <= ev.len() <= 2
            &&& ev[0] is Exited
            &&& forall|k: int| 0 <= k < ev.len() ==> event_label(#[trigger] ev[k]) == i.config.label
            &&& ev.len() == 2 ==> (ev[1] is RestartScheduled || ev[1] is Failed)
        }),
{
}

/// With `max_restarts = 0`, every exit of a job's child that asks for a
/// restart schedules one, whatever the restart count.
pub proof fn lemma_unlimited_restarts(i: InstanceView, code: i32, signal: Option<i32>, now: u64)
    requires
        has_child(i.state),
        i.config.supervision.max_restarts == 0,
    ensures
        after_exit(i, code, signal, true, now).state is Backoff,
        after_exit(i, code, signal, true, now).restart_count == bumped(i.restart_count),
{
}

/// Every exit of a job's child forgets the child: afterwards the job has no
/// pid and is `Stopped`, `Backoff` or `Failed`, with the exit data recorded.
pub proof fn lemma_exit_forgets_child(
    i: InstanceView,
    code: i32,
    signal: Option<i32>,
    restart_needed: bool,
    now: u64,
)
    requires
        has_child(i.state),
    ensures
        ({
            let next = after_exit(i, code, signal, restart_needed, now);
            &&& next.pid is None
            &&& !next.monitor_attached
            &&& (next.state is Stopped || next.state is Backoff || next.state is Failed)
            &&& (!restart_needed ==> next.state is Stopped && next.restart_count == i.restart_count)
            &&& next.last_exit_code == Some(code)
            &&& next.last_exit_signal == signal
        }),
{
}

/// The exit that uses up the restart cap fails the job with the cap as
/// reason, emits `JobFailed` after `JobExited`, and schedules nothing.
pub proof fn lemma_cap_fails_job(i: InstanceView, code: i32, signal: Option<i32>, now: u64)
    requires
        instance_inv(i),
        has_child(i.state),
        i.config.supervision.max_restarts > 0,
        i.restart_count + 1 == i.config.supervision.max_restarts,
    ensures
        ({
            let next = after_exit(i, code, signal, true, now);
            let max = i.config.supervision.max_restarts;
            &&& next.state == StateView::Failed(cap_reason(max))
            &&& next.restart_count == max
            &&& exit_events(i, code, signal, true) == seq![
                EventView::Exited(i.config.label, code, signal, i.restart_count),
                EventView::Failed(i.config.label, StateView::Failed(cap_reason(max))),
            ]
        }),
{
}

/// A start that spawns its child leaves the job `Running` with that pid, a
/// start time and a monitor, out of backoff; a clean start has restart
/// count zero, a restart out of backoff keeps its count.
pub proof fn lemma_start_then_spawn(i: InstanceView, now: u64, pid: u32, t: u64)
    requires
        instance_inv(i),
        !start_is_noop(i, now),
    ensures
        ({
            let next = running(starting(i), pid, t);
            &&& instance_inv(next)
            &&& next.state is Running
            &&& next.pid == Some(pid)
            &&& next.start_time == Some(t)
            &&& next.monitor_attached
            &&& next.backoff_until is None
            &&& next.restart_count == if is_restart_start(i.state) {
                i.restart_count
            } else {
                0
            }
        }),
{
}

/// The authoritative registry of jobs and their lifecycle state machine.
///
/// Each method is one atomic transition; the runtime holds the manager
/// under a lock, performs the actions the methods hand back (spawn, signal,
/// wait) without the lock, and reports their outcome through the
/// `finish_*` and `handle_*` methods. Events pile up in order and are
/// handed out by `take_events`.
pub struct JobManager {
    jobs: Vec<JobInstance>,
    events: Vec<JobEvent>,
}

impl View for JobManager {
    type V = ManagerView;

    closed spec fn view(&self) -> ManagerView {
        ManagerView {
            jobs: self.jobs@.map_values(|j: JobInstance| j@),
            events: self.events@.map_values(|e: JobEvent| e@),
        }
    }
}

impl JobManager {
    pub open spec fn wf(&self) -> bool {
        registry_wf(self@.jobs)
    }

    pub fn new() -> (r: JobManager)
        ensures
            r.wf(),
            r@.jobs.len() == 0,
            r@.events.len() == 0,
    {
        let r = JobManager { jobs: Vec::new(), events: Vec::new() };
        assert(r@.jobs =~= Seq::<InstanceView>::empty());
        assert(r@.events =~= Seq::<EventView>::empty());
        r
    }

    fn find(&self, label: &str) -> (r: Option<usize>)
        requires
            self.wf(),
        ensures
            match r {
                Some(k) => k < self@.jobs.len() && has_job(self@.jobs, label@) && job_index(
                    self@.jobs,
                    label@,
                ) == k,
                None => !has_job(self@.jobs, label@),
            },
    {
        let mut i: usize = 0;
        while i < self.jobs.len()
            invariant
                self.wf(),
                i <= self.jobs@.len(),
                self@.jobs.len() == self.jobs@.len(),
                forall|j: int| 0 <= j < i ==> self@.jobs[j].config.label != label@,
            decreases self.jobs@.len() - i,
        {
            assert(self@.jobs[i as int] == self.jobs@[i as int]@);
            if same_text(self.jobs[i].config.label.as_str(), label) {
                proof {
                    lemma_job_index(self@.jobs, label@, i as int);
                }
                return Some(i);
            }
            i += 1;
        }
        None
    }

    /// Puts `inst` back at `k`, where it was taken from.
    fn put_back(&mut self, k: usize, inst: JobInstance, Ghost(before): Ghost<Seq<JobInstance>>)
        requires
            k <= old(self).jobs@.len(),
            old(self).jobs@ == before.remove(k as int),
            k < before.len(),
        ensures
            final(self).jobs@ == before.update(k as int, inst),
            final(self)@.jobs == before.map_values(|j: JobInstance| j@).update(k as int, inst@),
            final(self).events == old(self).events,
            final(self)@.events == old(self)@.events,
    {
        self.jobs.insert(k, inst);
        assert(self.jobs@ =~= before.update(k as int, inst));
        assert(self@.jobs =~= before.map_values(|j: JobInstance| j@).update(k as int, inst@));
    }

    fn emit(&mut self, e: JobEvent)
        ensures
            final(self).jobs == old(self).jobs,
            final(self)@.jobs == old(self)@.jobs,
            final(self)@.events == old(self)@.events.push(e@),
    {
        self.events.push(e);
        assert(self@.events =~= old(self)@.events.push(e@));
    }

    /// Adds a job in `Stopped`. The description must pass validation and
    /// its label must be new. Emits `JobLoaded`. Returns whether the job
    /// asks to be started at once (`keep_alive`); the runtime then calls
    /// `start_job` without holding the manager.
    pub fn load_job(&mut self, config: JobConfig) -> (r: Result<bool>)
        requires
            old(self).wf(),
        ensures
            final(self).wf(),
            !config_is_valid(config@) ==> r is Err && is_validation_error(r->Err_0) && final(self)@ == old(self)@,
            config_is_valid(config@) && has_job(old(self)@.jobs, config@.label) ==> r is Err
                && r->Err_0 is JobExists && r->Err_0->JobExists_0@ == config@.label && final(self)@ == old(self)@,
            config_is_valid(config@) && !has_job(old(self)@.jobs, config@.label) ==> r == Ok::<bool, NusaError>(config.supervision.keep_alive) && final(self)@.jobs == old(self)@.jobs.push(
                fresh_instance(config@),
            ) && final(self)@.events == old(self)@.events.push(EventView::Loaded(config@.label)),
    {
        config.validate()?;
        if let Some(_) = self.find(config.label.as_str()) {
            return Err(NusaError::JobExists(config.label));
        }
        let keep_alive = config.supervision.keep_alive;
        let label = config.label.clone();
        let instance = JobInstance {
            config,
            state: JobState::Stopped,
            pid: None,
            start_time: None,
            restart_count: 0,
            last_exit_code: None,
            last_exit_signal: None,
            backoff_until: None,
            monitor_attached: false,
        };
        let ghost before = self@;
        self.jobs.push(instance);
        assert(self@.jobs =~= before.jobs.push(fresh_instance(instance.config@)));
        self.emit(JobEvent::JobLoaded(label));
        Ok(keep_alive)
    }

    /// Begins a start. A job that is running, starting or being stopped is
    /// left as it is, and so is one whose backoff has not run out; any
    /// other job becomes `Starting` and the runtime is asked to spawn its
    /// program. A start out of backoff keeps the restart count; any other
    /// start sets it to zero.
    pub fn start_job(&mut self, label: &str, now: u64) -> (r: Result<StartAction>)
        requires
            old(self).wf(),
        ensures
            final(self).wf(),
            final(self)@.events == old(self)@.events,
            !has_job(old(self)@.jobs, label@) ==> r is Err && not_found(r->Err_0, label@)
                && final(self)@ == old(self)@,
            has_job(old(self)@.jobs, label@) ==> ({
                let k = job_index(old(self)@.jobs, label@);
                let i = old(self)@.jobs[k];
                &&& r is Ok
                &&& start_is_noop(i, now) ==> final(self)@ == old(self)@ && if i.state is Backoff {
                    r->Ok_0 is Waiting && r->Ok_0->Waiting_0.millis == i.backoff_until->0 - now
                } else {
                    r->Ok_0 is Unchanged
                }
                &&& !start_is_noop(i, now) ==> r->Ok_0 is Spawn && r->Ok_0->Spawn_0@ == i.config
                    && final(self)@.jobs == old(self)@.jobs.update(k, starting(i))
            }),
    {
        let k = match self.find(label) {
            Some(k) => k,
            None => return Err(NusaError::JobNotFound(owned(label))),
        };
        let ghost pre = self@;
        assert(pre.jobs[k as int] == self.jobs@[k as int]@);
        let cur = &self.jobs[k];
        match &cur.state {
            JobState::Running | JobState::Starting | JobState::Stopping => {
                return Ok(StartAction::Unchanged);
            },
            JobState::Backoff => {
                if let Some(until) = cur.backoff_until {
                    if now < until {
                        return Ok(StartAction::Waiting(Duration::from_millis(until - now)));
                    }
                }
            },
            _ => {},
        }
        let ghost before = self.jobs@;
        let mut inst = self.jobs.remove(k);
        let restart = matches!(inst.state, JobState::Backoff | JobState::Restarting);
        inst.state = JobState::Starting;
        inst.backoff_until = None;
        if !restart {
            inst.restart_count = 0;
        }
        let config = inst.config.clone();
        assert(inst@ == starting(pre.jobs[k as int]));
        self.put_back(k, inst, Ghost(before));
        proof {
            lemma_update_wf(pre.jobs, k as int, starting(pre.jobs[k as int]));
        }
        Ok(StartAction::Spawn(config))
    }

    /// Ends a start with what the spawner reported: the pid of the child,
    /// or why it could not be started. On success the job becomes `Running`
    /// and `JobStarted` is emitted; on failure it becomes `Failed`,
    /// `JobFailed` is emitted and the spawn error is returned. A job that
    /// left `Starting` meanwhile (it was stopped) is not changed: `Ok(false)`
    /// then tells the runtime to kill the child it just made.
    pub fn finish_start(
        &mut self,
        label: &str,
        outcome: core::result::Result<u32, String>,
        now: u64,
    ) -> (r: Result<bool>)
        requires
            old(self).wf(),
        ensures
            final(self).wf(),
            !has_job(old(self)@.jobs, label@) ==> r is Err && not_found(r->Err_0, label@)
                && final(self)@ == old(self)@,
            has_job(old(self)@.jobs, label@) ==> ({
                let k = job_index(old(self)@.jobs, label@);
                let i = old(self)@.jobs[k];
                &&& !(i.state is Starting) ==> final(self)@ == old(self)@ && match outcome {
                    Ok(_) => r == Ok::<bool, NusaError>(false),
                    Err(msg) => r is Err && is_spawn_error(r->Err_0, msg@),
                }
                &&& i.state is Starting ==> match outcome {
                    Ok(pid) => r == Ok::<bool, NusaError>(true) && final(self)@.jobs == old(self)@.jobs.update(k, running(i, pid, now)) && final(self)@.events == old(self)@.events.push(EventView::Started(i.config.label, pid, now)),
                    Err(msg) => r is Err && is_spawn_error(r->Err_0, msg@) && final(self)@.jobs
                        == old(self)@.jobs.update(k, spawn_failed(i, msg@)) && final(self)@.events
                        == old(self)@.events.push(
                        EventView::Failed(
                            i.config.label,
                            StateView::Failed(spawn_failure_reason(msg@)),
                        ),
                    ),
                }
            }),
    {
        let k = match self.find(label) {
            Some(k) => k,
            None => return Err(NusaError::JobNotFound(owned(label))),
        };
        let ghost pre = self@;
        assert(pre.jobs[k as int] == self.jobs@[k as int]@);
        if !matches!(self.jobs[k].state, JobState::Starting) {
            return match outcome {
                Ok(_) => Ok(false),
                Err(msg) => Err(NusaError::Process(ProcessError::Spawn(msg))),
            };
        }
        let ghost before = self.jobs@;
        let mut inst = self.jobs.remove(k);
        match outcome {
            Ok(pid) => {
                inst.state = JobState::Running;
                inst.pid = Some(pid);
                inst.start_time = Some(now);
                inst.monitor_attached = true;
                let l = inst.config.label.clone();
                assert(inst@ == running(pre.jobs[k as int], pid, now));
                self.put_back(k, inst, Ghost(before));
                proof {
                    lemma_update_wf(pre.jobs, k as int, running(pre.jobs[k as int], pid, now));
                }
                self.emit(JobEvent::JobStarted(l, pid, now));
                Ok(true)
            },
            Err(msg) => {
                let reason = String::from_str("Failed to start: ").concat(msg.as_str());
                inst.state = JobState::Failed(reason.clone());
                inst.monitor_attached = false;
                let l = inst.config.label.clone();
                assert(inst@ == spawn_failed(pre.jobs[k as int], msg@));
                self.put_back(k, inst, Ghost(before));
                proof {
                    lemma_update_wf(pre.jobs, k as int, spawn_failed(pre.jobs[k as int], msg@));
                }
                self.emit(JobEvent::JobFailed(l, JobState::Failed(reason)));
                Err(NusaError::Process(ProcessError::Spawn(msg)))
            },
        }
    }

    /// Begins a stop. A job that is stopped, or already being stopped, is
    /// left as it is. A running job becomes `Stopping` and the runtime is
    /// asked to terminate its child. A job with no child (starting, failed,
    /// in backoff, woken for a restart) becomes `Stopped` at once and
    /// `JobStopped` is emitted with its previous state.
    pub fn stop_job(&mut self, label: &str) -> (r: Result<StopAction>)
        requires
            old(self).wf(),
        ensures
            final(self).wf(),
            !has_job(old(self)@.jobs, label@) ==> r is Err && not_found(r->Err_0, label@)
                && final(self)@ == old(self)@,
            has_job(old(self)@.jobs, label@) ==> ({
                let k = job_index(old(self)@.jobs, label@);
                let i = old(self)@.jobs[k];
                &&& r is Ok
                &&& stop_is_noop(i.state) ==> r->Ok_0 is Done && final(self)@ == old(self)@
                &&& i.state is Running ==> r->Ok_0 is Terminate && r->Ok_0->Terminate_0
                    == i.pid->0 && r->Ok_0->Terminate_1@ == i.state && final(self)@.jobs == old(self)@.jobs.update(k, stopping(i)) && final(self)@.events == old(self)@.events
                &&& !stop_is_noop(i.state) && !(i.state is Running) ==> r->Ok_0 is Done && final(self)@.jobs == old(self)@.jobs.update(k, halted(i)) && final(self)@.events == old(self)@.events.push(EventView::Stopped(i.config.label, i.state))
            }),
    {
        let k = match self.find(label) {
            Some(k) => k,
            None => return Err(NusaError::JobNotFound(owned(label))),
        };
        let ghost pre = self@;
        assert(pre.jobs[k as int] == self.jobs@[k as int]@);
        match self.jobs[k].state {
            JobState::Stopped | JobState::Stopping => {
                return Ok(StopAction::Done);
            },
            _ => {},
        }
        let ghost before = self.jobs@;
        let mut inst = self.jobs.remove(k);
        if let (JobState::Running, Some(pid)) = (&inst.state, inst.pid) {
            inst.state = JobState::Stopping;
            inst.monitor_attached = false;
            assert(inst@ == stopping(pre.jobs[k as int]));
            self.put_back(k, inst, Ghost(before));
            proof {
                lemma_update_wf(pre.jobs, k as int, stopping(pre.jobs[k as int]));
            }
            return Ok(StopAction::Terminate(pid, JobState::Running));
        }
        let previous = inst.state.clone();
        inst.state = JobState::Stopped;
        inst.pid = None;
        inst.start_time = None;
        inst.backoff_until = None;
        inst.monitor_attached = false;
        let l = inst.config.label.clone();
        assert(inst@ == halted(pre.jobs[k as int]));
        self.put_back(k, inst, Ghost(before));
        proof {
            lemma_update_wf(pre.jobs, k as int, halted(pre.jobs[k as int]));
        }
        self.emit(JobEvent::JobStopped(l, previous));
        Ok(StopAction::Done)
    }

    /// Ends a stop once the child is gone: the job becomes `Stopped` and
    /// `JobStopped` is emitted with the state `stop_job` handed out, also
    /// where the child's exit already moved the job on (to `Stopped`,
    /// `Backoff` or `Failed`). A job that a later start has taken over
    /// (`Starting` or `Running`) is left as it is.
    pub fn finish_stop(&mut self, label: &str, previous: JobState) -> (r: Result<()>)
        requires
            old(self).wf(),
        ensures
            final(self).wf(),
            !has_job(old(self)@.jobs, label@) ==> r is Err && not_found(r->Err_0, label@)
                && final(self)@ == old(self)@,
            has_job(old(self)@.jobs, label@) ==> ({
                let k = job_index(old(self)@.jobs, label@);
                let i = old(self)@.jobs[k];
                &&& r is Ok
                &&& !stop_ends(i.state) ==> final(self)@ == old(self)@
                &&& stop_ends(i.state) ==> final(self)@.jobs == old(self)@.jobs.update(
                    k,
                    halted(i),
                ) && final(self)@.events == old(self)@.events.push(
                    EventView::Stopped(i.config.label, previous@),
                )
            }),
    {
        let k = match self.find(label) {
            Some(k) => k,
            None => return Err(NusaError::JobNotFound(owned(label))),
        };
        let ghost pre = self@;
        assert(pre.jobs[k as int] == self.jobs@[k as int]@);
        if matches!(self.jobs[k].state, JobState::Starting | JobState::Running) {
            return Ok(());
        }
        let ghost before = self.jobs@;
        let mut inst = self.jobs.remove(k);
        inst.state = JobState::Stopped;
        inst.pid = None;
        inst.start_time = None;
        inst.backoff_until = None;
        inst.monitor_attached = false;
        let l = inst.config.label.clone();
        assert(inst@ == halted(pre.jobs[k as int]));
        self.put_back(k, inst, Ghost(before));
        proof {
            lemma_update_wf(pre.jobs, k as int, halted(pre.jobs[k as int]));
        }
        self.emit(JobEvent::JobStopped(l, previous));
        Ok(())
    }

    /// Records the exit of a job's child. For a job with a child (running
    /// or being stopped) the child is forgotten and `JobExited` is emitted
    /// with the restart count; then, without a restart the job is
    /// `Stopped`; with one the count goes up, and either the cap is reached
    /// (`Failed`, `JobFailed`) or the job enters `Backoff` for the backoff
    /// of the previous count, `JobRestartScheduled` is emitted and the
    /// runtime is handed the wake-up it owes. For a job that no longer
    /// tracks a child, only the exit data is recorded.
    pub fn handle_process_exit(
        &mut self,
        label: String,
        exit_code: i32,
        signal: Option<i32>,
        restart_needed: bool,
        now: u64,
    ) -> (r: Result<Option<RestartRequest>>)
        requires
            old(self).wf(),
            now <= u64::MAX - 300_000,
        ensures
            final(self).wf(),
            !has_job(old(self)@.jobs, label@) ==> r is Err && not_found(r->Err_0, label@)
                && final(self)@ == old(self)@,
            has_job(old(self)@.jobs, label@) ==> ({
                let k = job_index(old(self)@.jobs, label@);
                let i = old(self)@.jobs[k];
                let next = after_exit(i, exit_code, signal, restart_needed, now);
                &&& r is Ok
                &&& final(self)@.jobs == old(self)@.jobs.update(k, next)
                &&& final(self)@.events == old(self)@.events + exit_events(
                    i,
                    exit_code,
                    signal,
                    restart_needed,
                )
                &&& (r->Ok_0 is Some <==> (has_child(i.state) && next.state is Backoff))
                &&& r->Ok_0 is Some ==> r->Ok_0->0.label@ == label@ && r->Ok_0->0.delay.millis
                    == backoff_secs(i.config.supervision.restart_delay_sec, i.restart_count)
                    * 1000 && r->Ok_0->0.attempt == i.restart_count
            }),
    {
        let k = match self.find(label.as_str()) {
            Some(k) => k,
            None => return Err(NusaError::JobNotFound(label)),
        };
        let ghost pre = self@;
        let ghost i = pre.jobs[k as int];
        assert(i == self.jobs@[k as int]@);
        let ghost before = self.jobs@;
        let mut inst = self.jobs.remove(k);
        let has_child_now = matches!(inst.state, JobState::Running | JobState::Stopping);
        let old_count = inst.restart_count;
        inst.last_exit_code = Some(exit_code);
        inst.last_exit_signal = signal;
        let l = inst.config.label.clone();
        let exited = JobEvent::JobExited(l.clone(), exit_code, signal, old_count);
        if !has_child_now {
            assert(inst@ == after_exit(i, exit_code, signal, restart_needed, now));
            self.put_back(k, inst, Ghost(before));
            proof {
                lemma_update_wf(pre.jobs, k as int, inst@);
            }
            assert(self@.events =~= pre.events + exit_events(i, exit_code, signal, restart_needed));
            return Ok(None);
        }
        inst.pid = None;
        inst.monitor_attached = false;
        if !restart_needed {
            inst.state = JobState::Stopped;
            assert(inst@ == after_exit(i, exit_code, signal, restart_needed, now));
            self.put_back(k, inst, Ghost(before));
            proof {
                lemma_update_wf(pre.jobs, k as int, inst@);
            }
            self.emit(exited);
            assert(self@.events =~= pre.events + exit_events(i, exit_code, signal, restart_needed));
            return Ok(None);
        }
        let n: u32 = if old_count < u32::MAX {
            old_count + 1
        } else {
            old_count
        };
        inst.restart_count = n;
        let max = inst.config.supervision.max_restarts;
        if max > 0 && n >= max {
            let reason = String::from_str("Exceeded max restarts (").concat(
                decimal_text(max).as_str(),
            ).concat(")");
            inst.state = JobState::Failed(reason.clone());
            assert(inst@ == after_exit(i, exit_code, signal, restart_needed, now));
            self.put_back(k, inst, Ghost(before));
            proof {
                lemma_update_wf(pre.jobs, k as int, inst@);
            }
            self.emit(exited);
            self.emit(JobEvent::JobFailed(l, JobState::Failed(reason)));
            assert(self@.events =~= pre.events + exit_events(i, exit_code, signal, restart_needed));
            return Ok(None);
        }
        let delay = backoff(inst.config.supervision.restart_delay_sec, old_count);
        inst.state = JobState::Backoff;
        inst.backoff_until = Some(now + delay.millis);
        assert(inst@ == after_exit(i, exit_code, signal, restart_needed, now));
        self.put_back(k, inst, Ghost(before));
        proof {
            lemma_update_wf(pre.jobs, k as int, inst@);
        }
        self.emit(exited);
        self.emit(JobEvent::JobRestartScheduled(l, delay, n));
        assert(self@.events =~= pre.events + exit_events(i, exit_code, signal, restart_needed));
        Ok(Some(RestartRequest { label, delay, attempt: old_count }))
    }

    /// The wake-up after a backoff. A job whose backoff has run out becomes
    /// `Restarting` and `JobReadyForRestart` is emitted: the runtime then
    /// calls `start_job`. Any other job is left as it is.
    pub fn handle_restart_request(&mut self, label: &str, now: u64) -> (r: bool)
        requires
            old(self).wf(),
        ensures
            final(self).wf(),
            r == (has_job(old(self)@.jobs, label@) && wake_is_due(
                old(self)@.jobs[job_index(old(self)@.jobs, label@)],
                now,
            )),
            !r ==> final(self)@ == old(self)@,
            r ==> ({
                let k = job_index(old(self)@.jobs, label@);
                let i = old(self)@.jobs[k];
                &&& final(self)@.jobs == old(self)@.jobs.update(k, woken(i))
                &&& final(self)@.events == old(self)@.events.push(
                    EventView::ReadyForRestart(i.config.label),
                )
            }),
    {
        let k = match self.find(label) {
            Some(k) => k,
            None => return false,
        };
        let ghost pre = self@;
        assert(pre.jobs[k as int] == self.jobs@[k as int]@);
        let due = match (&self.jobs[k].state, self.jobs[k].backoff_until) {
            (JobState::Backoff, Some(until)) => now >= until,
            _ => false,
        };
        if !due {
            return false;
        }
        let ghost before = self.jobs@;
        let mut inst = self.jobs.remove(k);
        inst.state = JobState::Restarting;
        inst.backoff_until = None;
        let l = inst.config.label.clone();
        assert(inst@ == woken(pre.jobs[k as int]));
        self.put_back(k, inst, Ghost(before));
        proof {
            lemma_update_wf(pre.jobs, k as int, woken(pre.jobs[k as int]));
        }
        self.emit(JobEvent::JobReadyForRestart(l));
        true
    }

    /// A snapshot of one job; uptime counts from its last start to `now`.
    pub fn get_job_status(&self, label: &str, now: u64) -> (r: Option<JobStatus>)
        requires
            self.wf(),
        ensures
            r is None <==> !has_job(self@.jobs, label@),
            r is Some ==> is_status_of(r->0, self@.jobs[job_index(self@.jobs, label@)], now),
    {
        match self.find(label) {
            Some(k) => {
                assert(self@.jobs[k as int] == self.jobs@[k as int]@);
                Some(snapshot(&self.jobs[k], now))
            },
            None => None,
        }
    }

    /// Snapshots of all jobs, in the order they were loaded.
    pub fn list_jobs(&self, now: u64) -> (r: Vec<JobStatus>)
        ensures
            r@.len() == self@.jobs.len(),
            forall|i: int| 0 <= i < r@.len() ==> is_status_of(#[trigger] r@[i], self@.jobs[i], now),
    {
        let mut r: Vec<JobStatus> = Vec::new();
        let mut i: usize = 0;
        while i < self.jobs.len()
            invariant
                i <= self.jobs@.len(),
                self@.jobs.len() == self.jobs@.len(),
                r@.len() == i,
                forall|j: int| 0 <= j < i ==> is_status_of(#[trigger] r@[j], self@.jobs[j], now),
            decreases self.jobs@.len() - i,
        {
            assert(self@.jobs[i as int] == self.jobs@[i as int]@);
            r.push(snapshot(&self.jobs[i], now));
            i += 1;
        }
        r
    }

    /// Hands out the events emitted so far, oldest first, and forgets them.
    pub fn take_events(&mut self) -> (r: Vec<JobEvent>)
        requires
            old(self).wf(),
        ensures
            final(self).wf(),
            r@.map_values(|e: JobEvent| e@) == old(self)@.events,
            final(self)@.jobs == old(self)@.jobs,
            final(self)@.events.len() == 0,
    {
        let r = self.events.split_off(0);
        assert(r@ =~= old(self).events@);
        assert(self@.events =~= Seq::<EventView>::empty());
        r
    }
}

} // verus!
