use vstd::prelude::*;

use crate::job::config::SupervisionConfig;
use crate::job::supervisor::policy_wants_restart;

verus! {

/// Exit code recorded for a child that has none (it died by a signal).
pub const NO_EXIT_CODE: i32 = -1;

/// What the monitor of a child reports once the child is reaped.
#[derive(Debug, Clone, Copy, PartialEq, Eq, Structural)]
pub struct ExitReport {
    pub exit_code: i32,
    pub signal: Option<i32>,
    pub restart_needed: bool,
}

/// Interpretation of a child's termination.
pub struct ProcessMonitor;

impl ProcessMonitor {
    /// Turns a wait status into what the manager is told: the exit code
    /// (`-1` where there is none), the signal, and whether the restart
    /// predicate asks for a restart. The restart cap is the manager's
    /// concern and is left out here.
    pub fn exit_report(
        supervision: &SupervisionConfig,
        code: Option<i32>,
        signal: Option<i32>,
    ) -> (r: ExitReport)
        ensures
            r.exit_code == match code {
                Some(c) => c,
                None => NO_EXIT_CODE,
            },
            r.signal == signal,
            r.restart_needed == (supervision.keep_alive && policy_wants_restart(
                supervision.restart_policy,
                r.exit_code,
                signal,
            )),
    {
        let exit_code = match code {
            Some(c) => c,
            None => NO_EXIT_CODE,
        };
        let restart_needed = if supervision.keep_alive {
            match supervision.restart_policy {
                crate::job::config::RestartPolicy::Always => true,
                crate::job::config::RestartPolicy::Never => false,
                crate::job::config::RestartPolicy::OnFailure => exit_code != 0,
                crate::job::config::RestartPolicy::OnCrash => signal.is_some(),
            }
        } else {
            false
        };
        ExitReport { exit_code, signal, restart_needed }
    }
}

} // verus!
