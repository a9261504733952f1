use vstd::prelude::*;

use crate::job::config::{RestartPolicy, SupervisionConfig};
use crate::util::error::Result;
use crate::util::text::same_text;
use crate::util::time::Duration;

verus! {

/// Longest backoff, in seconds.
pub const MAX_BACKOFF_SECS: u64 = 300;

/// Highest exponent of the backoff multiplier.
pub const MAX_BACKOFF_EXPONENT: u32 = 6;

/// What the restart policy alone says of an exit.
pub open spec fn policy_wants_restart(p: RestartPolicy, exit_code: i32, signal: Option<i32>) -> bool {
    match p {
        RestartPolicy::Never => false,
        RestartPolicy::Always => true,
        RestartPolicy::OnFailure => exit_code != 0,
        RestartPolicy::OnCrash => signal is Some,
    }
}

/// The restart cap is reached: `max_restarts` is set and used up.
pub open spec fn cap_reached(s: SupervisionConfig, restart_count: u32) -> bool {
    s.max_restarts > 0 && restart_count >= s.max_restarts
}

/// Whether an exit leads to a restart.
pub open spec fn restart_decision(
    s: SupervisionConfig,
    exit_code: i32,
    signal: Option<i32>,
    restart_count: u32,
) -> bool {
    s.keep_alive && !cap_reached(s, restart_count) && policy_wants_restart(
        s.restart_policy,
        exit_code,
        signal,
    )
}

pub open spec fn pow2(n: nat) -> nat
    decreases n,
{
    if n == 0 {
        1
    } else {
        2 * pow2((n - 1) as nat)
    }
}

/// `2^min(restart_count, 6)`
pub open spec fn backoff_multiplier(restart_count: u32) -> nat {
    if restart_count >= MAX_BACKOFF_EXPONENT {
        pow2(MAX_BACKOFF_EXPONENT as nat)
    } else {
        pow2(restart_count as nat)
    }
}

/// `min(delay_sec * 2^min(restart_count, 6), 300)`, in seconds.
pub open spec fn backoff_secs(delay_sec: u64, restart_count: u32) -> nat {
    let secs = (delay_sec * backoff_multiplier(restart_count)) as nat;
    if secs > MAX_BACKOFF_SECS {
        MAX_BACKOFF_SECS as nat
    } else {
        secs
    }
}

/// Whether an exit leads to a restart under `supervision`.
pub fn restart_wanted(
    supervision: &SupervisionConfig,
    exit_code: i32,
    signal: Option<i32>,
    restart_count: u32,
) -> (r: bool)
    ensures
        r == restart_decision(*supervision, exit_code, signal, restart_count),
{
    if !supervision.keep_alive {
        return false;
    }
    if supervision.max_restarts > 0 && restart_count >= supervision.max_restarts {
        return false;
    }
    match supervision.restart_policy {
        RestartPolicy::Always => true,
        RestartPolicy::Never => false,
        RestartPolicy::OnFailure => exit_code != 0,
        RestartPolicy::OnCrash => signal.is_some(),
    }
}

/// The delay before restart attempt `restart_count` (counted from 0): the
/// base delay doubled per attempt, from the seventh on no more, and never
/// over five minutes.
pub fn backoff(delay_sec: u64, restart_count: u32) -> (r: Duration)
    ensures
        r.millis == backoff_secs(delay_sec, restart_count) * 1000,
        r.millis <= MAX_BACKOFF_SECS * 1000,
{
    let exponent: u32 = if restart_count < MAX_BACKOFF_EXPONENT {
        restart_count
    } else {
        MAX_BACKOFF_EXPONENT
    };
    let mut multiplier: u64 = 1;
    let mut i: u32 = 0;
    while i < exponent
        invariant
            i <= exponent <= MAX_BACKOFF_EXPONENT,
            multiplier == pow2(i as nat),
            1 <= multiplier <= 64,
        decreases exponent - i,
    {
        assert(pow2((i + 1) as nat) == 2 * pow2(i as nat));
        proof {
            lemma_pow2_bound(i as nat);
        }
        multiplier = multiplier * 2;
        i += 1;
    }
    assert(multiplier == backoff_multiplier(restart_count));
    let secs: u64 = if delay_sec >= MAX_BACKOFF_SECS {
        assert(delay_sec * multiplier >= delay_sec) by (nonlinear_arith)
            requires
                multiplier >= 1,
        ;
        MAX_BACKOFF_SECS
    } else {
        assert(delay_sec * multiplier <= 299 * 64) by (nonlinear_arith)
            requires
                delay_sec < 300,
                multiplier <= 64,
        ;
        let s = delay_sec * multiplier;
        if s > MAX_BACKOFF_SECS {
            MAX_BACKOFF_SECS
        } else {
            s
        }
    };
    Duration::from_secs(secs)
}

proof fn lemma_pow2_bound(i: nat)
    requires
        i < MAX_BACKOFF_EXPONENT,
    ensures
        pow2(i + 1) <= 64,
        pow2(i) >= 1,
{
    reveal_with_fuel(pow2, 7);
    assert(i == 0 || i == 1 || i == 2 || i == 3 || i == 4 || i == 5);
}

/// No backoff, and so no scheduled restart, lies more than five minutes ahead.
pub proof fn lemma_backoff_within_cap(delay_sec: u64, restart_count: u32)
    ensures
        backoff_secs(delay_sec, restart_count) <= MAX_BACKOFF_SECS,
{
}

/// The first attempt waits exactly the configured delay, for every delay
/// within the five-minute cap.
pub proof fn lemma_first_backoff_is_delay(delay_sec: u64)
    requires
        delay_sec <= MAX_BACKOFF_SECS,
    ensures
        backoff_secs(delay_sec, 0) == delay_sec,
{
    assert(pow2(0) == 1);
    assert(backoff_multiplier(0) == 1);
    assert(delay_sec * backoff_multiplier(0) == delay_sec);
}

/// Attempt six waits 64 times the configured delay, clamped to five minutes.
pub proof fn lemma_seventh_backoff(delay_sec: u64)
    ensures
        backoff_secs(delay_sec, 6) == if delay_sec * 64 > MAX_BACKOFF_SECS {
            MAX_BACKOFF_SECS as int
        } else {
            delay_sec * 64
        },
{
    reveal_with_fuel(pow2, 7);
    assert(pow2(6) == 64);
}

/// With `max_restarts = 0` the restart count never stops a restart.
pub proof fn lemma_unlimited_policy(
    s: SupervisionConfig,
    exit_code: i32,
    signal: Option<i32>,
    restart_count: u32,
)
    requires
        s.max_restarts == 0,
    ensures
        restart_decision(s, exit_code, signal, restart_count) == restart_decision(
            s,
            exit_code,
            signal,
            0,
        ),
{
}

/// A pending restart.
#[derive(Debug)]
pub struct RestartJob {
    pub label: String,
    /// Monotonic deadline, in milliseconds
    pub scheduled_at: u64,
    pub attempt: u32,
}

/// What is known of a job in backoff.
#[derive(Debug)]
pub struct BackoffInfo {
    pub label: String,
    /// Monotonic deadline, in milliseconds
    pub backoff_until: u64,
    pub attempt: u32,
}

/// (label, deadline, attempt)
pub type Entry = (Seq<char>, u64, u32);

pub struct SupervisorView {
    /// Pending restarts, earliest first
    pub queue: Seq<Entry>,
    /// One entry per job in backoff
    pub tracker: Seq<Entry>,
}

pub open spec fn is_sorted(q: Seq<Entry>) -> bool {
    forall|i: int, j: int| 0 <= i <= j < q.len() ==> q[i].1 <= q[j].1
}

pub open spec fn keys_unique(t: Seq<Entry>) -> bool {
    forall|i: int, j: int| 0 <= i < t.len() && 0 <= j < t.len() && i != j ==> t[i].0 != t[j].0
}

/// The (deadline, attempt) recorded for `l`, if any.
pub open spec fn backoff_record(t: Seq<Entry>, l: Seq<char>) -> Option<(u64, u32)> {
    if exists|i: int| 0 <= i < t.len() && t[i].0 == l {
        let i = choose|i: int| 0 <= i < t.len() && t[i].0 == l;
        Some((t[i].1, t[i].2))
    } else {
        None
    }
}

/// `q2` is `q` with `e` inserted after every entry due no later than `e`
/// and before every entry due after it.
pub open spec fn inserted_in_order(q: Seq<Entry>, e: Entry, q2: Seq<Entry>) -> bool {
    exists|k: int|
        0 <= k <= q.len() && q2 == q.insert(k, e) && (forall|j: int|
            0 <= j < k ==> (#[trigger] q[j]).1 <= e.1) && (forall|j: int|
            k <= j < q.len() ==> (#[trigger] q[j]).1 > e.1)
}

pub open spec fn entry_view(j: RestartJob) -> Entry {
    (j.label@, j.scheduled_at, j.attempt)
}

pub open spec fn info_view(b: BackoffInfo) -> Entry {
    (b.label@, b.backoff_until, b.attempt)
}

/// The first `k` entries of `q` are due at `now` and the rest are not.
pub open spec fn ready_prefix(q: Seq<Entry>, now: u64, k: int) -> bool {
    &&& 0 <= k <= q.len()
    &&& forall|j: int| 0 <= j < k ==> (#[trigger] q[j]).1 <= now
    &&& forall|j: int| k <= j < q.len() ==> (#[trigger] q[j]).1 > now
}

pub open spec fn other_label(l: Seq<char>) -> spec_fn(Entry) -> bool {
    |e: Entry| e.0 != l
}

proof fn lemma_insert_sorted(q: Seq<Entry>, k: int, e: Entry)
    requires
        is_sorted(q),
        0 <= k <= q.len(),
        forall|j: int| 0 <= j < k ==> (#[trigger] q[j]).1 <= e.1,
        forall|j: int| k <= j < q.len() ==> (#[trigger] q[j]).1 > e.1,
    ensures
        is_sorted(q.insert(k, e)),
{
    let u = q.insert(k, e);
    assert forall|i: int, j: int| 0 <= i <= j < u.len() implies u[i].1 <= u[j].1 by {
        if i < k {
            assert(u[i] == q[i]);
        } else if i > k {
            assert(u[i] == q[i - 1]);
        }
        if j < k {
            assert(u[j] == q[j]);
        } else if j > k {
            assert(u[j] == q[j - 1]);
        }
    }
}

proof fn lemma_record_at(t: Seq<Entry>, k: int)
    requires
        keys_unique(t),
        0 <= k < t.len(),
    ensures
        backoff_record(t, t[k].0) == Some((t[k].1, t[k].2)),
{
    let l = t[k].0;
    assert(exists|i: int| 0 <= i < t.len() && t[i].0 == l);
    let c = choose|i: int| 0 <= i < t.len() && t[i].0 == l;
    assert(c == k);
}

proof fn lemma_record_remove(t: Seq<Entry>, k: int, l: Seq<char>)
    requires
        keys_unique(t),
        0 <= k < t.len(),
    ensures
        keys_unique(t.remove(k)),
        l != t[k].0 ==> backoff_record(t.remove(k), l) == backoff_record(t, l),
{
    let u = t.remove(k);
    assert forall|i: int, j: int|
        0 <= i < u.len() && 0 <= j < u.len() && i != j implies u[i].0 != u[j].0 by {
        let i2 = if i < k { i } else { i + 1 };
        let j2 = if j < k { j } else { j + 1 };
        assert(u[i] == t[i2] && u[j] == t[j2]);
    }
    if l == t[k].0 {
    } else if exists|i: int| 0 <= i < t.len() && t[i].0 == l {
        let i = choose|i: int| 0 <= i < t.len() && t[i].0 == l;
        lemma_record_at(t, i);
        let i2 = if i < k { i } else { i - 1 };
        assert(u[i2] == t[i]);
        lemma_record_at(u, i2);
    } else {
        assert forall|i: int| 0 <= i < u.len() implies u[i].0 != l by {
            let i2 = if i < k { i } else { i + 1 };
            assert(u[i] == t[i2]);
        }
    }
}

proof fn lemma_record_update(t: Seq<Entry>, k: int, e: Entry, l: Seq<char>)
    requires
        keys_unique(t),
        0 <= k < t.len(),
        e.0 == t[k].0,
    ensures
        keys_unique(t.update(k, e)),
        backoff_record(t.update(k, e), e.0) == Some((e.1, e.2)),
        l != e.0 ==> backoff_record(t.update(k, e), l) == backoff_record(t, l),
{
    let u = t.update(k, e);
    assert forall|i: int, j: int|
        0 <= i < u.len() && 0 <= j < u.len() && i != j implies u[i].0 != u[j].0 by {
        assert(u[i].0 == t[i].0 && u[j].0 == t[j].0);
    }
    lemma_record_at(u, k);
    if l != e.0 {
        if exists|i: int| 0 <= i < t.len() && t[i].0 == l {
            let i = choose|i: int| 0 <= i < t.len() && t[i].0 == l;
            lemma_record_at(t, i);
            assert(u[i] == t[i]);
            lemma_record_at(u, i);
        } else {
            assert forall|i: int| 0 <= i < u.len() implies u[i].0 != l by {
                assert(u[i].0 == t[i].0);
            }
        }
    }
}

proof fn lemma_record_push(t: Seq<Entry>, e: Entry, l: Seq<char>)
    requires
        keys_unique(t),
        forall|i: int| 0 <= i < t.len() ==> t[i].0 != e.0,
    ensures
        keys_unique(t.push(e)),
        backoff_record(t.push(e), e.0) == Some((e.1, e.2)),
        l != e.0 ==> backoff_record(t.push(e), l) == backoff_record(t, l),
{
    let u = t.push(e);
    lemma_record_at(u, t.len() as int);
    if l != e.0 {
        if exists|i: int| 0 <= i < t.len() && t[i].0 == l {
            let i = choose|i: int| 0 <= i < t.len() && t[i].0 == l;
            lemma_record_at(t, i);
            assert(u[i] == t[i]);
            lemma_record_at(u, i);
        } else {
            assert forall|i: int| 0 <= i < u.len() implies u[i].0 != l by {
                if i < t.len() {
                    assert(u[i] == t[i]);
                }
            }
        }
    }
}

/// Restart policy evaluation and a time-ordered queue of pending restarts,
/// with a record of each job in backoff.
pub struct JobSupervisor {
    restart_queue: Vec<RestartJob>,
    backoff_tracker: Vec<BackoffInfo>,
}

impl View for JobSupervisor {
    type V = SupervisorView;

    closed spec fn view(&self) -> SupervisorView {
        SupervisorView {
            queue: self.restart_queue@.map_values(|j: RestartJob| entry_view(j)),
            tracker: self.backoff_tracker@.map_values(|b: BackoffInfo| info_view(b)),
        }
    }
}

impl JobSupervisor {
    pub open spec fn wf(&self) -> bool {
        is_sorted(self@.queue) && keys_unique(self@.tracker)
    }

    pub fn new() -> (r: JobSupervisor)
        ensures
            r.wf(),
            r@.queue.len() == 0,
            r@.tracker.len() == 0,
    {
        let r = JobSupervisor { restart_queue: Vec::new(), backoff_tracker: Vec::new() };
        assert(r@.queue =~= Seq::<Entry>::empty());
        assert(r@.tracker =~= Seq::<Entry>::empty());
        r
    }

    fn find_tracked(&self, label: &str) -> (r: Option<usize>)
        requires
            self.wf(),
        ensures
            match r {
                Some(k) => k < self@.tracker.len() && self@.tracker[k as int].0 == label@,
                None => forall|i: int| 0 <= i < self@.tracker.len() ==> self@.tracker[i].0 != label@,
            },
    {
        let mut i: usize = 0;
        while i < self.backoff_tracker.len()
            invariant
                i <= self.backoff_tracker@.len(),
                self@.tracker.len() == self.backoff_tracker@.len(),
                forall|j: int| 0 <= j < i ==> self@.tracker[j].0 != label@,
            decreases self.backoff_tracker@.len() - i,
        {
            assert(self@.tracker[i as int] == info_view(self.backoff_tracker@[i as int]));
            if same_text(self.backoff_tracker[i].label.as_str(), label) {
                return Some(i);
            }
            i += 1;
        }
        None
    }

    /// Forgets the backoff record of `label`.
    fn untrack(&mut self, label: &str)
        requires
            old(self).wf(),
        ensures
            final(self).wf(),
            final(self)@.queue == old(self)@.queue,
            backoff_record(final(self)@.tracker, label@) is None,
            forall|l: Seq<char>|
                l != label@ ==> #[trigger] backoff_record(final(self)@.tracker, l) == backoff_record(
                    old(self)@.tracker,
                    l,
                ),
    {
        let ghost t = self@.tracker;
        match self.find_tracked(label) {
            Some(k) => {
                self.backoff_tracker.remove(k);
                assert(self@.tracker =~= t.remove(k as int));
                assert forall|l: Seq<char>| l != label@ implies #[trigger] backoff_record(
                    self@.tracker,
                    l,
                ) == backoff_record(t, l) by {
                    lemma_record_remove(t, k as int, l);
                }
                proof {
                    lemma_record_remove(t, k as int, seq!['\0']);
                    let u = t.remove(k as int);
                    assert forall|i: int| 0 <= i < u.len() implies u[i].0 != label@ by {
                        let i2 = if i < k { i } else { i + 1 };
                        assert(u[i] == t[i2]);
                    }
                }
            },
            None => {},
        }
    }

    /// Records the backoff of `label`, replacing an earlier record.
    fn track(&mut self, label: String, until: u64, attempt: u32)
        requires
            old(self).wf(),
        ensures
            final(self).wf(),
            final(self)@.queue == old(self)@.queue,
            backoff_record(final(self)@.tracker, label@) == Some((until, attempt)),
            forall|l: Seq<char>|
                l != label@ ==> #[trigger] backoff_record(final(self)@.tracker, l) == backoff_record(
                    old(self)@.tracker,
                    l,
                ),
    {
        let ghost t = self@.tracker;
        let ghost e: Entry = (label@, until, attempt);
        match self.find_tracked(label.as_str()) {
            Some(k) => {
                self.backoff_tracker.set(k, BackoffInfo { label, backoff_until: until, attempt });
                assert(self@.tracker =~= t.update(k as int, e));
                proof {
                    lemma_record_update(t, k as int, e, seq!['\0']);
                }
                assert forall|l: Seq<char>| l != e.0 implies #[trigger] backoff_record(
                    self@.tracker,
                    l,
                ) == backoff_record(t, l) by {
                    lemma_record_update(t, k as int, e, l);
                }
            },
            None => {
                self.backoff_tracker.push(BackoffInfo { label, backoff_until: until, attempt });
                assert(self@.tracker =~= t.push(e));
                proof {
                    lemma_record_push(t, e, seq!['\0']);
                }
                assert forall|l: Seq<char>| l != e.0 implies #[trigger] backoff_record(
                    self@.tracker,
                    l,
                ) == backoff_record(t, l) by {
                    lemma_record_push(t, e, l);
                }
            },
        }
    }

    /// Whether an exit leads to a restart: never without `keep_alive`,
    /// never once the restart cap is used up, else as the policy says.
    pub fn should_restart(
        &self,
        config: &SupervisionConfig,
        exit_code: i32,
        signal: Option<i32>,
        restart_count: u32,
    ) -> (r: bool)
        ensures
            r == restart_decision(*config, exit_code, signal, restart_count),
    {
        restart_wanted(config, exit_code, signal, restart_count)
    }

    /// The backoff before restart attempt `restart_count` of a job supervised by `config`.
    pub fn calculate_backoff(&self, config: &SupervisionConfig, restart_count: u32) -> (r: Duration)
        ensures
            r.millis == backoff_secs(config.restart_delay_sec, restart_count) * 1000,
    {
        backoff(config.restart_delay_sec, restart_count)
    }

    /// Schedules a restart of `label`: its deadline is `now` plus the
    /// backoff of attempt `restart_count`, it joins the queue after every
    /// request due no later, and the backoff record of `label` is replaced.
    pub fn schedule_restart(
        &mut self,
        label: String,
        config: SupervisionConfig,
        restart_count: u32,
        now: u64,
    ) -> (r: Result<Duration>)
        requires
            old(self).wf(),
            now <= u64::MAX - 300_000,
            restart_count < u32::MAX,
        ensures
            final(self).wf(),
            r is Ok,
            r->Ok_0.millis == backoff_secs(config.restart_delay_sec, restart_count) * 1000,
            inserted_in_order(
                old(self)@.queue,
                (label@, (now + r->Ok_0.millis) as u64, (restart_count + 1) as u32),
                final(self)@.queue,
            ),
            backoff_record(final(self)@.tracker, label@) == Some(
                ((now + r->Ok_0.millis) as u64, (restart_count + 1) as u32),
            ),
            forall|l: Seq<char>|
                l != label@ ==> #[trigger] backoff_record(final(self)@.tracker, l) == backoff_record(
                    old(self)@.tracker,
                    l,
                ),
    {
        let delay = self.calculate_backoff(&config, restart_count);
        let at = now + delay.millis;
        let attempt = restart_count + 1;
        let ghost q = self@.queue;
        let ghost e: Entry = (label@, at, attempt);
        let mut k: usize = 0;
        while k < self.restart_queue.len() && self.restart_queue[k].scheduled_at <= at
            invariant
                self.wf(),
                self@.queue == q,
                q.len() == self.restart_queue@.len(),
                k <= q.len(),
                forall|j: int| 0 <= j < k ==> (#[trigger] q[j]).1 <= at,
            decreases q.len() - k,
        {
            assert(q[k as int] == entry_view(self.restart_queue@[k as int]));
            k += 1;
        }
        proof {
            if k < q.len() {
                assert(q[k as int] == entry_view(self.restart_queue@[k as int]));
                assert forall|j: int| k <= j < q.len() implies (#[trigger] q[j]).1 > at by {
                    assert(q[k as int].1 <= q[j].1);
                }
            }
            lemma_insert_sorted(q, k as int, e);
        }
        let name = label.clone();
        self.restart_queue.insert(k, RestartJob { label: name, scheduled_at: at, attempt });
        assert(self@.queue =~= q.insert(k as int, e));
        self.track(label, at, attempt);
        Ok(delay)
    }

    /// Takes out every request due at `now`, earliest first, and forgets
    /// the backoff records of their jobs.
    pub fn get_ready_jobs(&mut self, now: u64) -> (r: Vec<String>)
        requires
            old(self).wf(),
        ensures
            final(self).wf(),
            exists|k: int|
                {
                    &&& ready_prefix(old(self)@.queue, now, k)
                    &&& final(self)@.queue == old(self)@.queue.skip(k)
                    &&& r@.len() == k
                    &&& forall|j: int| 0 <= j < k ==> (#[trigger] r@[j])@ == old(self)@.queue[j].0
                },
            forall|l: Seq<char>|
                #[trigger] backoff_record(final(self)@.tracker, l) == if exists|j: int|
                    0 <= j < r@.len() && (#[trigger] r@[j])@ == l {
                    None
                } else {
                    backoff_record(old(self)@.tracker, l)
                },
    {
        let ghost q = self@.queue;
        let ghost t = self@.tracker;
        let mut k: usize = 0;
        let mut ready: Vec<String> = Vec::new();
        while k < self.restart_queue.len() && self.restart_queue[k].scheduled_at <= now
            invariant
                self.wf(),
                self@.queue == q,
                self@.tracker == t,
                q.len() == self.restart_queue@.len(),
                k <= q.len(),
                ready@.len() == k,
                forall|j: int| 0 <= j < k ==> (#[trigger] q[j]).1 <= now,
                forall|j: int| 0 <= j < k ==> (#[trigger] ready@[j])@ == q[j].0,
            decreases q.len() - k,
        {
            assert(q[k as int] == entry_view(self.restart_queue@[k as int]));
            ready.push(self.restart_queue[k].label.clone());
            k += 1;
        }
        proof {
            if k < q.len() {
                assert(q[k as int] == entry_view(self.restart_queue@[k as int]));
                assert forall|j: int| k <= j < q.len() implies (#[trigger] q[j]).1 > now by {
                    assert(q[k as int].1 <= q[j].1);
                }
            }
            assert(ready_prefix(q, now, k as int));
        }
        let rest = self.restart_queue.split_off(k);
        self.restart_queue = rest;
        assert(self@.queue =~= q.skip(k as int));
        let mut i: usize = 0;
        while i < ready.len()
            invariant
                self.wf(),
                self@.queue == q.skip(k as int),
                i <= ready@.len(),
                forall|l: Seq<char>|
                    #[trigger] backoff_record(self@.tracker, l) == if exists|j: int|
                        0 <= j < i && (#[trigger] ready@[j])@ == l {
                        None
                    } else {
                        backoff_record(t, l)
                    },
            decreases ready@.len() - i,
        {
            let ghost before = self@.tracker;
            self.untrack(ready[i].as_str());
            proof {
                assert forall|l: Seq<char>|
                    #[trigger] backoff_record(self@.tracker, l) == if exists|j: int|
                        0 <= j < i + 1 && (#[trigger] ready@[j])@ == l {
                        None
                    } else {
                        backoff_record(t, l)
                    } by {
                    if l == ready@[i as int]@ {
                    } else {
                        assert(backoff_record(self@.tracker, l) == backoff_record(before, l));
                        if exists|j: int| 0 <= j < i + 1 && (#[trigger] ready@[j])@ == l {
                            let j = choose|j: int| 0 <= j < i + 1 && (#[trigger] ready@[j])@ == l;
                            assert(j < i);
                        }
                    }
                }
            }
            i += 1;
        }
        ready
    }

    /// Drops every pending request and the backoff record of `label`.
    pub fn cancel_restart(&mut self, label: &str)
        requires
            old(self).wf(),
        ensures
            final(self).wf(),
            final(self)@.queue == old(self)@.queue.filter(other_label(label@)),
            backoff_record(final(self)@.tracker, label@) is None,
            forall|l: Seq<char>|
                l != label@ ==> #[trigger] backoff_record(final(self)@.tracker, l) == backoff_record(
                    old(self)@.tracker,
                    l,
                ),
    {
        let ghost q = self@.queue;
        let ghost p = other_label(label@);
        let mut kept: Vec<RestartJob> = Vec::new();
        let mut i: usize = 0;
        while i < self.restart_queue.len()
            invariant
                self.wf(),
                p == other_label(label@),
                self@.queue == q,
                q.len() == self.restart_queue@.len(),
                i <= q.len(),
                kept@.map_values(|j: RestartJob| entry_view(j)) == q.take(i as int).filter(p),
                is_sorted(kept@.map_values(|j: RestartJob| entry_view(j))),
                forall|a: int, j: int|
                    0 <= a < kept@.len() && i <= j < q.len() ==> entry_view(#[trigger] kept@[a]).1
                        <= (#[trigger] q[j]).1,
            decreases q.len() - i,
        {
            let ghost kv = kept@.map_values(|j: RestartJob| entry_view(j));
            assert(q[i as int] == entry_view(self.restart_queue@[i as int]));
            assert(q.take(i as int + 1) =~= q.take(i as int).push(q[i as int]));
            proof {
                q.take(i as int).lemma_filter_push(q[i as int], p);
            }
            assert(p(q[i as int]) == (q[i as int].0 != label@));
            let job = &self.restart_queue[i];
            assert(job.label@ == q[i as int].0);
            if !same_text(job.label.as_str(), label) {
                let copy = RestartJob {
                    label: job.label.clone(),
                    scheduled_at: job.scheduled_at,
                    attempt: job.attempt,
                };
                kept.push(copy);
                assert(kept@.map_values(|j: RestartJob| entry_view(j)) =~= kv.push(q[i as int]));
                proof {
                    assert forall|a: int, b: int|
                        0 <= a <= b < kv.len() + 1 implies kv.push(q[i as int])[a].1 <= kv.push(
                            q[i as int],
                        )[b].1 by {
                        if b == kv.len() && a < kv.len() {
                            assert(kv[a] == entry_view(kept@[a]));
                        }
                    }
                    assert forall|a: int, j: int|
                        0 <= a < kept@.len() && i + 1 <= j < q.len() implies entry_view(
                            #[trigger] kept@[a],
                        ).1 <= (#[trigger] q[j]).1 by {
                        if a < kv.len() {
                        } else {
                            assert(q[i as int].1 <= q[j].1);
                        }
                    }
                }
            }
            i += 1;
        }
        assert(q.take(q.len() as int) =~= q);
        self.restart_queue = kept;
        self.untrack(label);
    }

    /// How long `label` still has to wait, if it is in backoff.
    pub fn is_in_backoff(&self, label: &str, now: u64) -> (r: Option<Duration>)
        requires
            self.wf(),
        ensures
            match backoff_record(self@.tracker, label@) {
                Some((until, _)) => if until > now {
                    r is Some && r->0.millis == until - now
                } else {
                    r is None
                },
                None => r is None,
            },
    {
        match self.find_tracked(label) {
            Some(k) => {
                proof {
                    lemma_record_at(self@.tracker, k as int);
                }
                assert(self@.tracker[k as int] == info_view(self.backoff_tracker@[k as int]));
                let until = self.backoff_tracker[k].backoff_until;
                if until > now {
                    Some(Duration::from_millis(until - now))
                } else {
                    None
                }
            },
            None => None,
        }
    }
}

} // verus!
