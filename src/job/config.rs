use vstd::prelude::*;

use crate::util::error::Result;
use crate::util::text::same_text;

verus! {

/// A declarative job description: what to run and how to supervise it.
#[derive(Debug)]
pub struct JobConfig {
    /// Unique identifier for the job
    pub label: String,
    /// Human-readable description
    pub description: Option<String>,
    /// Program to execute
    pub program: ProgramConfig,
    /// Process supervision settings
    pub supervision: SupervisionConfig,
    /// Environment handed to the child, in order
    pub environment: Vec<EnvironmentVar>,
    /// Working directory of the child
    pub working_directory: Option<String>,
}

#[derive(Debug)]
pub struct ProgramConfig {
    /// Path to the executable
    pub path: String,
    /// Command line arguments
    pub arguments: Vec<String>,
}

#[derive(Clone, Copy, Debug, PartialEq, Eq, Structural)]
pub struct SupervisionConfig {
    /// Master switch of the restart policy
    pub keep_alive: bool,
    /// Which exits lead to a restart
    pub restart_policy: RestartPolicy,
    /// Base delay before a restart, in seconds
    pub restart_delay_sec: u64,
    /// Most restarts before the job is marked failed (0 = unlimited)
    pub max_restarts: u32,
}

#[derive(Clone, Copy, Debug, PartialEq, Eq, Structural)]
pub enum RestartPolicy {
    /// Never restart
    Never,
    /// Restart after every exit
    Always,
    /// Restart after a non-zero exit code
    OnFailure,
    /// Restart after death by a signal
    OnCrash,
}

#[derive(Debug)]
pub struct EnvironmentVar {
    pub key: String,
    pub value: String,
}

/// The mathematical content of a [`JobConfig`].
pub struct JobConfigView {
    pub label: Seq<char>,
    pub description: Option<Seq<char>>,
    pub path: Seq<char>,
    pub arguments: Seq<Seq<char>>,
    pub supervision: SupervisionConfig,
    pub environment: Seq<(Seq<char>, Seq<char>)>,
    pub working_directory: Option<Seq<char>>,
}

pub open spec fn opt_text(o: Option<String>) -> Option<Seq<char>> {
    match o {
        Some(s) => Some(s@),
        None => None,
    }
}

pub open spec fn texts(v: Seq<String>) -> Seq<Seq<char>> {
    v.map_values(|s: String| s@)
}

pub open spec fn env_pairs(v: Seq<EnvironmentVar>) -> Seq<(Seq<char>, Seq<char>)> {
    v.map_values(|e: EnvironmentVar| e@)
}

impl View for EnvironmentVar {
    type V = (Seq<char>, Seq<char>);

    open spec fn view(&self) -> (Seq<char>, Seq<char>) {
        (self.key@, self.value@)
    }
}

impl View for JobConfig {
    type V = JobConfigView;

    open spec fn view(&self) -> JobConfigView {
        JobConfigView {
            label: self.label@,
            description: opt_text(self.description),
            path: self.program.path@,
            arguments: texts(self.program.arguments@),
            supervision: self.supervision,
            environment: env_pairs(self.environment@),
            working_directory: opt_text(self.working_directory),
        }
    }
}

impl Clone for EnvironmentVar {
    fn clone(&self) -> (r: Self)
        ensures
            r == *self,
    {
        EnvironmentVar { key: self.key.clone(), value: self.value.clone() }
    }
}

fn clone_text_opt(o: &Option<String>) -> (r: Option<String>)
    ensures
        r == *o,
{
    match o {
        Some(s) => Some(s.clone()),
        None => None,
    }
}

fn clone_texts(v: &Vec<String>) -> (r: Vec<String>)
    ensures
        r@ == v@,
{
    let mut r: Vec<String> = Vec::new();
    let mut i: usize = 0;
    while i < v.len()
        invariant
            i <= v@.len(),
            r@ == v@.take(i as int),
        decreases v@.len() - i,
    {
        r.push(v[i].clone());
        i += 1;
        assert(r@ =~= v@.take(i as int));
    }
    assert(r@ =~= v@);
    r
}

fn clone_env(v: &Vec<EnvironmentVar>) -> (r: Vec<EnvironmentVar>)
    ensures
        r@ == v@,
{
    let mut r: Vec<EnvironmentVar> = Vec::new();
    let mut i: usize = 0;
    while i < v.len()
        invariant
            i <= v@.len(),
            r@ == v@.take(i as int),
        decreases v@.len() - i,
    {
        r.push(v[i].clone());
        i += 1;
        assert(r@ =~= v@.take(i as int));
    }
    assert(r@ =~= v@);
    r
}

impl Clone for ProgramConfig {
    fn clone(&self) -> (r: Self)
        ensures
            r.path == self.path,
            r.arguments@ == self.arguments@,
    {
        ProgramConfig { path: self.path.clone(), arguments: clone_texts(&self.arguments) }
    }
}

impl Clone for JobConfig {
    fn clone(&self) -> (r: Self)
        ensures
            r@ == self@,
    {
        JobConfig {
            label: self.label.clone(),
            description: clone_text_opt(&self.description),
            program: self.program.clone(),
            supervision: self.supervision,
            environment: clone_env(&self.environment),
            working_directory: clone_text_opt(&self.working_directory),
        }
    }
}

/// Default of `supervision.keep_alive`.
pub fn default_true() -> (r: bool)
    ensures
        r,
{
    true
}

/// Default of `supervision.restart_delay_sec`, in seconds.
pub fn default_restart_delay() -> (r: u64)
    ensures
        r == 1,
{
    1
}

/// Default of `supervision.max_restarts`.
pub fn default_max_restarts() -> (r: u32)
    ensures
        r == 5,
{
    5
}

impl Default for RestartPolicy {
    fn default() -> (r: Self)
        ensures
            r == RestartPolicy::OnFailure,
    {
        RestartPolicy::OnFailure
    }
}

impl Default for SupervisionConfig {
    fn default() -> (r: Self)
        ensures
            r.keep_alive,
            r.restart_policy == RestartPolicy::OnFailure,
            r.restart_delay_sec == 1,
            r.max_restarts == 5,
    {
        SupervisionConfig {
            keep_alive: default_true(),
            restart_policy: RestartPolicy::OnFailure,
            restart_delay_sec: default_restart_delay(),
            max_restarts: default_max_restarts(),
        }
    }
}

pub open spec fn pair_views(v: Seq<(String, String)>) -> Seq<(Seq<char>, Seq<char>)> {
    v.map_values(|p: (String, String)| (p.0@, p.1@))
}

/// `i` is the last of the first `n` pairs with key `k`.
pub open spec fn is_last_with_key(
    env: Seq<(Seq<char>, Seq<char>)>,
    n: int,
    i: int,
    k: Seq<char>,
) -> bool {
    &&& 0 <= i < n
    &&& env[i].0 == k
    &&& forall|i2: int| i < i2 < n ==> (#[trigger] env[i2]).0 != k
}

/// `p` is the last pair with its key among the first `n` pairs of `env`.
pub open spec fn is_last_pair(
    env: Seq<(Seq<char>, Seq<char>)>,
    n: int,
    p: (Seq<char>, Seq<char>),
) -> bool {
    exists|i: int| is_last_with_key(env, n, i, p.0) && env[i].1 == p.1
}

pub open spec fn has_key(r: Seq<(Seq<char>, Seq<char>)>, k: Seq<char>) -> bool {
    exists|j: int| 0 <= j < r.len() && r[j].0 == k
}

/// `r` holds each key of the first `n` pairs of `env` once, with the value
/// of its last pair.
pub open spec fn materializes(
    env: Seq<(Seq<char>, Seq<char>)>,
    n: int,
    r: Seq<(Seq<char>, Seq<char>)>,
) -> bool {
    &&& forall|a: int, b: int| 0 <= a < r.len() && 0 <= b < r.len() && a != b ==> r[a].0 != r[b].0
    &&& forall|j: int| 0 <= j < r.len() ==> is_last_pair(env, n, #[trigger] r[j])
    &&& forall|i: int| 0 <= i < n ==> has_key(r, (#[trigger] env[i]).0)
}

/// A restart policy is dormant when `keep_alive` is off and the policy is not `never`.
pub open spec fn policy_is_dormant(s: SupervisionConfig) -> bool {
    !s.keep_alive && s.restart_policy != RestartPolicy::Never
}

impl SupervisionConfig {
    /// Whether the restart policy is accepted but switched off by `keep_alive = false`.
    pub fn policy_dormant(&self) -> (r: bool)
        ensures
            r == policy_is_dormant(*self),
    {
        !self.keep_alive && !matches!(self.restart_policy, RestartPolicy::Never)
    }
}

proof fn lemma_materialize_replace(
    env: Seq<(Seq<char>, Seq<char>)>,
    i: int,
    rv: Seq<(Seq<char>, Seq<char>)>,
    j: int,
)
    requires
        materializes(env, i, rv),
        0 <= i < env.len(),
        0 <= j < rv.len(),
        rv[j].0 == env[i].0,
    ensures
        materializes(env, i + 1, rv.update(j, env[i])),
{
    let n = i + 1;
    let nv = rv.update(j, env[i]);
    assert forall|a: int, b: int|
        0 <= a < nv.len() && 0 <= b < nv.len() && a != b implies nv[a].0 != nv[b].0 by {
        assert(rv[a].0 == nv[a].0 && rv[b].0 == nv[b].0);
    }
    assert forall|x: int| 0 <= x < nv.len() implies is_last_pair(env, n, #[trigger] nv[x]) by {
        if x == j {
            assert(is_last_with_key(env, n, i, nv[x].0));
        } else {
            assert(nv[x] == rv[x]);
            assert(is_last_pair(env, i, rv[x]));
            let w = choose|w: int| is_last_with_key(env, i, w, rv[x].0) && env[w].1 == rv[x].1;
            assert(rv[x].0 != rv[j].0);
            assert(is_last_with_key(env, n, w, nv[x].0));
        }
    }
    assert forall|y: int| 0 <= y < n implies has_key(nv, (#[trigger] env[y]).0) by {
        if y == i {
            assert(nv[j].0 == env[y].0);
        } else {
            assert(has_key(rv, env[y].0));
            let x = choose|x: int| 0 <= x < rv.len() && rv[x].0 == env[y].0;
            assert(nv[x].0 == rv[x].0);
        }
    }
}

proof fn lemma_materialize_push(
    env: Seq<(Seq<char>, Seq<char>)>,
    i: int,
    rv: Seq<(Seq<char>, Seq<char>)>,
)
    requires
        materializes(env, i, rv),
        0 <= i < env.len(),
        forall|a: int| 0 <= a < rv.len() ==> rv[a].0 != env[i].0,
    ensures
        materializes(env, i + 1, rv.push(env[i])),
{
    let n = i + 1;
    let nv = rv.push(env[i]);
    assert forall|a: int, b: int|
        0 <= a < nv.len() && 0 <= b < nv.len() && a != b implies nv[a].0 != nv[b].0 by {
        if a < rv.len() {
            assert(nv[a] == rv[a]);
        }
        if b < rv.len() {
            assert(nv[b] == rv[b]);
        }
    }
    assert forall|x: int| 0 <= x < nv.len() implies is_last_pair(env, n, #[trigger] nv[x]) by {
        if x == rv.len() {
            assert(is_last_with_key(env, n, i, nv[x].0));
        } else {
            assert(nv[x] == rv[x]);
            assert(is_last_pair(env, i, rv[x]));
            let w = choose|w: int| is_last_with_key(env, i, w, rv[x].0) && env[w].1 == rv[x].1;
            assert(is_last_with_key(env, n, w, nv[x].0));
        }
    }
    assert forall|y: int| 0 <= y < n implies has_key(nv, (#[trigger] env[y]).0) by {
        if y == i {
            assert(nv[rv.len() as int].0 == env[y].0);
        } else {
            assert(has_key(rv, env[y].0));
            let x = choose|x: int| 0 <= x < rv.len() && rv[x].0 == env[y].0;
            assert(nv[x] == rv[x]);
        }
    }
}

/// Where key `k` stands among the pairs of `r`, if it does.
fn find_key(r: &Vec<(String, String)>, k: &str) -> (found: Option<usize>)
    ensures
        match found {
            Some(j) => j < r@.len() && pair_views(r@)[j as int].0 == k@,
            None => forall|a: int| 0 <= a < r@.len() ==> pair_views(r@)[a].0 != k@,
        },
{
    let mut j: usize = 0;
    while j < r.len()
        invariant
            j <= r@.len(),
            forall|a: int| 0 <= a < j ==> pair_views(r@)[a].0 != k@,
        decreases r@.len() - j,
    {
        assert(pair_views(r@)[j as int].0 == r@[j as int].0@);
        if same_text(r[j].0.as_str(), k) {
            return Some(j);
        }
        j += 1;
    }
    None
}

impl JobConfig {
    /// Checks every structural rule of a job description.
    pub fn validate(&self) -> (r: Result<()>)
        ensures
            r is Ok <==> crate::job::validator::config_is_valid(self@),
            r is Err ==> crate::job::validator::is_validation_error(r->Err_0),
    {
        crate::job::validator::ConfigValidator::validate(self)
    }

    /// The environment a child gets: each key once, with the value of its
    /// last pair.
    pub fn effective_env(&self) -> (r: Vec<(String, String)>)
        ensures
            materializes(env_pairs(self.environment@), self.environment@.len() as int, pair_views(r@)),
    {
        let ghost env = env_pairs(self.environment@);
        let mut r: Vec<(String, String)> = Vec::new();
        let mut i: usize = 0;
        while i < self.environment.len()
            invariant
                env == env_pairs(self.environment@),
                i <= self.environment@.len(),
                materializes(env, i as int, pair_views(r@)),
            decreases self.environment@.len() - i,
        {
            let e = &self.environment[i];
            assert(env[i as int] == (e.key@, e.value@));
            let ghost rv = pair_views(r@);
            let found = find_key(&r, e.key.as_str());
            let ghost n = i as int + 1;
            if let Some(j) = found {
                let pair = (e.key.clone(), e.value.clone());
                r.set(j, pair);
                assert(pair_views(r@) =~= rv.update(j as int, (e.key@, e.value@)));
                proof {
                    lemma_materialize_replace(env, i as int, rv, j as int);
                }
            } else {
                r.push((e.key.clone(), e.value.clone()));
                assert(pair_views(r@) =~= rv.push((e.key@, e.value@)));
                proof {
                    lemma_materialize_push(env, i as int, rv);
                }
            }
            i += 1;
        }
        r
    }

    /// The environment as ordered (key, value) pairs, duplicates kept.
    pub fn get_env_vars(&self) -> (r: Vec<(String, String)>)
        ensures
            r@.len() == self.environment@.len(),
            forall|i: int|
                0 <= i < r@.len() ==> (#[trigger] r@[i]).0@ == self.environment@[i].key@
                    && r@[i].1@ == self.environment@[i].value@,
    {
        let mut r: Vec<(String, String)> = Vec::new();
        let mut i: usize = 0;
        while i < self.environment.len()
            invariant
                i <= self.environment@.len(),
                r@.len() == i,
                forall|j: int|
                    0 <= j < i ==> (#[trigger] r@[j]).0@ == self.environment@[j].key@
                        && r@[j].1@ == self.environment@[j].value@,
            decreases self.environment@.len() - i,
        {
            let e = &self.environment[i];
            r.push((e.key.clone(), e.value.clone()));
            i += 1;
        }
        r
    }
}

} // verus!
