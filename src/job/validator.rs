use vstd::prelude::*;

use crate::job::config::{
    EnvironmentVar, JobConfig, JobConfigView, SupervisionConfig, opt_text, env_pairs,
};
use crate::util::error::{ConfigError, NusaError, Result};
use crate::util::text::text_chars;

verus! {

/// Longest accepted label, in characters.
pub const MAX_LABEL_CHARS: usize = 256;

/// Longest accepted restart delay, in seconds.
pub const MAX_RESTART_DELAY_SEC: u64 = 3600;

/// Unicode's `White_Space` property, which `str::trim` strips.
pub open spec fn is_space(c: char) -> bool {
    let u = c as u32;
    (0x9 <= u <= 0xd) || u == 0x20 || u == 0x85 || u == 0xa0 || u == 0x1680 || (0x2000 <= u
        <= 0x200a) || u == 0x2028 || u == 0x2029 || u == 0x202f || u == 0x205f || u == 0x3000
}

/// Empty once surrounding whitespace is trimmed.
pub open spec fn is_blank(s: Seq<char>) -> bool {
    forall|i: int| 0 <= i < s.len() ==> is_space(#[trigger] s[i])
}

/// Characters a label may not hold.
pub open spec fn is_forbidden_in_label(c: char) -> bool {
    c == '/' || c == '\\' || c == ':' || c == '*' || c == '?' || c == '"' || c == '<' || c
        == '>' || c == '|' || c == '\0'
}

pub open spec fn label_is_valid(s: Seq<char>) -> bool {
    &&& !is_blank(s)
    &&& forall|i: int| 0 <= i < s.len() ==> !is_forbidden_in_label(#[trigger] s[i])
    &&& s.len() <= MAX_LABEL_CHARS
}

/// An absolute path on a POSIX host begins at the root.
pub open spec fn is_absolute(p: Seq<char>) -> bool {
    p.len() > 0 && p[0] == '/'
}

pub open spec fn env_key_is_valid(k: Seq<char>) -> bool {
    &&& !is_blank(k)
    &&& forall|i: int| 0 <= i < k.len() ==> #[trigger] k[i] != '=' && k[i] != '\0'
}

pub open spec fn environment_is_valid(env: Seq<(Seq<char>, Seq<char>)>) -> bool {
    forall|i: int| 0 <= i < env.len() ==> env_key_is_valid(#[trigger] env[i].0)
}

pub open spec fn supervision_is_valid(s: SupervisionConfig) -> bool {
    s.restart_delay_sec <= MAX_RESTART_DELAY_SEC
}

/// Every structural rule of a job description.
pub open spec fn config_is_valid(c: JobConfigView) -> bool {
    &&& label_is_valid(c.label)
    &&& is_absolute(c.path)
    &&& match c.working_directory {
        Some(w) => is_absolute(w),
        None => true,
    }
    &&& environment_is_valid(c.environment)
    &&& supervision_is_valid(c.supervision)
}

/// A label that holds a `/` is never valid, so `load_job` refuses it.
pub proof fn lemma_slash_label_rejected(c: JobConfigView, k: int)
    requires
        0 <= k < c.label.len(),
        c.label[k] == '/',
    ensures
        !config_is_valid(c),
{
    assert(is_forbidden_in_label(c.label[k]));
}

pub open spec fn is_validation_error(e: NusaError) -> bool {
    e is Config && e->Config_0 is Validation
}

/// Checks of a job description before it is accepted.
pub struct ConfigValidator;

fn rejected(msg: &str) -> (r: NusaError)
    ensures
        is_validation_error(r),
{
    NusaError::Config(ConfigError::Validation(msg.to_string()))
}

fn rejected_with(msg: &str, detail: &str) -> (r: NusaError)
    ensures
        is_validation_error(r),
{
    let m = msg.to_string();
    NusaError::Config(ConfigError::Validation(m.concat(detail)))
}

/// Whether `c` has Unicode's `White_Space` property.
pub fn is_whitespace_char(c: char) -> (r: bool)
    ensures
        r == is_space(c),
{
    let u = c as u32;
    (0x9 <= u && u <= 0xd) || u == 0x20 || u == 0x85 || u == 0xa0 || u == 0x1680 || (0x2000 <= u
        && u <= 0x200a) || u == 0x2028 || u == 0x2029 || u == 0x202f || u == 0x205f || u
        == 0x3000
}

/// Whether `s` is empty after trimming whitespace.
pub fn is_blank_text(s: &str) -> (r: bool)
    ensures
        r == is_blank(s@),
{
    let cs = text_chars(s);
    let mut i: usize = 0;
    while i < cs.len()
        invariant
            cs@ == s@,
            i <= cs@.len(),
            forall|j: int| 0 <= j < i ==> is_space(#[trigger] s@[j]),
        decreases cs@.len() - i,
    {
        if !is_whitespace_char(cs[i]) {
            return false;
        }
        i += 1;
    }
    true
}

fn starts_at_root(p: &str) -> (r: bool)
    ensures
        r == is_absolute(p@),
{
    p.unicode_len() > 0 && p.get_char(0) == '/'
}

impl ConfigValidator {
    /// Checks a whole job description.
    pub fn validate(config: &JobConfig) -> (r: Result<()>)
        ensures
            r is Ok <==> config_is_valid(config@),
            r is Err ==> is_validation_error(r->Err_0),
    {
        Self::validate_label(config.label.as_str())?;
        Self::validate_program_path(config.program.path.as_str())?;
        if let Some(working_dir) = &config.working_directory {
            Self::validate_working_directory(working_dir.as_str())?;
        }
        Self::validate_environment(&config.environment)?;
        Self::validate_supervision(&config.supervision)?;
        Ok(())
    }

    pub fn validate_label(label: &str) -> (r: Result<()>)
        ensures
            r is Ok <==> label_is_valid(label@),
            r is Err ==> is_validation_error(r->Err_0),
    {
        if is_blank_text(label) {
            return Err(rejected("Label cannot be empty"));
        }
        let cs = text_chars(label);
        let mut i: usize = 0;
        while i < cs.len()
            invariant
                cs@ == label@,
                i <= cs@.len(),
                forall|j: int| 0 <= j < i ==> !is_forbidden_in_label(#[trigger] label@[j]),
            decreases cs@.len() - i,
        {
            let c = cs[i];
            if c == '/' || c == '\\' || c == ':' || c == '*' || c == '?' || c == '"' || c == '<'
                || c == '>' || c == '|' || c == '\0' {
                return Err(rejected_with("Label contains invalid characters: ", label));
            }
            i += 1;
        }
        if cs.len() > MAX_LABEL_CHARS {
            return Err(rejected("Label too long (max 256 characters)"));
        }
        Ok(())
    }

    pub fn validate_program_path(path: &str) -> (r: Result<()>)
        ensures
            r is Ok <==> is_absolute(path@),
            r is Err ==> is_validation_error(r->Err_0),
    {
        if path.unicode_len() == 0 {
            return Err(rejected("Program path cannot be empty"));
        }
        if !starts_at_root(path) {
            return Err(rejected_with("Program path must be absolute: ", path));
        }
        Ok(())
    }

    pub fn validate_working_directory(path: &str) -> (r: Result<()>)
        ensures
            r is Ok <==> is_absolute(path@),
            r is Err ==> is_validation_error(r->Err_0),
    {
        if !starts_at_root(path) {
            return Err(rejected_with("Working directory must be absolute: ", path));
        }
        Ok(())
    }

    pub fn validate_environment(env_vars: &Vec<EnvironmentVar>) -> (r: Result<()>)
        ensures
            r is Ok <==> environment_is_valid(env_pairs(env_vars@)),
            r is Err ==> is_validation_error(r->Err_0),
    {
        let mut i: usize = 0;
        while i < env_vars.len()
            invariant
                i <= env_vars@.len(),
                forall|j: int| 0 <= j < i ==> env_key_is_valid(#[trigger] env_vars@[j].key@),
            decreases env_vars@.len() - i,
        {
            let key = env_vars[i].key.as_str();
            if is_blank_text(key) {
                assert(env_pairs(env_vars@)[i as int].0 == key@);
                assert(!env_key_is_valid(env_pairs(env_vars@)[i as int].0));
                return Err(rejected("Environment variable key cannot be empty"));
            }
            let cs = text_chars(key);
            let mut k: usize = 0;
            while k < cs.len()
                invariant
                    cs@ == key@,
                    k <= cs@.len(),
                    i < env_vars@.len(),
                    key@ == env_vars@[i as int].key@,
                    forall|j: int| 0 <= j < k ==> #[trigger] key@[j] != '=' && key@[j] != '\0',
                decreases cs@.len() - k,
            {
                if cs[k] == '=' || cs[k] == '\0' {
                    assert(key@[k as int] == '=' || key@[k as int] == '\0');
                    assert(env_pairs(env_vars@)[i as int].0 == key@);
                    assert(!env_key_is_valid(env_pairs(env_vars@)[i as int].0));
                    return Err(rejected_with("Invalid environment variable key: ", key));
                }
                k += 1;
            }
            i += 1;
        }
        assert forall|j: int| 0 <= j < env_pairs(env_vars@).len() implies env_key_is_valid(
            #[trigger] env_pairs(env_vars@)[j].0,
        ) by {
            assert(env_pairs(env_vars@)[j].0 == env_vars@[j].key@);
        }
        Ok(())
    }

    pub fn validate_supervision(supervision: &SupervisionConfig) -> (r: Result<()>)
        ensures
            r is Ok <==> supervision_is_valid(*supervision),
            r is Err ==> is_validation_error(r->Err_0),
    {
        if supervision.restart_delay_sec > MAX_RESTART_DELAY_SEC {
            return Err(rejected("Restart delay too long (max 3600 seconds)"));
        }
        Ok(())
    }

}

} // verus!
