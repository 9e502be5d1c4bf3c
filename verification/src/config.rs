//! The tool's configuration model and the decisions around it: where the
//! configuration and the output live, how a stored project path is
//! validated, what a failed load falls back to, and what the generation
//! flow does next. The reading, writing and prompting themselves are the
//! caller's work.

use vstd::prelude::*;
use crate::chars::{chars_of_str, string_from_chars};
use crate::lines::{spec_trim, trim_vec};

verus! {

/// The persisted configuration: the project path, where one has been set.
#[derive(Debug, Clone, PartialEq, Eq)]
pub struct Config {
    pub project_path: Option<String>,
}

impl Default for Config {
    /// The configuration with no project path set.
    fn default() -> (r: Config)
        ensures
            r.project_path is None,
    {
        Config { project_path: Option::None }
    }
}

/// The failures of configuration handling.
#[derive(Debug)]
pub enum ConfigError {
    /// Reading or writing the configuration or output directory failed.
    Io(String),
    /// The configuration could not be serialized.
    JsonSerialize(String),
    /// The configuration directory could not be created.
    DirCreationFailed(String),
    /// No project path has been set yet.
    ProjectPathNotSet,
    /// The stored project path does not name a directory.
    InvalidProjectPath(String),
}

/// The location of the persisted configuration file, under the
/// configuration directory.
pub fn get_config_path() -> (r: String)
    ensures
        r@ == "user/tool_config.json"@,
{
    string_from_chars(&chars_of_str("user/tool_config.json"))
}

/// The directory the serialized graph is written to.
pub fn get_output_path() -> (r: String)
    ensures
        r@ == "output"@,
{
    string_from_chars(&chars_of_str("output"))
}

/// The characters with leading occurrences of `c` removed.
pub open spec fn spec_trim_char_start(s: Seq<char>, c: char) -> Seq<char>
    decreases s.len(),
{
    if s.len() > 0 && s[0] == c {
        spec_trim_char_start(s.drop_first(), c)
    } else {
        s
    }
}

/// The characters with trailing occurrences of `c` removed.
pub open spec fn spec_trim_char_end(s: Seq<char>, c: char) -> Seq<char>
    decreases s.len(),
{
    if s.len() > 0 && s[s.len() - 1] == c {
        spec_trim_char_end(s.drop_last(), c)
    } else {
        s
    }
}

/// A user-entered path, cleaned: surrounding whitespace stripped, then any
/// surrounding double quotes.
pub open spec fn spec_clean_path(s: Seq<char>) -> Seq<char> {
    spec_trim_char_end(spec_trim_char_start(spec_trim(s), '"'), '"')
}

fn trim_char_vec(v: &Vec<char>, c: char) -> (r: Vec<char>)
    ensures
        r@ == spec_trim_char_end(spec_trim_char_start(v@, c), c),
{
    let n = v.len();
    let mut lo: usize = 0;
    proof {
        assert(v@.subrange(0, n as int) =~= v@);
    }
    while lo < n && v[lo] == c
        invariant
            lo <= n,
            n == v@.len(),
            spec_trim_char_start(v@, c) == spec_trim_char_start(
                v@.subrange(lo as int, n as int),
                c,
            ),
        decreases n - lo,
    {
        proof {
            let suf = v@.subrange(lo as int, n as int);
            assert(suf[0] == v@[lo as int]);
            assert(suf.drop_first() =~= v@.subrange(lo + 1, n as int));
        }
        lo = lo + 1;
    }
    proof {
        let suf = v@.subrange(lo as int, n as int);
        if lo < n {
            assert(suf[0] == v@[lo as int]);
        }
        assert(spec_trim_char_start(suf, c) == suf);
    }
    let ghost started = v@.subrange(lo as int, n as int);
    let mut hi: usize = n;
    while hi > lo && v[hi - 1] == c
        invariant
            lo <= hi <= n,
            n == v@.len(),
            started == v@.subrange(lo as int, n as int),
            spec_trim_char_end(started, c) == spec_trim_char_end(
                v@.subrange(lo as int, hi as int),
                c,
            ),
        decreases hi,
    {
        proof {
            let part = v@.subrange(lo as int, hi as int);
            assert(part[part.len() - 1] == v@[hi - 1]);
            assert(part.drop_last() =~= v@.subrange(lo as int, hi - 1));
        }
        hi = hi - 1;
    }
    proof {
        let part = v@.subrange(lo as int, hi as int);
        if hi > lo {
            assert(part[part.len() - 1] == v@[hi - 1]);
        }
        assert(spec_trim_char_end(part, c) == part);
    }
    crate::chars::copy_range(v, lo, hi)
}

/// Cleans a path as entered at a prompt: surrounding whitespace is
/// stripped, then any surrounding double quotes.
pub fn clean_path_input(raw: &str) -> (r: String)
    ensures
        r@ == spec_clean_path(raw@),
{
    let v = chars_of_str(raw);
    let t = trim_vec(&v);
    let q = trim_char_vec(&t, '"');
    string_from_chars(&q)
}

/// Relies on `shellexpand::tilde`: a path that does not begin with `~`
/// comes back unchanged; one that does has the leading `~` replaced from
/// the environment's home directory, so nothing more is promised of it.
#[verifier::external_body]
pub fn expand_tilde(path: &String) -> (r: String)
    ensures
        (path@.len() == 0 || path@[0] != '~') ==> r@ == path@,
{
    shellexpand::tilde(path.as_str()).to_string()
}

/// The stored project path, tilde-expanded; with none stored, the error
/// that asks for one.
pub fn expand_project_path(config: &Config) -> (r: Result<String, ConfigError>)
    ensures
        match r {
            Ok(p) => {
                &&& config.project_path matches Option::Some(s)
                &&& (s@.len() == 0 || s@[0] != '~') ==> p@ == s@
            },
            Err(e) => config.project_path is None && e matches ConfigError::ProjectPathNotSet,
        },
{
    match &config.project_path {
        Option::None => Err(ConfigError::ProjectPathNotSet),
        Option::Some(s) => Ok(expand_tilde(s)),
    }
}

/// The validation verdict for an expanded project path, given whether it
/// names a directory: the path itself, or the invalid-path error carrying
/// it.
pub fn validate_project_path(expanded: String, is_dir: bool) -> (r: Result<String, ConfigError>)
    ensures
        match r {
            Ok(p) => is_dir && p@ == expanded@,
            Err(e) => {
                &&& !is_dir
                &&& e matches ConfigError::InvalidProjectPath(q)
                &&& q@ == expanded@
            },
        },
{
    if is_dir {
        Ok(expanded)
    } else {
        Err(ConfigError::InvalidProjectPath(expanded))
    }
}

/// What reading the configuration file yielded.
pub enum ConfigReadEvent {
    /// The file was read; `trimmed_empty` says whether its text was blank,
    /// and `parsed` holds the configuration if the text parsed.
    FileRead { trimmed_empty: bool, parsed: Option<Config> },
    /// There is no configuration file.
    NotFound,
    /// The file exists but could not be read.
    ReadFailed { message: String },
}

/// What a configuration load does with what was read: a blank or
/// unparsable file falls back to the default and is deleted, a missing
/// file falls back to the default, and only a failed read is an error.
pub fn load_config_decision(ev: ConfigReadEvent) -> (r: (Result<Config, ConfigError>, bool))
    ensures
        match ev {
            ConfigReadEvent::FileRead { trimmed_empty, parsed } => {
                if trimmed_empty {
                    r.0 matches Ok(c) && c.project_path is None && r.1
                } else {
                    match parsed {
                        Option::Some(c) => r.0 matches Ok(c2) && c2 == c && !r.1,
                        Option::None => r.0 matches Ok(c) && c.project_path is None && r.1,
                    }
                }
            },
            ConfigReadEvent::NotFound => r.0 matches Ok(c) && c.project_path is None && !r.1,
            ConfigReadEvent::ReadFailed { message } => {
                &&& r.0 matches Err(e)
                &&& e matches ConfigError::Io(msg)
                &&& msg@ == message@
                &&& !r.1
            },
        },
{
    match ev {
        ConfigReadEvent::FileRead { trimmed_empty, parsed } => {
            if trimmed_empty {
                (Ok(Config { project_path: Option::None }), true)
            } else {
                match parsed {
                    Option::Some(c) => (Ok(c), false),
                    Option::None => (Ok(Config { project_path: Option::None }), true),
                }
            }
        },
        ConfigReadEvent::NotFound => (Ok(Config { project_path: Option::None }), false),
        ConfigReadEvent::ReadFailed { message } => (Err(ConfigError::Io(message)), false),
    }
}

/// What the generation flow does next.
pub enum GenerateStep {
    /// The path is valid: run the analysis on it.
    Proceed { project_path: String },
    /// The path is missing or invalid: prompt for one and try again.
    PromptAndRetry,
    /// Configuration handling failed for another reason: give up.
    Abort { error: ConfigError },
}

/// Decides what the run does after path validation: a valid path
/// proceeds, a missing or invalid one prompts and retries, any other
/// failure aborts.
pub fn next_generation_action(validated: Result<String, ConfigError>) -> (r: GenerateStep)
    ensures
        match validated {
            Ok(p) => r matches GenerateStep::Proceed { project_path } && project_path@ == p@,
            Err(e) => match e {
                ConfigError::ProjectPathNotSet => r is PromptAndRetry,
                ConfigError::InvalidProjectPath(_) => r is PromptAndRetry,
                _ => r is Abort,
            },
        },
{
    match validated {
        Ok(p) => GenerateStep::Proceed { project_path: p },
        Err(e) => match e {
            ConfigError::ProjectPathNotSet => GenerateStep::PromptAndRetry,
            ConfigError::InvalidProjectPath(_) => GenerateStep::PromptAndRetry,
            err => GenerateStep::Abort { error: err },
        },
    }
}

} // verus!
