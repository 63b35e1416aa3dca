//! The allowlist configuration: commands, their binaries and the argument
//! patterns they accept.
use vstd::prelude::*;

use vstd::string::StringExecFns;

use crate::text::{chars_of, str_eq};

verus! {

/// One accepted shape of a command's arguments, such as `wl {offset} {file}`.
/// A word written `{name}` is a parameter that matches any single argument;
/// every other word must be given literally.
#[derive(Debug, Clone)]
pub struct ArgPattern {
    pub pattern: String,
    /// Names of the parameters whose values must be paths under the file root.
    pub file_args: Vec<String>,
}

/// An allowlisted command.
#[derive(Debug, Clone)]
pub struct CommandConfig {
    pub name: String,
    /// Absolute path of the executable; it is never looked up through `PATH`.
    pub binary: String,
    pub description: String,
    pub allowed_args: Vec<ArgPattern>,
    pub timeout_secs: u64,
}

/// The whole server configuration.
#[derive(Debug, Clone)]
pub struct Config {
    pub bind: String,
    pub auth_token: String,
    /// All file arguments must lie under this directory. Canonicalized at load time.
    pub file_root: String,
    pub commands: Vec<CommandConfig>,
}

/// The mathematical value of an [`ArgPattern`].
pub struct PatternSpec {
    pub pattern: Seq<char>,
    pub file_args: Seq<Seq<char>>,
}

/// The mathematical value of a [`CommandConfig`].
pub struct CommandSpec {
    pub name: Seq<char>,
    pub binary: Seq<char>,
    pub description: Seq<char>,
    pub allowed_args: Seq<PatternSpec>,
    pub timeout_secs: u64,
}

impl View for ArgPattern {
    type V = PatternSpec;

    open spec fn view(&self) -> PatternSpec {
        PatternSpec {
            pattern: self.pattern@,
            file_args: self.file_args@.map_values(|s: String| s@),
        }
    }
}

impl View for CommandConfig {
    type V = CommandSpec;

    open spec fn view(&self) -> CommandSpec {
        CommandSpec {
            name: self.name@,
            binary: self.binary@,
            description: self.description@,
            allowed_args: self.allowed_args@.map_values(|p: ArgPattern| p@),
            timeout_secs: self.timeout_secs,
        }
    }
}

/// Timeout, in seconds, of a command whose configuration gives none.
pub open spec fn spec_default_timeout() -> u64 {
    30
}

/// Timeout, in seconds, of a command whose configuration gives none.
pub fn default_timeout() -> (secs: u64)
    ensures
        secs == spec_default_timeout(),
{
    30
}

impl Config {
    /// The first command named `name`, if any.
    pub fn find_command(&self, name: &str) -> (r: Option<&CommandConfig>)
        ensures
            match r {
                Some(c) => exists|i: int|
                    0 <= i < self.commands@.len() && *c == self.commands@[i]
                        && self.commands@[i].name@ == name@ && forall|j: int|
                        0 <= j < i ==> #[trigger] self.commands@[j].name@ != name@,
                None => forall|i: int|
                    0 <= i < self.commands@.len() ==> #[trigger] self.commands@[i].name@
                        != name@,
            },
    {
        let mut i: usize = 0;
        while i < self.commands.len()
            invariant
                i <= self.commands@.len(),
                forall|j: int| 0 <= j < i ==> #[trigger] self.commands@[j].name@ != name@,
            decreases self.commands.len() - i,
        {
            if str_eq(self.commands[i].name.as_str(), name) {
                assert(self.commands@[i as int].name@ == name@);
                return Some(&self.commands[i]);
            }
            i = i + 1;
        }
        None
    }
}

/// `p` is an absolute path: on Unix, one that starts with `/`
/// (`Path::is_absolute`).
pub open spec fn is_absolute(p: Seq<char>) -> bool {
    p.len() > 0 && p[0] == '/'
}

/// Whether `p` is an absolute path.
pub fn path_is_absolute(p: &str) -> (r: bool)
    ensures
        r == is_absolute(p@),
{
    let v = chars_of(p);
    v.len() > 0 && v[0] == '/'
}

/// A configuration that cannot be used.
#[derive(Debug)]
pub enum ConfigError {
    FileRootNotAbsolute(String),
    FileRootMissing(String),
    BinaryNotAbsolute { command: String, binary: String },
}

/// The mathematical value of a [`ConfigError`].
pub enum ConfigProblem {
    FileRootNotAbsolute(Seq<char>),
    FileRootMissing(Seq<char>),
    BinaryNotAbsolute(Seq<char>, Seq<char>),
}

impl View for ConfigError {
    type V = ConfigProblem;

    open spec fn view(&self) -> ConfigProblem {
        match self {
            ConfigError::FileRootNotAbsolute(r) => ConfigProblem::FileRootNotAbsolute(r@),
            ConfigError::FileRootMissing(r) => ConfigProblem::FileRootMissing(r@),
            ConfigError::BinaryNotAbsolute { command, binary } => ConfigProblem::BinaryNotAbsolute(
                command@,
                binary@,
            ),
        }
    }
}

/// The human-readable text of a configuration problem.
pub open spec fn config_problem_text(p: ConfigProblem) -> Seq<char> {
    match p {
        ConfigProblem::FileRootNotAbsolute(r) => "file_root must be an absolute path, got: "@ + r,
        ConfigProblem::FileRootMissing(r) => "file_root directory does not exist: "@ + r,
        ConfigProblem::BinaryNotAbsolute(c, b) => "Command '"@ + c
            + "' binary must be an absolute path, got: "@ + b,
    }
}

impl ConfigError {
    /// The human-readable text of this problem.
    pub fn message(&self) -> (m: String)
        ensures
            m@ == config_problem_text(self@),
    {
        match self {
            ConfigError::FileRootNotAbsolute(r) => {
                let mut m = String::from_str("file_root must be an absolute path, got: ");
                m.append(r.as_str());
                m
            },
            ConfigError::FileRootMissing(r) => {
                let mut m = String::from_str("file_root directory does not exist: ");
                m.append(r.as_str());
                m
            },
            ConfigError::BinaryNotAbsolute { command, binary } => {
                let mut m = String::from_str("Command '");
                m.append(command.as_str());
                m.append("' binary must be an absolute path, got: ");
                m.append(binary.as_str());
                m
            },
        }
    }
}

impl Config {
    /// The first check of a freshly parsed configuration: `file_root` must be
    /// an absolute path.
    pub fn check_file_root(&self) -> (r: Result<(), ConfigError>)
        ensures
            r is Ok <==> is_absolute(self.file_root@),
            r matches Err(e) ==> e@ == ConfigProblem::FileRootNotAbsolute(self.file_root@),
    {
        if path_is_absolute(self.file_root.as_str()) {
            Ok(())
        } else {
            Err(ConfigError::FileRootNotAbsolute(self.file_root.clone()))
        }
    }

    /// The last step of loading: installs the canonical form of the file root,
    /// then refuses the first command whose binary is not an absolute path.
    pub fn finish_load(self, canonical_root: String) -> (r: Result<Config, ConfigError>)
        ensures
            match r {
                Ok(c) => {
                    &&& c.bind == self.bind
                    &&& c.auth_token == self.auth_token
                    &&& c.file_root == canonical_root
                    &&& c.commands == self.commands
                    &&& forall|i: int|
                        0 <= i < self.commands@.len() ==> is_absolute(
                            (#[trigger] self.commands@[i]).binary@,
                        )
                },
                Err(e) => exists|i: int|
                    0 <= i < self.commands@.len() && !is_absolute(
                        (#[trigger] self.commands@[i]).binary@,
                    ) && (forall|j: int|
                        0 <= j < i ==> is_absolute((#[trigger] self.commands@[j]).binary@))
                        && e@ == ConfigProblem::BinaryNotAbsolute(
                        self.commands@[i].name@,
                        self.commands@[i].binary@,
                    ),
            },
    {
        let mut i: usize = 0;
        while i < self.commands.len()
            invariant
                i <= self.commands@.len(),
                forall|j: int| 0 <= j < i ==> is_absolute((#[trigger] self.commands@[j]).binary@),
            decreases self.commands.len() - i,
        {
            if !path_is_absolute(self.commands[i].binary.as_str()) {
                let e = ConfigError::BinaryNotAbsolute {
                    command: self.commands[i].name.clone(),
                    binary: self.commands[i].binary.clone(),
                };
                assert(!is_absolute(self.commands@[i as int].binary@));
                return Err(e);
            }
            i = i + 1;
        }
        Ok(
            Config {
                bind: self.bind,
                auth_token: self.auth_token,
                file_root: canonical_root,
                commands: self.commands,
            },
        )
    }
}

/// Law: a path is absolute exactly when its first character is `/`; no other
/// start (such as `~`, which no shell expands here) makes it absolute, and the
/// file-argument check and path comparison agree with this.
pub proof fn law_absolute_is_leading_slash(p: Seq<char>)
    ensures
        is_absolute(p) <==> (p.len() > 0 && p[0] == '/'),
        is_absolute(p) == crate::sanitizer::is_absolute_path(p),
        is_absolute(p) == crate::paths::has_root(p),
{
}

} // verus!
