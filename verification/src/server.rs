//! The decisions and the replies of the five tools that the server offers:
//! listing commands, running one, and listing, copying and removing files
//! under the file root. The work between them (running a process, touching
//! the file system) is done by the caller, who hands the outcome back.
use vstd::prelude::*;
use vstd::string::StringExecFns;

use std::sync::Arc;

use crate::config::{CommandConfig, CommandSpec, Config, PatternSpec};
use crate::paths::{law_named_piece_is_kept, same_components, same_path};
use crate::sanitizer::{
    file_arg_rejection, law_path_check_exact, path_is_safe, rejection_text, spec_validate_command,
    validate_command, validate_path_under_root, Rejection, SanitizeError,
};
use crate::text::{
    decimal, pad_left, push_char, push_decimal, push_padded, push_signed_decimal, signed_decimal,
};

verus! {

/// Arguments of the `execute_command` tool.
pub struct ExecuteCommandArgs {
    /// Name of the command to execute (must be in the allowlist).
    pub command: String,
    /// Arguments string (must match an allowed pattern).
    pub args: String,
}

/// Arguments of the `list_commands` tool: none.
pub struct ListCommandsArgs {}

/// Arguments of the `list_files` tool.
pub struct ListFilesArgs {
    /// Path relative to the shared file root (`""` for the root itself).
    pub path: String,
}

/// Arguments of the `copy_file` tool.
pub struct CopyFileArgs {
    /// Source path relative to the shared file root.
    pub src: String,
    /// Destination path relative to the shared file root.
    pub dst: String,
}

/// Arguments of the `remove_file` tool.
pub struct RemoveFileArgs {
    /// Path relative to the shared file root.
    pub path: String,
}

/// What a tool answers: a text, and whether it reports a failure.
pub struct ToolReply {
    pub is_error: bool,
    pub text: String,
}

/// A request that a tool refuses as invalid.
pub enum ToolError {
    UnknownCommand(String),
    InvalidArguments(SanitizeError),
    InvalidPath(SanitizeError),
}

/// The mathematical value of a [`ToolError`].
pub enum ToolProblem {
    UnknownCommand(Seq<char>),
    InvalidArguments(Rejection),
    InvalidPath(Rejection),
}

impl View for ToolError {
    type V = ToolProblem;

    open spec fn view(&self) -> ToolProblem {
        match self {
            ToolError::UnknownCommand(c) => ToolProblem::UnknownCommand(c@),
            ToolError::InvalidArguments(e) => ToolProblem::InvalidArguments(e@),
            ToolError::InvalidPath(e) => ToolProblem::InvalidPath(e@),
        }
    }
}

/// The human-readable text of a refused request.
pub open spec fn tool_problem_text(p: ToolProblem) -> Seq<char> {
    match p {
        ToolProblem::UnknownCommand(c) => "Unknown command '"@ + c
            + "'. Use list_commands to see available commands."@,
        ToolProblem::InvalidArguments(r) => "Argument validation failed: "@ + rejection_text(r),
        ToolProblem::InvalidPath(r) => "Path validation failed: "@ + rejection_text(r),
    }
}

impl ToolError {
    /// The human-readable text of this refusal.
    pub fn message(&self) -> (m: String)
        ensures
            m@ == tool_problem_text(self@),
    {
        match self {
            ToolError::UnknownCommand(c) => {
                let mut m = String::from_str("Unknown command '");
                m.append(c.as_str());
                m.append("'. Use list_commands to see available commands.");
                m
            },
            ToolError::InvalidArguments(e) => {
                let mut m = String::from_str("Argument validation failed: ");
                let t = e.message();
                m.append(t.as_str());
                m
            },
            ToolError::InvalidPath(e) => {
                let mut m = String::from_str("Path validation failed: ");
                let t = e.message();
                m.append(t.as_str());
                m
            },
        }
    }
}

/// The line that describes one argument pattern.
pub open spec fn pattern_line(p: Seq<char>) -> Seq<char> {
    if p.len() == 0 {
        "  - (no arguments)\n"@
    } else {
        "  - "@ + p + "\n"@
    }
}

/// The lines that describe a command's argument patterns.
pub open spec fn patterns_text(ps: Seq<PatternSpec>) -> Seq<char>
    decreases ps.len(),
{
    if ps.len() == 0 {
        Seq::empty()
    } else {
        patterns_text(ps.drop_last()) + pattern_line(ps.last().pattern)
    }
}

/// The section that describes one command.
pub open spec fn command_text(c: CommandSpec) -> Seq<char> {
    "## "@ + c.name + "\n"@ + "Binary: "@ + c.binary + "\n"@ + "Description: "@ + c.description
        + "\n"@ + "Timeout: "@ + decimal(c.timeout_secs as nat) + "s\n"@
        + "Allowed argument patterns:\n"@ + patterns_text(c.allowed_args) + "\n"@
}

/// The sections that describe the commands, in order.
pub open spec fn commands_text(cs: Seq<CommandSpec>) -> Seq<char>
    decreases cs.len(),
{
    if cs.len() == 0 {
        Seq::empty()
    } else {
        commands_text(cs.drop_last()) + command_text(cs.last())
    }
}

/// The answer of `list_commands`: the file root, then each command.
pub open spec fn command_list_text(root: Seq<char>, cs: Seq<CommandSpec>) -> Seq<char> {
    "File root: "@ + root + "\n"@ + "All file path arguments must be under this directory.\n\n"@
        + commands_text(cs)
}

/// The views of a list of commands.
pub open spec fn command_views(cs: Seq<CommandConfig>) -> Seq<CommandSpec> {
    cs.map_values(|c: CommandConfig| c@)
}

/// The views of a list of strings.
pub open spec fn string_views(v: Seq<String>) -> Seq<Seq<char>> {
    v.map_values(|s: String| s@)
}

/// Command `i` is the first one named `name`.
pub open spec fn is_first_named(cs: Seq<CommandConfig>, name: Seq<char>, i: int) -> bool {
    &&& 0 <= i < cs.len()
    &&& cs[i].name@ == name
    &&& forall|j: int| 0 <= j < i ==> #[trigger] cs[j].name@ != name
}

/// The path that a path relative to the file root stands for.
pub open spec fn resolved(root: Seq<char>, relative: Seq<char>) -> Seq<char> {
    if relative.len() == 0 {
        root
    } else {
        root + seq!['/'] + relative
    }
}

/// A command invocation that passed validation, ready to run.
pub struct ExecPlan {
    /// The command's name in the allowlist.
    pub command: String,
    /// The executable to run, never looked up through `PATH`.
    pub binary: String,
    /// The validated arguments, passed to the executable without a shell.
    pub args: Vec<String>,
    /// How long the command may run.
    pub timeout_secs: u64,
}

/// How running a command ended.
pub enum ExecOutcome {
    /// The process ran to its end; `exit_code` is `None` when a signal ended it.
    Finished { exit_code: Option<i32>, stdout: String, stderr: String },
    /// The process could not be started; the system's error text.
    SpawnFailed(String),
    /// The process outlived its timeout.
    TimedOut,
}

/// `text` under `heading` when it is not empty, else nothing.
pub open spec fn section(heading: Seq<char>, text: Seq<char>) -> Seq<char> {
    if text.len() > 0 {
        heading + text
    } else {
        Seq::empty()
    }
}

/// The reply text for a finished process.
pub open spec fn finished_text(exit_code: Option<i32>, stdout: Seq<char>, stderr: Seq<char>) -> Seq<
    char,
> {
    let code: int = match exit_code {
        Some(c) => c as int,
        None => -1,
    };
    "Exit code: "@ + signed_decimal(code) + "\n"@ + section("\n--- stdout ---\n"@, stdout)
        + section("\n--- stderr ---\n"@, stderr)
}

/// One entry of a directory, as `list_files` reports it.
pub struct EntryInfo {
    pub name: String,
    pub is_dir: bool,
    /// The entry's size in bytes, where its metadata could be read.
    pub size: Option<u64>,
}

/// The line that describes one directory entry: its size right-aligned in
/// ten columns (`?` when unknown), two spaces, its name, and `/` for a directory.
pub open spec fn entry_line(e: EntryInfo) -> Seq<char> {
    let size = match e.size {
        Some(n) => decimal(n as nat),
        None => "?"@,
    };
    pad_left(size, 10) + "  "@ + e.name@ + (if e.is_dir {
        "/"@
    } else {
        Seq::empty()
    }) + "\n"@
}

/// The lines that describe directory entries, in order.
pub open spec fn entries_text(es: Seq<EntryInfo>) -> Seq<char>
    decreases es.len(),
{
    if es.len() == 0 {
        Seq::empty()
    } else {
        entries_text(es.drop_last()) + entry_line(es.last())
    }
}

/// How copying a file ended.
pub enum CopyOutcome {
    /// The destination's parent directory could not be created.
    ParentNotCreated { parent: String, error: String },
    /// The file was copied; the number of bytes.
    Copied(u64),
    /// The copy failed; the system's error text.
    Failed(String),
}

/// The next step of `remove_file`.
pub enum RemoveStep {
    /// The path is the file root itself: answer this refusal.
    Refuse(ToolReply),
    /// Remove the file at this path.
    Remove(String),
}

/// The text of the refusal to remove the file root.
pub open spec fn refuse_root_text() -> Seq<char> {
    "Cannot remove the file root directory itself"@
}

/// The server's state: its configuration.
pub struct HostCmdServer {
    pub config: Arc<Config>,
}

impl HostCmdServer {
    /// A server for `config`.
    pub fn new(config: Arc<Config>) -> (s: Self)
        ensures
            s.config == config,
    {
        HostCmdServer { config }
    }

    /// The `list_commands` tool: the file root, then for each command its
    /// binary, description, timeout and allowed argument patterns.
    #[verifier::spinoff_prover]
    #[verifier::rlimit(40)]
    pub fn list_commands(&self, _args: ListCommandsArgs) -> (r: ToolReply)
        ensures
            !r.is_error,
            r.text@ == command_list_text(
                self.config.file_root@,
                command_views(self.config.commands@),
            ),
    {
        let config: &Config = &self.config;
        let mut out = String::from_str("File root: ");
        out.append(config.file_root.as_str());
        out.append("\n");
        out.append("All file path arguments must be under this directory.\n\n");
        let ghost head = out@;
        let ghost cs = command_views(config.commands@);
        let mut i: usize = 0;
        assert(cs.take(0) =~= Seq::<CommandSpec>::empty());
        while i < config.commands.len()
            invariant
                i <= config.commands@.len(),
                cs == command_views(config.commands@),
                out@ == head + commands_text(cs.take(i as int)),
            decreases config.commands.len() - i,
        {
            let cmd = &config.commands[i];
            assert(cs[i as int] == cmd@);
            let ghost before = out@;
            out.append("## ");
            out.append(cmd.name.as_str());
            out.append("\n");
            out.append("Binary: ");
            out.append(cmd.binary.as_str());
            out.append("\n");
            out.append("Description: ");
            out.append(cmd.description.as_str());
            out.append("\n");
            out.append("Timeout: ");
            push_decimal(&mut out, cmd.timeout_secs);
            out.append("s\n");
            out.append("Allowed argument patterns:\n");
            let ghost mid = out@;
            let ghost ps = cmd@.allowed_args;
            let mut k: usize = 0;
            assert(ps.take(0) =~= Seq::<PatternSpec>::empty());
            while k < cmd.allowed_args.len()
                invariant
                    k <= cmd.allowed_args@.len(),
                    ps == cmd@.allowed_args,
                    out@ == mid + patterns_text(ps.take(k as int)),
                decreases cmd.allowed_args.len() - k,
            {
                let pat = &cmd.allowed_args[k];
                assert(ps[k as int] == pat@);
                if pat.pattern.as_str().is_empty() {
                    out.append("  - (no arguments)\n");
                } else {
                    out.append("  - ");
                    out.append(pat.pattern.as_str());
                    out.append("\n");
                }
                assert(ps.take(k + 1).drop_last() =~= ps.take(k as int));
                assert(out@ =~= mid + patterns_text(ps.take(k + 1)));
                k = k + 1;
            }
            assert(ps.take(ps.len() as int) =~= ps);
            out.append("\n");
            assert(cs.take(i + 1).drop_last() =~= cs.take(i as int));
            assert(out@ =~= before + command_text(cmd@));
            assert(out@ =~= head + commands_text(cs.take(i + 1)));
            i = i + 1;
        }
        assert(cs.take(cs.len() as int) =~= cs);
        ToolReply { is_error: false, text: out }
    }

    /// The decision of the `execute_command` tool: the first command with the
    /// requested name, and its validated arguments.
    pub fn plan_execution(&self, args: &ExecuteCommandArgs) -> (r: Result<ExecPlan, ToolError>)
        ensures
            match r {
                Ok(p) => exists|i: int|
                    is_first_named(self.config.commands@, args.command@, i) && {
                        let c = #[trigger] self.config.commands@[i];
                        &&& p.command == c.name
                        &&& p.binary == c.binary
                        &&& p.timeout_secs == c.timeout_secs
                        &&& spec_validate_command(c@, args.args@, self.config.file_root@) == Ok::<
                            Seq<Seq<char>>,
                            Rejection,
                        >(string_views(p.args@))
                    },
                Err(ToolError::UnknownCommand(n)) => n@ == args.command@ && forall|i: int|
                    0 <= i < self.config.commands@.len() ==> (#[trigger] self.config.commands@[i]).name@
                        != args.command@,
                Err(ToolError::InvalidArguments(e)) => exists|i: int|
                    is_first_named(self.config.commands@, args.command@, i) && spec_validate_command(
                        (#[trigger] self.config.commands@[i])@,
                        args.args@,
                        self.config.file_root@,
                    ) == Err::<Seq<Seq<char>>, Rejection>(e@),
                Err(ToolError::InvalidPath(_)) => false,
            },
    {
        let config: &Config = &self.config;
        match config.find_command(args.command.as_str()) {
            None => Err(ToolError::UnknownCommand(args.command.clone())),
            Some(cmd) => {
                let ghost i = choose|i: int|
                    0 <= i < config.commands@.len() && *cmd == config.commands@[i]
                        && config.commands@[i].name@ == args.command@ && forall|j: int|
                        0 <= j < i ==> #[trigger] config.commands@[j].name@ != args.command@;
                assert(is_first_named(config.commands@, args.command@, i));
                match validate_command(cmd, args.args.as_str(), config.file_root.as_str()) {
                    Ok(validated) => {
                        assert(string_views(validated@) =~= validated@.map_values(|s: String| s@));
                        Ok(
                            ExecPlan {
                                command: cmd.name.clone(),
                                binary: cmd.binary.clone(),
                                args: validated,
                                timeout_secs: cmd.timeout_secs,
                            },
                        )
                    },
                    Err(e) => Err(ToolError::InvalidArguments(e)),
                }
            },
        }
    }

    /// Resolves a path relative to the file root, and refuses it unless it is
    /// a safe path under the root.
    pub fn resolve_path(&self, relative: &str) -> (r: Result<String, ToolError>)
        ensures
            match r {
                Ok(p) => p@ == resolved(self.config.file_root@, relative@) && file_arg_rejection(
                    p@,
                    self.config.file_root@,
                ) is None,
                Err(ToolError::InvalidPath(e)) => file_arg_rejection(
                    resolved(self.config.file_root@, relative@),
                    self.config.file_root@,
                ) == Some(e@),
                Err(_) => false,
            },
    {
        let config: &Config = &self.config;
        let abs = if relative.is_empty() {
            config.file_root.clone()
        } else {
            let mut a = config.file_root.clone();
            push_char(&mut a, '/');
            a.append(relative);
            assert(a@ =~= config.file_root@ + seq!['/'] + relative@);
            a
        };
        assert(abs@ == resolved(config.file_root@, relative@));
        match validate_path_under_root(abs.as_str(), config.file_root.as_str()) {
            Ok(()) => Ok(abs),
            Err(e) => Err(ToolError::InvalidPath(e)),
        }
    }

    /// The decision of the `copy_file` tool: the source and destination
    /// paths, each resolved under the file root, the source first.
    pub fn plan_copy(&self, args: &CopyFileArgs) -> (r: Result<(String, String), ToolError>)
        ensures
            match r {
                Ok((src, dst)) => {
                    &&& src@ == resolved(self.config.file_root@, args.src@)
                    &&& dst@ == resolved(self.config.file_root@, args.dst@)
                    &&& file_arg_rejection(src@, self.config.file_root@) is None
                    &&& file_arg_rejection(dst@, self.config.file_root@) is None
                },
                Err(ToolError::InvalidPath(e)) => {
                    let rs = file_arg_rejection(
                        resolved(self.config.file_root@, args.src@),
                        self.config.file_root@,
                    );
                    let rd = file_arg_rejection(
                        resolved(self.config.file_root@, args.dst@),
                        self.config.file_root@,
                    );
                    rs == Some(e@) || (rs is None && rd == Some(e@))
                },
                Err(_) => false,
            },
    {
        let src = match self.resolve_path(args.src.as_str()) {
            Ok(p) => p,
            Err(e) => {
                return Err(e);
            },
        };
        let dst = match self.resolve_path(args.dst.as_str()) {
            Ok(p) => p,
            Err(e) => {
                return Err(e);
            },
        };
        Ok((src, dst))
    }

    /// The decision of the `remove_file` tool: the resolved path, unless it
    /// is the file root itself, which is refused.
    pub fn plan_remove(&self, args: &RemoveFileArgs) -> (r: Result<RemoveStep, ToolError>)
        ensures
            match r {
                Ok(RemoveStep::Remove(p)) => {
                    &&& p@ == resolved(self.config.file_root@, args.path@)
                    &&& file_arg_rejection(p@, self.config.file_root@) is None
                    &&& !same_components(p@, self.config.file_root@)
                },
                Ok(RemoveStep::Refuse(reply)) => {
                    let p = resolved(self.config.file_root@, args.path@);
                    &&& file_arg_rejection(p, self.config.file_root@) is None
                    &&& same_components(p, self.config.file_root@)
                    &&& reply.is_error
                    &&& reply.text@ == refuse_root_text()
                },
                Err(ToolError::InvalidPath(e)) => file_arg_rejection(
                    resolved(self.config.file_root@, args.path@),
                    self.config.file_root@,
                ) == Some(e@),
                Err(_) => false,
            },
    {
        let path = match self.resolve_path(args.path.as_str()) {
            Ok(p) => p,
            Err(e) => {
                return Err(e);
            },
        };
        let config: &Config = &self.config;
        if same_path(path.as_str(), config.file_root.as_str()) {
            Ok(
                RemoveStep::Refuse(
                    ToolReply {
                        is_error: true,
                        text: String::from_str("Cannot remove the file root directory itself"),
                    },
                ),
            )
        } else {
            Ok(RemoveStep::Remove(path))
        }
    }
}

/// The reply of the `execute_command` tool once the planned command ran:
/// the exit code and any output for a finished process, which fails unless
/// it exited with code 0; otherwise the reason it did not finish.
pub fn execution_report(plan: &ExecPlan, outcome: ExecOutcome) -> (r: ToolReply)
    ensures
        match outcome {
            ExecOutcome::Finished { exit_code, stdout, stderr } => {
                &&& r.is_error == (exit_code != Some(0i32))
                &&& r.text@ == finished_text(exit_code, stdout@, stderr@)
            },
            ExecOutcome::SpawnFailed(e) => r.is_error && r.text@ == "Failed to execute: "@ + e@,
            ExecOutcome::TimedOut => r.is_error && r.text@ == "Command timed out after "@ + decimal(
                plan.timeout_secs as nat,
            ) + "s"@,
        },
{
    match outcome {
        ExecOutcome::Finished { exit_code, stdout, stderr } => {
            let code: i32 = match exit_code {
                Some(c) => c,
                None => -1,
            };
            let mut text = String::from_str("Exit code: ");
            push_signed_decimal(&mut text, code);
            text.append("\n");
            if !stdout.as_str().is_empty() {
                text.append("\n--- stdout ---\n");
                text.append(stdout.as_str());
            }
            if !stderr.as_str().is_empty() {
                text.append("\n--- stderr ---\n");
                text.append(stderr.as_str());
            }
            let success = match exit_code {
                Some(c) => c == 0,
                None => false,
            };
            ToolReply { is_error: !success, text }
        },
        ExecOutcome::SpawnFailed(e) => {
            let mut text = String::from_str("Failed to execute: ");
            text.append(e.as_str());
            ToolReply { is_error: true, text }
        },
        ExecOutcome::TimedOut => {
            let mut text = String::from_str("Command timed out after ");
            push_decimal(&mut text, plan.timeout_secs);
            text.append("s");
            ToolReply { is_error: true, text }
        },
    }
}

/// The reply of the `list_files` tool for directory `dir`: a line per entry
/// (or a note that it is empty), or the error that kept it from being read.
pub fn listing_report(dir: &str, listing: Result<Vec<EntryInfo>, String>) -> (r: ToolReply)
    ensures
        match listing {
            Ok(es) => !r.is_error && r.text@ == (if es@.len() == 0 {
                "(empty directory)\n"@
            } else {
                entries_text(es@)
            }),
            Err(e) => r.is_error && r.text@ == "Failed to read directory '"@ + dir@ + "': "@ + e@,
        },
{
    match listing {
        Ok(entries) => {
            if entries.len() == 0 {
                return ToolReply { is_error: false, text: String::from_str("(empty directory)\n") };
            }
            let mut out = String::new();
            let mut i: usize = 0;
            assert(entries@.take(0) =~= Seq::<EntryInfo>::empty());
            while i < entries.len()
                invariant
                    i <= entries@.len(),
                    out@ == entries_text(entries@.take(i as int)),
                decreases entries.len() - i,
            {
                let e = &entries[i];
                let ghost before = out@;
                let size = match e.size {
                    Some(n) => {
                        let mut t = String::new();
                        push_decimal(&mut t, n);
                        t
                    },
                    None => String::from_str("?"),
                };
                push_padded(&mut out, size.as_str(), 10);
                out.append("  ");
                out.append(e.name.as_str());
                if e.is_dir {
                    out.append("/");
                }
                out.append("\n");
                assert(entries@.take(i + 1).drop_last() =~= entries@.take(i as int));
                assert(out@ =~= before + entry_line(entries@[i as int]));
                i = i + 1;
            }
            assert(entries@.take(entries@.len() as int) =~= entries@);
            ToolReply { is_error: false, text: out }
        },
        Err(e) => {
            let mut text = String::from_str("Failed to read directory '");
            text.append(dir);
            text.append("': ");
            text.append(e.as_str());
            ToolReply { is_error: true, text }
        },
    }
}

/// The reply of the `copy_file` tool once the copy from `src` to `dst` ended.
pub fn copy_report(src: &str, dst: &str, outcome: CopyOutcome) -> (r: ToolReply)
    ensures
        match outcome {
            CopyOutcome::ParentNotCreated { parent, error } => r.is_error && r.text@
                == "Failed to create directory '"@ + parent@ + "': "@ + error@,
            CopyOutcome::Copied(n) => !r.is_error && r.text@ == "Copied "@ + decimal(n as nat)
                + " bytes: "@ + src@ + " -> "@ + dst@,
            CopyOutcome::Failed(e) => r.is_error && r.text@ == "Failed to copy '"@ + src@
                + "' -> '"@ + dst@ + "': "@ + e@,
        },
{
    match outcome {
        CopyOutcome::ParentNotCreated { parent, error } => {
            let mut text = String::from_str("Failed to create directory '");
            text.append(parent.as_str());
            text.append("': ");
            text.append(error.as_str());
            ToolReply { is_error: true, text }
        },
        CopyOutcome::Copied(n) => {
            let mut text = String::from_str("Copied ");
            push_decimal(&mut text, n);
            text.append(" bytes: ");
            text.append(src);
            text.append(" -> ");
            text.append(dst);
            ToolReply { is_error: false, text }
        },
        CopyOutcome::Failed(e) => {
            let mut text = String::from_str("Failed to copy '");
            text.append(src);
            text.append("' -> '");
            text.append(dst);
            text.append("': ");
            text.append(e.as_str());
            ToolReply { is_error: true, text }
        },
    }
}

/// The reply of the `remove_file` tool once the removal of `path` ended.
pub fn remove_report(path: &str, result: Result<(), String>) -> (r: ToolReply)
    ensures
        match result {
            Ok(()) => !r.is_error && r.text@ == "Removed: "@ + path@,
            Err(e) => r.is_error && r.text@ == "Failed to remove '"@ + path@ + "': "@ + e@,
        },
{
    match result {
        Ok(()) => {
            let mut text = String::from_str("Removed: ");
            text.append(path);
            ToolReply { is_error: false, text }
        },
        Err(e) => {
            let mut text = String::from_str("Failed to remove '");
            text.append(path);
            text.append("': ");
            text.append(e.as_str());
            ToolReply { is_error: true, text }
        },
    }
}

/// Law: every path that a tool resolves lies under the file root: it holds
/// no `..`, is absolute, and is the root itself or starts with the root and `/`.
pub proof fn law_resolved_paths_stay_under_root(root: Seq<char>, relative: Seq<char>)
    requires
        file_arg_rejection(resolved(root, relative), root) is None,
    ensures
        path_is_safe(resolved(root, relative), root),
{
    law_path_check_exact(resolved(root, relative), root);
}

/// Law: the reply for a finished process is built from independent
/// sections, whatever the exit code: the exit-code line, then the output
/// under its heading when there is any, then the error output under its
/// heading when there is any.
pub proof fn law_finished_text_sections(exit_code: Option<i32>, out: Seq<char>, err: Seq<char>)
    ensures
        finished_text(exit_code, Seq::empty(), Seq::empty()) == "Exit code: "@ + signed_decimal(
            match exit_code {
                Some(c) => c as int,
                None => -1,
            },
        ) + "\n"@,
        out.len() > 0 ==> finished_text(exit_code, out, Seq::empty()) == finished_text(
            exit_code,
            Seq::empty(),
            Seq::empty(),
        ) + "\n--- stdout ---\n"@ + out,
        out.len() == 0 ==> finished_text(exit_code, out, Seq::empty()) == finished_text(
            exit_code,
            Seq::empty(),
            Seq::empty(),
        ),
        err.len() > 0 ==> finished_text(exit_code, out, err) == finished_text(
            exit_code,
            out,
            Seq::empty(),
        ) + "\n--- stderr ---\n"@ + err,
        err.len() == 0 ==> finished_text(exit_code, out, err) == finished_text(
            exit_code,
            out,
            Seq::empty(),
        ),
{
    let e = Seq::<char>::empty();
    assert(section("\n--- stdout ---\n"@, e) =~= e);
    assert(section("\n--- stderr ---\n"@, e) =~= e);
    let code: int = match exit_code {
        Some(c) => c as int,
        None => -1,
    };
    let head = "Exit code: "@ + signed_decimal(code) + "\n"@;
    assert(finished_text(exit_code, e, e) =~= head);
    assert(finished_text(exit_code, out, e) =~= head + section("\n--- stdout ---\n"@, out));
    if out.len() > 0 {
        assert(head + section("\n--- stdout ---\n"@, out) =~= head + "\n--- stdout ---\n"@ + out);
    }
    if err.len() > 0 {
        assert(finished_text(exit_code, out, err) =~= finished_text(exit_code, out, e)
            + "\n--- stderr ---\n"@ + err);
    } else {
        assert(finished_text(exit_code, out, err) =~= finished_text(exit_code, out, e));
    }
}

/// The same entry, described as a plain file.
pub open spec fn as_file(e: EntryInfo) -> EntryInfo {
    EntryInfo { name: e.name, is_dir: false, size: e.size }
}

/// Law: an entry's line is its size field, two spaces, its name and a line
/// break, with a `/` before the break exactly when the entry is a directory,
/// whatever its size.
pub proof fn law_directory_marker(e: EntryInfo)
    ensures
        entry_line(as_file(e)) == pad_left(
            match e.size {
                Some(n) => decimal(n as nat),
                None => "?"@,
            },
            10,
        ) + "  "@ + e.name@ + "\n"@,
        e.is_dir ==> entry_line(e) == entry_line(as_file(e)).drop_last() + "/\n"@,
        !e.is_dir ==> entry_line(e) == entry_line(as_file(e)),
{
    let size = match e.size {
        Some(n) => decimal(n as nat),
        None => "?"@,
    };
    let base = pad_left(size, 10) + "  "@ + e.name@;
    assert(entry_line(as_file(e)) =~= base + "\n"@);
    reveal_strlit("\n");
    assert((base + "\n"@).drop_last() =~= base);
    if e.is_dir {
        assert(entry_line(e) =~= base + "/"@ + "\n"@);
        assert(base + "/"@ + "\n"@ =~= base + "/\n"@) by {
            reveal_strlit("/");
            reveal_strlit("\n");
            reveal_strlit("/\n");
        }
    } else {
        assert(entry_line(e) =~= base + "\n"@);
    }
}

/// Law: a file directly under the root, whose name holds no `/` and is
/// neither empty nor `.` (a hidden file such as `.DS_Store` too), resolves to
/// a path that is not the root, so `remove_file` never refuses it as the root.
pub proof fn law_named_file_is_not_the_root(root: Seq<char>, name: Seq<char>)
    requires
        name.len() > 0,
        name != seq!['.'],
        forall|i: int| 0 <= i < name.len() ==> #[trigger] name[i] != '/',
    ensures
        !same_components(resolved(root, name), root),
{
    law_named_piece_is_kept(root, name);
}

} // verus!
