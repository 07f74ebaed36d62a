//! The decision logic of the pipeline executor: built-in classification,
//! per-stage spawn planning, command-name resolution, and the bookkeeping
//! that turns a wait outcome into job-table and failure-context updates.
//!
//! The surrounding binary owns the actual processes: it spawns each stage
//! as planned here, hands the terminal over, blocks in the wait call, and
//! feeds the observed outcome back into [`settle_foreground`]. Everything
//! that decides — what to spawn, in which process group, where each stream
//! goes, which error to report, what to record — is verified here.

use vstd::prelude::*;

use crate::jobs::{spec_add_job, JobManager, JobStatus};
use crate::macros::{spec_expand, MacroManager};
use crate::parser::{
    parse_pipeline, spec_parse, Command, CommandModel, Pipeline, RedirModel,
};
use crate::text::{
    i32_to_string, spec_i32_digits, spec_join, spec_u64_digits, str_eq, strs_view, scan_exec,
    lemma_scan, scan, to_chars, u64_to_string, CharClass, chars_to_string_range,
};

verus! {

/// A failure of pipeline execution, per stage or per pipeline.
#[derive(Debug, PartialEq, Clone)]
pub enum ExecError {
    /// A stage's program could not be started; earlier stages keep running.
    Spawn { program: String, message: String },
    /// A redirection target could not be opened; the stage is not spawned.
    Redirection { path: String, message: String },
    /// The last stage exited with a nonzero code.
    Runtime { code: i32 },
    /// The last stage was terminated by a signal.
    Signaled { signal: i32 },
    /// The wait call itself failed.
    WaitFailed { message: String },
    /// `fg`/`bg` named a job the table does not hold.
    JobNotFound,
}

/// The mathematical value of an [`ExecError`].
pub enum ExecErrorModel {
    Spawn { program: Seq<char>, message: Seq<char> },
    Redirection { path: Seq<char>, message: Seq<char> },
    Runtime { code: int },
    Signaled { signal: int },
    WaitFailed { message: Seq<char> },
    JobNotFound,
}

impl View for ExecError {
    type V = ExecErrorModel;

    open spec fn view(&self) -> ExecErrorModel {
        match self {
            ExecError::Spawn { program, message } => ExecErrorModel::Spawn {
                program: program@,
                message: message@,
            },
            ExecError::Redirection { path, message } => ExecErrorModel::Redirection {
                path: path@,
                message: message@,
            },
            ExecError::Runtime { code } => ExecErrorModel::Runtime { code: *code as int },
            ExecError::Signaled { signal } => ExecErrorModel::Signaled {
                signal: *signal as int,
            },
            ExecError::WaitFailed { message } => ExecErrorModel::WaitFailed { message: message@ },
            ExecError::JobNotFound => ExecErrorModel::JobNotFound,
        }
    }
}

impl ExecError {
    /// The single-line diagnostic for this failure.
    pub fn message(&self) -> (r: String)
        ensures
            match self@ {
                ExecErrorModel::Runtime { code } => r@ == "Command exited with code "@
                    + spec_i32_digits(code),
                ExecErrorModel::Signaled { signal } => r@ == "Command killed by signal "@
                    + spec_i32_digits(signal),
                ExecErrorModel::Spawn { program, message } => r@ == "Failed to spawn "@ + program
                    + ": "@ + message,
                ExecErrorModel::Redirection { path, message } => r@ == "Failed to open "@ + path
                    + ": "@ + message,
                ExecErrorModel::WaitFailed { message } => r@ == "Wait error: "@ + message,
                ExecErrorModel::JobNotFound => r@ == "job not found"@,
            },
    {
        match self {
            ExecError::Runtime { code } => {
                let mut r = String::from_str("Command exited with code ");
                r.append(i32_to_string(*code).as_str());
                r
            },
            ExecError::Signaled { signal } => {
                let mut r = String::from_str("Command killed by signal ");
                r.append(i32_to_string(*signal).as_str());
                r
            },
            ExecError::Spawn { program, message } => {
                let mut r = String::from_str("Failed to spawn ");
                r.append(program.as_str());
                r.append(": ");
                r.append(message.as_str());
                r
            },
            ExecError::Redirection { path, message } => {
                let mut r = String::from_str("Failed to open ");
                r.append(path.as_str());
                r.append(": ");
                r.append(message.as_str());
                r
            },
            ExecError::WaitFailed { message } => {
                let mut r = String::from_str("Wait error: ");
                r.append(message.as_str());
                r
            },
            ExecError::JobNotFound => String::from_str("job not found"),
        }
    }
}

/// The closed set of built-in commands the executor runs itself, without
/// spawning a process.
#[derive(Debug, PartialEq, Eq, Clone, Copy, Structural)]
pub enum Builtin {
    Jobs,
    Fg,
    Bg,
    SetVar,
    Unset,
    Path,
    Pushd,
    Popd,
    Dirs,
    Cd,
}

/// Which built-in a command name denotes, if any.
pub open spec fn spec_classify(name: Seq<char>) -> Option<Builtin> {
    if name == "jobs"@ {
        Some(Builtin::Jobs)
    } else if name == "fg"@ {
        Some(Builtin::Fg)
    } else if name == "bg"@ {
        Some(Builtin::Bg)
    } else if name == "set"@ {
        Some(Builtin::SetVar)
    } else if name == "unset"@ {
        Some(Builtin::Unset)
    } else if name == "path"@ {
        Some(Builtin::Path)
    } else if name == "pushd"@ {
        Some(Builtin::Pushd)
    } else if name == "popd"@ {
        Some(Builtin::Popd)
    } else if name == "dirs"@ {
        Some(Builtin::Dirs)
    } else if name == "cd"@ {
        Some(Builtin::Cd)
    } else {
        None
    }
}

/// Classifies a command name into the closed built-in set, so dispatch is
/// exhaustive rather than an open string match.
pub fn classify_builtin(name: &str) -> (r: Option<Builtin>)
    ensures
        r == spec_classify(name@),
{
    if str_eq(name, "jobs") {
        Some(Builtin::Jobs)
    } else if str_eq(name, "fg") {
        Some(Builtin::Fg)
    } else if str_eq(name, "bg") {
        Some(Builtin::Bg)
    } else if str_eq(name, "set") {
        Some(Builtin::SetVar)
    } else if str_eq(name, "unset") {
        Some(Builtin::Unset)
    } else if str_eq(name, "path") {
        Some(Builtin::Path)
    } else if str_eq(name, "pushd") {
        Some(Builtin::Pushd)
    } else if str_eq(name, "popd") {
        Some(Builtin::Popd)
    } else if str_eq(name, "dirs") {
        Some(Builtin::Dirs)
    } else if str_eq(name, "cd") {
        Some(Builtin::Cd)
    } else {
        None
    }
}

/// The display form of a pipeline: each command's words joined with
/// spaces, commands joined with ` | `. This is the text stored in the job
/// table and in the failure context.
pub open spec fn spec_display(cmds: Seq<CommandModel>) -> Seq<char> {
    spec_join(Seq::new(cmds.len(), |i: int| spec_join(cmds[i].args, seq![' '])), seq![
        ' ',
        '|',
        ' ',
    ])
}

/// Renders the display form of a pipeline.
pub fn pipeline_display(p: &Pipeline) -> (r: String)
    ensures
        r@ == spec_display(p@.commands),
{
    let mut parts: Vec<String> = Vec::new();
    let mut i: usize = 0;
    proof {
        reveal_strlit(" ");
        reveal_strlit(" | ");
        assert(" "@ =~= seq![' ']);
        assert(" | "@ =~= seq![' ', '|', ' ']);
    }
    while i < p.commands.len()
        invariant
            i <= p.commands@.len(),
            parts@.len() == i,
            forall|j: int|
                0 <= j < i ==> (#[trigger] parts@[j])@ == spec_join(p@.commands[j].args, seq![
                    ' ',
                ]),
        decreases p.commands@.len() - i,
    {
        let joined = crate::text::join_strings(&p.commands[i].args, " ");
        proof {
            reveal_strlit(" ");
            assert(" "@ =~= seq![' ']);
            assert(strs_view(p.commands@[i as int].args@) =~= p@.commands[i as int].args);
        }
        parts.push(joined);
        i = i + 1;
    }
    let r = crate::text::join_strings(&parts, " | ");
    proof {
        reveal_strlit(" | ");
        assert(" | "@ =~= seq![' ', '|', ' ']);
        assert(strs_view(parts@) =~= Seq::new(p@.commands.len(), |i: int| spec_join(
            p@.commands[i].args,
            seq![' '],
        )));
    }
    r
}

/// The `jobs` listing's rendering of an elapsed time: seconds under a
/// minute, minutes and seconds under an hour, hours and minutes beyond.
pub open spec fn spec_duration(secs: int) -> Seq<char> {
    if secs < 60 {
        spec_u64_digits(secs) + seq!['s']
    } else if secs < 3600 {
        spec_u64_digits(secs / 60) + seq!['m', ' '] + spec_u64_digits(secs % 60) + seq!['s']
    } else {
        spec_u64_digits(secs / 3600) + seq!['h', ' '] + spec_u64_digits((secs % 3600) / 60)
            + seq!['m']
    }
}

/// Renders an elapsed time in seconds for the `jobs` listing.
pub fn format_duration(secs: u64) -> (r: String)
    ensures
        r@ == spec_duration(secs as int),
{
    if secs < 60 {
        let mut r = u64_to_string(secs);
        r.push('s');
        proof {
            assert(r@ =~= spec_duration(secs as int));
        }
        r
    } else if secs < 3600 {
        let mut r = u64_to_string(secs / 60);
        r.push('m');
        r.push(' ');
        r.append(u64_to_string(secs % 60).as_str());
        r.push('s');
        proof {
            assert(r@ =~= spec_duration(secs as int));
        }
        r
    } else {
        let mut r = u64_to_string(secs / 3600);
        r.push('h');
        r.push(' ');
        r.append(u64_to_string((secs % 3600) / 60).as_str());
        r.push('m');
        proof {
            assert(r@ =~= spec_duration(secs as int));
        }
        r
    }
}

/// Where a stage's stdin comes from.
#[derive(Debug, PartialEq, Eq, Clone, Copy, Structural)]
pub enum StdinSpec {
    /// Inherited from the shell.
    Inherit,
    /// The read end of the previous stage's output pipe.
    FromPrev,
}

/// Where a stage's stdout goes.
#[derive(Debug, PartialEq, Clone)]
pub enum StdoutSpec {
    /// Inherited from the shell.
    Inherit,
    /// A fresh pipe feeding the next stage.
    Pipe,
    /// A file, truncated or appended.
    File { path: String, append: bool },
}

/// Where a stage's stderr goes.
#[derive(Debug, PartialEq, Clone)]
pub enum StderrSpec {
    /// Inherited from the shell.
    Inherit,
    /// A pipe the shell drains into the failure-context buffer.
    Capture,
    /// A file, truncated.
    File { path: String },
}

/// Which process group the stage joins.
#[derive(Debug, PartialEq, Eq, Clone, Copy, Structural)]
pub enum GroupSpec {
    /// The stage leads a new process group (stage 0).
    Lead,
    /// The stage joins the group the first stage established.
    Join,
}

/// The spawn plan for one stage: streams and process group.
#[derive(Debug, PartialEq, Clone)]
pub struct StagePlan {
    pub stdin: StdinSpec,
    pub stdout: StdoutSpec,
    pub stderr: StderrSpec,
    pub group: GroupSpec,
}

/// The mathematical value of a [`StdoutSpec`].
pub enum StdoutModel {
    Inherit,
    Pipe,
    File { path: Seq<char>, append: bool },
}

/// The mathematical value of a [`StderrSpec`].
pub enum StderrModel {
    Inherit,
    Capture,
    File { path: Seq<char> },
}

impl View for StdoutSpec {
    type V = StdoutModel;

    open spec fn view(&self) -> StdoutModel {
        match self {
            StdoutSpec::Inherit => StdoutModel::Inherit,
            StdoutSpec::Pipe => StdoutModel::Pipe,
            StdoutSpec::File { path, append } => StdoutModel::File {
                path: path@,
                append: *append,
            },
        }
    }
}

impl View for StderrSpec {
    type V = StderrModel;

    open spec fn view(&self) -> StderrModel {
        match self {
            StderrSpec::Inherit => StderrModel::Inherit,
            StderrSpec::Capture => StderrModel::Capture,
            StderrSpec::File { path } => StderrModel::File { path: path@ },
        }
    }
}

/// The stdout target after applying the redirections in order, starting
/// from `base`; a later redirection overrides an earlier one.
pub open spec fn spec_stdout_redirs(base: StdoutModel, redirs: Seq<RedirModel>) -> StdoutModel
    decreases redirs.len(),
{
    if redirs.len() == 0 {
        base
    } else {
        let upd = match redirs[0] {
            RedirModel::Stdout(p) => StdoutModel::File { path: p, append: false },
            RedirModel::Append(p) => StdoutModel::File { path: p, append: true },
            _ => base,
        };
        spec_stdout_redirs(upd, redirs.drop_first())
    }
}

/// The stderr target after applying the redirections in order. `2>&1` has
/// no effect here: the executor leaves stderr merging unimplemented, as a
/// recognised but inert redirection.
pub open spec fn spec_stderr_redirs(base: StderrModel, redirs: Seq<RedirModel>) -> StderrModel
    decreases redirs.len(),
{
    if redirs.len() == 0 {
        base
    } else {
        let upd = match redirs[0] {
            RedirModel::Stderr(p) => StderrModel::File { path: p },
            _ => base,
        };
        spec_stderr_redirs(upd, redirs.drop_first())
    }
}

/// The full plan of stage `i` of `n`: stdin from the previous stage's pipe
/// when that stage piped its stdout; stdout a pipe unless this is the last
/// stage; stderr captured only on the last stage; redirections applied on
/// top; stage 0 leads a new process group, later stages join it.
pub open spec fn spec_stage_plan(
    i: int,
    n: int,
    redirs: Seq<RedirModel>,
    prev_piped: bool,
) -> (StdinSpec, StdoutModel, StderrModel, GroupSpec) {
    (
        if i > 0 && prev_piped {
            StdinSpec::FromPrev
        } else {
            StdinSpec::Inherit
        },
        spec_stdout_redirs(
            if i == n - 1 {
                StdoutModel::Inherit
            } else {
                StdoutModel::Pipe
            },
            redirs,
        ),
        spec_stderr_redirs(
            if i == n - 1 {
                StderrModel::Capture
            } else {
                StderrModel::Inherit
            },
            redirs,
        ),
        if i == 0 {
            GroupSpec::Lead
        } else {
            GroupSpec::Join
        },
    )
}

/// Computes the spawn plan for stage `i` of `n`. `prev_piped` says whether
/// the previous stage's final stdout target was a pipe (so its read end
/// exists to become this stage's stdin).
pub fn plan_stage(i: usize, n: usize, cmd: &Command, prev_piped: bool) -> (r: StagePlan)
    requires
        i < n,
    ensures
        r.stdin == spec_stage_plan(i as int, n as int, cmd@.redirections, prev_piped).0,
        r.stdout@ == spec_stage_plan(i as int, n as int, cmd@.redirections, prev_piped).1,
        r.stderr@ == spec_stage_plan(i as int, n as int, cmd@.redirections, prev_piped).2,
        r.group == spec_stage_plan(i as int, n as int, cmd@.redirections, prev_piped).3,
{
    let is_last = i == n - 1;
    let stdin = if i > 0 && prev_piped {
        StdinSpec::FromPrev
    } else {
        StdinSpec::Inherit
    };
    let mut stdout = if is_last {
        StdoutSpec::Inherit
    } else {
        StdoutSpec::Pipe
    };
    let mut stderr = if is_last {
        StderrSpec::Capture
    } else {
        StderrSpec::Inherit
    };
    let ghost redirs = cmd@.redirections;
    let ghost base_out = stdout@;
    let ghost base_err = stderr@;
    let mut k: usize = 0;
    proof {
        assert(redirs.skip(0) =~= redirs);
    }
    while k < cmd.redirections.len()
        invariant
            k <= cmd.redirections@.len(),
            redirs == cmd@.redirections,
            redirs.len() == cmd.redirections@.len(),
            forall|j: int| 0 <= j < redirs.len() ==> redirs[j] == (#[trigger] cmd.redirections@[j])@,
            spec_stdout_redirs(base_out, redirs) == spec_stdout_redirs(
                stdout@,
                redirs.skip(k as int),
            ),
            spec_stderr_redirs(base_err, redirs) == spec_stderr_redirs(
                stderr@,
                redirs.skip(k as int),
            ),
        decreases cmd.redirections@.len() - k,
    {
        let ghost rest = redirs.skip(k as int);
        proof {
            assert(rest[0] == redirs[k as int]);
            assert(rest.drop_first() =~= redirs.skip(k + 1int));
        }
        match &cmd.redirections[k] {
            crate::parser::Redirection::Stdout(p) => {
                stdout = StdoutSpec::File { path: p.clone(), append: false };
            },
            crate::parser::Redirection::Append(p) => {
                stdout = StdoutSpec::File { path: p.clone(), append: true };
            },
            crate::parser::Redirection::Stderr(p) => {
                stderr = StderrSpec::File { path: p.clone() };
            },
            crate::parser::Redirection::StderrToStdout => {},
        }
        k = k + 1;
    }
    proof {
        assert(redirs.skip(redirs.len() as int) =~= Seq::<RedirModel>::empty());
    }
    StagePlan { stdin, stdout, stderr, group: if i == 0 {
        GroupSpec::Lead
    } else {
        GroupSpec::Join
    } }
}

/// A stage with no stdout redirection that is not the last stage pipes its
/// stdout, and the following stage then reads from that pipe: the wiring
/// that chains the stages together.
pub proof fn lemma_pipe_wiring(i: int, n: int, redirs: Seq<RedirModel>, next_redirs: Seq<
    RedirModel,
>, prev_piped: bool)
    requires
        0 <= i < n - 1,
        forall|j: int|
            0 <= j < redirs.len() ==> !((#[trigger] redirs[j]) is Stdout) && !(redirs[j]
                is Append),
    ensures
        spec_stage_plan(i, n, redirs, prev_piped).1 == StdoutModel::Pipe,
        spec_stage_plan(i + 1, n, next_redirs, true).0 == StdinSpec::FromPrev,
{
    lemma_stdout_unredirected(StdoutModel::Pipe, redirs);
}

/// Without stdout redirections, the base stdout target stands.
proof fn lemma_stdout_unredirected(base: StdoutModel, redirs: Seq<RedirModel>)
    requires
        forall|j: int|
            0 <= j < redirs.len() ==> !((#[trigger] redirs[j]) is Stdout) && !(redirs[j]
                is Append),
    ensures
        spec_stdout_redirs(base, redirs) == base,
    decreases redirs.len(),
{
    if redirs.len() > 0 {
        assert(forall|j: int|
            0 <= j < redirs.drop_first().len() ==> (#[trigger] redirs.drop_first()[j])
                == redirs[j + 1]);
        lemma_stdout_unredirected(base, redirs.drop_first());
    }
}

/// How a waited-on foreground process group ended.
#[derive(Debug, PartialEq, Eq, Clone, Copy, Structural)]
pub enum WaitOutcome {
    /// Exited with the given code.
    Exited(i32),
    /// Terminated by the given signal.
    Signaled(i32),
    /// Stopped by a job-control signal.
    Stopped,
}

/// How a settled foreground pipeline is reported.
#[derive(Debug, PartialEq, Eq, Clone, Copy, Structural)]
pub enum Settled {
    /// Ran to completion with exit code 0.
    Completed,
    /// Stopped; a suspended job with the given id now tracks it.
    Suspended(usize),
}

/// Settles a foreground pipeline from its wait outcome.
///
/// Exit code 0 is success and clears the failure context. A nonzero exit
/// or a signal is a failure: the display text and the captured stderr are
/// stored as the failure context. A stop is neither: the group becomes a
/// suspended job (whose id is returned for printing), and the failure
/// context is cleared, exactly as a completed run clears it.
pub fn settle_foreground(
    outcome: WaitOutcome,
    jobs: &mut JobManager,
    macros: &mut MacroManager,
    pgid: i32,
    cmd: String,
    stderr: String,
) -> (r: Result<Settled, ExecError>)
    requires
        old(jobs)@.wf(),
        old(jobs)@.next_id < usize::MAX,
    ensures
        final(jobs)@.wf(),
        match outcome {
            WaitOutcome::Exited(code) => {
                if code == 0 {
                    &&& r == Result::<Settled, ExecError>::Ok(Settled::Completed)
                    &&& final(macros)@.last_error is None
                    &&& final(macros)@.last_suggestion is None
                    &&& final(jobs)@ == old(jobs)@
                } else {
                    &&& r is Err
                    &&& r->Err_0@ == (ExecErrorModel::Runtime { code: code as int })
                    &&& final(macros)@.last_error == Some((cmd@, stderr@))
                    &&& final(jobs)@ == old(jobs)@
                }
            },
            WaitOutcome::Signaled(sig) => {
                &&& r is Err
                &&& r->Err_0@ == (ExecErrorModel::Signaled { signal: sig as int })
                &&& final(macros)@.last_error == Some((cmd@, stderr@))
                &&& final(jobs)@ == old(jobs)@
            },
            WaitOutcome::Stopped => {
                &&& r is Ok
                &&& r->Ok_0 is Suspended
                &&& r->Ok_0->Suspended_0 as nat == spec_add_job(
                    old(jobs)@,
                    pgid as int,
                    cmd@,
                    JobStatus::Suspended,
                ).1
                &&& final(jobs)@ == spec_add_job(
                    old(jobs)@,
                    pgid as int,
                    cmd@,
                    JobStatus::Suspended,
                ).0
                &&& final(macros)@.last_error is None
                &&& final(macros)@.last_suggestion is None
            },
        },
        final(macros)@.macros == old(macros)@.macros,
        final(macros)@.abbrs == old(macros)@.abbrs,
{
    match outcome {
        WaitOutcome::Exited(code) => {
            if code == 0 {
                macros.record_success();
                Ok(Settled::Completed)
            } else {
                macros.record_failure(cmd, stderr);
                Err(ExecError::Runtime { code })
            }
        },
        WaitOutcome::Signaled(sig) => {
            macros.record_failure(cmd, stderr);
            Err(ExecError::Signaled { signal: sig })
        },
        WaitOutcome::Stopped => {
            let id = jobs.add_job(pgid, cmd, JobStatus::Suspended);
            macros.record_success();
            Ok(Settled::Suspended(id))
        },
    }
}

/// Stores `(cmd, err)` as the failure context only when none is stored
/// yet, so a more precise context captured earlier (the child's own
/// stderr) is never overwritten by a later, coarser one.
pub fn record_error_if_absent(macros: &mut MacroManager, cmd: String, err: String)
    ensures
        old(macros)@.last_error is None ==> final(macros)@.last_error == Some((cmd@, err@)),
        old(macros)@.last_error is Some ==> final(macros)@.last_error == old(
            macros,
        )@.last_error,
        final(macros)@.last_suggestion == old(macros)@.last_suggestion,
        final(macros)@.macros == old(macros)@.macros,
        final(macros)@.abbrs == old(macros)@.abbrs,
{
    let absent = macros.last_error().is_none();
    if absent {
        macros.record_failure(cmd, err);
    }
}

/// Whether `s` ends in `.md`.
pub open spec fn has_md_suffix(s: Seq<char>) -> bool {
    s.len() >= 3 && s.subrange(s.len() - 3, s.len() as int) == seq!['.', 'm', 'd']
}

/// Whether `s` ends in `.md`, decided at run time.
fn ends_md(s: &str) -> (r: bool)
    ensures
        r == has_md_suffix(s@),
{
    let v = to_chars(s);
    let n = v.len();
    if n < 3 {
        return false;
    }
    let r = v[n - 3] == '.' && v[n - 2] == 'm' && v[n - 1] == 'd';
    proof {
        let sub = s@.subrange(s@.len() - 3, s@.len() as int);
        assert(sub.len() == 3 && sub[0] == s@[s@.len() - 3] && sub[1] == s@[s@.len() - 2]
            && sub[2] == s@[s@.len() - 1]);
        if r {
            assert(sub =~= seq!['.', 'm', 'd']);
        } else {
            assert(sub != seq!['.', 'm', 'd']);
        }
    }
    r
}

/// Whether any argument ends in `.md`.
fn any_md(args: &Vec<String>) -> (r: bool)
    ensures
        r == exists|k: int| 0 <= k < args@.len() && has_md_suffix((#[trigger] args@[k])@),
{
    let mut i: usize = 0;
    while i < args.len()
        invariant
            i <= args@.len(),
            forall|k: int| 0 <= k < i ==> !has_md_suffix((#[trigger] args@[k])@),
        decreases args@.len() - i,
    {
        if ends_md(args[i].as_str()) {
            proof {
                assert(has_md_suffix((args@[i as int])@));
            }
            return true;
        }
        i = i + 1;
    }
    false
}

/// Whether any argument contains a colon.
fn any_colon(args: &Vec<String>) -> (r: bool)
    ensures
        r == exists|k: int|
            0 <= k < args@.len() && crate::text::contains_char((#[trigger] args@[k])@, ':'),
{
    let mut i: usize = 0;
    while i < args.len()
        invariant
            i <= args@.len(),
            forall|k: int|
                0 <= k < i ==> !crate::text::contains_char((#[trigger] args@[k])@, ':'),
        decreases args@.len() - i,
    {
        let v = to_chars(args[i].as_str());
        if crate::text::contains_char_exec(&v, ':') {
            proof {
                assert(crate::text::contains_char((args@[i as int])@, ':'));
            }
            return true;
        }
        i = i + 1;
    }
    false
}

/// The command-resolution table: the preferred alternative tool for each
/// conventional name, or the name itself. Two entries look at the
/// arguments: `cat` of a `.md` file prefers a markdown renderer, and
/// `cut`/`awk` with a `:` argument prefer a field chooser; `tldr`/`man`
/// with arguments prefer the terse pages.
pub open spec fn spec_map_command(name: Seq<char>, args: Seq<Seq<char>>) -> Seq<char> {
    if name == "ls"@ {
        "eza"@
    } else if name == "find"@ {
        "fd"@
    } else if name == "du"@ {
        "dust"@
    } else if name == "rm"@ {
        "rip"@
    } else if name == "cp"@ {
        "xcp"@
    } else if name == "tree"@ {
        "broot"@
    } else if name == "df"@ {
        "lfs"@
    } else if name == "serve"@ {
        "miniserve"@
    } else if name == "cat"@ && (exists|k: int|
        0 <= k < args.len() && has_md_suffix(#[trigger] args[k])) {
        "mdcat"@
    } else if name == "cat"@ {
        "bat"@
    } else if name == "grep"@ || name == "rg"@ {
        "rg"@
    } else if name == "sed"@ {
        "sd"@
    } else if name == "diff"@ {
        "delta"@
    } else if (name == "cut"@ || name == "awk"@) && (exists|k: int|
        0 <= k < args.len() && crate::text::contains_char(#[trigger] args[k], ':')) {
        "choose"@
    } else if name == "jq"@ {
        "jql"@
    } else if name == "csv"@ {
        "qsv"@
    } else if (name == "tldr"@ || name == "man"@) && args.len() > 0 {
        "tldr"@
    } else if name == "hex"@ {
        "heh"@
    } else if name == "strings"@ || name == "peek"@ || name == "detect"@ {
        "lemmeknow"@
    } else if name == "nano"@ {
        "kibi"@
    } else if name == "top"@ || name == "htop"@ {
        "btm"@
    } else if name == "ps"@ {
        "procs"@
    } else if name == "time"@ {
        "hyperfine"@
    } else if name == "make"@ {
        "just"@
    } else if name == "watch"@ {
        "hwatch"@
    } else if name == "dig"@ {
        "doggo"@
    } else if name == "sudo"@ {
        "sudo-rs"@
    } else if name == "ping"@ {
        "gping"@
    } else if name == "http"@ || name == "curl"@ {
        "xh"@
    } else if name == "calc"@ || name == "bc"@ {
        "fend"@
    } else {
        name
    }
}

/// Maps a conventional command name to its preferred alternative tool,
/// exactly as [`spec_map_command`] describes, without checking whether
/// that tool is installed.
#[verifier::rlimit(60)]
pub fn map_command(name: &str, args: &Vec<String>) -> (r: String)
    ensures
        r@ == spec_map_command(name@, strs_view(args@)),
{
    proof {
        assert(forall|k: int|
            0 <= k < args@.len() ==> (#[trigger] strs_view(args@)[k]) == args@[k]@);
        assert(forall|k: int|
            0 <= k < args@.len() ==> (#[trigger] args@[k])@ == strs_view(args@)[k]);
    }
    if str_eq(name, "ls") {
        String::from_str("eza")
    } else if str_eq(name, "find") {
        String::from_str("fd")
    } else if str_eq(name, "du") {
        String::from_str("dust")
    } else if str_eq(name, "rm") {
        String::from_str("rip")
    } else if str_eq(name, "cp") {
        String::from_str("xcp")
    } else if str_eq(name, "tree") {
        String::from_str("broot")
    } else if str_eq(name, "df") {
        String::from_str("lfs")
    } else if str_eq(name, "serve") {
        String::from_str("miniserve")
    } else if str_eq(name, "cat") {
        if any_md(args) {
            String::from_str("mdcat")
        } else {
            String::from_str("bat")
        }
    } else if str_eq(name, "grep") || str_eq(name, "rg") {
        String::from_str("rg")
    } else if str_eq(name, "sed") {
        String::from_str("sd")
    } else if str_eq(name, "diff") {
        String::from_str("delta")
    } else if (str_eq(name, "cut") || str_eq(name, "awk")) && any_colon(args) {
        String::from_str("choose")
    } else if str_eq(name, "jq") {
        String::from_str("jql")
    } else if str_eq(name, "csv") {
        String::from_str("qsv")
    } else if (str_eq(name, "tldr") || str_eq(name, "man")) && args.len() > 0 {
        String::from_str("tldr")
    } else if str_eq(name, "hex") {
        String::from_str("heh")
    } else if str_eq(name, "strings") || str_eq(name, "peek") || str_eq(name, "detect") {
        String::from_str("lemmeknow")
    } else if str_eq(name, "nano") {
        String::from_str("kibi")
    } else if str_eq(name, "top") || str_eq(name, "htop") {
        String::from_str("btm")
    } else if str_eq(name, "ps") {
        String::from_str("procs")
    } else if str_eq(name, "time") {
        String::from_str("hyperfine")
    } else if str_eq(name, "make") {
        String::from_str("just")
    } else if str_eq(name, "watch") {
        String::from_str("hwatch")
    } else if str_eq(name, "dig") {
        String::from_str("doggo")
    } else if str_eq(name, "sudo") {
        String::from_str("sudo-rs")
    } else if str_eq(name, "ping") {
        String::from_str("gping")
    } else if str_eq(name, "http") || str_eq(name, "curl") {
        String::from_str("xh")
    } else if str_eq(name, "calc") || str_eq(name, "bc") {
        String::from_str("fend")
    } else {
        String::from_str(name)
    }
}

/// Relies on `which::which`: resolves a name against the executable
/// search path of this machine at this moment, so nothing can be promised
/// about the answer.
#[verifier::external_body]
fn tool_available(name: &str) -> bool {
    which::which(name).is_ok()
}

/// Resolves a command name through the resolution table, falling back to
/// the original name when the preferred tool is not installed here. The
/// result is always one of the two, and a name the table does not map is
/// always returned unchanged.
pub fn resolve_command(name: &str, args: &Vec<String>) -> (r: String)
    ensures
        r@ == spec_map_command(name@, strs_view(args@)) || r@ == name@,
        spec_map_command(name@, strs_view(args@)) == name@ ==> r@ == name@,
{
    let mapped = map_command(name, args);
    if str_eq(mapped.as_str(), name) {
        return mapped;
    }
    if tool_available(mapped.as_str()) {
        mapped
    } else {
        String::from_str(name)
    }
}

/// Where `cd` goes: `~` is the home directory, `~/rest` is `rest` under
/// the home directory, anything else stands as written.
pub open spec fn spec_cd_target(target: Seq<char>, home: Seq<char>) -> Seq<char> {
    if target == "~"@ {
        home
    } else if target.len() >= 2 && target[0] == '~' && target[1] == '/' {
        home + seq!['/'] + target.skip(2)
    } else {
        target
    }
}

/// Resolves a `cd` target against the home directory.
pub fn resolve_cd_target(target: &str, home: &str) -> (r: String)
    ensures
        r@ == spec_cd_target(target@, home@),
{
    if str_eq(target, "~") {
        return String::from_str(home);
    }
    let v = to_chars(target);
    if v.len() >= 2 && v[0] == '~' && v[1] == '/' {
        let mut r = String::from_str(home);
        r.push('/');
        let rest = chars_to_string_range(&v, 2, v.len());
        r.append(rest.as_str());
        proof {
            assert(v@.subrange(2, v@.len() as int) =~= target@.skip(2));
            assert(r@ =~= home@ + seq!['/'] + target@.skip(2));
        }
        r
    } else {
        String::from_str(target)
    }
}

/// What the `set` built-in does with its arguments.
#[derive(Debug, PartialEq, Clone)]
pub enum SetAction {
    /// `set` alone: list every variable.
    List,
    /// Bind `key` to `value`.
    Assign { key: String, value: String },
}

/// The mathematical value of a [`SetAction`].
pub enum SetActionModel {
    List,
    Assign { key: Seq<char>, value: Seq<char> },
}

impl View for SetAction {
    type V = SetActionModel;

    open spec fn view(&self) -> SetActionModel {
        match self {
            SetAction::List => SetActionModel::List,
            SetAction::Assign { key, value } => SetActionModel::Assign {
                key: key@,
                value: value@,
            },
        }
    }
}

/// How `set` reads its arguments: alone it lists; `KEY=VAL` splits on the
/// first `=`; `KEY VAL` binds the pair; `KEY` alone binds the empty
/// value.
pub open spec fn spec_set_action(args: Seq<Seq<char>>) -> SetActionModel {
    if args.len() <= 1 {
        SetActionModel::List
    } else {
        let a = args[1];
        if crate::text::contains_char(a, '=') {
            let e = scan(a, 0, CharClass::NotChar('='));
            SetActionModel::Assign { key: a.subrange(0, e), value: a.skip(e + 1) }
        } else if args.len() >= 3 {
            SetActionModel::Assign { key: a, value: args[2] }
        } else {
            SetActionModel::Assign { key: a, value: Seq::empty() }
        }
    }
}

/// Parses the arguments of the `set` built-in (`args[0]` is `set`
/// itself).
pub fn parse_set_command(args: &Vec<String>) -> (r: SetAction)
    ensures
        r@ == spec_set_action(strs_view(args@)),
{
    proof {
        assert(forall|k: int|
            0 <= k < args@.len() ==> (#[trigger] strs_view(args@)[k]) == args@[k]@);
    }
    if args.len() <= 1 {
        return SetAction::List;
    }
    let v = to_chars(args[1].as_str());
    let n = v.len();
    if crate::text::contains_char_exec(&v, '=') {
        let e = scan_exec(&v, 0, CharClass::NotChar('='));
        proof {
            lemma_scan(v@, 0, CharClass::NotChar('='));
            assert((e as int) < v@.len());
        }
        let key = chars_to_string_range(&v, 0, e);
        let value = chars_to_string_range(&v, e + 1, n);
        proof {
            assert(v@.subrange(e + 1int, v@.len() as int) =~= v@.skip(e + 1int));
        }
        SetAction::Assign { key, value }
    } else if args.len() >= 3 {
        SetAction::Assign { key: args[1].clone(), value: args[2].clone() }
    } else {
        SetAction::Assign { key: args[1].clone(), value: String::new() }
    }
}

/// Expands the line through the macro store, then parses it: the front
/// half of every execution. Returns the line as executed (the expansion,
/// or the input unchanged) together with its pipeline.
pub fn prepare_line(macros: &MacroManager, input: &str) -> (r: (String, Pipeline))
    ensures
        ({
            let expanded = match spec_expand(macros@.macros, input@) {
                Some(e) => e,
                None => input@,
            };
            &&& r.0@ == expanded
            &&& r.1@.commands == spec_parse(expanded).cmds
            &&& r.1@.background == spec_parse(expanded).background
            &&& r.1@.commands.len() >= 1
        }),
{
    let expanded: String = match macros.expand_macro(input) {
        Some(e) => e,
        None => String::from_str(input),
    };
    match parse_pipeline(expanded.as_str()) {
        Ok((_rem, p)) => (expanded, p),
        Err(_) => {
            proof {
                assert(false);
            }
            (String::new(), Pipeline { commands: Vec::new(), background: false })
        },
    }
}

} // verus!
