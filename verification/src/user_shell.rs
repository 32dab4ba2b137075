//! Decisions of a user shell command (`/shell`): its time limit, whether
//! it opens a turn, and what its finished item and persisted output hold.
use vstd::prelude::*;
use crate::text::push_str_chars;
use crate::text::string_from_chars;

verus! {

/// Time limit of a user shell command without one of its own: one hour.
pub const USER_SHELL_TIMEOUT_MS: u64 = 3_600_000;

/// How a user shell command runs.
pub enum UserShellCommandMode {
    /// As a turn of its own, with its own start and end events.
    StandaloneTurn,
    /// Inside a turn that is already running; it emits no turn events.
    ActiveTurnAuxiliary,
}

/// A user shell command waiting to run.
pub struct UserShellCommandTask {
    pub command: String,
    pub timeout_ms: Option<u64>,
}

impl UserShellCommandTask {
    pub fn new(command: String, timeout_ms: Option<u64>) -> (r: Self)
        ensures
            r.command == command,
            r.timeout_ms == timeout_ms,
    {
        UserShellCommandTask { command, timeout_ms }
    }
}

/// The time limit the command runs under.
pub fn user_shell_expiration_ms(timeout_ms: Option<u64>) -> (r: u64)
    ensures
        r == match timeout_ms {
            Some(t) => t,
            None => USER_SHELL_TIMEOUT_MS,
        },
{
    match timeout_ms {
        Some(t) => t,
        None => USER_SHELL_TIMEOUT_MS,
    }
}

/// Where a command's output goes: a standalone command records it in the
/// conversation and makes sure the rollout exists; a command run during
/// another turn injects it into that turn.
#[derive(Clone, Copy, Debug, PartialEq, Eq, Structural)]
pub enum ShellOutputPersistence {
    RecordAndMaterialize,
    InjectIntoActiveTurn,
}

pub fn output_persistence(mode: UserShellCommandMode) -> (r: ShellOutputPersistence)
    ensures
        (r == ShellOutputPersistence::RecordAndMaterialize) == (mode is StandaloneTurn),
{
    match mode {
        UserShellCommandMode::StandaloneTurn => ShellOutputPersistence::RecordAndMaterialize,
        UserShellCommandMode::ActiveTurnAuxiliary => ShellOutputPersistence::InjectIntoActiveTurn,
    }
}

/// When the completed item started: its recorded start, or its completion
/// time when no start was recorded.
pub fn item_started_at_ms(recorded_start_ms: Option<i64>, completed_at_ms: i64) -> (r: i64)
    ensures
        r == match recorded_start_ms {
            Some(t) => t,
            None => completed_at_ms,
        },
{
    match recorded_start_ms {
        Some(t) => t,
        None => completed_at_ms,
    }
}

/// Only a standalone command announces a turn start.
pub fn emits_turn_started(mode: UserShellCommandMode) -> (r: bool)
    ensures
        r == (mode is StandaloneTurn),
{
    match mode {
        UserShellCommandMode::StandaloneTurn => true,
        UserShellCommandMode::ActiveTurnAuxiliary => false,
    }
}

/// Status of a command item.
#[derive(Debug)]
pub enum CommandExecutionStatus {
    InProgress,
    Completed,
    Failed,
}

/// The captured output of a command.
#[derive(Debug)]
pub struct ExecOutput {
    pub exit_code: i32,
    pub stdout: String,
    pub stderr: String,
    pub aggregated_output: String,
    pub duration_ms: u64,
    pub timed_out: bool,
}

/// How the command's run ended.
pub enum ShellRunResult {
    /// The user cancelled it.
    Cancelled,
    /// It ran to its end with this output.
    Finished(ExecOutput),
    /// It could not run; `error_debug` describes the error, and a timeout
    /// carries the output captured until then.
    Failed { error_debug: String, timeout_output: Option<ExecOutput> },
}

/// What the finished command reports: the status of its item, the output
/// the live item shows, the output kept in history, and whether those
/// outputs are formatted for the model (else the item shows the aggregated
/// output as it is).
pub struct ShellOutcome {
    pub status: CommandExecutionStatus,
    pub live: ExecOutput,
    pub persisted: ExecOutput,
    pub format_outputs: bool,
}

pub open spec fn msg_aborted() -> Seq<char> {
    "command aborted by user"@
}

pub open spec fn msg_execution_error(debug: Seq<char>) -> Seq<char> {
    "execution error: "@ + debug
}

/// An output that failed with `message` before the command produced any.
pub open spec fn failure_output_ok(o: ExecOutput, message: Seq<char>) -> bool {
    &&& o.exit_code == -1
    &&& o.stdout@ == Seq::<char>::empty()
    &&& o.stderr@ == message
    &&& o.aggregated_output@ == message
    &&& o.duration_ms == 0
    &&& !o.timed_out
}

pub open spec fn same_output(a: ExecOutput, b: ExecOutput) -> bool {
    &&& a.exit_code == b.exit_code
    &&& a.stdout@ == b.stdout@
    &&& a.stderr@ == b.stderr@
    &&& a.aggregated_output@ == b.aggregated_output@
    &&& a.duration_ms == b.duration_ms
    &&& a.timed_out == b.timed_out
}

fn failure_output(message: &str) -> (r: ExecOutput)
    ensures
        failure_output_ok(r, message@),
{
    ExecOutput {
        exit_code: -1,
        stdout: String::new(),
        stderr: message.to_string(),
        aggregated_output: message.to_string(),
        duration_ms: 0,
        timed_out: false,
    }
}

fn copy_output(o: &ExecOutput) -> (r: ExecOutput)
    ensures
        same_output(r, *o),
{
    ExecOutput {
        exit_code: o.exit_code,
        stdout: o.stdout.clone(),
        stderr: o.stderr.clone(),
        aggregated_output: o.aggregated_output.clone(),
        duration_ms: o.duration_ms,
        timed_out: o.timed_out,
    }
}

/// What a finished user shell command reports: a cancelled one fails with
/// "command aborted by user"; a finished one completes when it exits with
/// 0 and fails otherwise; one that could not run fails with "execution
/// error: ..." and keeps in history the output of a timeout, if any.
pub fn user_shell_outcome(result: ShellRunResult) -> (r: ShellOutcome)
    ensures
        match result {
            ShellRunResult::Cancelled => {
                &&& r.status is Failed
                &&& failure_output_ok(r.live, msg_aborted())
                &&& failure_output_ok(r.persisted, msg_aborted())
                &&& !r.format_outputs
            },
            ShellRunResult::Finished(o) => {
                &&& (if o.exit_code == 0 { r.status is Completed } else { r.status is Failed })
                &&& same_output(r.live, o)
                &&& same_output(r.persisted, o)
                &&& r.format_outputs
            },
            ShellRunResult::Failed { error_debug, timeout_output } => {
                &&& r.status is Failed
                &&& failure_output_ok(r.live, msg_execution_error(error_debug@))
                &&& match timeout_output {
                    Some(t) => same_output(r.persisted, t),
                    None => same_output(r.persisted, r.live),
                }
                &&& r.format_outputs
            },
        },
{
    match result {
        ShellRunResult::Cancelled => ShellOutcome {
            status: CommandExecutionStatus::Failed,
            live: failure_output("command aborted by user"),
            persisted: failure_output("command aborted by user"),
            format_outputs: false,
        },
        ShellRunResult::Finished(o) => {
            let status = if o.exit_code == 0 {
                CommandExecutionStatus::Completed
            } else {
                CommandExecutionStatus::Failed
            };
            let persisted = copy_output(&o);
            ShellOutcome { status, live: o, persisted, format_outputs: true }
        },
        ShellRunResult::Failed { error_debug, timeout_output } => {
            let mut m: Vec<char> = Vec::new();
            push_str_chars(&mut m, "execution error: ");
            push_str_chars(&mut m, error_debug.as_str());
            let message = string_from_chars(m.as_slice());
            let live = failure_output(message.as_str());
            let persisted = match timeout_output {
                Some(t) => t,
                None => copy_output(&live),
            };
            ShellOutcome { status: CommandExecutionStatus::Failed, live, persisted, format_outputs: true }
        },
    }
}

} // verus!
