use codex_core_logic::user_shell::output_persistence;
use codex_core_logic::user_shell::item_started_at_ms;
use codex_core_logic::user_shell::ShellOutputPersistence;
use codex_core_logic::user_shell::emits_turn_started;
use codex_core_logic::user_shell::user_shell_expiration_ms;
use codex_core_logic::user_shell::user_shell_outcome;
use codex_core_logic::user_shell::CommandExecutionStatus;
use codex_core_logic::user_shell::ExecOutput;
use codex_core_logic::user_shell::ShellRunResult;
use codex_core_logic::user_shell::UserShellCommandMode;
use codex_core_logic::user_shell::UserShellCommandTask;
use codex_core_logic::user_shell::USER_SHELL_TIMEOUT_MS;

fn output(exit_code: i32, text: &str) -> ExecOutput {
    ExecOutput {
        exit_code,
        stdout: text.to_string(),
        stderr: String::new(),
        aggregated_output: text.to_string(),
        duration_ms: 12,
        timed_out: false,
    }
}

#[test]
fn task_keeps_its_command_and_timeout() {
    let task = UserShellCommandTask::new("ls -la".to_string(), Some(5));
    assert_eq!(task.command, "ls -la");
    assert_eq!(task.timeout_ms, Some(5));
}

#[test]
fn commands_without_a_timeout_get_one_hour() {
    assert_eq!(USER_SHELL_TIMEOUT_MS, 60 * 60 * 1000);
    assert_eq!(user_shell_expiration_ms(None), 3_600_000);
    assert_eq!(user_shell_expiration_ms(Some(250)), 250);
}

#[test]
fn only_standalone_commands_start_a_turn() {
    assert!(emits_turn_started(UserShellCommandMode::StandaloneTurn));
    assert!(!emits_turn_started(UserShellCommandMode::ActiveTurnAuxiliary));
}

#[test]
fn cancelled_commands_fail_with_an_abort_message() {
    let outcome = user_shell_outcome(ShellRunResult::Cancelled);
    assert!(matches!(outcome.status, CommandExecutionStatus::Failed));
    assert_eq!(outcome.live.exit_code, -1);
    assert_eq!(outcome.live.stderr, "command aborted by user");
    assert_eq!(outcome.live.aggregated_output, "command aborted by user");
    assert_eq!(outcome.live.stdout, "");
    assert_eq!(outcome.persisted.stderr, "command aborted by user");
    assert!(!outcome.format_outputs);
}

#[test]
fn finished_commands_complete_only_on_success() {
    let ok = user_shell_outcome(ShellRunResult::Finished(output(0, "done")));
    assert!(matches!(ok.status, CommandExecutionStatus::Completed));
    assert_eq!(ok.live.stdout, "done");
    assert_eq!(ok.persisted.aggregated_output, "done");
    assert!(ok.format_outputs);
    let failed = user_shell_outcome(ShellRunResult::Finished(output(2, "oops")));
    assert!(matches!(failed.status, CommandExecutionStatus::Failed));
    assert_eq!(failed.live.exit_code, 2);
}

#[test]
fn failed_runs_keep_timeout_output_in_history() {
    let timed_out = user_shell_outcome(ShellRunResult::Failed {
        error_debug: "Timeout".to_string(),
        timeout_output: Some(output(124, "partial")),
    });
    assert!(matches!(timed_out.status, CommandExecutionStatus::Failed));
    assert_eq!(timed_out.live.stderr, "execution error: Timeout");
    assert_eq!(timed_out.live.exit_code, -1);
    assert_eq!(timed_out.persisted.aggregated_output, "partial");
    assert_eq!(timed_out.persisted.exit_code, 124);

    let other = user_shell_outcome(ShellRunResult::Failed {
        error_debug: "Spawn".to_string(),
        timeout_output: None,
    });
    assert_eq!(other.persisted.stderr, "execution error: Spawn");
    assert_eq!(other.persisted.duration_ms, 0);
}

#[test]
fn output_goes_to_the_conversation_or_the_active_turn() {
    assert_eq!(
        output_persistence(UserShellCommandMode::StandaloneTurn),
        ShellOutputPersistence::RecordAndMaterialize
    );
    assert_eq!(
        output_persistence(UserShellCommandMode::ActiveTurnAuxiliary),
        ShellOutputPersistence::InjectIntoActiveTurn
    );
}

#[test]
fn item_start_falls_back_to_completion_time() {
    assert_eq!(item_started_at_ms(Some(100), 250), 100);
    assert_eq!(item_started_at_ms(None, 250), 250);
}
