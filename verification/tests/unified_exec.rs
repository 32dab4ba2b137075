use codex_core_logic::unified_exec::default_exec_yield_time_ms;
use codex_core_logic::unified_exec::default_tty;
use codex_core_logic::unified_exec::default_write_stdin_yield_time_ms;
use codex_core_logic::unified_exec::get_command;
use codex_core_logic::unified_exec::shell_mode_for_environment;
use codex_core_logic::unified_exec::use_login_shell;
use codex_core_logic::unified_exec::ClaudeBashHandler;
use codex_core_logic::unified_exec::CommandPlan;
use codex_core_logic::unified_exec::ExecCommandArgs;
use codex_core_logic::unified_exec::UnifiedExecShellMode;
use codex_core_logic::file_tools::ToolPayload;
use codex_core_logic::unified_exec::bash_exec_arguments;

fn args(shell: Option<&str>, login: Option<bool>) -> ExecCommandArgs {
    ExecCommandArgs {
        cmd: "echo hi".to_string(),
        shell: shell.map(str::to_string),
        login,
        tty: default_tty(),
        yield_time_ms: default_exec_yield_time_ms(),
        timeout_ms: None,
        max_output_tokens: None,
        justification: None,
        prefix_rule: None,
    }
}

#[test]
fn exec_argument_defaults() {
    assert_eq!(default_exec_yield_time_ms(), 10_000);
    assert_eq!(default_write_stdin_yield_time_ms(), 250);
    assert!(!default_tty());
}

#[test]
fn bash_handler_wraps_its_inner_handler() {
    let handler = ClaudeBashHandler::new(42u8);
    assert_eq!(handler.inner, 42);
}

#[test]
fn login_shell_follows_the_request_and_the_config() {
    assert_eq!(use_login_shell(None, true), Ok(true));
    assert_eq!(use_login_shell(None, false), Ok(false));
    assert_eq!(use_login_shell(Some(false), true), Ok(false));
    assert_eq!(use_login_shell(Some(true), true), Ok(true));
    assert_eq!(
        use_login_shell(Some(true), false),
        Err("login shell is disabled by config; omit `login` or set it to false.".to_string())
    );
}

#[test]
fn direct_mode_runs_through_the_requested_shell() {
    match get_command(&args(Some("/bin/bash"), Some(false)), &UnifiedExecShellMode::Direct, true) {
        Ok(CommandPlan::Shell {
            shell,
            use_login_shell,
        }) => {
            assert_eq!(shell.as_deref(), Some("/bin/bash"));
            assert!(!use_login_shell);
        }
        _ => panic!("direct mode runs through a shell"),
    }
}

#[test]
fn zsh_fork_builds_the_argument_vector() {
    let mode = UnifiedExecShellMode::ZshFork {
        shell_zsh_path: "/opt/zsh".to_string(),
    };
    match get_command(&args(None, None), &mode, true) {
        Ok(CommandPlan::Zsh { command }) => {
            assert_eq!(command, vec!["/opt/zsh", "-lc", "echo hi"]);
        }
        _ => panic!("zsh-fork builds a command"),
    }
    match get_command(&args(None, Some(false)), &mode, true) {
        Ok(CommandPlan::Zsh { command }) => {
            assert_eq!(command, vec!["/opt/zsh", "-c", "echo hi"]);
        }
        _ => panic!("zsh-fork builds a command"),
    }
    match get_command(&args(Some("/bin/bash"), None), &mode, true) {
        Err(message) => assert!(message.contains("`shell` is not supported for local zsh-fork exec")),
        _ => panic!("zsh-fork refuses a shell"),
    }
    match get_command(&args(None, Some(true)), &mode, false) {
        Err(message) => assert!(message.starts_with("login shell is disabled by config")),
        _ => panic!("a disabled login shell is refused first"),
    }
}

#[test]
fn remote_environments_run_directly() {
    let mode = UnifiedExecShellMode::ZshFork {
        shell_zsh_path: "/opt/zsh".to_string(),
    };
    assert!(matches!(
        shell_mode_for_environment(&mode, true),
        UnifiedExecShellMode::Direct
    ));
    match shell_mode_for_environment(&mode, false) {
        UnifiedExecShellMode::ZshFork { shell_zsh_path } => assert_eq!(shell_zsh_path, "/opt/zsh"),
        _ => panic!("local environments keep the turn's mode"),
    }
}

#[test]
fn bash_arguments_move_command_to_cmd() {
    let payload = ToolPayload::Function {
        arguments: "{\"command\":\"ls -la\",\"timeout_ms\":500}".to_string(),
    };
    let arguments = bash_exec_arguments(&payload).unwrap();
    let value: serde_json::Value = serde_json::from_str(&arguments).unwrap();
    assert_eq!(value["cmd"], "ls -la");
    assert_eq!(value["timeout_ms"], 500);
    assert!(value.get("command").is_none());
}

#[test]
fn bash_arguments_errors() {
    let message = |arguments: &str| {
        bash_exec_arguments(&ToolPayload::Function { arguments: arguments.to_string() })
            .unwrap_err()
            .to_string()
    };
    assert_eq!(message("[1]"), "bash arguments must be an object");
    assert_eq!(message("{\"cmd\":\"ls\"}"), "bash requires a string `command`");
    assert_eq!(message("{\"command\":[\"ls\"]}"), "bash requires a string `command`");
    assert!(message("{").starts_with("failed to parse bash arguments: "));
    assert_eq!(
        bash_exec_arguments(&ToolPayload::Unsupported).unwrap_err().to_string(),
        "bash received an unsupported payload"
    );
}
