//! Decisions of the unified exec tools: argument defaults, the login-shell
//! choice and how a command is run.
use vstd::prelude::*;
use crate::claude_history::{copy_opt, opt_view};
use crate::errors::FunctionCallError;
use crate::file_tools::ToolPayload;
use crate::text::{push_str_chars, string_from_chars};

verus! {

/// Default time `exec_command` waits for output, in milliseconds.
pub fn default_exec_yield_time_ms() -> (r: u64)
    ensures
        r == 10_000,
{
    10_000
}

/// Default time `write_stdin` waits for output, in milliseconds.
pub fn default_write_stdin_yield_time_ms() -> (r: u64)
    ensures
        r == 250,
{
    250
}

/// Commands run without a terminal unless asked.
pub fn default_tty() -> (r: bool)
    ensures
        r == false,
{
    false
}

/// The bash tool of the messages API: it forwards to the exec command
/// handler built from `inner`.
pub struct ClaudeBashHandler<H> {
    pub inner: H,
}

impl<H> ClaudeBashHandler<H> {
    pub fn new(inner: H) -> (r: Self)
        ensures
            r.inner == inner,
    {
        ClaudeBashHandler { inner }
    }
}

/// Arguments of `exec_command` that decide how it runs.
pub struct ExecCommandArgs {
    pub cmd: String,
    pub shell: Option<String>,
    pub login: Option<bool>,
    pub tty: bool,
    pub yield_time_ms: u64,
    pub timeout_ms: Option<u64>,
    pub max_output_tokens: Option<usize>,
    pub justification: Option<String>,
    pub prefix_rule: Option<Vec<String>>,
}

/// How the session runs commands.
#[derive(Debug)]
pub enum UnifiedExecShellMode {
    /// Through the session's shell, or one the model names.
    Direct,
    /// Through a forked zsh at `shell_zsh_path`.
    ZshFork { shell_zsh_path: String },
}

/// How one command will run.
#[derive(Debug)]
pub enum CommandPlan {
    /// Through `shell` (the session's when `None`), as a login shell or not.
    Shell { shell: Option<String>, use_login_shell: bool },
    /// Exactly this argument vector, under zsh.
    Zsh { command: Vec<String> },
}

pub open spec fn msg_login_disabled() -> Seq<char> {
    "login shell is disabled by config; omit `login` or set it to false."@
}

pub open spec fn msg_shell_with_zsh_fork() -> Seq<char> {
    "`shell` is not supported for local zsh-fork exec; omit `shell` to use zsh-fork, or target a remote environment where `shell` is supported."@
}

/// Whether the command runs as a login shell: as asked, else as the config
/// allows; asking for one the config disables is an error.
pub open spec fn login_choice(login: Option<bool>, allow_login_shell: bool) -> Result<bool, Seq<char>> {
    match login {
        Some(true) => if allow_login_shell {
            Ok(true)
        } else {
            Err(msg_login_disabled())
        },
        Some(false) => Ok(false),
        None => Ok(allow_login_shell),
    }
}

/// The login-shell choice for a command.
pub fn use_login_shell(login: Option<bool>, allow_login_shell: bool) -> (r: Result<bool, String>)
    ensures
        match (r, login_choice(login, allow_login_shell)) {
            (Ok(b), Ok(c)) => b == c,
            (Err(m), Err(c)) => m@ == c,
            _ => false,
        },
{
    match login {
        Some(true) => if allow_login_shell {
            Ok(true)
        } else {
            Err("login shell is disabled by config; omit `login` or set it to false.".to_string())
        },
        Some(false) => Ok(false),
        None => Ok(allow_login_shell),
    }
}

/// How `args` runs in `mode`: through a shell with the login choice, or,
/// under zsh-fork, as `zsh -lc cmd` / `zsh -c cmd`, which takes no `shell`.
pub fn get_command(args: &ExecCommandArgs, mode: &UnifiedExecShellMode, allow_login_shell: bool) -> (r:
    Result<CommandPlan, String>)
    ensures
        match login_choice(args.login, allow_login_shell) {
            Err(m) => r matches Err(e) && e@ == m,
            Ok(login) => match mode {
                UnifiedExecShellMode::Direct => r matches Ok(CommandPlan::Shell { shell, use_login_shell })
                    && opt_view(shell) == opt_view(args.shell) && use_login_shell == login,
                UnifiedExecShellMode::ZshFork { shell_zsh_path } => if args.shell.is_some() {
                    r matches Err(e) && e@ == msg_shell_with_zsh_fork()
                } else {
                    r matches Ok(CommandPlan::Zsh { command }) && command@.map_values(
                        |s: String| s@,
                    ) == seq![
                        shell_zsh_path@,
                        if login {
                            "-lc"@
                        } else {
                            "-c"@
                        },
                        args.cmd@,
                    ]
                },
            },
        },
{
    let login = match use_login_shell(args.login, allow_login_shell) {
        Ok(b) => b,
        Err(m) => return Err(m),
    };
    match mode {
        UnifiedExecShellMode::Direct => Ok(
            CommandPlan::Shell { shell: copy_opt(&args.shell), use_login_shell: login },
        ),
        UnifiedExecShellMode::ZshFork { shell_zsh_path } => {
            if args.shell.is_some() {
                return Err(
                    "`shell` is not supported for local zsh-fork exec; omit `shell` to use zsh-fork, or target a remote environment where `shell` is supported.".to_string(),
                );
            }
            let flag = if login {
                "-lc".to_string()
            } else {
                "-c".to_string()
            };
            let mut command: Vec<String> = Vec::new();
            command.push(shell_zsh_path.clone());
            command.push(flag);
            command.push(args.cmd.clone());
            Ok(CommandPlan::Zsh { command })
        },
    }
}

/// The shell mode for a command in an environment: remote environments
/// always run directly.
pub fn shell_mode_for_environment(turn_shell_mode: &UnifiedExecShellMode, is_remote: bool) -> (r:
    UnifiedExecShellMode)
    ensures
        is_remote ==> r is Direct,
        !is_remote ==> match (turn_shell_mode, r) {
            (UnifiedExecShellMode::Direct, UnifiedExecShellMode::Direct) => true,
            (
                UnifiedExecShellMode::ZshFork { shell_zsh_path: a },
                UnifiedExecShellMode::ZshFork { shell_zsh_path: b },
            ) => a@ == b@,
            _ => false,
        },
{
    if is_remote {
        return UnifiedExecShellMode::Direct;
    }
    match turn_shell_mode {
        UnifiedExecShellMode::Direct => UnifiedExecShellMode::Direct,
        UnifiedExecShellMode::ZshFork { shell_zsh_path } => UnifiedExecShellMode::ZshFork {
            shell_zsh_path: shell_zsh_path.clone(),
        },
    }
}


/// What a JSON text holds under one key.
#[derive(Clone, Copy, Debug, PartialEq, Eq, Structural)]
pub enum JsonField {
    /// The text is JSON but not an object.
    NotObject,
    /// An object without the key.
    Missing,
    /// An object with a string under the key.
    Str,
    /// An object with another value under the key.
    OtherValue,
}

/// The message `serde_json` gives for the error reading `text` as a value.
pub uninterp spec fn json_parse_error(text: Seq<char>) -> Seq<char>;

/// What `serde_json` finds under `key` in the value read from `text`, or
/// `None` when `text` is not JSON.
pub uninterp spec fn json_field_of(text: Seq<char>, key: Seq<char>) -> Option<JsonField>;

/// The compact text of the object read from `text` with the value under
/// `from` moved to the key `to` (`Map::remove`, then `Map::insert`).
pub uninterp spec fn json_field_moved(text: Seq<char>, from: Seq<char>, to: Seq<char>) -> Seq<char>;

/// Reads `text` with `serde_json::from_str::<serde_json::Value>` and looks
/// up `key` with `as_object` and `get`.
///
/// Trusted: the error message is the parser's (`Display` of
/// `serde_json::Error`, named [`json_parse_error`]); the field is named
/// [`json_field_of`].
#[verifier::external_body]
fn json_field(text: &str, key: &str) -> (r: Result<JsonField, String>)
    ensures
        match r {
            Err(m) => json_field_of(text@, key@) is None && m@ == json_parse_error(text@),
            Ok(f) => json_field_of(text@, key@) == Some(f),
        },
{
    let value: serde_json::Value = serde_json::from_str(text).map_err(|err| err.to_string())?;
    Ok(match value.as_object().map(|object| object.get(key)) {
        None => JsonField::NotObject,
        Some(None) => JsonField::Missing,
        Some(Some(serde_json::Value::String(_))) => JsonField::Str,
        Some(Some(_)) => JsonField::OtherValue,
    })
}

/// The compact text of the value under `key` in the JSON object read from
/// `text`, when there is one.
pub uninterp spec fn json_field_value_text(text: Seq<char>, key: Seq<char>) -> Option<Seq<char>>;

/// The compact text of the value under `key` in the JSON object of `text`:
/// `serde_json::from_str`, `get(key)`, then `Display` of the value.
///
/// Trusted: the text is named [`json_field_value_text`], and there is one
/// exactly when the object holds `key` ([`json_field_of`]).
#[verifier::external_body]
pub(crate) fn json_field_text(text: &str, key: &str) -> (r: Option<String>)
    ensures
        match r {
            Some(s) => json_field_value_text(text@, key@) == Some(s@),
            None => json_field_value_text(text@, key@) is None,
        },
        r is Some <==> (json_field_of(text@, key@) == Some(JsonField::Str) || json_field_of(text@, key@)
            == Some(JsonField::OtherValue)),
{
    let value: serde_json::Value = serde_json::from_str(text).ok()?;
    value.get(key).map(|v| v.to_string())
}

/// Moves the value under `from` to the key `to` in the JSON object of
/// `text`, and writes the object back compactly.
///
/// Trusted: the text is named [`json_field_moved`].
#[verifier::external_body]
fn move_json_field(text: &str, from: &str, to: &str) -> (r: String)
    ensures
        r@ == json_field_moved(text@, from@, to@),
{
    let mut value: serde_json::Value = serde_json::from_str(text).unwrap_or_default();
    if let Some(object) = value.as_object_mut() {
        if let Some(moved) = object.remove(from) {
            object.insert(to.to_string(), moved);
        }
    }
    value.to_string()
}

pub open spec fn msg_bash_unsupported_payload() -> Seq<char> {
    "bash received an unsupported payload"@
}

pub open spec fn msg_bash_parse_error(err: Seq<char>) -> Seq<char> {
    "failed to parse bash arguments: "@ + err
}

pub open spec fn msg_bash_not_object() -> Seq<char> {
    "bash arguments must be an object"@
}

pub open spec fn msg_bash_needs_command() -> Seq<char> {
    "bash requires a string `command`"@
}

/// The arguments the bash tool hands to `exec_command`: its `command`
/// becomes `cmd`; everything else is kept.
pub open spec fn bash_exec_arguments_view(arguments: Seq<char>) -> Result<Seq<char>, Seq<char>> {
    match json_field_of(arguments, "command"@) {
        None => Err(msg_bash_parse_error(json_parse_error(arguments))),
        Some(JsonField::NotObject) => Err(msg_bash_not_object()),
        Some(JsonField::Missing) => Err(msg_bash_needs_command()),
        Some(JsonField::OtherValue) => Err(msg_bash_needs_command()),
        Some(JsonField::Str) => Ok(json_field_moved(arguments, "command"@, "cmd"@)),
    }
}

/// The `exec_command` arguments for a call of the bash tool: the call's
/// JSON object with its string `command` moved to `cmd`; an error for any
/// other payload or arguments.
pub fn bash_exec_arguments(payload: &ToolPayload) -> (r: Result<String, FunctionCallError>)
    ensures
        match payload {
            ToolPayload::Unsupported => r matches Err(e) && e.message_view() == msg_bash_unsupported_payload(),
            ToolPayload::Function { arguments } => match bash_exec_arguments_view(arguments@) {
                Ok(a) => r matches Ok(s) && s@ == a,
                Err(m) => r matches Err(e) && e.message_view() == m,
            },
        },
{
    let arguments = match payload {
        ToolPayload::Function { arguments } => arguments,
        ToolPayload::Unsupported => {
            return Err(FunctionCallError::respond("bash received an unsupported payload"));
        },
    };
    match json_field(arguments.as_str(), "command") {
        Err(err) => {
            let mut m: Vec<char> = Vec::new();
            push_str_chars(&mut m, "failed to parse bash arguments: ");
            push_str_chars(&mut m, err.as_str());
            Err(FunctionCallError::RespondToModel(string_from_chars(m.as_slice())))
        },
        Ok(JsonField::NotObject) => Err(FunctionCallError::respond("bash arguments must be an object")),
        Ok(JsonField::Missing) | Ok(JsonField::OtherValue) => Err(
            FunctionCallError::respond("bash requires a string `command`"),
        ),
        Ok(JsonField::Str) => Ok(move_json_field(arguments.as_str(), "command", "cmd")),
    }
}

} // verus!
