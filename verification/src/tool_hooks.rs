//! Payloads handed to tool-use hooks before and after a tool runs. JSON
//! values are held as their compact text.
use vstd::prelude::*;
use crate::errors::FunctionCallError;
use crate::claude_tool_input::{json_compact_text, json_shape_of, json_single_entry, read_json, single_entry_object, JsonShape};
use crate::file_tools::ToolPayload;
use crate::unified_exec::{json_field_text, json_field_value_text};

verus! {

/// Whether `serde_json` accepts `text` as one JSON value.
pub open spec fn json_text_parses(text: Seq<char>) -> bool {
    json_shape_of(text) != JsonShape::Invalid
}

/// A tool call as the hooks see it.
#[derive(Debug)]
pub struct ToolInvocation {
    pub call_id: String,
    pub tool_name: String,
    pub payload: ToolPayload,
}

/// What a hook gets before a tool runs: the tool's hook name and its input
/// as compact JSON text.
#[derive(Debug)]
pub struct PreToolUsePayload {
    pub tool_name: String,
    pub tool_input: String,
}

/// What a hook gets after a tool ran: its hook name, the call's id, and its
/// input and response as compact JSON text.
#[derive(Debug)]
pub struct PostToolUsePayload {
    pub tool_name: String,
    pub tool_use_id: String,
    pub tool_input: String,
    pub tool_response: String,
}

/// Hook name of the shell tool.
pub open spec fn bash_hook_name() -> Seq<char> {
    "Bash"@
}

/// The compact JSON text of a payload's arguments, when it is a function
/// call whose arguments are JSON.
pub open spec fn payload_input(payload: ToolPayload) -> Option<Seq<char>> {
    match payload {
        ToolPayload::Function { arguments } => if json_text_parses(arguments@) {
            Some(json_compact_text(arguments@))
        } else {
            None
        },
        ToolPayload::Unsupported => None,
    }
}

/// The payload carries JSON arguments that parse.
pub open spec fn payload_input_parses(payload: ToolPayload) -> bool {
    payload_input(payload) is Some
}

/// The parsed JSON arguments of a function payload, as compact text.
pub fn file_tool_input(payload: &ToolPayload) -> (r: Option<String>)
    ensures
        match payload_input(*payload) {
            Some(t) => r matches Some(s) && s@ == t,
            None => r is None,
        },
{
    match payload {
        ToolPayload::Function { arguments } => {
            let (shape, compact) = read_json(arguments.as_str());
            if shape == JsonShape::Invalid {
                None
            } else {
                Some(compact)
            }
        },
        ToolPayload::Unsupported => None,
    }
}

/// The hook payload before a file tool runs: the tool's name and its
/// arguments as compact JSON; `None` when the arguments are not JSON.
pub fn file_tool_pre_payload(tool_name: &str, invocation: &ToolInvocation) -> (r: Option<
    PreToolUsePayload,
>)
    ensures
        match payload_input(invocation.payload) {
            Some(t) => r matches Some(p) && p.tool_name@ == tool_name@ && p.tool_input@ == t,
            None => r is None,
        },
{
    match file_tool_input(&invocation.payload) {
        Some(input) => Some(PreToolUsePayload { tool_name: tool_name.to_string(), tool_input: input }),
        None => None,
    }
}

/// The hook payload after a file tool ran, given the tool's response for
/// the hook as JSON text (`None` when the output offers none).
pub fn file_tool_post_payload(
    tool_name: &str,
    invocation: &ToolInvocation,
    tool_response: Option<String>,
) -> (r: Option<PostToolUsePayload>)
    ensures
        match (payload_input(invocation.payload), tool_response) {
            (Some(t), Some(resp)) => r matches Some(p) && p.tool_name@ == tool_name@ && p.tool_use_id@
                == invocation.call_id@ && p.tool_input@ == t && p.tool_response@ == resp@,
            _ => r is None,
        },
{
    let response = match tool_response {
        Some(v) => v,
        None => return None,
    };
    match file_tool_input(&invocation.payload) {
        Some(input) => Some(
            PostToolUsePayload {
                tool_name: tool_name.to_string(),
                tool_use_id: invocation.call_id.clone(),
                tool_input: input,
                tool_response: response,
            },
        ),
        None => None,
    }
}

/// The hook payload after a shell command ran, given what the command's
/// output offers the hook: its input and response as JSON text, and its
/// use id.
pub fn post_unified_exec_tool_use_payload(
    invocation: &ToolInvocation,
    tool_input: Option<String>,
    tool_use_id: String,
    tool_response: Option<String>,
) -> (r: Option<PostToolUsePayload>)
    ensures
        match (invocation.payload, tool_input, tool_response) {
            (ToolPayload::Function { .. }, Some(input), Some(resp)) => r matches Some(p)
                && p.tool_name@ == bash_hook_name() && p.tool_use_id@ == tool_use_id@
                && p.tool_input@ == input@ && p.tool_response@ == resp@,
            _ => r is None,
        },
{
    match &invocation.payload {
        ToolPayload::Function { .. } => {},
        ToolPayload::Unsupported => return None,
    }
    let input = match tool_input {
        Some(v) => v,
        None => return None,
    };
    match tool_response {
        Some(response) => Some(
            PostToolUsePayload {
                tool_name: "Bash".to_string(),
                tool_use_id,
                tool_input: input,
                tool_response: response,
            },
        ),
        None => None,
    }
}

pub open spec fn msg_hook_output_not_object() -> Seq<char> {
    "file tool hook output must be a JSON object"@
}

/// The file tool call with its arguments replaced by the hook's output
/// (JSON text), which must be a JSON object; the arguments become its
/// compact text.
pub fn updated_file_tool_invocation(invocation: ToolInvocation, updated_input: &str) -> (r: Result<
    ToolInvocation,
    FunctionCallError,
>)
    ensures
        r is Ok <==> json_shape_of(updated_input@) == JsonShape::Object,
        match r {
            Ok(inv) => {
                &&& inv.call_id@ == invocation.call_id@
                &&& inv.tool_name@ == invocation.tool_name@
                &&& inv.payload matches ToolPayload::Function { arguments } && arguments@
                    == json_compact_text(updated_input@)
            },
            Err(e) => e.message_view() == msg_hook_output_not_object(),
        },
{
    let (shape, compact) = read_json(updated_input);
    if shape != JsonShape::Object {
        return Err(FunctionCallError::respond("file tool hook output must be a JSON object"));
    }
    Ok(
        ToolInvocation {
            call_id: invocation.call_id,
            tool_name: invocation.tool_name,
            payload: ToolPayload::Function { arguments: compact },
        },
    )
}

/// The input the shell hook gets: the object holding only the call's
/// `command`.
pub open spec fn command_hook_input(command_value: Seq<char>) -> Seq<char> {
    json_single_entry("command"@, command_value)
}

/// The hook payload before the bash tool runs: the shell hook name and an
/// object holding the call's `command`; `None` when the arguments carry
/// none.
pub fn bash_pre_tool_use_payload(invocation: &ToolInvocation) -> (r: Option<PreToolUsePayload>)
    ensures
        match invocation.payload {
            ToolPayload::Function { arguments } => match json_field_value_text(arguments@, "command"@) {
                Some(v) => r matches Some(p) && p.tool_name@ == bash_hook_name() && p.tool_input@
                    == command_hook_input(v),
                None => r is None,
            },
            ToolPayload::Unsupported => r is None,
        },
{
    let arguments = match &invocation.payload {
        ToolPayload::Function { arguments } => arguments,
        ToolPayload::Unsupported => return None,
    };
    let value = match json_field_text(arguments.as_str(), "command") {
        Some(v) => v,
        None => return None,
    };
    Some(PreToolUsePayload { tool_name: "Bash".to_string(), tool_input: single_entry_object("command", value) })
}

} // verus!
