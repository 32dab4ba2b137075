//! Which file tools a turn exposes: `apply_patch`, the native text editor,
//! and the dedicated `read_file` / `edit_file` / `write_file` tools.
use vstd::prelude::*;
use crate::text::str_eq;

verus! {

/// The wire protocol of the model provider.
#[derive(Clone, Copy, Debug, PartialEq, Eq, Structural)]
pub enum WireApi {
    Chat,
    Messages,
    Responses,
}

/// How chat sessions edit files.
#[derive(Clone, Copy, Debug, PartialEq, Eq, Structural)]
pub enum ChatFileToolMode {
    Legacy,
    Dedicated,
    DedicatedWithApplyPatch,
}

/// How Messages API sessions edit files.
#[derive(Clone, Copy, Debug, PartialEq, Eq, Structural)]
pub enum MessagesFileToolMode {
    Auto,
    Dedicated,
    DedicatedWithApplyPatch,
}

/// Which execution environments a turn's tools can reach.
#[derive(Clone, Copy, Debug, PartialEq, Eq, Structural)]
pub enum ToolEnvironmentMode {
    Unavailable,
    Single,
    Multiple,
}

/// Whether a tool is offered to the model or only runs for another one.
#[derive(Clone, Copy, Debug, PartialEq, Eq, Structural)]
pub enum ToolExposure {
    Direct,
    Hidden,
}

/// Whether Messages API sessions use the dedicated file tools: with the
/// gate on, always in the dedicated modes, and in auto mode for a
/// compatible provider or a model known to prefer them.
pub fn messages_policy_uses_dedicated_file_tools(
    gate_enabled: bool,
    mode: MessagesFileToolMode,
    provider_is_compatible: bool,
    model_prefers_dedicated: bool,
) -> (r: bool)
    ensures
        r == (gate_enabled && match mode {
            MessagesFileToolMode::Auto => provider_is_compatible || model_prefers_dedicated,
            _ => true,
        }),
{
    if !gate_enabled {
        return false;
    }
    match mode {
        MessagesFileToolMode::Dedicated | MessagesFileToolMode::DedicatedWithApplyPatch => true,
        MessagesFileToolMode::Auto => provider_is_compatible || model_prefers_dedicated,
    }
}

/// Whether the dedicated file tools are visible to the model. They need an
/// environment and the feature switched on. Chat shows them in every mode
/// but the oldest; the Messages API follows its policy; the Responses API
/// never shows them.
pub fn model_visible(
    environment_mode: ToolEnvironmentMode,
    gate_enabled: bool,
    wire_api: WireApi,
    chat_mode: ChatFileToolMode,
    messages_uses_dedicated: bool,
) -> (r: bool)
    ensures
        r == (environment_mode != ToolEnvironmentMode::Unavailable && gate_enabled && match wire_api {
            WireApi::Chat => chat_mode != ChatFileToolMode::Legacy,
            WireApi::Messages => messages_uses_dedicated,
            WireApi::Responses => false,
        }),
{
    if environment_mode == ToolEnvironmentMode::Unavailable || !gate_enabled {
        return false;
    }
    match wire_api {
        WireApi::Chat => chat_mode != ChatFileToolMode::Legacy,
        WireApi::Messages => messages_uses_dedicated,
        WireApi::Responses => false,
    }
}

/// A runtime a turn registers.
#[derive(Clone, Copy, Debug, PartialEq, Eq, Structural)]
pub enum PlannedRuntime {
    ApplyPatch { exposure: ToolExposure },
    TextEditor { exposure: ToolExposure },
    ReadFile,
    EditFile,
    WriteFile,
}

/// The file tool runtimes of a turn, and whether their arguments carry an
/// environment id.
pub struct RuntimePlan {
    pub runtimes: Vec<PlannedRuntime>,
    pub include_environment_id: bool,
}

/// The dedicated chat mode is on.
pub open spec fn dedicated_chat(gate: bool, wire_api: WireApi, chat_mode: ChatFileToolMode) -> bool {
    gate && wire_api == WireApi::Chat && chat_mode != ChatFileToolMode::Legacy
}

/// The runtimes a turn registers: none without an environment, or when
/// `apply_patch` is unavailable and no dedicated mode is on; otherwise
/// `apply_patch` (hidden when a dedicated mode replaces it) and the hidden
/// text editor, then the three dedicated tools in a dedicated mode.
pub open spec fn planned(
    environment_mode: ToolEnvironmentMode,
    gate: bool,
    wire_api: WireApi,
    chat_mode: ChatFileToolMode,
    messages_uses_dedicated: bool,
    messages_mode: MessagesFileToolMode,
    apply_patch_available: bool,
) -> Seq<PlannedRuntime> {
    let chat = dedicated_chat(gate, wire_api, chat_mode);
    let messages = gate && messages_uses_dedicated;
    let dedicated = chat || messages;
    if environment_mode == ToolEnvironmentMode::Unavailable || (!apply_patch_available && !dedicated) {
        Seq::empty()
    } else {
        let hide = (chat && chat_mode == ChatFileToolMode::Dedicated) || (messages && messages_mode
            != MessagesFileToolMode::DedicatedWithApplyPatch);
        let base = seq![
            PlannedRuntime::ApplyPatch {
                exposure: if hide {
                    ToolExposure::Hidden
                } else {
                    ToolExposure::Direct
                },
            },
            PlannedRuntime::TextEditor { exposure: ToolExposure::Hidden },
        ];
        if dedicated {
            base + seq![PlannedRuntime::ReadFile, PlannedRuntime::EditFile, PlannedRuntime::WriteFile]
        } else {
            base
        }
    }
}

/// The file tool runtimes of a turn (see [`planned`]); `messages_uses_dedicated`
/// is the Messages API policy for the turn (false for other wire protocols).
pub fn planned_runtimes(
    environment_mode: ToolEnvironmentMode,
    gate_enabled: bool,
    wire_api: WireApi,
    chat_mode: ChatFileToolMode,
    messages_uses_dedicated: bool,
    messages_mode: MessagesFileToolMode,
    apply_patch_available: bool,
) -> (r: RuntimePlan)
    ensures
        r.runtimes@ == planned(
            environment_mode,
            gate_enabled,
            wire_api,
            chat_mode,
            messages_uses_dedicated,
            messages_mode,
            apply_patch_available,
        ),
        r.include_environment_id == (environment_mode == ToolEnvironmentMode::Multiple),
{
    let include_environment_id = environment_mode == ToolEnvironmentMode::Multiple;
    let mut runtimes: Vec<PlannedRuntime> = Vec::new();
    if environment_mode == ToolEnvironmentMode::Unavailable {
        return RuntimePlan { runtimes, include_environment_id };
    }
    let chat = gate_enabled && wire_api == WireApi::Chat && chat_mode != ChatFileToolMode::Legacy;
    let messages = gate_enabled && messages_uses_dedicated;
    let dedicated = chat || messages;
    if !apply_patch_available && !dedicated {
        return RuntimePlan { runtimes, include_environment_id };
    }
    let hide = (chat && chat_mode == ChatFileToolMode::Dedicated) || (messages && messages_mode
        != MessagesFileToolMode::DedicatedWithApplyPatch);
    let exposure = if hide {
        ToolExposure::Hidden
    } else {
        ToolExposure::Direct
    };
    runtimes.push(PlannedRuntime::ApplyPatch { exposure });
    runtimes.push(PlannedRuntime::TextEditor { exposure: ToolExposure::Hidden });
    if dedicated {
        runtimes.push(PlannedRuntime::ReadFile);
        runtimes.push(PlannedRuntime::EditFile);
        runtimes.push(PlannedRuntime::WriteFile);
    }
    RuntimePlan { runtimes, include_environment_id }
}

/// A tool declared to the model, as far as the plan reads it.
pub enum ToolSpecSummary {
    Function { name: String, description: String },
    Other,
}

/// The description a first-party dedicated file tool declares.
pub open spec fn first_party_description(name: Seq<char>) -> Option<Seq<char>> {
    if name == "read_file"@ {
        Some("Read a bounded text file through Codex's filesystem layer."@)
    } else if name == "edit_file"@ {
        Some("Replace exact text in a previously read text file."@)
    } else if name == "write_file"@ {
        Some("Create or overwrite a bounded text file through Codex's filesystem layer."@)
    } else {
        None
    }
}

/// Some declared function tool is the first-party dedicated file tool
/// `name`: same name and the first-party description.
pub open spec fn has_first_party(tools: Seq<ToolSpecSummary>, name: Seq<char>) -> bool {
    match first_party_description(name) {
        None => false,
        Some(d) => exists|i: int|
            0 <= i < tools.len() && (#[trigger] tools[i] matches ToolSpecSummary::Function {
                name: n,
                description: dd,
            } && n@ == name && dd@ == d),
    }
}

/// Whether `tools` declare the first-party dedicated file tool `name`
/// (a same-named tool of another origin does not count).
pub fn has_first_party_dedicated_file_tool(tools: &Vec<ToolSpecSummary>, name: &str) -> (r: bool)
    ensures
        r == has_first_party(tools@, name@),
{
    let expected: &str = if str_eq(name, "read_file") {
        "Read a bounded text file through Codex's filesystem layer."
    } else if str_eq(name, "edit_file") {
        "Replace exact text in a previously read text file."
    } else if str_eq(name, "write_file") {
        "Create or overwrite a bounded text file through Codex's filesystem layer."
    } else {
        return false;
    };
    let mut i: usize = 0;
    while i < tools.len()
        invariant
            i <= tools@.len(),
            first_party_description(name@) == Some(expected@),
            forall|j: int|
                0 <= j < i ==> !(#[trigger] tools@[j] matches ToolSpecSummary::Function {
                    name: n,
                    description: dd,
                } && n@ == name@ && dd@ == expected@),
        decreases tools.len() - i,
    {
        match &tools[i] {
            ToolSpecSummary::Function { name: n, description } => {
                if str_eq(n.as_str(), name) && str_eq(description.as_str(), expected) {
                    return true;
                }
            },
            ToolSpecSummary::Other => {},
        }
        i += 1;
    }
    false
}

} // verus!
