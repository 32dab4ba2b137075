//! Which provider-native tools a Messages request may offer, from the tools
//! of the prompt and the provider's flavour.
use vstd::prelude::*;
use crate::claude_provider::ClaudeProviderCompat;
use crate::text::str_eq;

verus! {

/// A tool of the prompt, as far as tool selection reads it.
#[derive(Debug)]
pub enum ToolSpec {
    Function { name: String },
    Freeform { name: String },
    ToolSearch,
    WebSearch,
    ImageGeneration,
    /// A namespace with the names of its function tools.
    Namespace { function_names: Vec<String> },
}

/// Whether `tool` answers to `name`: a function or freeform tool by its
/// name, tool search as `tool_search`, a namespace by any of its functions.
pub open spec fn tool_answers_to(tool: ToolSpec, name: Seq<char>) -> bool {
    match tool {
        ToolSpec::Function { name: n } => n@ == name,
        ToolSpec::Freeform { name: n } => n@ == name,
        ToolSpec::ToolSearch => name == "tool_search"@,
        ToolSpec::WebSearch => false,
        ToolSpec::ImageGeneration => false,
        ToolSpec::Namespace { function_names } => exists|j: int|
            0 <= j < function_names@.len() && (#[trigger] function_names@[j])@ == name,
    }
}

/// Whether some tool of `tools` answers to `name`.
pub open spec fn has_tool(tools: Seq<ToolSpec>, name: Seq<char>) -> bool {
    exists|i: int| 0 <= i < tools.len() && tool_answers_to(#[trigger] tools[i], name)
}

fn contains_name(names: &Vec<String>, name: &str) -> (r: bool)
    ensures
        r == exists|j: int| 0 <= j < names@.len() && (#[trigger] names@[j])@ == name@,
{
    let mut j: usize = 0;
    while j < names.len()
        invariant
            j <= names@.len(),
            forall|k: int| 0 <= k < j ==> (#[trigger] names@[k])@ != name@,
        decreases names.len() - j,
    {
        if str_eq(names[j].as_str(), name) {
            assert((names@[j as int])@ == name@);
            return true;
        }
        j += 1;
    }
    false
}

fn tool_answers(tool: &ToolSpec, name: &str) -> (r: bool)
    ensures
        r == tool_answers_to(*tool, name@),
{
    match tool {
        ToolSpec::Function { name: n } => str_eq(n.as_str(), name),
        ToolSpec::Freeform { name: n } => str_eq(n.as_str(), name),
        ToolSpec::ToolSearch => str_eq(name, "tool_search"),
        ToolSpec::WebSearch => false,
        ToolSpec::ImageGeneration => false,
        ToolSpec::Namespace { function_names } => contains_name(function_names, name),
    }
}

/// Whether some tool of `tools` answers to `name` (see [`tool_answers_to`]).
pub fn has_tool_spec(tools: &Vec<ToolSpec>, name: &str) -> (r: bool)
    ensures
        r == has_tool(tools@, name@),
{
    let mut i: usize = 0;
    while i < tools.len()
        invariant
            i <= tools@.len(),
            forall|k: int| 0 <= k < i ==> !tool_answers_to(#[trigger] tools@[k], name@),
        decreases tools.len() - i,
    {
        if tool_answers(&tools[i], name) {
            return true;
        }
        i += 1;
    }
    false
}

/// The platform a Messages request is sent to.
#[derive(Clone, Copy, Debug, PartialEq, Eq, Structural)]
pub enum ClaudeProviderPlatform {
    AnthropicApi,
    DeepSeekCompatible,
}

/// A provider-native tool.
#[derive(Clone, Copy, Debug, PartialEq, Eq, Structural)]
pub enum ClaudeNativeToolKind {
    TextEditor20250728,
    TextEditor20250124,
}

/// Whether a local executor serves a native tool.
#[derive(Clone, Copy, Debug, PartialEq, Eq, Structural)]
pub enum ClaudeLocalExecutorCapability {
    Unavailable,
    Available,
}

/// The native tools a request may offer.
#[derive(Debug)]
pub struct ClaudeNativeToolSelection {
    pub provider_platform: ClaudeProviderPlatform,
    pub model: Option<String>,
    pub allowed_tools: Vec<ClaudeNativeToolKind>,
    pub text_editor_executor: ClaudeLocalExecutorCapability,
}

/// How web search is offered.
#[derive(Clone, Copy, Debug, PartialEq, Eq, Structural)]
pub enum ClaudeWebSearchToolKind {
    NativeServerTool,
    LocalFunctionTool,
}

/// Anthropic runs web search as a server tool; DeepSeek-compatible
/// providers get it as a local function.
pub fn web_search_tool_kind(compat: ClaudeProviderCompat) -> (r: ClaudeWebSearchToolKind)
    ensures
        compat == ClaudeProviderCompat::Anthropic ==> r == ClaudeWebSearchToolKind::NativeServerTool,
        compat == ClaudeProviderCompat::DeepSeek ==> r == ClaudeWebSearchToolKind::LocalFunctionTool,
{
    match compat {
        ClaudeProviderCompat::Anthropic => ClaudeWebSearchToolKind::NativeServerTool,
        ClaudeProviderCompat::DeepSeek => ClaudeWebSearchToolKind::LocalFunctionTool,
    }
}

/// The native tools for a prompt: the platform of the provider and the
/// model; with Anthropic and an `apply_patch` tool, both text editor
/// versions, served by the local executor; otherwise none.
pub fn native_tool_selection_for_prompt(
    tools: &Vec<ToolSpec>,
    model_slug: &str,
    compat: ClaudeProviderCompat,
) -> (r: ClaudeNativeToolSelection)
    ensures
        r.provider_platform == (if compat == ClaudeProviderCompat::Anthropic {
            ClaudeProviderPlatform::AnthropicApi
        } else {
            ClaudeProviderPlatform::DeepSeekCompatible
        }),
        r.model matches Some(m) && m@ == model_slug@,
        compat == ClaudeProviderCompat::Anthropic && has_tool(tools@, "apply_patch"@) ==> {
            &&& r.allowed_tools@ == seq![
                ClaudeNativeToolKind::TextEditor20250728,
                ClaudeNativeToolKind::TextEditor20250124,
            ]
            &&& r.text_editor_executor == ClaudeLocalExecutorCapability::Available
        },
        !(compat == ClaudeProviderCompat::Anthropic && has_tool(tools@, "apply_patch"@)) ==> {
            &&& r.allowed_tools@.len() == 0
            &&& r.text_editor_executor == ClaudeLocalExecutorCapability::Unavailable
        },
{
    let provider_platform = match compat {
        ClaudeProviderCompat::Anthropic => ClaudeProviderPlatform::AnthropicApi,
        ClaudeProviderCompat::DeepSeek => ClaudeProviderPlatform::DeepSeekCompatible,
    };
    let mut selection = ClaudeNativeToolSelection {
        provider_platform,
        model: Some(model_slug.to_string()),
        allowed_tools: Vec::new(),
        text_editor_executor: ClaudeLocalExecutorCapability::Unavailable,
    };
    if compat == ClaudeProviderCompat::Anthropic && has_tool_spec(tools, "apply_patch") {
        selection.allowed_tools.push(ClaudeNativeToolKind::TextEditor20250728);
        selection.allowed_tools.push(ClaudeNativeToolKind::TextEditor20250124);
        selection.text_editor_executor = ClaudeLocalExecutorCapability::Available;
    }
    selection
}

} // verus!
