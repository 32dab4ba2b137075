use codex_core_logic::claude_provider::ClaudeProviderCompat;
use codex_core_logic::claude_tools::has_tool_spec;
use codex_core_logic::claude_tools::native_tool_selection_for_prompt;
use codex_core_logic::claude_tools::web_search_tool_kind;
use codex_core_logic::claude_tools::ClaudeLocalExecutorCapability;
use codex_core_logic::claude_tools::ClaudeNativeToolKind;
use codex_core_logic::claude_tools::ClaudeProviderPlatform;
use codex_core_logic::claude_tools::ClaudeWebSearchToolKind;
use codex_core_logic::claude_tools::ToolSpec;

fn tools() -> Vec<ToolSpec> {
    vec![
        ToolSpec::Function { name: "shell".to_string() },
        ToolSpec::Freeform { name: "apply_patch".to_string() },
        ToolSpec::ToolSearch,
        ToolSpec::WebSearch,
        ToolSpec::Namespace { function_names: vec!["mcp__docs__search".to_string()] },
    ]
}

#[test]
fn has_tool_spec_finds_names_in_each_kind() {
    let tools = tools();
    assert!(has_tool_spec(&tools, "shell"));
    assert!(has_tool_spec(&tools, "apply_patch"));
    assert!(has_tool_spec(&tools, "tool_search"));
    assert!(has_tool_spec(&tools, "mcp__docs__search"));
    assert!(!has_tool_spec(&tools, "web_search"));
    assert!(!has_tool_spec(&Vec::new(), "shell"));
}

#[test]
fn anthropic_with_apply_patch_offers_both_text_editors() {
    let selection = native_tool_selection_for_prompt(&tools(), "opus-4", ClaudeProviderCompat::Anthropic);
    assert_eq!(selection.provider_platform, ClaudeProviderPlatform::AnthropicApi);
    assert_eq!(selection.model.as_deref(), Some("opus-4"));
    assert_eq!(
        selection.allowed_tools,
        vec![ClaudeNativeToolKind::TextEditor20250728, ClaudeNativeToolKind::TextEditor20250124]
    );
    assert_eq!(selection.text_editor_executor, ClaudeLocalExecutorCapability::Available);
}

#[test]
fn deepseek_or_missing_apply_patch_offers_no_native_tools() {
    let selection = native_tool_selection_for_prompt(&tools(), "deepseek-chat", ClaudeProviderCompat::DeepSeek);
    assert_eq!(selection.provider_platform, ClaudeProviderPlatform::DeepSeekCompatible);
    assert!(selection.allowed_tools.is_empty());
    assert_eq!(selection.text_editor_executor, ClaudeLocalExecutorCapability::Unavailable);
    let without = vec![ToolSpec::Function { name: "shell".to_string() }];
    let selection = native_tool_selection_for_prompt(&without, "opus-4", ClaudeProviderCompat::Anthropic);
    assert!(selection.allowed_tools.is_empty());
}

#[test]
fn web_search_kind_follows_the_provider() {
    assert_eq!(web_search_tool_kind(ClaudeProviderCompat::Anthropic), ClaudeWebSearchToolKind::NativeServerTool);
    assert_eq!(web_search_tool_kind(ClaudeProviderCompat::DeepSeek), ClaudeWebSearchToolKind::LocalFunctionTool);
}
