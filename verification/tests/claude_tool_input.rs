use codex_core_logic::claude_history::ClaudeBlock;
use codex_core_logic::claude_request::compaction_item;
use codex_core_logic::claude_request::custom_tool_call_item;
use codex_core_logic::claude_request::function_call_item;
use codex_core_logic::claude_request::local_shell_call_item;
use codex_core_logic::claude_request::HistoryItem;
use codex_core_logic::claude_tool_input::parse_json_object_or_wrapped;
use codex_core_logic::claude_tool_input::provider_state_block;
use codex_core_logic::claude_tool_input::wrap_tool_input;
use codex_core_logic::claude_tool_input::JsonShape;

fn tool_call_input(item: HistoryItem) -> (String, String, String) {
    match item {
        HistoryItem::ToolCall { call_id, claude_name, input_json } => (call_id, claude_name, input_json),
        other => panic!("expected a tool call, got {other:?}"),
    }
}

#[test]
fn object_arguments_are_sent_as_they_are() {
    assert_eq!(parse_json_object_or_wrapped("{\"cmd\": \"ls\"}"), "{\"cmd\":\"ls\"}");
    let (call_id, name, input) = tool_call_input(function_call_item("call-1", "exec", "{\"id\":1}"));
    assert_eq!(call_id, "call-1");
    assert_eq!(name, "exec");
    assert_eq!(input, "{\"id\":1}");
}

#[test]
fn null_arguments_become_an_empty_object() {
    assert_eq!(parse_json_object_or_wrapped("null"), "{}");
}

#[test]
fn other_json_values_are_wrapped_under_input() {
    assert_eq!(parse_json_object_or_wrapped("42"), "{\"input\":42}");
    assert_eq!(parse_json_object_or_wrapped("[1, 2]"), "{\"input\":[1,2]}");
}

#[test]
fn text_that_is_not_json_is_wrapped_as_a_string() {
    assert_eq!(parse_json_object_or_wrapped("not \"json\""), "{\"input\":\"not \\\"json\\\"\"}");
}

#[test]
fn wrap_tool_input_covers_each_shape() {
    assert_eq!(wrap_tool_input(JsonShape::Object, "{\"a\":1}", ""), "{\"a\":1}");
    assert_eq!(wrap_tool_input(JsonShape::Null, "null", ""), "{}");
    assert_eq!(wrap_tool_input(JsonShape::OtherValue, "true", ""), "{\"input\":true}");
    assert_eq!(wrap_tool_input(JsonShape::Invalid, "", "\"x\""), "{\"input\":\"x\"}");
}

#[test]
fn freeform_input_is_sent_as_a_string_under_input() {
    let (_, name, input) = tool_call_input(custom_tool_call_item("c", "apply_patch", "*** Begin Patch\n"));
    assert_eq!(name, "apply_patch");
    assert_eq!(input, "{\"input\":\"*** Begin Patch\\n\"}");
}

#[test]
fn local_shell_call_uses_call_id_then_item_id() {
    let command = vec!["ls".to_string(), "-a".to_string()];
    let (call_id, _, input) = tool_call_input(local_shell_call_item(
        Some("item-1".to_string()),
        Some("call-1".to_string()),
        "local_shell",
        &command,
        &Some("/tmp".to_string()),
        Some(500),
    ));
    assert_eq!(call_id, "call-1");
    let value: serde_json::Value = serde_json::from_str(&input).unwrap();
    assert_eq!(value["command"][1], "-a");
    assert_eq!(value["workdir"], "/tmp");
    assert_eq!(value["timeout_ms"], 500);
    let (call_id, _, _) =
        tool_call_input(local_shell_call_item(Some("item-1".to_string()), None, "local_shell", &command, &None, None));
    assert_eq!(call_id, "item-1");
    let (call_id, _, input) = tool_call_input(local_shell_call_item(None, None, "local_shell", &command, &None, None));
    assert_eq!(call_id, "local_shell_call");
    let value: serde_json::Value = serde_json::from_str(&input).unwrap();
    assert!(value["workdir"].is_null());
    assert!(value["timeout_ms"].is_null());
}

#[test]
fn compaction_keeps_typed_provider_state_only() {
    match provider_state_block("{\"type\":\"compaction\",\"content\":\"x\"}") {
        Some(ClaudeBlock::ProviderState { value, kind }) => {
            assert_eq!(kind.as_deref(), Some("compaction"));
            assert_eq!(value, "{\"content\":\"x\",\"type\":\"compaction\"}");
        }
        other => panic!("unexpected block {other:?}"),
    }
    assert!(provider_state_block("{\"type\":1}").is_none());
    assert!(provider_state_block("opaque-encrypted-blob").is_none());
    assert!(matches!(compaction_item("[]"), HistoryItem::Skipped));
    assert!(matches!(
        compaction_item("{\"type\":\"redacted_thinking\"}"),
        HistoryItem::ProviderState { kind, .. } if kind == "redacted_thinking"
    ));
}

#[test]
fn local_shell_input_is_the_compact_object_text() {
    use_local_shell_input();
}

fn use_local_shell_input() {
    let command = vec!["ls".to_string(), "-a \"x\"".to_string()];
    let text = codex_core_logic::claude_tool_input::local_shell_input(&command, &Some("/tmp".to_string()), Some(500));
    assert_eq!(text, r#"{"command":["ls","-a \"x\""],"timeout_ms":500,"workdir":"/tmp"}"#);
    let reparsed: serde_json::Value = serde_json::from_str(&text).unwrap();
    assert_eq!(reparsed.to_string(), text);
    let empty = codex_core_logic::claude_tool_input::local_shell_input(&Vec::new(), &None, None);
    assert_eq!(empty, r#"{"command":[],"timeout_ms":null,"workdir":null}"#);
}

#[test]
fn custom_tool_input_escapes_the_text_as_a_json_string() {
    let text = codex_core_logic::claude_tool_input::custom_tool_input("a\"b\\c\nd\u{1}\te");
    assert_eq!(text, "{\"input\":\"a\\\"b\\\\c\\nd\\u0001\\te\"}");
}
