use codex_core_logic::file_tools::ToolPayload;
use codex_core_logic::tool_hooks::file_tool_input;
use codex_core_logic::tool_hooks::file_tool_post_payload;
use codex_core_logic::tool_hooks::file_tool_pre_payload;
use codex_core_logic::tool_hooks::post_unified_exec_tool_use_payload;
use codex_core_logic::tool_hooks::updated_file_tool_invocation;
use codex_core_logic::tool_hooks::ToolInvocation;
use codex_core_logic::tool_hooks::bash_pre_tool_use_payload;

fn invocation(arguments: &str) -> ToolInvocation {
    ToolInvocation {
        call_id: "call-1".to_string(),
        tool_name: "write_file".to_string(),
        payload: ToolPayload::Function {
            arguments: arguments.to_string(),
        },
    }
}

#[test]
fn file_tool_input_parses_function_arguments() {
    let input = file_tool_input(&ToolPayload::Function {
        arguments: r#"{"path":"a.txt"}"#.to_string(),
    })
    .expect("valid JSON");
    assert_eq!(input, r#"{"path":"a.txt"}"#);
    assert_eq!(
        file_tool_input(&ToolPayload::Function { arguments: "{ \"path\" : \"a.txt\" }".to_string() }).unwrap(),
        r#"{"path":"a.txt"}"#
    );
    assert!(file_tool_input(&ToolPayload::Function {
        arguments: "{not json".to_string(),
    })
    .is_none());
    assert!(file_tool_input(&ToolPayload::Unsupported).is_none());
}

#[test]
fn pre_payload_carries_the_tool_name_and_arguments() {
    let payload = file_tool_pre_payload("write_file", &invocation(r#"{"path":"a.txt"}"#))
        .expect("payload for JSON arguments");
    assert_eq!(payload.tool_name, "write_file");
    assert_eq!(payload.tool_input, r#"{"path":"a.txt"}"#);
    assert!(file_tool_pre_payload("write_file", &invocation("nope")).is_none());
}

#[test]
fn post_payload_needs_a_response_and_parsed_arguments() {
    let response = "\"ok\"".to_string();
    let payload = file_tool_post_payload(
        "write_file",
        &invocation(r#"{"path":"a.txt"}"#),
        Some(response.clone()),
    )
    .expect("payload");
    assert_eq!(payload.tool_use_id, "call-1");
    assert_eq!(payload.tool_response, response);
    assert!(file_tool_post_payload("write_file", &invocation(r#"{}"#), None).is_none());
    assert!(file_tool_post_payload("write_file", &invocation("x"), Some(response)).is_none());
}

#[test]
fn shell_post_payload_uses_the_bash_hook_name() {
    let input = "\"ls\"".to_string();
    let response = "\"listing\"".to_string();
    let payload = post_unified_exec_tool_use_payload(
        &invocation("{}"),
        Some(input.clone()),
        "use-1".to_string(),
        Some(response.clone()),
    )
    .expect("payload");
    assert_eq!(payload.tool_name, "Bash");
    assert_eq!(payload.tool_use_id, "use-1");
    assert_eq!(payload.tool_input, input);
    let unsupported = ToolInvocation {
        call_id: "call-2".to_string(),
        tool_name: "exec_command".to_string(),
        payload: ToolPayload::Unsupported,
    };
    assert!(post_unified_exec_tool_use_payload(
        &unsupported,
        Some("1".to_string()),
        "use-2".to_string(),
        Some("2".to_string()),
    )
    .is_none());
    assert!(post_unified_exec_tool_use_payload(
        &invocation("{}"),
        None,
        "use-3".to_string(),
        Some("2".to_string()),
    )
    .is_none());
}

#[test]
fn hook_output_must_be_an_object() {
    let updated = updated_file_tool_invocation(
        invocation(r#"{"path":"a.txt"}"#),
        r#"{ "path": "b.txt" }"#,
    )
    .expect("object input");
    assert_eq!(updated.call_id, "call-1");
    match updated.payload {
        ToolPayload::Function { arguments } => assert_eq!(arguments, r#"{"path":"b.txt"}"#),
        ToolPayload::Unsupported => panic!("function payload expected"),
    }
    let error = updated_file_tool_invocation(invocation("{}"), "3")
        .expect_err("non-object input");
    assert_eq!(error.to_string(), "file tool hook output must be a JSON object");
}

#[test]
fn bash_pre_payload_carries_only_the_command() {
    let invocation = ToolInvocation {
        call_id: "call-1".to_string(),
        tool_name: "bash".to_string(),
        payload: ToolPayload::Function {
            arguments: "{\"command\":\"ls\",\"timeout_ms\":5}".to_string(),
        },
    };
    let payload = bash_pre_tool_use_payload(&invocation).unwrap();
    assert_eq!(payload.tool_name, "Bash");
    assert_eq!(payload.tool_input, "{\"command\":\"ls\"}");
    let without = ToolInvocation {
        call_id: "call-2".to_string(),
        tool_name: "bash".to_string(),
        payload: ToolPayload::Function { arguments: "{\"cmd\":\"ls\"}".to_string() },
    };
    assert!(bash_pre_tool_use_payload(&without).is_none());
    let unsupported = ToolInvocation {
        call_id: "call-3".to_string(),
        tool_name: "bash".to_string(),
        payload: ToolPayload::Unsupported,
    };
    assert!(bash_pre_tool_use_payload(&unsupported).is_none());
}

#[test]
fn hook_output_that_is_not_json_is_refused() {
    assert!(updated_file_tool_invocation(invocation("{}"), "{not json").is_err());
    assert!(updated_file_tool_invocation(invocation("{}"), "[1]").is_err());
}
