use codex_core_logic::chat_request::assemble_chat_request;
use codex_core_logic::chat_request::chat_response_format;
use codex_core_logic::chat_request::dedicated_chat_guidance_within_limit;
use codex_core_logic::chat_request::chat_history_messages;
use codex_core_logic::chat_request::check_guidance_size;
use codex_core_logic::chat_request::dedicated_chat_guidance;
use codex_core_logic::chat_request::mapped_chat_tool_name;
use codex_core_logic::chat_request::merge_hidden_tool_call_info;
use codex_core_logic::chat_request::ChatToolCallInfo;
use codex_core_logic::chat_request::ChatToolCallKind;
use codex_core_logic::context_fragments::ChatFileToolGuidance;
use codex_core_logic::file_tool_plan::ChatFileToolMode;
use codex_core_logic::file_tool_plan::ToolSpecSummary;
use codex_core_logic::chat_request::message;
use codex_core_logic::chat_request::validate_chat_request_context;
use codex_core_logic::chat_request::validate_chat_request_item;
use codex_core_logic::chat_request::ChatContentPart;
use codex_core_logic::chat_request::ChatItem;
use codex_core_logic::chat_request::ChatMessage;
use codex_core_logic::chat_request::ChatMessageContent;
use codex_core_logic::chat_request::ChatRole;
use codex_core_logic::chat_request::ChatToolCall;
use codex_core_logic::claude_content::ContentItem;
use codex_core_logic::claude_request::FunctionOutput;
use codex_core_logic::claude_request::OutputBody;

fn input_text(text: &str) -> ContentItem {
    ContentItem::InputText {
        text: text.to_string(),
    }
}

fn output_text(text: &str) -> ContentItem {
    ContentItem::OutputText {
        text: text.to_string(),
    }
}

fn tool_call(name: &str, arguments: &str, call_id: &str) -> ChatItem {
    ChatItem::ToolCall {
        call_id: call_id.to_string(),
        name: name.to_string(),
        arguments: arguments.to_string(),
    }
}

fn tool_output(call_id: &str, text: &str) -> ChatItem {
    ChatItem::ToolOutput {
        call_id: call_id.to_string(),
        output: FunctionOutput {
            body: OutputBody::Text(text.to_string()),
            rendered: text.to_string(),
            success: None,
        },
    }
}

fn text_message(role: ChatRole, text: &str) -> ChatMessage {
    ChatMessage {
        role,
        content: Some(ChatMessageContent::Text(text.to_string())),
        tool_calls: Vec::new(),
        tool_call_id: None,
        reasoning_content: None,
    }
}

fn approx_tokens(text: &str) -> usize {
    text.len().div_ceil(4)
}

#[test]
fn serializes_complete_text_request() {
    let messages = chat_history_messages(
        "be concise",
        None,
        &vec![message("user", vec![input_text("hello")])],
    )
    .expect("build Chat request");

    assert_eq!(
        messages,
        vec![
            text_message(ChatRole::System, "be concise"),
            text_message(ChatRole::User, "hello"),
        ]
    );
}

#[test]
fn merges_assistant_text_and_tool_calls_into_one_message() {
    let messages = chat_history_messages(
        "",
        None,
        &vec![
            message("user", vec![input_text("find it")]),
            message("assistant", vec![output_text("looking it up")]),
            tool_call("lookup", "{\"key\":\"a\"}", "call_1"),
            tool_output("call_1", "value"),
        ],
    )
    .expect("build Chat request");

    assert_eq!(
        messages,
        vec![
            text_message(ChatRole::User, "find it"),
            ChatMessage {
                role: ChatRole::Assistant,
                content: Some(ChatMessageContent::Text("looking it up".to_string())),
                tool_calls: vec![ChatToolCall {
                    id: "call_1".to_string(),
                    name: "lookup".to_string(),
                    arguments: "{\"key\":\"a\"}".to_string(),
                }],
                tool_call_id: None,
                reasoning_content: None,
            },
            ChatMessage {
                role: ChatRole::Tool,
                content: Some(ChatMessageContent::Text("value".to_string())),
                tool_calls: Vec::new(),
                tool_call_id: Some("call_1".to_string()),
                reasoning_content: None,
            },
        ]
    );
}

#[test]
fn serializes_complete_tool_history_request() {
    let messages = chat_history_messages(
        "",
        None,
        &vec![
            message("user", vec![input_text("find it")]),
            tool_call("lookup", "{\"key\":\"a\"}", "call_1"),
            tool_output("call_1", "value"),
        ],
    )
    .expect("build Chat request");

    assert_eq!(
        messages,
        vec![
            text_message(ChatRole::User, "find it"),
            ChatMessage {
                role: ChatRole::Assistant,
                content: None,
                tool_calls: vec![ChatToolCall {
                    id: "call_1".to_string(),
                    name: "lookup".to_string(),
                    arguments: "{\"key\":\"a\"}".to_string(),
                }],
                tool_call_id: None,
                reasoning_content: None,
            },
            ChatMessage {
                role: ChatRole::Tool,
                content: Some(ChatMessageContent::Text("value".to_string())),
                tool_calls: Vec::new(),
                tool_call_id: Some("call_1".to_string()),
                reasoning_content: None,
            },
        ]
    );
}

#[test]
fn serializes_supported_and_unsupported_images_as_explicit_parts() {
    let messages = chat_history_messages(
        "",
        None,
        &vec![message(
            "user",
            vec![
                input_text("compare"),
                ContentItem::InputImage {
                    image_url: "https://example.com/image.png".to_string(),
                    detail: Some("high".to_string()),
                },
                ContentItem::InputImage {
                    image_url: "/tmp/local.png".to_string(),
                    detail: None,
                },
            ],
        )],
    )
    .expect("build Chat request");

    assert_eq!(
        messages,
        vec![ChatMessage {
            role: ChatRole::User,
            content: Some(ChatMessageContent::Parts(vec![
                ChatContentPart::Text {
                    text: "compare".to_string(),
                },
                ChatContentPart::ImageUrl {
                    url: "https://example.com/image.png".to_string(),
                    detail: Some("high".to_string()),
                },
                ChatContentPart::Text {
                    text: "[unsupported image reference omitted]".to_string(),
                },
            ])),
            tool_calls: Vec::new(),
            tool_call_id: None,
            reasoning_content: None,
        }]
    );
}

#[test]
fn rejects_internal_agent_messages() {
    let error = chat_history_messages("", None, &vec![ChatItem::AgentMessage])
        .expect_err("internal agent messages should be rejected");

    assert!(error.to_string().contains("internal agent messages"));
}

#[test]
fn rejects_oversized_request_items_from_existing_history() {
    let oversized = "x".repeat(50_000);
    let messages = chat_history_messages("", None, &vec![message("user", vec![input_text(&oversized)])])
        .expect("history");
    assert_eq!(messages.len(), 1);
    let error = validate_chat_request_context(&vec![0], &vec![approx_tokens(&oversized)], &vec![], None)
        .expect_err("oversized message should be rejected");
    assert!(error.to_string().contains("message 0"));

    let first = "x".repeat(25_000);
    let second = "y".repeat(25_000);
    let merged = chat_history_messages(
        "",
        None,
        &vec![
            tool_call("first", &first, "call_1"),
            tool_call("second", &second, "call_2"),
        ],
    )
    .expect("history");
    assert_eq!(merged.len(), 1);
    assert_eq!(merged[0].tool_calls.len(), 2);
    let tokens = approx_tokens(&first) + approx_tokens(&second);
    let error = validate_chat_request_context(&vec![2], &vec![tokens], &vec![], None)
        .expect_err("merged oversized tool message should be rejected");
    assert!(error.to_string().contains("message 0"));
}

#[test]
fn request_items_are_bounded_one_by_one_and_in_total() {
    let mut total = 0;
    assert!(validate_chat_request_item("message 0", 10_000, &mut total).is_ok());
    assert_eq!(total, 10_000);
    let error = validate_chat_request_item("tool 3", 10_001, &mut total).expect_err("too large");
    assert_eq!(
        error.to_string(),
        "Chat tool 3 exceeds the 10000-token model-context limit"
    );
    let mut near_cap = 245_000;
    let error = validate_chat_request_item("message 9", 6_000, &mut near_cap).expect_err("total");
    assert_eq!(
        error.to_string(),
        "Chat request exceeds the 250000-token model-context limit"
    );
    let error = validate_chat_request_context(&vec![65], &vec![1], &vec![], None)
        .expect_err("too many calls");
    assert_eq!(error.to_string(), "Chat message 0 exceeds the 64 tool-call limit");
}

#[test]
fn reasoning_only_history_is_flushed_before_the_next_user_boundary() {
    let messages = chat_history_messages(
        "",
        None,
        &vec![
            ChatItem::Reasoning {
                texts: Some(vec!["private thought".to_string()]),
            },
            message("user", vec![input_text("next turn")]),
        ],
    )
    .expect("build Chat request");

    assert_eq!(
        messages,
        vec![
            ChatMessage {
                role: ChatRole::Assistant,
                content: None,
                tool_calls: Vec::new(),
                tool_call_id: None,
                reasoning_content: Some("private thought".to_string()),
            },
            text_message(ChatRole::User, "next turn"),
        ]
    );
}

fn first_party_file_tool(name: &str) -> ToolSpecSummary {
    let description = match name {
        "read_file" => "Read a bounded text file through Codex's filesystem layer.",
        "edit_file" => "Replace exact text in a previously read text file.",
        "write_file" => "Create or overwrite a bounded text file through Codex's filesystem layer.",
        other => panic!("unexpected dedicated file tool {other}"),
    };
    ToolSpecSummary::Function {
        name: name.to_string(),
        description: description.to_string(),
    }
}

fn third_party(name: &str) -> ToolSpecSummary {
    ToolSpecSummary::Function {
        name: name.to_string(),
        description: format!("third-party {name}"),
    }
}

fn info(chat_name: &str, name: &str) -> ChatToolCallInfo {
    ChatToolCallInfo {
        chat_name: chat_name.to_string(),
        name: name.to_string(),
        namespace: None,
        kind: ChatToolCallKind::Function,
    }
}

fn first_party_tools() -> Vec<ToolSpecSummary> {
    Vec::from(["read_file", "edit_file", "write_file"].map(first_party_file_tool))
}

#[test]
fn dedicated_guidance_uses_actual_hashed_wire_names() {
    let infos = vec![
        info("read_file__abc", "read_file"),
        info("edit_file__def", "edit_file"),
        info("write_file__ghi", "write_file"),
    ];
    let guidance = dedicated_chat_guidance(ChatFileToolMode::Dedicated, true, &first_party_tools(), &infos)
        .expect("all first-party mappings are present");
    assert!(guidance.contains("read_file__abc"));
    assert!(guidance.contains("edit_file__def"));
    assert!(guidance.contains("write_file__ghi"));
    assert_eq!(
        guidance,
        ChatFileToolGuidance::new(
            "read_file__abc".to_string(),
            "edit_file__def".to_string(),
            "write_file__ghi".to_string()
        )
        .render()
    );
}

#[test]
fn dedicated_guidance_fails_closed_on_duplicate_reverse_mapping() {
    let infos = vec![
        info("read_file__abc", "read_file"),
        info("read_file__third_party", "read_file"),
    ];
    let error = dedicated_chat_guidance(ChatFileToolMode::Dedicated, true, &first_party_tools(), &infos)
        .expect_err("ambiguous read_file");
    assert!(error.to_string().contains("unique first-party read_file tool"));
}

#[test]
fn dedicated_guidance_is_bounded_stable_single_copy_and_legacy_safe() {
    let infos = vec![
        info("read_file", "read_file"),
        info("edit_file", "edit_file"),
        info("write_file", "write_file"),
    ];
    let third_party_tools = Vec::from(["read_file", "edit_file", "write_file"].map(third_party));
    assert!(
        dedicated_chat_guidance(ChatFileToolMode::Dedicated, true, &third_party_tools, &infos).is_err(),
        "same-named third-party tools must not unlock dedicated guidance"
    );

    let first = dedicated_chat_guidance(ChatFileToolMode::Dedicated, true, &first_party_tools(), &infos)
        .expect("first dedicated guidance");
    let second = dedicated_chat_guidance(ChatFileToolMode::Dedicated, true, &first_party_tools(), &infos)
        .expect("retry dedicated guidance");
    assert_eq!(first, second);
    assert!(check_guidance_size(first.len().div_ceil(4)).is_ok());

    let messages = chat_history_messages(
        "system instructions",
        Some(first.clone()),
        &vec![message("user", vec![input_text("edit safely")])],
    )
    .expect("dedicated request");
    let copies = messages
        .iter()
        .filter(|m| {
            matches!(
                m.content.as_ref(),
                Some(ChatMessageContent::Text(text)) if text.contains("<chat_file_tool_guidance>")
            )
        })
        .count();
    assert_eq!(copies, 1);
    assert_eq!(messages[1].role, ChatRole::Developer);

    let legacy = chat_history_messages(
        "system instructions",
        None,
        &vec![message("user", vec![input_text("edit safely")])],
    )
    .expect("legacy request with same-named tools");
    assert!(legacy.iter().all(|m| {
        !matches!(
            m.content.as_ref(),
            Some(ChatMessageContent::Text(text)) if text.contains("<chat_file_tool_guidance>")
        )
    }));
}

#[test]
fn dedicated_guidance_requires_the_gate() {
    let error = dedicated_chat_guidance(
        ChatFileToolMode::DedicatedWithApplyPatch,
        false,
        &first_party_tools(),
        &Vec::new(),
    )
    .expect_err("gate off");
    assert_eq!(
        error.to_string(),
        "Chat file tool mode `DedicatedWithApplyPatch` requires the dedicated_file_tools gate; enable that gate or set chat_file_tool_mode = legacy"
    );
    let error = check_guidance_size(1_000).expect_err("too large");
    assert_eq!(
        error.to_string(),
        "Chat dedicated file guidance exceeds the context-item limit"
    );
}

#[test]
fn hidden_tools_only_fill_free_chat_names_and_mapping_prefers_the_last() {
    let visible = vec![info("read", "read_file")];
    let hidden = vec![
        info("read", "other"),
        ChatToolCallInfo {
            chat_name: "apply_patch".to_string(),
            name: "apply_patch".to_string(),
            namespace: None,
            kind: ChatToolCallKind::Custom,
        },
    ];
    let merged = merge_hidden_tool_call_info(&visible, &hidden);
    let names: Vec<(&str, &str)> = merged
        .iter()
        .map(|i| (i.chat_name.as_str(), i.name.as_str()))
        .collect();
    assert_eq!(names, vec![("read", "read_file"), ("apply_patch", "apply_patch")]);
    assert_eq!(
        mapped_chat_tool_name(&merged, None, "apply_patch", ChatToolCallKind::Custom, "fallback"),
        "apply_patch"
    );
    assert_eq!(
        mapped_chat_tool_name(&merged, None, "apply_patch", ChatToolCallKind::Function, "fallback"),
        "fallback"
    );
    let duplicated = vec![info("first", "lookup"), info("second", "lookup")];
    assert_eq!(
        mapped_chat_tool_name(&duplicated, None, "lookup", ChatToolCallKind::Function, "fallback"),
        "second"
    );
}

#[test]
fn dedicated_guidance_is_refused_at_the_context_item_limit() {
    let infos = vec![
        info("read_file", "read_file"),
        info("edit_file", "edit_file"),
        info("write_file", "write_file"),
    ];
    let ok = dedicated_chat_guidance_within_limit(
        ChatFileToolMode::Dedicated,
        true,
        &first_party_tools(),
        &infos,
        |text: &str| text.len().div_ceil(4),
    )
    .expect("guidance within the limit");
    assert!(ok.contains("read_file"));
    let error = dedicated_chat_guidance_within_limit(
        ChatFileToolMode::Dedicated,
        true,
        &first_party_tools(),
        &infos,
        |_: &str| 1_000,
    )
    .expect_err("guidance at the limit");
    assert_eq!(error.to_string(), "Chat dedicated file guidance exceeds the context-item limit");
}

#[test]
fn assembled_request_streams_with_usage_and_auto_tool_choice() {
    let messages = chat_history_messages("", None, &vec![message("user", vec![input_text("compare")])])
        .expect("messages");
    let request = assemble_chat_request("chat-model", messages, Vec::new(), true, None, None, None, Vec::new());
    assert_eq!(request.model, "chat-model");
    assert!(request.stream);
    assert!(request.include_usage);
    assert_eq!(request.tool_choice, None);
    assert_eq!(request.parallel_tool_calls, None);
    assert_eq!(request.messages.len(), 1);
    let with_tools = assemble_chat_request(
        "chat-model",
        Vec::new(),
        vec!["{\"type\":\"function\"}".to_string()],
        false,
        None,
        Some("flex".to_string()),
        None,
        Vec::new(),
    );
    assert_eq!(with_tools.tool_choice.as_deref(), Some("auto"));
    assert_eq!(with_tools.parallel_tool_calls, Some(false));
    assert_eq!(with_tools.service_tier.as_deref(), Some("flex"));
}

#[test]
fn response_format_wraps_the_schema() {
    let format = chat_response_format("{ \"type\": \"object\" }", true).expect("JSON schema");
    assert_eq!(
        format,
        r#"{"json_schema":{"name":"codex_output_schema","schema":{"type":"object"},"strict":true},"type":"json_schema"}"#
    );
    let reparsed: serde_json::Value = serde_json::from_str(&format).unwrap();
    assert_eq!(reparsed.to_string(), format);
    assert!(chat_response_format("{oops", false).is_none());
}
