use codex_core_logic::claude_content::ContentItem;
use codex_core_logic::claude_history::count_claude_media;
use codex_core_logic::claude_history::repair_tool_result_history;
use codex_core_logic::claude_history::validate_tool_result_history;
use codex_core_logic::claude_history::normalize_claude_messages;
use codex_core_logic::claude_history::normalize_claude_messages_with_stats;
use codex_core_logic::claude_history::CLAUDE_MAX_MEDIA_PER_REQUEST;
use codex_core_logic::claude_history::ClaudeBlock;
use codex_core_logic::claude_history::ImageSource;
use codex_core_logic::claude_history::NestedBlock;
use codex_core_logic::claude_history::ClaudeHistoryRequirements;
use codex_core_logic::claude_history::ClaudeMessage;
use codex_core_logic::claude_history::ClaudeRole;
use codex_core_logic::claude_history::ToolResultContent;
use codex_core_logic::claude_provider::provider_compat_for_base_url;
use codex_core_logic::claude_provider::provider_compat_for_provider;
use codex_core_logic::claude_provider::ClaudeCacheEditingCapability;
use codex_core_logic::claude_provider::cache_editing_options_for_provider;
use codex_core_logic::claude_provider::ClaudeCacheEditingOptions;
use codex_core_logic::claude_provider::ClaudePinnedCacheEdits;
use codex_core_logic::claude_provider::ClaudeOutputEffort;
use codex_core_logic::claude_provider::ClaudeServiceTier;
use codex_core_logic::claude_provider::ClaudeThinkingConfig;
use codex_core_logic::claude_provider::ReasoningEffort;
use codex_core_logic::claude_provider::ServiceTier;
use codex_core_logic::claude_provider::CLAUDE_THINKING_HIGH_BUDGET_TOKENS;
use codex_core_logic::claude_provider::CLAUDE_THINKING_XHIGH_BUDGET_TOKENS;
use codex_core_logic::claude_provider::ClaudeProviderCompat;
use codex_core_logic::claude_cache::ClaudePromptCacheMode;
use codex_core_logic::claude_cache::ClaudeSystemPrompt;
use codex_core_logic::claude_request::build_claude_messages_request;
use codex_core_logic::claude_request::ClaudeRequest;
use codex_core_logic::claude_request::ClaudeRequestOptions;
use codex_core_logic::claude_request::FunctionOutput;
use codex_core_logic::claude_request::HistoryItem;
use codex_core_logic::claude_request::OutputBody;
use codex_core_logic::claude_request::OutputContentItem;
use codex_core_logic::claude_request::DEFAULT_MAX_TOKENS;

fn options() -> ClaudeRequestOptions {
    ClaudeRequestOptions {
        reasoning_effort: None,
        service_tier: None,
        prompt_cache_mode: ClaudePromptCacheMode::Off,
        cache_control: "ephemeral".to_string(),
        cache_editing: ClaudeCacheEditingOptions {
            capability: ClaudeCacheEditingCapability::Disabled,
            new_delete_references: Vec::new(),
            pinned_deletes: Vec::new(),
        },
        provider_compat: ClaudeProviderCompat::Anthropic,
    }
}

fn requirements() -> ClaudeHistoryRequirements {
    ClaudeHistoryRequirements {
        preserve_mcp_tool_results: false,
        preserve_server_tool_results: false,
        preserve_structured_citations: false,
    }
}

fn build(items: Vec<HistoryItem>) -> ClaudeRequest {
    build_claude_messages_request(
        "",
        None,
        &items,
        "sonnet-4-5",
        0,
        false,
        &requirements(),
        &options(),
    )
    .expect("request")
}

fn call(name: &str, input_json: &str, call_id: &str) -> HistoryItem {
    HistoryItem::ToolCall {
        call_id: call_id.to_string(),
        claude_name: name.to_string(),
        input_json: input_json.to_string(),
    }
}

fn output_text(call_id: &str, text: &str) -> HistoryItem {
    output(call_id, OutputBody::Text(text.to_string()), text, None)
}

fn output(call_id: &str, body: OutputBody, rendered: &str, success: Option<bool>) -> HistoryItem {
    HistoryItem::ToolOutput {
        call_id: call_id.to_string(),
        output: FunctionOutput {
            body,
            rendered: rendered.to_string(),
            success,
        },
    }
}

fn user(content: Vec<ContentItem>) -> HistoryItem {
    HistoryItem::Message {
        role: "user".to_string(),
        content,
    }
}

fn input_text(text: &str) -> ContentItem {
    ContentItem::InputText {
        text: text.to_string(),
    }
}

fn tool_use(id: &str, name: &str, input: &str) -> ClaudeBlock {
    ClaudeBlock::ToolUse {
        id: id.to_string(),
        name: name.to_string(),
        input: input.to_string(),
    }
}

fn tool_result(id: &str, text: &str, is_error: bool) -> ClaudeBlock {
    ClaudeBlock::ToolResult {
        tool_use_id: id.to_string(),
        content: ToolResultContent::Text(text.to_string()),
        is_error,
        cache_reference: None,
    }
}

fn text(text: &str) -> ClaudeBlock {
    ClaudeBlock::Text {
        text: text.to_string(),
        cache_control: None,
    }
}

fn message(role: ClaudeRole, content: Vec<ClaudeBlock>) -> ClaudeMessage {
    ClaudeMessage { role, content }
}

#[test]
fn detects_deepseek_anthropic_base_url() {
    assert_eq!(
        provider_compat_for_base_url(Some("https://api.deepseek.com/anthropic")),
        ClaudeProviderCompat::DeepSeek
    );
    assert_eq!(
        provider_compat_for_base_url(Some("https://api.deepseek.com/anthropic/")),
        ClaudeProviderCompat::DeepSeek
    );
    assert_eq!(
        provider_compat_for_base_url(Some("https://api.deepseek.com/anthropic/v1")),
        ClaudeProviderCompat::DeepSeek
    );
    assert_eq!(
        provider_compat_for_base_url(Some("https://api.deepseek.com/anthropic/v1/")),
        ClaudeProviderCompat::DeepSeek
    );
    assert_eq!(
        provider_compat_for_base_url(Some("https://api.anthropic.com/v1")),
        ClaudeProviderCompat::Anthropic
    );
    assert_eq!(
        provider_compat_for_base_url(Some("https://notapi.deepseek.com/anthropic")),
        ClaudeProviderCompat::Anthropic
    );
    assert_eq!(
        provider_compat_for_base_url(Some("https://api.deepseek.com/other")),
        ClaudeProviderCompat::Anthropic
    );
    assert_eq!(
        provider_compat_for_base_url(Some(
            "https://api.anthropic.com/v1?proxy=api.deepseek.com/anthropic"
        )),
        ClaudeProviderCompat::Anthropic
    );
    assert_eq!(
        provider_compat_for_provider("DeepSeek", Some("http://localhost/v1"), None),
        ClaudeProviderCompat::DeepSeek
    );
    assert_eq!(
        provider_compat_for_provider(
            "custom messages provider",
            Some("http://localhost/v1"),
            Some("deepseek-v4-pro")
        ),
        ClaudeProviderCompat::DeepSeek
    );
}

#[test]
fn base_url_host_match_ignores_case_and_bad_urls_are_anthropic() {
    assert_eq!(
        provider_compat_for_base_url(Some("https://API.DeepSeek.com/anthropic")),
        ClaudeProviderCompat::DeepSeek
    );
    assert_eq!(
        provider_compat_for_base_url(Some("not a url")),
        ClaudeProviderCompat::Anthropic
    );
    assert_eq!(provider_compat_for_base_url(None), ClaudeProviderCompat::Anthropic);
}

#[test]
fn builds_claude_tool_result_history() {
    let request = build(vec![
        call("lookup", "{\"id\":1}", "call_1"),
        output_text("call_1", "ok"),
    ]);

    assert_eq!(
        request.messages,
        vec![
            message(
                ClaudeRole::Assistant,
                vec![tool_use("call_1", "lookup", "{\"id\":1}")]
            ),
            message(ClaudeRole::User, vec![tool_result("call_1", "ok", false)]),
        ]
    );
}

#[test]
fn builds_claude_error_tool_result_history() {
    let request = build(vec![
        call("lookup", "{\"id\":1}", "call_1"),
        output(
            "call_1",
            OutputBody::Text("city not found".to_string()),
            "city not found",
            Some(false),
        ),
    ]);

    assert_eq!(request.model, "sonnet-4-5");
    assert_eq!(request.max_tokens, DEFAULT_MAX_TOKENS);
    assert!(request.stream);
    assert!(request.system.is_none());
    assert!(request.tool_choice.is_none());
    assert!(request.thinking.is_none());
    assert!(request.service_tier.is_none());
    assert_eq!(
        request.messages,
        vec![
            message(
                ClaudeRole::Assistant,
                vec![tool_use("call_1", "lookup", "{\"id\":1}")]
            ),
            message(
                ClaudeRole::User,
                vec![tool_result("call_1", "city not found", true)]
            ),
        ]
    );
}

#[test]
fn normalizes_claude_error_tool_result_to_text_only_content() {
    let request = build(vec![
        call("lookup", "{}", "call_1"),
        output(
            "call_1",
            OutputBody::ContentItems(vec![
                OutputContentItem::InputText {
                    text: "first".to_string(),
                },
                OutputContentItem::InputImage {
                    image_url: "data:image/png;base64,Zm9v".to_string(),
                    detail: Some("high".to_string()),
                },
                OutputContentItem::InputText {
                    text: " second ".to_string(),
                },
            ]),
            "first second",
            Some(false),
        ),
    ]);

    assert_eq!(
        request.messages[1].content,
        vec![tool_result("call_1", "first\n\nsecond", true)]
    );
}

#[test]
fn normalizes_image_only_error_tool_result_to_text_placeholder() {
    let request = build(vec![
        call("lookup", "{}", "call_1"),
        output(
            "call_1",
            OutputBody::ContentItems(vec![OutputContentItem::InputImage {
                image_url: "data:image/png;base64,Zm9v".to_string(),
                detail: Some("high".to_string()),
            }]),
            "",
            Some(false),
        ),
    ]);

    assert_eq!(
        request.messages[1].content,
        vec![tool_result(
            "call_1",
            "[Non-text tool error content omitted]",
            true
        )]
    );
}

#[test]
fn repairs_claude_tool_result_without_preceding_tool_use() {
    let request = build(vec![output_text("call_1", "ok")]);

    assert_eq!(
        request.messages,
        vec![message(ClaudeRole::User, vec![text(" ")])]
    );
}

#[test]
fn repairs_user_text_before_pending_tool_result() {
    let request = build(vec![
        call("lookup", "{}", "call_1"),
        user(vec![input_text("too soon")]),
        output_text("call_1", "ok"),
    ]);

    assert_eq!(
        request.messages,
        vec![
            message(ClaudeRole::Assistant, vec![tool_use("call_1", "lookup", "{}")]),
            message(
                ClaudeRole::User,
                vec![tool_result("call_1", "ok", false), text("too soon")]
            ),
        ]
    );
}

#[test]
fn repairs_reordered_claude_parallel_tool_results() {
    let request = build(vec![
        call("lookup", "{}", "call_1"),
        call("read", "{}", "call_2"),
        output_text("call_2", "second first"),
        output_text("call_1", "first second"),
    ]);

    assert_eq!(
        request.messages,
        vec![
            message(
                ClaudeRole::Assistant,
                vec![
                    tool_use("call_1", "lookup", "{}"),
                    tool_use("call_2", "read", "{}"),
                ]
            ),
            message(
                ClaudeRole::User,
                vec![
                    tool_result("call_1", "first second", false),
                    tool_result("call_2", "second first", false),
                ]
            ),
        ]
    );
}

#[test]
fn repairs_missing_claude_tool_result_with_synthetic_error() {
    let request = build(vec![call("lookup", "{}", "call_1")]);

    assert_eq!(
        request.messages,
        vec![
            message(ClaudeRole::Assistant, vec![tool_use("call_1", "lookup", "{}")]),
            message(
                ClaudeRole::User,
                vec![tool_result(
                    "call_1",
                    "[Tool result missing due to internal error]",
                    true
                )]
            ),
        ]
    );
}

#[test]
fn repairs_duplicate_claude_tool_use_ids() {
    let request = build(vec![
        call("lookup", "{\"id\":1}", "call_1"),
        call("lookup", "{\"id\":2}", "call_1"),
        output_text("call_1", "ok"),
    ]);

    assert_eq!(
        request.messages,
        vec![
            message(
                ClaudeRole::Assistant,
                vec![tool_use("call_1", "lookup", "{\"id\":1}")]
            ),
            message(ClaudeRole::User, vec![tool_result("call_1", "ok", false)]),
        ]
    );
}

fn reasoning(claude_item: bool, texts: Option<Vec<&str>>, encrypted: Option<&str>) -> HistoryItem {
    HistoryItem::Reasoning {
        claude_item,
        texts: texts.map(|ts| ts.into_iter().map(str::to_string).collect()),
        encrypted_content: encrypted.map(str::to_string),
    }
}

fn assistant(content: Vec<ContentItem>) -> HistoryItem {
    HistoryItem::Message {
        role: "assistant".to_string(),
        content,
    }
}

fn image(url: &str) -> ContentItem {
    ContentItem::InputImage {
        image_url: url.to_string(),
        detail: Some("high".to_string()),
    }
}

fn build_with(items: Vec<HistoryItem>, options: ClaudeRequestOptions) -> ClaudeRequest {
    build_claude_messages_request(
        "",
        None,
        &items,
        "sonnet-4-5",
        0,
        false,
        &requirements(),
        &options,
    )
    .expect("request")
}

#[test]
fn builds_claude_url_image_and_structured_tool_result_blocks() {
    let request = build(vec![
        user(vec![image("https://example.com/screenshot.png")]),
        call("inspect", "{}", "call_1"),
        output(
            "call_1",
            OutputBody::ContentItems(vec![
                OutputContentItem::InputText {
                    text: "see image".to_string(),
                },
                OutputContentItem::InputImage {
                    image_url: "data:image/png;base64,Zm9v".to_string(),
                    detail: Some("high".to_string()),
                },
                OutputContentItem::InputImage {
                    image_url: "https://example.com/tool-output.png".to_string(),
                    detail: Some("high".to_string()),
                },
            ]),
            "see image",
            None,
        ),
    ]);

    assert_eq!(
        request.messages,
        vec![
            message(
                ClaudeRole::User,
                vec![ClaudeBlock::Image {
                    source: ImageSource::Url {
                        url: "https://example.com/screenshot.png".to_string(),
                    },
                }]
            ),
            message(ClaudeRole::Assistant, vec![tool_use("call_1", "inspect", "{}")]),
            message(
                ClaudeRole::User,
                vec![ClaudeBlock::ToolResult {
                    tool_use_id: "call_1".to_string(),
                    content: ToolResultContent::Blocks(vec![
                        NestedBlock::Text {
                            text: "see image".to_string(),
                            cache_control: None,
                        },
                        NestedBlock::Image {
                            source: ImageSource::Base64 {
                                media_type: "image/png".to_string(),
                                data: "Zm9v".to_string(),
                            },
                        },
                        NestedBlock::Image {
                            source: ImageSource::Url {
                                url: "https://example.com/tool-output.png".to_string(),
                            },
                        },
                    ]),
                    is_error: false,
                    cache_reference: None,
                }]
            ),
        ]
    );
}

#[test]
fn builds_claude_unsupported_image_reference_as_text_placeholder() {
    let request = build(vec![user(vec![image("file:///tmp/screenshot.png")])]);

    assert_eq!(
        request.messages,
        vec![message(
            ClaudeRole::User,
            vec![text("[image: file:///tmp/screenshot.png]")]
        )]
    );
}

#[test]
fn prunes_oldest_top_level_media_blocks_before_sending_claude_request() {
    let request = build(vec![user(
        (0..=CLAUDE_MAX_MEDIA_PER_REQUEST)
            .map(|index| image(&format!("https://example.com/image-{index:03}.png")))
            .collect(),
    )]);
    let urls = request.messages[0]
        .content
        .iter()
        .filter_map(|block| match block {
            ClaudeBlock::Image {
                source: ImageSource::Url { url },
            } => Some(url.as_str()),
            _ => None,
        })
        .collect::<Vec<_>>();

    assert_eq!(urls.len(), CLAUDE_MAX_MEDIA_PER_REQUEST);
    assert_eq!(
        urls.first().copied(),
        Some("https://example.com/image-001.png")
    );
    assert_eq!(
        urls.last().copied(),
        Some("https://example.com/image-100.png")
    );
}

#[test]
fn counts_nested_tool_result_media_and_preserves_tool_result_id_when_pruned() {
    let request = build(vec![
        call("inspect", "{}", "call_1"),
        output(
            "call_1",
            OutputBody::ContentItems(vec![OutputContentItem::InputImage {
                image_url: "data:image/png;base64,Zm9v".to_string(),
                detail: Some("high".to_string()),
            }]),
            "",
            None,
        ),
        user(
            (0..CLAUDE_MAX_MEDIA_PER_REQUEST)
                .map(|index| image(&format!("https://example.com/recent-{index:03}.png")))
                .collect(),
        ),
    ]);

    assert_eq!(
        count_claude_media(&request.messages[1].content),
        CLAUDE_MAX_MEDIA_PER_REQUEST
    );
    assert_eq!(
        request.messages[1].content.first(),
        Some(&ClaudeBlock::ToolResult {
            tool_use_id: "call_1".to_string(),
            content: ToolResultContent::Blocks(vec![NestedBlock::Text {
                text: "[Media content omitted to stay within request limits]".to_string(),
                cache_control: None,
            }]),
            is_error: false,
            cache_reference: None,
        })
    );
}

#[test]
fn normalizes_whitespace_only_assistant_message_and_merges_adjacent_users() {
    let request = build(vec![
        user(vec![input_text("first")]),
        assistant(vec![ContentItem::OutputText {
            text: "\n\n".to_string(),
        }]),
        user(vec![input_text("second")]),
    ]);

    assert_eq!(
        request.messages,
        vec![message(ClaudeRole::User, vec![text("first"), text("second")])]
    );
}

#[test]
fn builds_claude_request_with_thinking_and_service_tier() {
    let mut opts = options();
    opts.reasoning_effort = Some(ReasoningEffort::High);
    opts.service_tier = Some(ServiceTier::Fast);
    let request = build_with(vec![user(vec![input_text("think")])], opts);

    assert_eq!(
        request.messages,
        vec![message(ClaudeRole::User, vec![text("think")])]
    );
    assert_eq!(
        request.thinking,
        Some(ClaudeThinkingConfig::Enabled {
            budget_tokens: CLAUDE_THINKING_HIGH_BUDGET_TOKENS
        })
    );
    assert_eq!(request.service_tier, Some(ClaudeServiceTier::Auto));
    assert_eq!(request.output_effort, None);
    assert!(request.stream);
}

#[test]
fn builds_deepseek_anthropic_request_with_output_config_effort() {
    let mut opts = options();
    opts.reasoning_effort = Some(ReasoningEffort::XHigh);
    opts.provider_compat = ClaudeProviderCompat::DeepSeek;
    let request = build_with(vec![user(vec![input_text("think harder")])], opts);

    assert_eq!(
        request.thinking,
        Some(ClaudeThinkingConfig::Enabled {
            budget_tokens: CLAUDE_THINKING_XHIGH_BUDGET_TOKENS
        })
    );
    assert_eq!(request.output_effort, Some(ClaudeOutputEffort::Max));
    assert_eq!(request.service_tier, None);
}

#[test]
fn builds_deepseek_anthropic_request_with_disabled_thinking() {
    let mut opts = options();
    opts.reasoning_effort = Some(ReasoningEffort::NoReasoning);
    opts.provider_compat = ClaudeProviderCompat::DeepSeek;
    let request = build_with(vec![user(vec![input_text("answer directly")])], opts);

    assert_eq!(request.thinking, Some(ClaudeThinkingConfig::Disabled));
    assert_eq!(request.output_effort, None);
}

#[test]
fn builds_claude_request_with_flex_service_tier() {
    let mut opts = options();
    opts.service_tier = Some(ServiceTier::Flex);
    let request = build_with(vec![user(vec![input_text("standard")])], opts);

    assert_eq!(request.service_tier, Some(ClaudeServiceTier::StandardOnly));
}

#[test]
fn builds_claude_history_with_reasoning_signature_and_colliding_tool_name() {
    let request = build(vec![
        reasoning(true, Some(vec!["thinking"]), Some("signature")),
        call("a_b_1", "{}", "call_1"),
        output_text("call_1", "ok"),
    ]);

    assert_eq!(
        request.messages,
        vec![
            message(
                ClaudeRole::Assistant,
                vec![
                    ClaudeBlock::Thinking {
                        thinking: "thinking".to_string(),
                        signature: Some("signature".to_string()),
                    },
                    tool_use("call_1", "a_b_1", "{}"),
                ]
            ),
            message(ClaudeRole::User, vec![tool_result("call_1", "ok", false)]),
        ]
    );
}

#[test]
fn builds_claude_history_without_openai_encrypted_reasoning_as_signature_only_block() {
    let request = build(vec![
        reasoning(false, None, Some("openai-encrypted-content")),
        user(vec![input_text("continue")]),
    ]);

    assert_eq!(
        request.messages,
        vec![message(ClaudeRole::User, vec![text("continue")])]
    );
}

#[test]
fn builds_claude_history_without_summaryless_openai_encrypted_reasoning_as_signature() {
    let request = build(vec![reasoning(false, None, Some("openai-encrypted-content"))]);

    assert!(request.messages.iter().all(|message| message
        .content
        .iter()
        .all(|block| !matches!(block, ClaudeBlock::Thinking { .. }))));
}

#[test]
fn builds_claude_history_with_omitted_thinking_signature_only_block() {
    let request = build(vec![reasoning(true, Some(vec![""]), Some("thinking-signature"))]);

    assert_eq!(
        request.messages,
        vec![message(
            ClaudeRole::Assistant,
            vec![ClaudeBlock::Thinking {
                thinking: String::new(),
                signature: Some("thinking-signature".to_string()),
            }]
        )]
    );
}

#[test]
fn drops_unsigned_orphan_thinking_only_assistant_message() {
    let request = build(vec![
        user(vec![input_text("continue")]),
        reasoning(true, Some(vec!["stale thinking"]), None),
    ]);

    assert_eq!(
        request.messages,
        vec![message(ClaudeRole::User, vec![text("continue")])]
    );
}

#[test]
fn strips_unsigned_trailing_thinking_from_assistant_message() {
    let request = build(vec![
        assistant(vec![ContentItem::OutputText {
            text: "answer".to_string(),
        }]),
        reasoning(true, Some(vec!["trailing thinking"]), None),
    ]);

    assert_eq!(
        request.messages,
        vec![message(ClaudeRole::Assistant, vec![text("answer")])]
    );
}

#[test]
fn builds_claude_history_without_openai_reasoning_as_thinking_block() {
    let request = build(vec![reasoning(
        false,
        Some(vec!["visible reasoning"]),
        Some("openai-encrypted-content"),
    )]);

    assert!(request.messages.iter().all(|message| message
        .content
        .iter()
        .all(|block| !matches!(block, ClaudeBlock::Thinking { .. }))));
}

fn build_system(base: &str, items: Vec<HistoryItem>, options: ClaudeRequestOptions) -> ClaudeRequest {
    build_claude_messages_request(
        base,
        None,
        &items,
        "sonnet-4-5",
        0,
        false,
        &requirements(),
        &options,
    )
    .expect("request")
}

fn cached_text(text: &str, cache_control: &str) -> ClaudeBlock {
    ClaudeBlock::Text {
        text: text.to_string(),
        cache_control: Some(cache_control.to_string()),
    }
}

fn assistant_text(text: &str) -> HistoryItem {
    assistant(vec![ContentItem::OutputText {
        text: text.to_string(),
    }])
}

#[test]
fn builds_claude_request_with_system_prompt_cache_control() {
    let mut opts = options();
    opts.prompt_cache_mode = ClaudePromptCacheMode::System;
    opts.cache_control = "ephemeral-1h".to_string();
    let request = build_system("stable system", vec![user(vec![input_text("hello")])], opts);

    assert_eq!(
        request.system,
        Some(ClaudeSystemPrompt::Cached {
            text: "stable system".to_string(),
            cache_control: "ephemeral-1h".to_string(),
        })
    );
}

#[test]
fn system_prompt_without_caching_is_plain_text() {
    let request = build_system("stable system", vec![user(vec![input_text("hello")])], options());
    assert_eq!(
        request.system,
        Some(ClaudeSystemPrompt::Text("stable system".to_string()))
    );
}

#[test]
fn builds_claude_request_with_conversation_cache_on_prior_user_message() {
    let mut opts = options();
    opts.prompt_cache_mode = ClaudePromptCacheMode::Conversation;
    let request = build_with(
        vec![
            user(vec![input_text("stable prior context")]),
            assistant_text("prior answer"),
            user(vec![input_text("volatile current question")]),
        ],
        opts,
    );

    assert_eq!(
        request.messages,
        vec![
            message(
                ClaudeRole::User,
                vec![cached_text("stable prior context", "ephemeral")]
            ),
            message(ClaudeRole::Assistant, vec![text("prior answer")]),
            message(ClaudeRole::User, vec![text("volatile current question")]),
        ]
    );
}

#[test]
fn adds_cache_reference_to_cached_prefix_tool_results_when_capability_enabled() {
    let mut opts = options();
    opts.prompt_cache_mode = ClaudePromptCacheMode::Conversation;
    opts.cache_editing = cache_editing_options_for_provider(ClaudeProviderCompat::Anthropic);
    let request = build_with(
        vec![
            call("lookup", "{}", "call_1"),
            output_text("call_1", "ok"),
            assistant_text("tool noted"),
            user(vec![input_text("stable prior context")]),
            assistant_text("prior answer"),
            user(vec![input_text("volatile current question")]),
        ],
        opts,
    );

    assert_eq!(
        request.messages,
        vec![
            message(ClaudeRole::Assistant, vec![tool_use("call_1", "lookup", "{}")]),
            message(
                ClaudeRole::User,
                vec![ClaudeBlock::ToolResult {
                    tool_use_id: "call_1".to_string(),
                    content: ToolResultContent::Text("ok".to_string()),
                    is_error: false,
                    cache_reference: Some("call_1".to_string()),
                }]
            ),
            message(ClaudeRole::Assistant, vec![text("tool noted")]),
            message(
                ClaudeRole::User,
                vec![cached_text("stable prior context", "ephemeral")]
            ),
            message(ClaudeRole::Assistant, vec![text("prior answer")]),
            message(ClaudeRole::User, vec![text("volatile current question")]),
        ]
    );
}

#[test]
fn inserts_and_dedupes_cache_edits_after_tool_results_when_capability_enabled() {
    let mut opts = options();
    opts.cache_editing = ClaudeCacheEditingOptions {
        capability: ClaudeCacheEditingCapability::Enabled,
        new_delete_references: vec!["dup-ref".to_string(), " new-ref ".to_string(), String::new()],
        pinned_deletes: vec![ClaudePinnedCacheEdits {
            user_message_index: 1,
            delete_references: vec!["old-ref".to_string(), "dup-ref".to_string()],
        }],
    };
    let request = build_with(
        vec![
            call("lookup", "{}", "call_1"),
            output_text("call_1", "ok"),
            assistant_text("prior answer"),
            user(vec![input_text("current question")]),
        ],
        opts,
    );

    assert_eq!(
        request.messages,
        vec![
            message(ClaudeRole::Assistant, vec![tool_use("call_1", "lookup", "{}")]),
            message(
                ClaudeRole::User,
                vec![
                    tool_result("call_1", "ok", false),
                    ClaudeBlock::CacheEdits {
                        deletes: vec!["old-ref".to_string(), "dup-ref".to_string()],
                    },
                ]
            ),
            message(ClaudeRole::Assistant, vec![text("prior answer")]),
            message(
                ClaudeRole::User,
                vec![
                    ClaudeBlock::CacheEdits {
                        deletes: vec!["new-ref".to_string()],
                    },
                    text("current question"),
                ]
            ),
        ]
    );
}

#[test]
fn does_not_emit_cache_edit_fields_for_deepseek_capability() {
    let mut cache_editing = cache_editing_options_for_provider(ClaudeProviderCompat::DeepSeek);
    cache_editing.new_delete_references = vec!["call_1".to_string()];
    cache_editing.pinned_deletes = vec![ClaudePinnedCacheEdits {
        user_message_index: 1,
        delete_references: vec!["old-ref".to_string()],
    }];
    let mut opts = options();
    opts.prompt_cache_mode = ClaudePromptCacheMode::Conversation;
    opts.provider_compat = ClaudeProviderCompat::DeepSeek;
    opts.cache_editing = cache_editing;
    let request = build_with(
        vec![
            call("lookup", "{}", "call_1"),
            output_text("call_1", "ok"),
            assistant_text("tool noted"),
            user(vec![input_text("stable prior context")]),
            assistant_text("prior answer"),
            user(vec![input_text("current question")]),
        ],
        opts,
    );

    assert_eq!(
        request.messages,
        vec![
            message(ClaudeRole::Assistant, vec![tool_use("call_1", "lookup", "{}")]),
            message(ClaudeRole::User, vec![tool_result("call_1", "ok", false)]),
            message(ClaudeRole::Assistant, vec![text("tool noted")]),
            message(
                ClaudeRole::User,
                vec![cached_text("stable prior context", "ephemeral")]
            ),
            message(ClaudeRole::Assistant, vec![text("prior answer")]),
            message(ClaudeRole::User, vec![text("current question")]),
        ]
    );
}

fn provider_state(kind: &str, value: &str) -> HistoryItem {
    HistoryItem::ProviderState {
        value: value.to_string(),
        kind: kind.to_string(),
    }
}

fn state_block(kind: &str, value: &str) -> ClaudeBlock {
    ClaudeBlock::ProviderState {
        value: value.to_string(),
        kind: Some(kind.to_string()),
    }
}

fn build_reqs(items: Vec<HistoryItem>, reqs: ClaudeHistoryRequirements, options: ClaudeRequestOptions) -> ClaudeRequest {
    build_claude_messages_request("", None, &items, "sonnet-4-5", 1, false, &reqs, &options)
        .expect("request")
}

const COMPACTION: &str = r#"{"type":"compaction","content":"summarized provider state"}"#;

#[test]
fn builds_claude_request_with_preserved_provider_state_block() {
    let request = build(vec![provider_state("compaction", COMPACTION)]);

    assert_eq!(
        request.messages,
        vec![message(
            ClaudeRole::Assistant,
            vec![state_block("compaction", COMPACTION)]
        )]
    );
}

#[test]
fn builds_claude_request_with_context_compaction_provider_state_block() {
    let request = build(vec![provider_state("compaction", COMPACTION)]);

    assert_eq!(request.messages.len(), 1);
    assert_eq!(
        request.messages[0].content,
        vec![state_block("compaction", COMPACTION)]
    );
}

#[test]
fn drops_stale_server_provider_state_without_active_server_tools() {
    let stale = r#"{"type":"web_search_tool_result","tool_use_id":"srvu_1","content":[{"type":"text","text":"old result"}]}"#;
    let redacted = r#"{"type":"redacted_thinking","data":"opaque"}"#;
    let unknown = r#"{"type":"future_tool_result","data":"keep unknown state"}"#;
    let request = build(vec![
        provider_state("web_search_tool_result", stale),
        provider_state("compaction", COMPACTION),
        provider_state("redacted_thinking", redacted),
        provider_state("future_tool_result", unknown),
    ]);

    assert_eq!(
        request.messages,
        vec![message(
            ClaudeRole::Assistant,
            vec![
                state_block("compaction", COMPACTION),
                state_block("redacted_thinking", redacted),
                state_block("future_tool_result", unknown),
            ]
        )]
    );
}

fn native_web_search_requirements() -> ClaudeHistoryRequirements {
    ClaudeHistoryRequirements {
        preserve_mcp_tool_results: false,
        preserve_server_tool_results: true,
        preserve_structured_citations: true,
    }
}

#[test]
fn preserves_server_provider_state_for_native_web_search() {
    let result = r#"{"type":"web_search_tool_result","tool_use_id":"srvu_1","content":[{"type":"text","text":"current result"}]}"#;
    let citation = r#"{"type":"web_search_result_location","url":"https://example.com/result"}"#;
    let request = build_reqs(
        vec![
            provider_state("web_search_tool_result", result),
            provider_state("web_search_result_location", citation),
        ],
        native_web_search_requirements(),
        options(),
    );

    assert_eq!(
        request.messages,
        vec![message(
            ClaudeRole::Assistant,
            vec![
                state_block("web_search_tool_result", result),
                state_block("web_search_result_location", citation),
            ]
        )]
    );
}

#[test]
fn preserves_server_state_for_follow_up_with_native_web_search() {
    let server_tool_use = r#"{"type":"server_tool_use","id":"srvu_1","name":"web_search","input":{"query":"messages protocol"}}"#;
    let result = r#"{"type":"web_search_tool_result","tool_use_id":"srvu_1","content":[{"type":"text","text":"current result"}]}"#;
    let request = build_reqs(
        vec![
            provider_state("server_tool_use", server_tool_use),
            provider_state("web_search_tool_result", result),
            user(vec![input_text("follow up")]),
        ],
        native_web_search_requirements(),
        options(),
    );

    assert_eq!(
        request.messages,
        vec![
            message(
                ClaudeRole::Assistant,
                vec![
                    state_block("server_tool_use", server_tool_use),
                    state_block("web_search_tool_result", result),
                ]
            ),
            message(ClaudeRole::User, vec![text("follow up")]),
        ]
    );
}

#[test]
fn drops_web_search_provider_state_for_deepseek_local_web_search() {
    let result = r#"{"type":"web_search_tool_result","tool_use_id":"srvu_1","content":[{"type":"text","text":"stale result"}]}"#;
    let mut opts = options();
    opts.provider_compat = ClaudeProviderCompat::DeepSeek;
    let request = build_reqs(
        vec![
            provider_state("web_search_tool_result", result),
            user(vec![input_text("continue")]),
        ],
        requirements(),
        opts,
    );

    assert_eq!(
        request.messages,
        vec![message(ClaudeRole::User, vec![text("continue")])]
    );
}

#[test]
fn preserves_remote_mcp_provider_state_only_when_required() {
    let mcp_tool_use = r#"{"type":"mcp_tool_use","id":"mcpu_1","name":"docs.search"}"#;
    let mcp_tool_result = r#"{"type":"mcp_tool_result","tool_use_id":"mcpu_1","content":[{"type":"text","text":"mcp result"}]}"#;
    let server_tool_result = r#"{"type":"web_fetch_tool_result","tool_use_id":"srvu_1","content":[{"type":"text","text":"fetch result"}]}"#;
    let messages = vec![message(
        ClaudeRole::Assistant,
        vec![
            state_block("mcp_tool_use", mcp_tool_use),
            state_block("mcp_tool_result", mcp_tool_result),
            state_block("web_fetch_tool_result", server_tool_result),
        ],
    )];

    let (normalized, stats) = normalize_claude_messages_with_stats(
        &messages,
        &ClaudeHistoryRequirements {
            preserve_mcp_tool_results: true,
            preserve_server_tool_results: false,
            preserve_structured_citations: false,
        },
    );
    assert_eq!(stats.provider_state_dropped, 1);

    assert_eq!(
        normalized,
        vec![message(
            ClaudeRole::Assistant,
            vec![
                state_block("mcp_tool_use", mcp_tool_use),
                state_block("mcp_tool_result", mcp_tool_result),
            ]
        )]
    );
}

#[test]
fn preserves_remote_mcp_provider_state_with_follow_up_after_compaction_when_required() {
    let mcp_tool_use = r#"{"type":"mcp_tool_use","id":"mcpu_1","server_name":"docs","name":"search","input":{"query":"docs"}}"#;
    let mcp_tool_result = r#"{"type":"mcp_tool_result","tool_use_id":"mcpu_1","content":[{"type":"text","text":"mcp result"}]}"#;
    let messages = vec![
        message(
            ClaudeRole::Assistant,
            vec![
                state_block("mcp_tool_use", mcp_tool_use),
                state_block("mcp_tool_result", mcp_tool_result),
            ],
        ),
        message(ClaudeRole::User, vec![text("follow up")]),
    ];

    let (normalized, stats) = normalize_claude_messages_with_stats(
        &messages,
        &ClaudeHistoryRequirements {
            preserve_mcp_tool_results: true,
            preserve_server_tool_results: false,
            preserve_structured_citations: false,
        },
    );
    assert_eq!(stats.provider_state_dropped, 0);

    assert_eq!(
        normalized,
        vec![
            message(
                ClaudeRole::Assistant,
                vec![
                    state_block("mcp_tool_use", mcp_tool_use),
                    state_block("mcp_tool_result", mcp_tool_result),
                ],
            ),
            message(ClaudeRole::User, vec![text("follow up")]),
        ]
    );
}

#[test]
fn builds_claude_request_with_system_images_and_namespace_tools() {
    let items = vec![user(vec![
        input_text("look"),
        ContentItem::InputImage {
            image_url: "data:image/png;base64,abcd".to_string(),
            detail: Some("high".to_string()),
        },
    ])];
    let request = build_claude_messages_request(
        "be useful",
        None,
        &items,
        "sonnet-4-5",
        1,
        false,
        &requirements(),
        &options(),
    )
    .expect("request");

    assert_eq!(request.model, "sonnet-4-5");
    assert_eq!(request.max_tokens, DEFAULT_MAX_TOKENS);
    assert_eq!(
        request.messages,
        vec![message(
            ClaudeRole::User,
            vec![
                text("look"),
                ClaudeBlock::Image {
                    source: ImageSource::Base64 {
                        media_type: "image/png".to_string(),
                        data: "abcd".to_string(),
                    },
                },
            ]
        )]
    );
    assert_eq!(
        request.system,
        Some(ClaudeSystemPrompt::Text("be useful".to_string()))
    );
    assert_eq!(request.tool_choice, Some(true));
    assert!(request.stream);
}

#[test]
fn output_schema_instruction_joins_the_system_prompt() {
    let items = vec![user(vec![input_text("hi")])];
    let request = build_claude_messages_request(
        "base",
        Some("answer as JSON".to_string()),
        &items,
        "sonnet-4-5",
        0,
        true,
        &requirements(),
        &options(),
    )
    .expect("request");
    assert_eq!(
        request.system,
        Some(ClaudeSystemPrompt::Text("base\n\nanswer as JSON".to_string()))
    );
    assert_eq!(request.tool_choice, None);
}

#[test]
fn validation_reports_unanswered_tool_uses() {
    let messages = vec![
        message(ClaudeRole::Assistant, vec![tool_use("call_1", "lookup", "{}")]),
        message(ClaudeRole::User, vec![text("no result")]),
    ];
    let error = validate_tool_result_history(&messages).expect_err("unanswered tool use");
    assert_eq!(
        error.to_string(),
        "invalid tool history: user message 1 has ordinary content before required tool_result 0 for preceding tool_use id call_1"
    );
    let trailing = vec![message(
        ClaudeRole::Assistant,
        vec![tool_use("call_1", "lookup", "{}"), tool_use("call_2", "read", "{}")],
    )];
    let error = validate_tool_result_history(&trailing).expect_err("trailing tool uses");
    assert_eq!(
        error.to_string(),
        "invalid tool history: assistant tool_use blocks were not followed by matching user tool_result blocks: call_1, call_2"
    );
    let repaired = repair_tool_result_history(&messages);
    assert!(validate_tool_result_history(&repaired).is_ok());
}

#[test]
fn normalization_counts_each_change() {
    let messages = vec![
        message(
            ClaudeRole::User,
            vec![
                text("   "),
                ClaudeBlock::Text { text: " ".to_string(), cache_control: Some("ephemeral".to_string()) },
                ClaudeBlock::ToolResult {
                    tool_use_id: "t1".to_string(),
                    content: ToolResultContent::Text(" ".to_string()),
                    is_error: true,
                    cache_reference: None,
                },
                ClaudeBlock::ToolResult {
                    tool_use_id: "t2".to_string(),
                    content: ToolResultContent::Blocks(vec![
                        NestedBlock::Text { text: "boom".to_string(), cache_control: None },
                        NestedBlock::Text { text: "  ".to_string(), cache_control: None },
                    ]),
                    is_error: true,
                    cache_reference: None,
                },
            ],
        ),
        message(
            ClaudeRole::Assistant,
            vec![ClaudeBlock::Thinking { thinking: "hmm".to_string(), signature: None }],
        ),
        message(ClaudeRole::User, vec![text("")]),
    ];
    let (_, stats) = normalize_claude_messages_with_stats(&messages, &ClaudeHistoryRequirements {
        preserve_mcp_tool_results: false,
        preserve_server_tool_results: false,
        preserve_structured_citations: false,
    });
    assert_eq!(stats.empty_text_blocks_dropped, 2);
    assert_eq!(stats.empty_cached_text_blocks_padded, 1);
    assert_eq!(stats.error_tool_result_empty_text_replaced, 1);
    assert_eq!(stats.error_tool_result_blocks_flattened, 1);
    assert_eq!(stats.error_tool_result_nested_blocks_dropped, 1);
    assert_eq!(stats.unsigned_trailing_thinking_blocks_dropped, 1);
    assert_eq!(stats.unsigned_orphan_thinking_messages_dropped, 1);
    assert_eq!(stats.empty_messages_dropped, 2);
    assert_eq!(stats.provider_state_dropped, 0);
}
