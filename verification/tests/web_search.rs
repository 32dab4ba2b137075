use codex_core_logic::web_search::WebSearchHandler;
use codex_core_logic::web_search::search_model;
use codex_core_logic::web_search::web_search_arguments;
use codex_core_logic::file_tools::ToolPayload;
use codex_core_logic::claude_content::ContentItem;
use codex_core_logic::errors::FunctionCallError;
use codex_core_logic::web_search::push_visible_message;
use codex_core_logic::web_search::visible_messages;
use codex_core_logic::web_search::SearchHistoryItem;
use codex_core_logic::web_search::command_action;
use codex_core_logic::web_search::external_web_access_for_spec;
use codex_core_logic::web_search::legacy_query_aliases;
use codex_core_logic::web_search::literal_url;
use codex_core_logic::web_search::parse_search_commands;
use codex_core_logic::web_search::push_search_query;
use codex_core_logic::web_search::query_action;
use codex_core_logic::web_search::search_settings_from_spec;
use codex_core_logic::web_search::ExternalWebAccess;
use codex_core_logic::web_search::FindOperation;
use codex_core_logic::web_search::OpenOperation;
use codex_core_logic::web_search::SearchCommands;
use codex_core_logic::web_search::SearchContextSize;
use codex_core_logic::web_search::SearchQuery;
use codex_core_logic::web_search::UserLocation;
use codex_core_logic::web_search::WebSearchAction;
use codex_core_logic::web_search::WebSearchArgs;
use codex_core_logic::web_search::WebSearchFilters;
use codex_core_logic::web_search::WebSearchToolSpec;
use serde_json::Value;

fn queries_of(value: &Value) -> Option<Vec<SearchQuery>> {
    value.as_array().map(|items| {
        items
            .iter()
            .map(|item| SearchQuery {
                q: item["q"].as_str().unwrap_or_default().to_string(),
                recency: item.get("recency").and_then(Value::as_u64),
                domains: None,
            })
            .collect()
    })
}

fn decode(arguments: &str) -> Result<(SearchCommands, WebSearchArgs), FunctionCallError> {
    let value: Value = serde_json::from_str(arguments).map_err(|err| {
        FunctionCallError::RespondToModel(format!("failed to parse function arguments: {err}"))
    })?;
    let commands = SearchCommands {
        search_query: queries_of(&value["search_query"]),
        image_query: queries_of(&value["image_query"]),
        open: value["open"].as_array().map(|items| {
            items
                .iter()
                .map(|item| OpenOperation {
                    ref_id: item["ref_id"].as_str().unwrap_or_default().to_string(),
                    lineno: item.get("lineno").and_then(Value::as_u64),
                })
                .collect()
        }),
        find: value["find"].as_array().map(|items| {
            items
                .iter()
                .map(|item| FindOperation {
                    ref_id: item["ref_id"].as_str().unwrap_or_default().to_string(),
                    pattern: item["pattern"].as_str().unwrap_or_default().to_string(),
                })
                .collect()
        }),
    };
    let args = WebSearchArgs {
        query: value["query"].as_str().map(str::to_string),
        queries: value["queries"].as_array().map(|items| {
            items
                .iter()
                .map(|item| item.as_str().unwrap_or_default().to_string())
                .collect()
        }),
    };
    Ok((commands, args))
}

fn commands_for(arguments: &str) -> SearchCommands {
    parse_search_commands(arguments, decode(arguments)).expect("valid search command arguments")
}

fn texts(queries: &[SearchQuery]) -> Vec<(String, Option<u64>)> {
    queries.iter().map(|q| (q.q.clone(), q.recency)).collect()
}

fn search(query: Option<&str>, queries: Option<Vec<&str>>) -> (Option<String>, Option<Vec<String>>) {
    (
        query.map(str::to_string),
        queries.map(|qs| qs.into_iter().map(str::to_string).collect()),
    )
}

fn as_search(action: WebSearchAction) -> (Option<String>, Option<Vec<String>>) {
    match action {
        WebSearchAction::Search { query, queries } => (query, queries),
        _ => panic!("search action expected"),
    }
}

#[test]
fn parse_search_commands_accepts_openai_commands_and_legacy_aliases() {
    let commands = commands_for(
        r#"{
            "query": " rust async ",
            "queries": ["tokio runtime", "rust async", " "],
            "search_query": [{"q": "existing query", "recency": 7}],
            "open": [{"ref_id": "https://example.com/docs", "lineno": 12}]
        }"#,
    );

    assert_eq!(
        texts(commands.search_query.as_ref().expect("search queries")),
        vec![
            ("rust async".to_string(), None),
            ("tokio runtime".to_string(), None),
            ("existing query".to_string(), Some(7)),
        ]
    );
    assert_eq!(
        as_search(command_action(&commands)),
        search(
            None,
            Some(vec!["rust async", "tokio runtime", "existing query"])
        )
    );
}

#[test]
fn blank_arguments_give_no_commands() {
    let commands = parse_search_commands("  \n", Err(FunctionCallError::RespondToModel(
        "unused".to_string(),
    )))
    .expect("blank arguments");
    assert!(commands.search_query.is_none());
    assert!(matches!(command_action(&commands), WebSearchAction::Other));
}

#[test]
fn invalid_arguments_report_the_decoding_error() {
    let error = parse_search_commands("{", decode("{")).expect_err("invalid JSON");
    assert!(error
        .to_string()
        .starts_with("failed to parse function arguments: "));
}

#[test]
fn search_settings_preserve_openai_web_search_options() {
    let spec = WebSearchToolSpec::WebSearch {
        external_web_access: Some(true),
        indexed_web_access: Some(true),
        filters: Some(WebSearchFilters {
            allowed_domains: Some(vec![
                "example.com".to_string(),
                "docs.example.com".to_string(),
            ]),
        }),
        user_location: Some(UserLocation {
            country: Some("US".to_string()),
            region: Some("California".to_string()),
            city: Some("San Francisco".to_string()),
            timezone: Some("America/Los_Angeles".to_string()),
        }),
        search_context_size: Some(SearchContextSize::High),
    };

    let settings = search_settings_from_spec(&spec);

    assert_eq!(settings.search_context_size, Some(SearchContextSize::High));
    let filters = settings.filters.expect("filters");
    assert_eq!(
        filters.allowed_domains,
        Some(vec![
            "example.com".to_string(),
            "docs.example.com".to_string()
        ])
    );
    assert!(filters.blocked_domains.is_none());
    assert!(matches!(
        settings.external_web_access,
        Some(ExternalWebAccess::Indexed)
    ));
    let location = settings.user_location.expect("location");
    assert_eq!(location.country.as_deref(), Some("US"));
    assert_eq!(location.region.as_deref(), Some("California"));
    assert_eq!(location.city.as_deref(), Some("San Francisco"));
    assert_eq!(location.timezone.as_deref(), Some("America/Los_Angeles"));
    assert_eq!(settings.allowed_callers.map(|callers| callers.len()), Some(1));
}

#[test]
fn settings_of_another_tool_are_empty() {
    let settings = search_settings_from_spec(&WebSearchToolSpec::Other);
    assert!(settings.user_location.is_none());
    assert!(settings.filters.is_none());
    assert!(settings.external_web_access.is_none());
    assert!(settings.allowed_callers.is_none());
}

#[test]
fn web_access_prefers_the_index() {
    assert!(matches!(
        external_web_access_for_spec(Some(false), Some(true)),
        Some(ExternalWebAccess::Indexed)
    ));
    assert!(matches!(
        external_web_access_for_spec(Some(false), Some(false)),
        Some(ExternalWebAccess::Boolean(false))
    ));
    assert!(external_web_access_for_spec(None, None).is_none());
}

#[test]
fn command_action_reports_queries_and_navigation_detail() {
    let image = command_action(&commands_for(
        r#"{"image_query":[{"q":"waterfalls"},{"q":"mountains"}]}"#,
    ));
    assert_eq!(
        as_search(image),
        search(None, Some(vec!["waterfalls", "mountains"]))
    );

    match command_action(&commands_for(
        r#"{"open":[{"ref_id":"https://example.com/docs"}]}"#,
    )) {
        WebSearchAction::OpenPage { url } => {
            assert_eq!(url.as_deref(), Some("https://example.com/docs"))
        }
        _ => panic!("open page expected"),
    }
    match command_action(&commands_for(
        r#"{"find":[{"ref_id":"https://example.com/docs","pattern":"install"}]}"#,
    )) {
        WebSearchAction::FindInPage { url, pattern } => {
            assert_eq!(url.as_deref(), Some("https://example.com/docs"));
            assert_eq!(pattern.as_deref(), Some("install"));
        }
        _ => panic!("find in page expected"),
    }
    match command_action(&commands_for(
        r#"{"find":[{"ref_id":"turn0search0","pattern":"install"}]}"#,
    )) {
        WebSearchAction::FindInPage { url, pattern } => {
            assert_eq!(url, None);
            assert_eq!(pattern.as_deref(), Some("install"));
        }
        _ => panic!("find in page expected"),
    }
    assert!(matches!(
        command_action(&commands_for(r#"{"open":[{"ref_id":"turn0search0"}]}"#)),
        WebSearchAction::Other
    ));
}

#[test]
fn pushing_a_query_trims_and_dedupes() {
    let mut queries = Vec::new();
    push_search_query(&mut queries, "  rust  ".to_string());
    push_search_query(&mut queries, "rust".to_string());
    push_search_query(&mut queries, "   ".to_string());
    push_search_query(&mut queries, "tokio".to_string());
    assert_eq!(
        texts(&queries),
        vec![("rust".to_string(), None), ("tokio".to_string(), None)]
    );
}

#[test]
fn legacy_aliases_keep_query_before_queries() {
    let aliases = legacy_query_aliases(&WebSearchArgs {
        query: Some("b".to_string()),
        queries: Some(vec!["a".to_string(), "b".to_string()]),
    });
    assert_eq!(
        texts(&aliases),
        vec![("b".to_string(), None), ("a".to_string(), None)]
    );
}

#[test]
fn single_query_is_reported_as_the_query() {
    let one = vec![SearchQuery {
        q: "only".to_string(),
        recency: None,
        domains: None,
    }];
    assert_eq!(
        as_search(query_action(&one).expect("action")),
        search(Some("only"), None)
    );
    assert!(query_action(&[]).is_none());
}

#[test]
fn literal_urls_are_parsed_urls() {
    assert_eq!(
        literal_url("https://example.com/a").as_deref(),
        Some("https://example.com/a")
    );
    assert_eq!(literal_url("turn0search0"), None);
}

fn message(role: &str, content: Vec<ContentItem>, is_user_turn: bool) -> SearchHistoryItem {
    SearchHistoryItem::Message {
        role: role.to_string(),
        content,
        phase: None,
        is_user_turn,
    }
}

fn input_text(text: &str) -> ContentItem {
    ContentItem::InputText { text: text.to_string() }
}

#[test]
fn visible_messages_keep_assistant_agent_and_user_text() {
    let items = vec![
        message("developer", vec![input_text("rules")], false),
        message("user", vec![input_text("find rust news"), ContentItem::InputImage {
            image_url: "https://example.com/a.png".to_string(),
            detail: None,
        }], true),
        message("assistant", vec![ContentItem::OutputText { text: "searching".to_string() }], false),
        SearchHistoryItem::AgentMessage {
            author: "scout".to_string(),
            plaintext: Some("done".to_string()),
        },
        SearchHistoryItem::AgentMessage { author: "quiet".to_string(), plaintext: None },
        SearchHistoryItem::Other,
    ];
    let shown = visible_messages(&items);
    assert_eq!(shown.len(), 3);
    assert_eq!(shown[0].role, "user");
    assert_eq!(shown[0].content.len(), 1);
    assert!(matches!(&shown[0].content[0], ContentItem::InputText { text } if text == "find rust news"));
    assert_eq!(shown[1].role, "assistant");
    assert!(matches!(&shown[1].content[0], ContentItem::OutputText { text } if text == "searching"));
    assert_eq!(shown[2].role, "assistant");
    assert!(matches!(
        &shown[2].content[0],
        ContentItem::OutputText { text } if text == "Agent message from scout:\ndone"
    ));
}

#[test]
fn user_message_without_input_text_or_turn_is_not_shown() {
    let mut messages = Vec::new();
    push_visible_message(&mut messages, &message("user", vec![ContentItem::InputImage {
        image_url: "https://example.com/a.png".to_string(),
        detail: None,
    }], true));
    push_visible_message(&mut messages, &message("user", vec![input_text("context")], false));
    assert!(messages.is_empty());
}

#[test]
fn search_model_uses_the_turn_model_only_on_openai() {
    assert_eq!(search_model(true, "gpt-5.4"), "gpt-5.4");
    assert_eq!(search_model(false, "deepseek-chat"), "gpt-5.2-codex");
}

#[test]
fn web_search_arguments_need_a_function_payload() {
    let payload = ToolPayload::Function { arguments: "{\"search_query\":[]}".to_string() };
    assert_eq!(web_search_arguments(&payload).unwrap(), "{\"search_query\":[]}");
    assert_eq!(
        web_search_arguments(&ToolPayload::Unsupported).unwrap_err().to_string(),
        "web_search handler received unsupported payload"
    );
}

#[test]
fn web_search_handler_derives_its_settings_from_the_spec() {
    let handler = WebSearchHandler::new(WebSearchToolSpec::WebSearch {
        external_web_access: Some(false),
        indexed_web_access: None,
        filters: None,
        user_location: None,
        search_context_size: Some(SearchContextSize::Low),
    });
    assert_eq!(handler.settings.search_context_size, Some(SearchContextSize::Low));
    assert!(matches!(handler.settings.external_web_access, Some(ExternalWebAccess::Boolean(false))));
    assert!(handler.settings.filters.is_none());
    let other = WebSearchHandler::new(WebSearchToolSpec::Other);
    assert!(other.settings.allowed_callers.is_none());
    assert!(matches!(other.spec, WebSearchToolSpec::Other));
}
