use codex_core_logic::reasoning_replay::last_real_user_index;
use codex_core_logic::reasoning_replay::clear_provider_state;
use codex_core_logic::reasoning_replay::normalize_raw_reasoning_content;
use codex_core_logic::reasoning_replay::raw_content_step;
use codex_core_logic::reasoning_replay::responses_reasoning_replay;
use codex_core_logic::reasoning_replay::select_last_turn_reasoning;
use codex_core_logic::reasoning_replay::strip_encrypted_handoff_reasoning;
use codex_core_logic::reasoning_replay::RawContentStep;
use codex_core_logic::reasoning_replay::ReasoningContent;
use codex_core_logic::reasoning_replay::ReasoningItem;
use codex_core_logic::reasoning_replay::ResponsesReasoningReplay;
use codex_core_logic::reasoning_replay::RAW_REASONING_REPLAY_ITEM_MAX_TOKENS;
use codex_core_logic::reasoning_replay::remaining_after_truncation;
use codex_core_logic::reasoning_replay::retain_step;
use codex_core_logic::reasoning_replay::RetainStep;
use codex_core_logic::reasoning_replay::drop_empty_parts;
use codex_core_logic::reasoning_replay::raw_reasoning_content_tokens;
use codex_core_logic::reasoning_replay::retain_newest_raw_reasoning_content;
use codex_core_logic::reasoning_replay::sanitize_raw_reasoning_item;
use codex_core_logic::reasoning_replay::cut_last_turn_reasoning;
use codex_core_logic::reasoning_replay::COMPACT_RETAINED_REASONING_MAX_TOKENS;
use codex_core_logic::token_budget::TokenBudget;

fn approx_tokens(text: &str) -> usize {
    text.len().div_ceil(4)
}

fn cut_to_tokens(text: &str, tokens: usize) -> String {
    let mut end = text.len().min(tokens.saturating_mul(4));
    while !text.is_char_boundary(end) {
        end -= 1;
    }
    text[..end].to_string()
}

fn approx_budget(max_tokens: usize) -> TokenBudget<fn(&str) -> usize, fn(&str, usize) -> String> {
    TokenBudget {
        max_tokens,
        count_tokens: approx_tokens as fn(&str) -> usize,
        cut: cut_to_tokens as fn(&str, usize) -> String,
    }
}

fn reasoning_item(id: &str, text: &str) -> ReasoningItem {
    ReasoningItem {
        id: Some(id.to_string()),
        summary: Vec::new(),
        content: Some(vec![ReasoningContent::ReasoningText {
            text: text.to_string(),
        }]),
        encrypted_content: Some(format!("encrypted-{id}")),
    }
}

#[test]
fn non_deepseek_models_keep_encrypted_handoff_split_by_provider() {
    assert_eq!(
        responses_reasoning_replay(false, true),
        ResponsesReasoningReplay::EncryptedHandoff {
            is_openai_provider: true
        }
    );
    assert_eq!(
        responses_reasoning_replay(false, false),
        ResponsesReasoningReplay::EncryptedHandoff {
            is_openai_provider: false
        }
    );
}

#[test]
fn minimax_and_deepseek_use_raw_reasoning_replay() {
    assert_eq!(
        responses_reasoning_replay(true, false),
        ResponsesReasoningReplay::RawReasoningText
    );
    assert_eq!(
        responses_reasoning_replay(true, true),
        ResponsesReasoningReplay::RawReasoningText
    );
}

#[test]
fn raw_replay_normalizes_legacy_text_and_clears_provider_state() {
    let mut item = ReasoningItem {
        id: Some("reasoning-id".to_string()),
        summary: vec!["summary".to_string()],
        content: Some(vec![ReasoningContent::Text {
            text: "keep this chain of thought".to_string(),
        }]),
        encrypted_content: Some("provider-specific-state".to_string()),
    };

    clear_provider_state(&mut item);
    normalize_raw_reasoning_content(&mut item.content);

    assert_eq!(
        item,
        ReasoningItem {
            id: None,
            summary: Vec::new(),
            content: Some(vec![ReasoningContent::ReasoningText {
                text: "keep this chain of thought".to_string(),
            }]),
            encrypted_content: None,
        }
    );
}

#[test]
fn raw_replay_caps_each_reasoning_and_normalizes_missing_content() {
    let oversized = "n".repeat((RAW_REASONING_REPLAY_ITEM_MAX_TOKENS + 100) * 4);
    assert_eq!(raw_content_step(0), RawContentStep::SendEmpty);
    assert_eq!(
        raw_content_step(approx_tokens("middle thought")),
        RawContentStep::SendAsIs
    );
    assert_eq!(
        raw_content_step(approx_tokens(&oversized)),
        RawContentStep::KeepNewestWithin {
            budget: RAW_REASONING_REPLAY_ITEM_MAX_TOKENS
        }
    );
    let mut missing: Option<Vec<ReasoningContent>> = None;
    normalize_raw_reasoning_content(&mut missing);
    assert_eq!(missing, None);

    let budget = approx_budget(RAW_REASONING_REPLAY_ITEM_MAX_TOKENS);
    let mut input = vec![
        reasoning_item("old", "old thought"),
        reasoning_item("middle", "middle thought"),
        reasoning_item("new", &oversized),
    ];
    input[0].content = None;
    for item in input.iter_mut() {
        sanitize_raw_reasoning_item(item, &budget);
    }
    assert_eq!(input[0].content, Some(Vec::new()));
    assert_eq!(input[0].encrypted_content, None);
    assert!(input[1].content.is_some());
    let new_content = input[2].content.take().expect("new reasoning item with content");
    let retained_tokens = raw_reasoning_content_tokens(&Some(new_content), &budget);
    assert!(retained_tokens > 0);
    assert!(retained_tokens <= RAW_REASONING_REPLAY_ITEM_MAX_TOKENS);
    assert!(retained_tokens < approx_tokens(&oversized));
    assert_eq!(input[2].encrypted_content, None);
}

#[test]
fn retaining_newest_reasoning_keeps_recent_parts_and_cuts_the_first_that_overflows() {
    let mut content = Some(vec![
        ReasoningContent::ReasoningText { text: "a".repeat(40) },
        ReasoningContent::ReasoningText { text: "b".repeat(40) },
        ReasoningContent::ReasoningText { text: "c".repeat(16) },
    ]);
    let left = retain_newest_raw_reasoning_content(&mut content, &approx_budget(12));
    assert_eq!(
        content,
        Some(vec![
            ReasoningContent::ReasoningText { text: "b".repeat(32) },
            ReasoningContent::ReasoningText { text: "c".repeat(16) },
        ])
    );
    assert_eq!(left, 0);
}

#[test]
fn retaining_newest_reasoning_leaves_what_the_parts_did_not_use() {
    let mut content = Some(vec![ReasoningContent::Text { text: "abcdefgh".to_string() }]);
    let left = retain_newest_raw_reasoning_content(&mut content, &approx_budget(5));
    assert_eq!(content, Some(vec![ReasoningContent::Text { text: "abcdefgh".to_string() }]));
    assert_eq!(left, 3);
}

#[test]
fn last_turn_reasoning_keeps_only_items_after_the_last_real_user() {
    let after_last_user = vec![Some(approx_tokens("new thought"))];
    assert_eq!(select_last_turn_reasoning(&after_last_user), (vec![0], None));
}

#[test]
fn last_turn_reasoning_prefers_newest_items_when_over_budget() {
    let tokens = vec![
        Some(approx_tokens(&"a".repeat(40_000))),
        Some(approx_tokens("short thought")),
    ];
    assert_eq!(select_last_turn_reasoning(&tokens), (vec![1], None));
}

#[test]
fn last_turn_reasoning_truncates_an_oversized_newest_item_to_the_hard_cap() {
    let oversized = "n".repeat((RAW_REASONING_REPLAY_ITEM_MAX_TOKENS + 100) * 4);
    assert_eq!(
        select_last_turn_reasoning(&vec![Some(approx_tokens(&oversized))]),
        (vec![], Some(0))
    );
}

#[test]
fn last_turn_reasoning_skips_other_items_and_stops_at_an_exact_fit() {
    let tokens = vec![Some(1), Some(4_000), None, Some(0), Some(4_000)];
    assert_eq!(select_last_turn_reasoning(&tokens), (vec![4, 1], None));
}

#[test]
fn encrypted_handoff_is_kept_only_where_safe() {
    let mut openai = reasoning_item("rs_1", "raw");
    strip_encrypted_handoff_reasoning(&mut openai, true, false);
    assert_eq!(openai.content, Some(Vec::new()));
    assert_eq!(openai.encrypted_content.as_deref(), Some("encrypted-rs_1"));

    let mut other_provider = reasoning_item("rs_2", "raw");
    strip_encrypted_handoff_reasoning(&mut other_provider, false, false);
    assert_eq!(other_provider.encrypted_content, None);

    let mut unknown_origin = reasoning_item("", "raw");
    strip_encrypted_handoff_reasoning(&mut unknown_origin, true, false);
    assert_eq!(unknown_origin.encrypted_content, None);

    let mut foreign = reasoning_item("msg_1_reasoning_0", "");
    foreign.content = None;
    strip_encrypted_handoff_reasoning(&mut foreign, true, true);
    assert_eq!(foreign.encrypted_content, None);

    let mut summary_only = reasoning_item("rs_3", "");
    summary_only.content = None;
    strip_encrypted_handoff_reasoning(&mut summary_only, false, false);
    assert_eq!(summary_only.encrypted_content.as_deref(), Some("encrypted-rs_3"));
}

#[test]
fn retain_steps_walk_the_budget_from_the_newest_part() {
    assert_eq!(retain_step(10, 4), (RetainStep::Keep, 6));
    assert_eq!(retain_step(6, 6), (RetainStep::Keep, 0));
    assert_eq!(retain_step(6, 9), (RetainStep::TruncateTo { budget: 6 }, 6));
    assert_eq!(retain_step(0, 1), (RetainStep::Clear, 0));
    assert_eq!(remaining_after_truncation(6, 5), 1);
    assert_eq!(remaining_after_truncation(6, 7), 0);
}

#[test]
fn drop_empty_parts_keeps_nonempty_parts_in_order() {
    let mut content = Some(vec![
        ReasoningContent::ReasoningText { text: "first".to_string() },
        ReasoningContent::ReasoningText { text: String::new() },
        ReasoningContent::Text { text: "second".to_string() },
    ]);
    drop_empty_parts(&mut content);
    assert_eq!(
        content,
        Some(vec![
            ReasoningContent::ReasoningText { text: "first".to_string() },
            ReasoningContent::Text { text: "second".to_string() },
        ])
    );
    let mut none: Option<Vec<ReasoningContent>> = None;
    drop_empty_parts(&mut none);
    assert_eq!(none, None);
}

#[test]
fn last_turn_starts_at_the_last_real_user_message() {
    let texts = vec![
        Some("first question".to_string()),
        None,
        Some("second question".to_string()),
        None,
        Some("SUMMARY\nwhat happened so far".to_string()),
        None,
    ];
    assert_eq!(last_real_user_index(&texts, "SUMMARY"), Some(2));
    assert_eq!(last_real_user_index(&vec![None, Some("SUMMARY\nx".to_string())], "SUMMARY"), None);
    assert_eq!(last_real_user_index(&vec![Some("SUMMARY without newline".to_string())], "SUMMARY"), Some(0));
    assert_eq!(last_real_user_index(&Vec::new(), "SUMMARY"), None);
}

#[test]
fn oversized_last_turn_reasoning_is_cut_to_the_compaction_budget() {
    let budget = approx_budget(COMPACT_RETAINED_REASONING_MAX_TOKENS);
    let mut content = Some(vec![ReasoningContent::ReasoningText { text: "x".repeat(40_000) }]);
    assert!(cut_last_turn_reasoning(&mut content, &budget));
    assert_eq!(
        content,
        Some(vec![ReasoningContent::ReasoningText {
            text: "x".repeat(COMPACT_RETAINED_REASONING_MAX_TOKENS * 4)
        }])
    );

    let mut empty = Some(vec![ReasoningContent::ReasoningText { text: String::new() }]);
    assert!(!cut_last_turn_reasoning(&mut empty, &budget));
    assert_eq!(empty, Some(Vec::new()));
}
