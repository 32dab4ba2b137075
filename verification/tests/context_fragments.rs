use codex_core_logic::context_fragments::MultiAgentMode;
use codex_core_logic::context_fragments::MultiAgentModeState;
use codex_core_logic::context_fragments::MultiAgentRoleInstructions;
use codex_core_logic::context_fragments::MultiAgentUsageHint;
use codex_core_logic::token_budget::TokenBudget;

const USAGE_HINT_MAX_TOKENS: usize = 1_000;

fn approx_token_count(text: &str) -> usize {
    text.len().div_ceil(4)
}

fn cut_to_tokens(text: &str, tokens: usize) -> String {
    let mut end = tokens.saturating_mul(4).min(text.len());
    while !text.is_char_boundary(end) {
        end -= 1;
    }
    text[..end].to_string()
}

fn budget(
    max_tokens: usize,
) -> TokenBudget<fn(&str) -> usize, fn(&str, usize) -> String> {
    TokenBudget {
        max_tokens,
        count_tokens: approx_token_count as fn(&str) -> usize,
        cut: cut_to_tokens as fn(&str, usize) -> String,
    }
}

#[test]
fn usage_hint_is_bounded_at_the_fragment_boundary() {
    let hint = MultiAgentUsageHint::new(&"multi-agent usage hint ".repeat(2_000), &budget(USAGE_HINT_MAX_TOKENS));

    assert!(approx_token_count(&hint.body()) <= USAGE_HINT_MAX_TOKENS);
}

#[test]
fn short_usage_hint_is_kept_whole() {
    let hint = MultiAgentUsageHint::new("spawn helpers sparingly", &budget(USAGE_HINT_MAX_TOKENS));
    assert_eq!(hint.body(), "spawn helpers sparingly");
    assert_eq!(hint.role(), "developer");
    assert!(hint.requires_separate_message());
    assert_eq!(hint.markers(), ("", ""));
}

#[test]
fn role_instructions_are_cut_to_the_budget() {
    let long = "role text ".repeat(1_000);
    let unmarked = MultiAgentRoleInstructions::unmarked(long.clone(), &budget(10));
    assert_eq!(unmarked.body(), cut_to_tokens(&long, 10));
    assert_eq!(unmarked.markers(), ("", ""));
    let catalog = MultiAgentRoleInstructions::catalog("planner: splits tasks".to_string(), &budget(10));
    assert_eq!(catalog.body(), "planner: splits tasks");
    assert_eq!(catalog.markers(), ("<multi_agent_role>", "</multi_agent_role>"));
    assert_eq!(catalog.role(), "developer");
}

#[test]
fn custom_mode_hint_is_cut_to_the_mode_budget() {
    let state = MultiAgentModeState::new(Some(MultiAgentMode::Custom("x".repeat(100))), &budget(5));
    match state.mode {
        Some(MultiAgentMode::Custom(hint)) => assert_eq!(hint, "x".repeat(20)),
        _ => panic!("custom mode expected"),
    }
    let state = MultiAgentModeState::new(Some(MultiAgentMode::Proactive), &budget(5));
    assert!(matches!(state.mode, Some(MultiAgentMode::Proactive)));
    assert!(MultiAgentModeState::new(None, &budget(5)).mode.is_none());
}
