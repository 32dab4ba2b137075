//! Which flavour of the Messages API a provider speaks, and the
//! request settings that depend on it.
use vstd::prelude::*;
use crate::search::{find_from, first_match_from};
use crate::text::{chars_of, str_eq, string_from_chars};

verus! {

/// The API flavour of a provider of the Messages API.
#[derive(Clone, Copy, Debug, PartialEq, Eq, Structural)]
pub enum ClaudeProviderCompat {
    Anthropic,
    DeepSeek,
}

/// `c` in ASCII lower case.
pub open spec fn ascii_lower(c: char) -> char {
    if 'A' <= c && c <= 'Z' {
        ((c as u32) + 32) as char
    } else {
        c
    }
}

/// `s` in ASCII lower case.
pub open spec fn ascii_lower_seq(s: Seq<char>) -> Seq<char> {
    Seq::new(s.len(), |i: int| ascii_lower(s[i]))
}

/// `c` in ASCII lower case.
pub fn to_ascii_lower(c: char) -> (r: char)
    ensures
        r == ascii_lower(c),
{
    if 'A' <= c && c <= 'Z' {
        let b = (c as u32) as u8;
        ((b + 32) as char)
    } else {
        c
    }
}

/// `a` and `b` are equal ignoring ASCII case.
pub open spec fn eq_ignore_ascii_case(a: Seq<char>, b: Seq<char>) -> bool {
    ascii_lower_seq(a) == ascii_lower_seq(b)
}

/// Whether `a` and `b` are equal ignoring ASCII case.
pub fn eq_ignore_ascii_case_exec(a: &str, b: &str) -> (r: bool)
    ensures
        r == eq_ignore_ascii_case(a@, b@),
{
    let x = chars_of(a);
    let y = chars_of(b);
    if x.len() != y.len() {
        assert(ascii_lower_seq(a@).len() != ascii_lower_seq(b@).len());
        return false;
    }
    let mut i: usize = 0;
    while i < x.len()
        invariant
            i <= x@.len(),
            x@.len() == y@.len(),
            x@ == a@,
            y@ == b@,
            forall|j: int| 0 <= j < i ==> ascii_lower(x@[j]) == ascii_lower(y@[j]),
        decreases x.len() - i,
    {
        if to_ascii_lower(x[i]) != to_ascii_lower(y[i]) {
            assert(ascii_lower_seq(a@)[i as int] != ascii_lower_seq(b@)[i as int]);
            return false;
        }
        i += 1;
    }
    assert(ascii_lower_seq(a@) =~= ascii_lower_seq(b@));
    true
}

/// `s` lower-cased, with spaces, hyphens and underscores removed.
pub open spec fn squashed_identifier(s: Seq<char>) -> Seq<char>
    decreases s.len(),
{
    if s.len() == 0 {
        Seq::empty()
    } else {
        let rest = squashed_identifier(s.drop_last());
        let c = ascii_lower(s.last());
        if c == ' ' || c == '-' || c == '_' {
            rest
        } else {
            rest.push(c)
        }
    }
}

/// A provider or model name that names DeepSeek, however it is spelt.
pub open spec fn names_deepseek(s: Seq<char>) -> bool {
    first_match_from(squashed_identifier(s), "deepseek"@, 0) is Some
}

/// Whether `value` names DeepSeek, ignoring case, spaces, hyphens and
/// underscores.
pub fn looks_like_deepseek_identifier(value: &str) -> (r: bool)
    ensures
        r == names_deepseek(value@),
{
    let v = chars_of(value);
    let mut out: Vec<char> = Vec::new();
    let mut i: usize = 0;
    while i < v.len()
        invariant
            i <= v@.len(),
            v@ == value@,
            out@ == squashed_identifier(v@.take(i as int)),
        decreases v.len() - i,
    {
        proof {
            assert(v@.take(i + 1).drop_last() == v@.take(i as int));
            assert(v@.take(i + 1).last() == v@[i as int]);
        }
        let c = to_ascii_lower(v[i]);
        if !(c == ' ' || c == '-' || c == '_') {
            out.push(c);
        }
        i += 1;
    }
    assert(v@.take(v.len() as int) == v@);
    find_from(&out, &chars_of("deepseek"), 0).is_some()
}

/// The host (when there is one) and the path of `text` parsed as a URL by
/// the `url` crate, or `None` when it does not parse.
pub uninterp spec fn url_host_and_path(text: Seq<char>) -> Option<(Option<Seq<char>>, Seq<char>)>;

/// The host and path of a URL, as plain values.
pub open spec fn url_parts_view(p: Option<(Option<String>, String)>) -> Option<(Option<Seq<char>>, Seq<char>)> {
    match p {
        Some((h, path)) => Some(
            (
                match h {
                    Some(x) => Some(x@),
                    None => None,
                },
                path@,
            ),
        ),
        None => None,
    }
}

/// Parses `text` with `url::Url::parse` and returns `host_str()` and
/// `path()` of the result.
///
/// Trusted: the result is the `url` crate's parse of exactly `text`, named
/// [`url_host_and_path`]; what the parser accepts and how it normalizes is
/// not stated here.
#[verifier::external_body]
pub(crate) fn parse_url_host_and_path(text: &str) -> (r: Option<(Option<String>, String)>)
    ensures
        url_parts_view(r) == url_host_and_path(text@),
{
    match url::Url::parse(text) {
        Ok(u) => Some((u.host_str().map(|h| h.to_string()), u.path().to_string())),
        Err(_) => None,
    }
}

/// `s` without trailing slashes.
pub open spec fn trim_trailing_slashes(s: Seq<char>) -> Seq<char>
    decreases s.len(),
{
    if s.len() > 0 && s.last() == '/' {
        trim_trailing_slashes(s.drop_last())
    } else {
        s
    }
}

/// The API flavour for a parsed base URL: DeepSeek's Anthropic endpoint on
/// `api.deepseek.com` (any case) under `/anthropic` or `/anthropic/v1`,
/// trailing slashes aside; Anthropic otherwise.
pub open spec fn compat_for_url_parts(p: Option<(Option<Seq<char>>, Seq<char>)>) -> ClaudeProviderCompat {
    match p {
        Some((Some(host), path)) => if eq_ignore_ascii_case(host, "api.deepseek.com"@) && (
        trim_trailing_slashes(path) == "/anthropic"@ || trim_trailing_slashes(path)
            == "/anthropic/v1"@) {
            ClaudeProviderCompat::DeepSeek
        } else {
            ClaudeProviderCompat::Anthropic
        },
        _ => ClaudeProviderCompat::Anthropic,
    }
}

/// The API flavour for the host and path of a parsed base URL.
pub fn provider_compat_for_url_parts(parts: &Option<(Option<String>, String)>) -> (r:
    ClaudeProviderCompat)
    ensures
        r == compat_for_url_parts(url_parts_view(*parts)),
{
    match parts {
        Some((Some(host), path)) => {
            if !eq_ignore_ascii_case_exec(host.as_str(), "api.deepseek.com") {
                return ClaudeProviderCompat::Anthropic;
            }
            let p = chars_of(path.as_str());
            let mut end = p.len();
            assert(p@.take(end as int) == p@);
            while end > 0 && p[end - 1] == '/'
                invariant
                    end <= p@.len(),
                    trim_trailing_slashes(p@.take(end as int)) == trim_trailing_slashes(p@),
                decreases end,
            {
                assert(p@.take(end as int).drop_last() == p@.take(end - 1));
                end -= 1;
            }
            let mut trimmed: Vec<char> = Vec::new();
            let mut k: usize = 0;
            while k < end
                invariant
                    k <= end <= p@.len(),
                    trimmed@ == p@.take(k as int),
                decreases end - k,
            {
                trimmed.push(p[k]);
                assert(p@.take(k + 1) == p@.take(k as int).push(p@[k as int]));
                k += 1;
            }
            assert(trim_trailing_slashes(p@.take(end as int)) == p@.take(end as int));
            let t = string_from_chars(trimmed.as_slice());
            if str_eq(t.as_str(), "/anthropic") || str_eq(t.as_str(), "/anthropic/v1") {
                ClaudeProviderCompat::DeepSeek
            } else {
                ClaudeProviderCompat::Anthropic
            }
        },
        _ => ClaudeProviderCompat::Anthropic,
    }
}

/// The API flavour for a provider's base URL (Anthropic when there is none
/// or it does not parse).
pub fn provider_compat_for_base_url(base_url: Option<&str>) -> (r: ClaudeProviderCompat)
    ensures
        match base_url {
            None => r == ClaudeProviderCompat::Anthropic,
            Some(u) => r == compat_for_url_parts(url_host_and_path(u@)),
        },
{
    match base_url {
        None => ClaudeProviderCompat::Anthropic,
        Some(u) => {
            let parts = parse_url_host_and_path(u);
            provider_compat_for_url_parts(&parts)
        },
    }
}

/// The API flavour of a provider: DeepSeek when its base URL, its name or
/// its model says so.
pub fn provider_compat_for_provider(
    provider_name: &str,
    base_url: Option<&str>,
    model_slug: Option<&str>,
) -> (r: ClaudeProviderCompat)
    ensures
        r == if (match base_url {
            Some(u) => compat_for_url_parts(url_host_and_path(u@)) == ClaudeProviderCompat::DeepSeek,
            None => false,
        }) || names_deepseek(provider_name@) || (match model_slug {
            Some(m) => names_deepseek(m@),
            None => false,
        }) {
            ClaudeProviderCompat::DeepSeek
        } else {
            ClaudeProviderCompat::Anthropic
        },
{
    if provider_compat_for_base_url(base_url) == ClaudeProviderCompat::DeepSeek
        || looks_like_deepseek_identifier(provider_name) || match model_slug {
        Some(m) => looks_like_deepseek_identifier(m),
        None => false,
    } {
        ClaudeProviderCompat::DeepSeek
    } else {
        ClaudeProviderCompat::Anthropic
    }
}

/// Whether the provider accepts cache edits.
#[derive(Clone, Copy, Debug, PartialEq, Eq, Structural)]
pub enum ClaudeCacheEditingCapability {
    Disabled,
    Enabled,
}

/// Cache edits pinned to a user message.
#[derive(Debug)]
pub struct ClaudePinnedCacheEdits {
    pub user_message_index: usize,
    pub delete_references: Vec<String>,
}

/// How the request edits the provider's prompt cache.
#[derive(Debug)]
pub struct ClaudeCacheEditingOptions {
    pub capability: ClaudeCacheEditingCapability,
    pub new_delete_references: Vec<String>,
    pub pinned_deletes: Vec<ClaudePinnedCacheEdits>,
}

/// Cache editing for a provider: enabled for Anthropic, disabled for
/// DeepSeek, with no edits yet.
pub fn cache_editing_options_for_provider(provider_compat: ClaudeProviderCompat) -> (r:
    ClaudeCacheEditingOptions)
    ensures
        r.capability == match provider_compat {
            ClaudeProviderCompat::Anthropic => ClaudeCacheEditingCapability::Enabled,
            ClaudeProviderCompat::DeepSeek => ClaudeCacheEditingCapability::Disabled,
        },
        r.new_delete_references@.len() == 0,
        r.pinned_deletes@.len() == 0,
{
    ClaudeCacheEditingOptions {
        capability: match provider_compat {
            ClaudeProviderCompat::Anthropic => ClaudeCacheEditingCapability::Enabled,
            ClaudeProviderCompat::DeepSeek => ClaudeCacheEditingCapability::Disabled,
        },
        new_delete_references: Vec::new(),
        pinned_deletes: Vec::new(),
    }
}

/// Reasoning effort requested for a turn.
#[derive(Clone, Copy, Debug, PartialEq, Eq, Structural)]
pub enum ReasoningEffort {
    NoReasoning,
    Minimal,
    Low,
    Medium,
    High,
    XHigh,
}

/// Extended thinking settings of a request.
#[derive(Clone, Copy, Debug, PartialEq, Eq, Structural)]
pub enum ClaudeThinkingConfig {
    Enabled { budget_tokens: u32 },
    Disabled,
}

/// Output effort DeepSeek is asked for.
#[derive(Clone, Copy, Debug, PartialEq, Eq, Structural)]
pub enum ClaudeOutputEffort {
    High,
    Max,
}

/// Thinking budget tokens per effort.
pub const CLAUDE_THINKING_MIN_BUDGET_TOKENS: u32 = 1_024;
pub const CLAUDE_THINKING_MEDIUM_BUDGET_TOKENS: u32 = 2_048;
pub const CLAUDE_THINKING_HIGH_BUDGET_TOKENS: u32 = 4_096;
pub const CLAUDE_THINKING_XHIGH_BUDGET_TOKENS: u32 = 6_144;

/// Thinking for a reasoning effort: none without an effort or at `None`,
/// else enabled with the effort's budget.
pub open spec fn thinking_for(effort: Option<ReasoningEffort>) -> Option<ClaudeThinkingConfig> {
    match effort {
        None => None,
        Some(ReasoningEffort::NoReasoning) => None,
        Some(ReasoningEffort::Minimal) => Some(
            ClaudeThinkingConfig::Enabled { budget_tokens: CLAUDE_THINKING_MIN_BUDGET_TOKENS },
        ),
        Some(ReasoningEffort::Low) => Some(
            ClaudeThinkingConfig::Enabled { budget_tokens: CLAUDE_THINKING_MIN_BUDGET_TOKENS },
        ),
        Some(ReasoningEffort::Medium) => Some(
            ClaudeThinkingConfig::Enabled { budget_tokens: CLAUDE_THINKING_MEDIUM_BUDGET_TOKENS },
        ),
        Some(ReasoningEffort::High) => Some(
            ClaudeThinkingConfig::Enabled { budget_tokens: CLAUDE_THINKING_HIGH_BUDGET_TOKENS },
        ),
        Some(ReasoningEffort::XHigh) => Some(
            ClaudeThinkingConfig::Enabled { budget_tokens: CLAUDE_THINKING_XHIGH_BUDGET_TOKENS },
        ),
    }
}

/// The thinking budget a configuration grants, 0 when thinking is off.
pub open spec fn thinking_budget(c: Option<ClaudeThinkingConfig>) -> int {
    match c {
        Some(ClaudeThinkingConfig::Enabled { budget_tokens }) => budget_tokens as int,
        _ => 0,
    }
}

/// Thinking is off without an effort or at `None`; Minimal and Low think
/// with 1,024 tokens, Medium with 2,048, High with 4,096 and XHigh with
/// 6,144, so each step up in effort strictly raises the budget.
pub proof fn law_thinking_budget_grows_with_effort()
    ensures
        thinking_for(None) is None,
        thinking_for(Some(ReasoningEffort::NoReasoning)) is None,
        thinking_for(Some(ReasoningEffort::Minimal)) == Some(
            ClaudeThinkingConfig::Enabled { budget_tokens: 1_024 },
        ),
        thinking_for(Some(ReasoningEffort::Low)) == Some(ClaudeThinkingConfig::Enabled { budget_tokens: 1_024 }),
        thinking_for(Some(ReasoningEffort::Medium)) == Some(
            ClaudeThinkingConfig::Enabled { budget_tokens: 2_048 },
        ),
        thinking_for(Some(ReasoningEffort::High)) == Some(
            ClaudeThinkingConfig::Enabled { budget_tokens: 4_096 },
        ),
        thinking_for(Some(ReasoningEffort::XHigh)) == Some(
            ClaudeThinkingConfig::Enabled { budget_tokens: 6_144 },
        ),
        thinking_budget(thinking_for(Some(ReasoningEffort::Low))) < thinking_budget(
            thinking_for(Some(ReasoningEffort::Medium)),
        ) < thinking_budget(thinking_for(Some(ReasoningEffort::High))) < thinking_budget(
            thinking_for(Some(ReasoningEffort::XHigh)),
        ),
{
}

/// Extended thinking for a reasoning effort.
pub fn claude_thinking_config(reasoning_effort: Option<ReasoningEffort>) -> (r: Option<
    ClaudeThinkingConfig,
>)
    ensures
        r == thinking_for(reasoning_effort),
{
    let budget_tokens = match reasoning_effort {
        None => {
            return None;
        },
        Some(ReasoningEffort::NoReasoning) => {
            return None;
        },
        Some(ReasoningEffort::Minimal) => CLAUDE_THINKING_MIN_BUDGET_TOKENS,
        Some(ReasoningEffort::Low) => CLAUDE_THINKING_MIN_BUDGET_TOKENS,
        Some(ReasoningEffort::Medium) => CLAUDE_THINKING_MEDIUM_BUDGET_TOKENS,
        Some(ReasoningEffort::High) => CLAUDE_THINKING_HIGH_BUDGET_TOKENS,
        Some(ReasoningEffort::XHigh) => CLAUDE_THINKING_XHIGH_BUDGET_TOKENS,
    };
    Some(ClaudeThinkingConfig::Enabled { budget_tokens })
}

/// The thinking and output effort settings for a provider and effort.
pub open spec fn reasoning_settings_spec(
    provider_compat: ClaudeProviderCompat,
    reasoning_effort: Option<ReasoningEffort>,
) -> (Option<ClaudeThinkingConfig>, Option<ClaudeOutputEffort>) {
    match provider_compat {
        ClaudeProviderCompat::Anthropic => (thinking_for(reasoning_effort), None),
        ClaudeProviderCompat::DeepSeek => (
            match reasoning_effort {
                Some(ReasoningEffort::NoReasoning) => Some(ClaudeThinkingConfig::Disabled),
                _ => thinking_for(reasoning_effort),
            },
            match reasoning_effort {
                None => None,
                Some(ReasoningEffort::NoReasoning) => None,
                Some(ReasoningEffort::XHigh) => Some(ClaudeOutputEffort::Max),
                Some(_) => Some(ClaudeOutputEffort::High),
            },
        ),
    }
}

/// The thinking and output effort settings of a request to a provider:
/// Anthropic gets thinking only; DeepSeek gets thinking explicitly disabled
/// at effort `NoReasoning`, and high output effort (maximum at `XHigh`) for any
/// other effort.
pub fn reasoning_settings(provider_compat: ClaudeProviderCompat, reasoning_effort: Option<
    ReasoningEffort,
>) -> (r: (Option<ClaudeThinkingConfig>, Option<ClaudeOutputEffort>))
    ensures
        r == reasoning_settings_spec(provider_compat, reasoning_effort),
        provider_compat == ClaudeProviderCompat::Anthropic ==> r == (
            thinking_for(reasoning_effort),
            None::<ClaudeOutputEffort>,
        ),
        provider_compat == ClaudeProviderCompat::DeepSeek ==> r.0 == match reasoning_effort {
            Some(ReasoningEffort::NoReasoning) => Some(ClaudeThinkingConfig::Disabled),
            _ => thinking_for(reasoning_effort),
        },
        provider_compat == ClaudeProviderCompat::DeepSeek ==> r.1 == match reasoning_effort {
            None => None,
            Some(ReasoningEffort::NoReasoning) => None,
            Some(ReasoningEffort::XHigh) => Some(ClaudeOutputEffort::Max),
            Some(_) => Some(ClaudeOutputEffort::High),
        },
{
    match provider_compat {
        ClaudeProviderCompat::Anthropic => (claude_thinking_config(reasoning_effort), None),
        ClaudeProviderCompat::DeepSeek => {
            let thinking = match reasoning_effort {
                Some(ReasoningEffort::NoReasoning) => Some(ClaudeThinkingConfig::Disabled),
                _ => claude_thinking_config(reasoning_effort),
            };
            let output = match reasoning_effort {
                None => None,
                Some(ReasoningEffort::NoReasoning) => None,
                Some(ReasoningEffort::XHigh) => Some(ClaudeOutputEffort::Max),
                Some(_) => Some(ClaudeOutputEffort::High),
            };
            (thinking, output)
        },
    }
}

/// Service tier asked of the model provider.
#[derive(Clone, Copy, Debug, PartialEq, Eq, Structural)]
pub enum ServiceTier {
    Fast,
    Flex,
}

/// The service tier setting of the Messages API.
#[derive(Clone, Copy, Debug, PartialEq, Eq, Structural)]
pub enum ClaudeServiceTier {
    Auto,
    StandardOnly,
}

/// The Messages API service tier for a requested tier: `auto` for fast, standard
/// capacity only for flex.
pub fn claude_service_tier(service_tier: Option<ServiceTier>) -> (r: Option<ClaudeServiceTier>)
    ensures
        r == match service_tier {
            Some(ServiceTier::Fast) => Some(ClaudeServiceTier::Auto),
            Some(ServiceTier::Flex) => Some(ClaudeServiceTier::StandardOnly),
            None => None,
        },
{
    match service_tier {
        Some(ServiceTier::Fast) => Some(ClaudeServiceTier::Auto),
        Some(ServiceTier::Flex) => Some(ClaudeServiceTier::StandardOnly),
        None => None,
    }
}

} // verus!
