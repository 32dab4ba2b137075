//! Assembling the Messages API request from the conversation history.
use vstd::prelude::*;
use crate::claude_cache::{
    apply_cache_editing_policy, apply_prompt_cache_policy, cache_edited, law_cache_breakpoint_keeps_media,
    law_cache_editing_keeps_media, marked_stable_prior_text, pins_view, ClaudePromptCacheMode,
};
use crate::claude_history::{block_media, content_media, law_normalizing_adds_no_media, law_pruned_media_within_limit};
use crate::claude_content::{
    content_blocks, content_blocks_view, content_text, content_text_view, data_url_parts, http_url,
    image_block_view, image_content_block, ContentItem,
};
use crate::claude_history::{
    blank, blocks_view, history_error, is_blank, messages_view, normalize_claude_messages,
    normalized_messages, prune_excess_claude_media, pruned_history, push_message, pushed_message,
    repair_tool_result_history, repaired_history, strings_view, text_block, trim, trim_chars,
    validate_tool_result_history, BlockView, ClaudeBlock, ClaudeHistoryError,
    ClaudeHistoryRequirements, ClaudeMessage, ClaudeRole, ImageSource, ImageView, MessageView,
    NestedBlock, NestedView, ResultView, ToolResultContent,
    CLAUDE_MAX_MEDIA_PER_REQUEST, history_media, invalid_history_message, reports_problem,
};
use crate::claude_cache::{system_prompt, ClaudeSystemPrompt};
use crate::claude_provider::{
    reasoning_settings, reasoning_settings_spec, claude_service_tier, thinking_for, ClaudeCacheEditingOptions,
    ClaudeOutputEffort, ClaudeProviderCompat, ClaudeServiceTier, ClaudeThinkingConfig,
    ReasoningEffort, ServiceTier,
};
use crate::claude_tool_input::{
    custom_tool_input, json_single_entry, json_compact_text, json_shape_of, json_string_literal,
    json_type_field, local_shell_call_id, local_shell_input, opt_chars, parse_json_object_or_wrapped,
    provider_state_block, shell_input_json, strings_chars, wrapped_input,
};
use crate::text::{push_all, push_str_chars, str_eq, string_from_chars};

verus! {

/// The history as prepared for sending, before prompt caching: repaired,
/// normalized, pruned to the media limit, normalized again, and never
/// empty.
pub open spec fn prepared_history(ms: Seq<MessageView>, reqs: ClaudeHistoryRequirements) -> Seq<
    MessageView,
> {
    let n = normalized_messages(
        pruned_history(normalized_messages(repaired_history(ms), reqs), CLAUDE_MAX_MEDIA_PER_REQUEST),
        reqs,
    );
    if n.len() == 0 {
        seq![MessageView { role: ClaudeRole::User, content: seq![BlockView::Text { text: " "@, cache_control: None }] }]
    } else {
        n
    }
}

/// The history with both cache policies applied.
pub open spec fn cached_history(
    ms: Seq<MessageView>,
    mode: ClaudePromptCacheMode,
    cache_control: Seq<char>,
    editing: ClaudeCacheEditingOptions,
) -> Seq<MessageView> {
    let p = if mode == ClaudePromptCacheMode::Conversation {
        marked_stable_prior_text(ms, cache_control)
    } else {
        ms
    };
    cache_edited(
        p,
        editing.capability,
        pins_view(editing.pinned_deletes@),
        strings_view(editing.new_delete_references@),
    )
}

/// The messages of a request are never empty and carry at most
/// [`CLAUDE_MAX_MEDIA_PER_REQUEST`] images, whatever the history and the
/// cache policies; a request is only built when they also pass the tool
/// history check (see [`build_claude_messages_request`]).
pub proof fn law_request_history_is_bounded(
    ms: Seq<MessageView>,
    reqs: ClaudeHistoryRequirements,
    mode: ClaudePromptCacheMode,
    cache_control: Seq<char>,
    editing: ClaudeCacheEditingOptions,
)
    ensures
        cached_history(prepared_history(ms, reqs), mode, cache_control, editing).len() > 0,
        history_media(cached_history(prepared_history(ms, reqs), mode, cache_control, editing))
            <= CLAUDE_MAX_MEDIA_PER_REQUEST,
{
    let n1 = normalized_messages(repaired_history(ms), reqs);
    let pruned = pruned_history(n1, CLAUDE_MAX_MEDIA_PER_REQUEST);
    law_pruned_media_within_limit(n1, CLAUDE_MAX_MEDIA_PER_REQUEST);
    law_normalizing_adds_no_media(pruned, reqs);
    let n = normalized_messages(pruned, reqs);
    let p = prepared_history(ms, reqs);
    if n.len() == 0 {
        let c = seq![BlockView::Text { text: " "@, cache_control: None }];
        assert(c.drop_last() =~= Seq::<BlockView>::empty());
        assert(c.last() == BlockView::Text { text: " "@, cache_control: None });
        assert(content_media(c) == content_media(c.drop_last()) + block_media(c.last()));
        assert(content_media(c) == 0);
        assert(p == seq![MessageView { role: ClaudeRole::User, content: c }]);
        assert(p.drop_last() =~= Seq::<MessageView>::empty());
        assert(history_media(p) == history_media(p.drop_last()) + content_media(p.last().content));
        assert(history_media(p) == 0);
    }
    let q = if mode == ClaudePromptCacheMode::Conversation {
        marked_stable_prior_text(p, cache_control)
    } else {
        p
    };
    law_cache_breakpoint_keeps_media(p, cache_control);
    law_cache_editing_keeps_media(
        q,
        editing.capability,
        pins_view(editing.pinned_deletes@),
        strings_view(editing.new_delete_references@),
    );
}

/// The messages of a request and whether its last tool carries the cache
/// breakpoint.
#[derive(Debug)]
pub struct PreparedMessages {
    pub messages: Vec<ClaudeMessage>,
    pub last_tool_cached: bool,
}

/// The messages of a request built from the raw history: repaired,
/// normalized, pruned, normalized again, never empty, with both cache
/// policies applied; refused when the result still breaks the tool
/// history rules.
pub fn prepare_claude_messages(
    raw: &Vec<ClaudeMessage>,
    reqs: &ClaudeHistoryRequirements,
    mode: ClaudePromptCacheMode,
    has_tools: bool,
    system: &str,
    cache_control: &str,
    editing: &ClaudeCacheEditingOptions,
) -> (r: Result<PreparedMessages, ClaudeHistoryError>)
    requires
        history_media(normalized_messages(repaired_history(messages_view(raw@)), *reqs))
            <= usize::MAX,
    ensures
        match history_error(
            cached_history(prepared_history(messages_view(raw@), *reqs), mode, cache_control@, *editing),
        ) {
            Some(p) => r matches Err(e) && e.message_view() == invalid_history_message(p),
            None => r matches Ok(pm) && messages_view(pm.messages@) == cached_history(
                prepared_history(messages_view(raw@), *reqs),
                mode,
                cache_control@,
                *editing,
            ) && pm.last_tool_cached == (mode != ClaudePromptCacheMode::Off && has_tools),
        },
{
    let repaired = repair_tool_result_history(raw);
    let mut messages = normalize_claude_messages(&repaired, reqs);
    prune_excess_claude_media(&mut messages, CLAUDE_MAX_MEDIA_PER_REQUEST);
    let mut messages = normalize_claude_messages(&messages, reqs);
    if messages.len() == 0 {
        let mut content: Vec<ClaudeBlock> = Vec::new();
        content.push(text_block(" "));
        let ghost cv = blocks_view(content@);
        assert(cv == seq![BlockView::Text { text: " "@, cache_control: None }]);
        assert(messages_view(messages@) == Seq::<MessageView>::empty());
        push_message(&mut messages, ClaudeRole::User, content);
        assert(messages_view(messages@) == seq![MessageView { role: ClaudeRole::User, content: cv }]);
    }
    assert(messages_view(messages@) == prepared_history(messages_view(raw@), *reqs));
    let last_tool_cached = apply_prompt_cache_policy(mode, has_tools, system, &mut messages, cache_control);
    apply_cache_editing_policy(editing, &mut messages);
    match validate_tool_result_history(&messages) {
        Ok(()) => Ok(PreparedMessages { messages, last_tool_cached }),
        Err(e) => Err(e),
    }
}

/// The system prompt from its segments: each trimmed, empty ones left out,
/// joined by blank lines.
pub open spec fn system_text(segments: Seq<Seq<char>>) -> Seq<char>
    decreases segments.len(),
{
    if segments.len() == 0 {
        Seq::empty()
    } else {
        let rest = system_text(segments.drop_last());
        let t = trim(segments.last());
        if t.len() == 0 {
            rest
        } else if rest.len() == 0 {
            t
        } else {
            rest + "\n\n"@ + t
        }
    }
}

/// Joins the system prompt segments (see [`system_text`]).
pub fn join_system_segments(segments: &Vec<String>) -> (r: String)
    ensures
        r@ == system_text(strings_view(segments@)),
{
    let ghost sv = strings_view(segments@);
    let mut out: Vec<char> = Vec::new();
    let mut i: usize = 0;
    while i < segments.len()
        invariant
            i <= segments@.len(),
            sv == strings_view(segments@),
            out@ == system_text(sv.take(i as int)),
        decreases segments.len() - i,
    {
        proof {
            assert(sv.take(i + 1).drop_last() == sv.take(i as int));
            assert(sv.take(i + 1).last() == segments@[i as int]@);
        }
        let t = trim_chars(segments[i].as_str());
        if t.len() > 0 {
            if out.len() > 0 {
                push_str_chars(&mut out, "\n\n");
            }
            push_all(&mut out, &t);
        }
        i += 1;
    }
    assert(sv.take(segments.len() as int) == sv);
    string_from_chars(out.as_slice())
}

/// The body of a tool call's output.
#[derive(Debug)]
pub enum OutputBody {
    Text(String),
    ContentItems(Vec<OutputContentItem>),
}

/// An item of a tool call's output.
#[derive(Debug)]
pub enum OutputContentItem {
    InputText { text: String },
    InputImage { image_url: String, detail: Option<String> },
    /// Encrypted output, which only its producer can read.
    EncryptedContent { encrypted: String },
}

/// A tool call's output: its body, its rendering as one text, and whether
/// it succeeded.
#[derive(Debug)]
pub struct FunctionOutput {
    pub body: OutputBody,
    pub rendered: String,
    pub success: Option<bool>,
}

/// The nested block for an image reference.
pub open spec fn nested_image_view(url: Seq<char>) -> NestedView {
    match image_block_view(url) {
        BlockView::Image { source } => NestedView::Image { source },
        BlockView::Text { text, cache_control } => NestedView::Text { text, cache_control },
        _ => NestedView::Other { raw: url },
    }
}

/// The nested blocks of output items: non-empty texts and images.
pub open spec fn output_blocks_view(items: Seq<OutputContentItem>) -> Seq<NestedView>
    decreases items.len(),
{
    if items.len() == 0 {
        Seq::empty()
    } else {
        let rest = output_blocks_view(items.drop_last());
        match items.last() {
            OutputContentItem::InputText { text } => if text@.len() > 0 {
                rest.push(NestedView::Text { text: text@, cache_control: None })
            } else {
                rest
            },
            OutputContentItem::InputImage { image_url, .. } => rest.push(nested_image_view(image_url@)),
            OutputContentItem::EncryptedContent { .. } => rest,
        }
    }
}

/// The result content of a tool call's output: its text; or its items as
/// blocks, or its rendered text when no item yields a block.
pub open spec fn output_content_view(o: FunctionOutput) -> ResultView {
    match o.body {
        OutputBody::Text(t) => ResultView::Text(t@),
        OutputBody::ContentItems(items) => if output_blocks_view(items@).len() == 0 {
            ResultView::Text(o.rendered@)
        } else {
            ResultView::Blocks(output_blocks_view(items@))
        },
    }
}

fn nested_image_block(image_url: &str) -> (r: NestedBlock)
    ensures
        r@ == nested_image_view(image_url@),
{
    match image_content_block(image_url) {
        ClaudeBlock::Image { source } => NestedBlock::Image { source },
        ClaudeBlock::Text { text, cache_control } => NestedBlock::Text { text, cache_control },
        _ => NestedBlock::Other { raw: image_url.to_string() },
    }
}

/// The result content of a tool call's output.
pub fn function_output_content(output: &FunctionOutput) -> (r: ToolResultContent)
    ensures
        r@ == output_content_view(*output),
{
    match &output.body {
        OutputBody::Text(t) => ToolResultContent::Text(t.clone()),
        OutputBody::ContentItems(items) => {
            let mut blocks: Vec<NestedBlock> = Vec::new();
            let mut i: usize = 0;
            while i < items.len()
                invariant
                    i <= items@.len(),
                    blocks@.map_values(|n: NestedBlock| n@) == output_blocks_view(
                        items@.take(i as int),
                    ),
                decreases items.len() - i,
            {
                proof {
                    assert(items@.take(i + 1).drop_last() == items@.take(i as int));
                    assert(items@.take(i + 1).last() == items@[i as int]);
                }
                let ghost before = blocks@.map_values(|n: NestedBlock| n@);
                match &items[i] {
                    OutputContentItem::InputText { text } => {
                        if !text.as_str().is_empty() {
                            let b = NestedBlock::Text { text: text.clone(), cache_control: None };
                            let ghost bv = b@;
                            blocks.push(b);
                            assert(blocks@.map_values(|n: NestedBlock| n@) == before.push(bv));
                        }
                    },
                    OutputContentItem::EncryptedContent { .. } => {},
                    OutputContentItem::InputImage { image_url, .. } => {
                        let b = nested_image_block(image_url.as_str());
                        let ghost bv = b@;
                        blocks.push(b);
                        assert(blocks@.map_values(|n: NestedBlock| n@) == before.push(bv));
                    },
                }
                i += 1;
            }
            assert(items@.take(items.len() as int) == items@);
            if blocks.len() == 0 {
                ToolResultContent::Text(output.rendered.clone())
            } else {
                ToolResultContent::Blocks(blocks)
            }
        },
    }
}

/// The thinking block of a reasoning item: only for the model family's own items,
/// with the texts concatenated and a non-blank signature; none when both
/// are missing.
pub open spec fn thinking_view(
    claude_item: bool,
    texts: Option<Seq<Seq<char>>>,
    signature: Option<Seq<char>>,
) -> Option<BlockView> {
    if !claude_item {
        None
    } else {
        let thinking = match texts {
            Some(t) => t.fold_left(Seq::<char>::empty(), |acc: Seq<char>, x: Seq<char>| acc + x),
            None => Seq::empty(),
        };
        let sig = match signature {
            Some(s) => if blank(s) {
                None
            } else {
                Some(s)
            },
            None => None,
        };
        if blank(thinking) && sig is None {
            None
        } else {
            Some(BlockView::Thinking { thinking, signature: sig })
        }
    }
}

/// The thinking block of a reasoning item (see [`thinking_view`]).
pub fn thinking_block(claude_item: bool, content: Option<&Vec<String>>, encrypted_content: Option<
    &String,
>) -> (r: Option<ClaudeBlock>)
    ensures
        match r {
            Some(b) => thinking_view(
                claude_item,
                match content {
                    Some(c) => Some(strings_view(c@)),
                    None => None,
                },
                match encrypted_content {
                    Some(e) => Some(e@),
                    None => None,
                },
            ) == Some(b@),
            None => thinking_view(
                claude_item,
                match content {
                    Some(c) => Some(strings_view(c@)),
                    None => None,
                },
                match encrypted_content {
                    Some(e) => Some(e@),
                    None => None,
                },
            ) is None,
        },
{
    if !claude_item {
        return None;
    }
    let mut thinking: Vec<char> = Vec::new();
    let ghost tv = match content {
        Some(c) => Some(strings_view(c@)),
        None => None::<Seq<Seq<char>>>,
    };
    match content {
        Some(c) => {
            let ghost sv = strings_view(c@);
            let mut i: usize = 0;
            while i < c.len()
                invariant
                    i <= c@.len(),
                    sv == strings_view(c@),
                    thinking@ == sv.take(i as int).fold_left(
                        Seq::<char>::empty(),
                        |acc: Seq<char>, x: Seq<char>| acc + x,
                    ),
                decreases c.len() - i,
            {
                proof {
                    assert(sv.take(i + 1).drop_last() == sv.take(i as int));
                    assert(sv.take(i + 1).last() == c@[i as int]@);
                }
                push_str_chars(&mut thinking, c[i].as_str());
                i += 1;
            }
            assert(sv.take(c.len() as int) == sv);
        },
        None => {},
    }
    let text = string_from_chars(thinking.as_slice());
    let signature: Option<String> = match encrypted_content {
        Some(e) => if is_blank(e.as_str()) {
            None
        } else {
            Some(e.clone())
        },
        None => None,
    };
    if is_blank(text.as_str()) && signature.is_none() {
        return None;
    }
    Some(ClaudeBlock::Thinking { thinking: text, signature })
}

/// What a tool call is on the model's side.
#[derive(Clone, Copy, Debug, PartialEq, Eq, Structural)]
pub enum ClaudeToolCallKind {
    Function,
    Custom,
    ToolSearch,
}

/// How a tool is named towards the model.
#[derive(Debug)]
pub struct ClaudeToolCallInfo {
    pub namespace: Option<String>,
    pub name: String,
    pub kind: ClaudeToolCallKind,
    pub claude_name: String,
}

/// The model-side name for a tool: that of the last entry for its namespace,
/// name and kind, else `fallback`.
pub open spec fn mapped_name(
    infos: Seq<ClaudeToolCallInfo>,
    namespace: Option<Seq<char>>,
    name: Seq<char>,
    kind: ClaudeToolCallKind,
    fallback: Seq<char>,
) -> Seq<char>
    decreases infos.len(),
{
    if infos.len() == 0 {
        fallback
    } else {
        let last = infos.last();
        if crate::claude_history::opt_view(last.namespace) == namespace && last.name@ == name
            && last.kind == kind {
            last.claude_name@
        } else {
            mapped_name(infos.drop_last(), namespace, name, kind, fallback)
        }
    }
}

fn opt_str_eq(a: &Option<String>, b: Option<&str>) -> (r: bool)
    ensures
        r == (crate::claude_history::opt_view(*a) == match b {
            Some(x) => Some(x@),
            None => None::<Seq<char>>,
        }),
{
    match (a, b) {
        (Some(x), Some(y)) => str_eq(x.as_str(), y),
        (None, None) => true,
        _ => false,
    }
}

/// The model-side name for a tool (see [`mapped_name`]).
pub fn mapped_claude_tool_name(
    infos: &Vec<ClaudeToolCallInfo>,
    namespace: Option<&str>,
    name: &str,
    kind: ClaudeToolCallKind,
    fallback: &str,
) -> (r: String)
    ensures
        r@ == mapped_name(
            infos@,
            match namespace {
                Some(x) => Some(x@),
                None => None,
            },
            name@,
            kind,
            fallback@,
        ),
{
    let ghost ns = match namespace {
        Some(x) => Some(x@),
        None => None::<Seq<char>>,
    };
    let mut k = infos.len();
    assert(infos@.take(k as int) == infos@);
    while k > 0
        invariant
            k <= infos@.len(),
            ns == match namespace {
                Some(x) => Some(x@),
                None => None::<Seq<char>>,
            },
            mapped_name(infos@, ns, name@, kind, fallback@) == mapped_name(
                infos@.take(k as int),
                ns,
                name@,
                kind,
                fallback@,
            ),
        decreases k,
    {
        let info = &infos[k - 1];
        let ghost t = infos@.take(k as int);
        assert(t.last() == *info);
        assert(t.drop_last() == infos@.take(k - 1));
        if opt_str_eq(&info.namespace, namespace) && str_eq(info.name.as_str(), name) && info.kind
            == kind {
            return info.claude_name.clone();
        }
        k -= 1;
    }
    fallback.to_string()
}

/// An item of the conversation history, as the request builder reads it:
/// tool names resolved, JSON inputs as text (see [`function_call_item`] and
/// the constructors beside it).
#[derive(Debug)]
pub enum HistoryItem {
    /// A message from `role` (`system`, `developer`, `user`, `assistant`, ...).
    Message { role: String, content: Vec<ContentItem> },
    /// A tool call, with the tool's model-side name and its input as JSON text.
    ToolCall { call_id: String, claude_name: String, input_json: String },
    /// The output of a tool call.
    ToolOutput { call_id: String, output: FunctionOutput },
    /// The output of a tool search, as text.
    ToolSearchOutput { call_id: String, text: String },
    /// A reasoning item.
    Reasoning { claude_item: bool, texts: Option<Vec<String>>, encrypted_content: Option<String> },
    /// Provider state carried over, as JSON text with its `type`.
    ProviderState { value: String, kind: String },
    /// An item the request leaves out.
    Skipped,
}

/// The messages and system prompt segments after reading `items` into
/// `ms` and `sys`.
pub open spec fn read_items(items: Seq<HistoryItem>) -> (Seq<MessageView>, Seq<Seq<char>>)
    decreases items.len(),
{
    if items.len() == 0 {
        (Seq::empty(), Seq::empty())
    } else {
        let (ms, sys) = read_items(items.drop_last());
        match items.last() {
            HistoryItem::Message { role, content } => if role@ == "system"@ || role@
                == "developer"@ {
                let t = content_text_view(content@);
                if blank(t) {
                    (ms, sys)
                } else {
                    (ms, sys.push(t))
                }
            } else if role@ == "user"@ {
                (pushed_message(ms, ClaudeRole::User, content_blocks_view(content@)), sys)
            } else if role@ == "assistant"@ {
                (pushed_message(ms, ClaudeRole::Assistant, content_blocks_view(content@)), sys)
            } else {
                (ms, sys)
            },
            HistoryItem::ToolCall { call_id, claude_name, input_json } => (
                pushed_message(
                    ms,
                    ClaudeRole::Assistant,
                    seq![BlockView::ToolUse { id: call_id@, name: claude_name@, input: input_json@ }],
                ),
                sys,
            ),
            HistoryItem::ToolOutput { call_id, output } => (
                pushed_message(
                    ms,
                    ClaudeRole::User,
                    seq![
                        BlockView::ToolResult {
                            tool_use_id: call_id@,
                            content: output_content_view(output),
                            is_error: output.success == Some(false),
                            cache_reference: None,
                        },
                    ],
                ),
                sys,
            ),
            HistoryItem::ToolSearchOutput { call_id, text } => (
                pushed_message(
                    ms,
                    ClaudeRole::User,
                    seq![
                        BlockView::ToolResult {
                            tool_use_id: call_id@,
                            content: ResultView::Text(text@),
                            is_error: false,
                            cache_reference: None,
                        },
                    ],
                ),
                sys,
            ),
            HistoryItem::Reasoning { claude_item, texts, encrypted_content } => match thinking_view(
                claude_item,
                match texts {
                    Some(c) => Some(strings_view(c@)),
                    None => None,
                },
                crate::claude_history::opt_view(encrypted_content),
            ) {
                Some(b) => (pushed_message(ms, ClaudeRole::Assistant, seq![b]), sys),
                None => (ms, sys),
            },
            HistoryItem::ProviderState { value, kind } => (
                pushed_message(
                    ms,
                    ClaudeRole::Assistant,
                    seq![BlockView::ProviderState { value: value@, kind: Some(kind@) }],
                ),
                sys,
            ),
            HistoryItem::Skipped => (ms, sys),
        }
    }
}

fn one_block(b: ClaudeBlock) -> (r: Vec<ClaudeBlock>)
    ensures
        blocks_view(r@) == seq![b@],
{
    let mut v: Vec<ClaudeBlock> = Vec::new();
    v.push(b);
    v
}

/// Reads history items into messages and system prompt segments (see
/// [`read_items`]).
pub fn history_messages(items: &Vec<HistoryItem>) -> (r: (Vec<ClaudeMessage>, Vec<String>))
    ensures
        (messages_view(r.0@), strings_view(r.1@)) == read_items(items@),
{
    let mut messages: Vec<ClaudeMessage> = Vec::new();
    let mut system: Vec<String> = Vec::new();
    let mut i: usize = 0;
    while i < items.len()
        invariant
            i <= items@.len(),
            (messages_view(messages@), strings_view(system@)) == read_items(items@.take(i as int)),
        decreases items.len() - i,
    {
        proof {
            assert(items@.take(i + 1).drop_last() == items@.take(i as int));
            assert(items@.take(i + 1).last() == items@[i as int]);
        }
        match &items[i] {
            HistoryItem::Message { role, content } => {
                if str_eq(role.as_str(), "system") || str_eq(role.as_str(), "developer") {
                    let text = content_text(content);
                    if !is_blank(text.as_str()) {
                        let ghost before = strings_view(system@);
                        let ghost tv = text@;
                        system.push(text);
                        assert(strings_view(system@) == before.push(tv));
                    }
                } else if str_eq(role.as_str(), "user") {
                    push_message(&mut messages, ClaudeRole::User, content_blocks(content));
                } else if str_eq(role.as_str(), "assistant") {
                    push_message(&mut messages, ClaudeRole::Assistant, content_blocks(content));
                }
            },
            HistoryItem::ToolCall { call_id, claude_name, input_json } => {
                let b = ClaudeBlock::ToolUse {
                    id: call_id.clone(),
                    name: claude_name.clone(),
                    input: input_json.clone(),
                };
                push_message(&mut messages, ClaudeRole::Assistant, one_block(b));
            },
            HistoryItem::ToolOutput { call_id, output } => {
                let is_error = match output.success {
                    Some(false) => true,
                    _ => false,
                };
                let b = ClaudeBlock::ToolResult {
                    tool_use_id: call_id.clone(),
                    content: function_output_content(output),
                    is_error,
                    cache_reference: None,
                };
                push_message(&mut messages, ClaudeRole::User, one_block(b));
            },
            HistoryItem::ToolSearchOutput { call_id, text } => {
                let b = ClaudeBlock::ToolResult {
                    tool_use_id: call_id.clone(),
                    content: ToolResultContent::Text(text.clone()),
                    is_error: false,
                    cache_reference: None,
                };
                push_message(&mut messages, ClaudeRole::User, one_block(b));
            },
            HistoryItem::Reasoning { claude_item, texts, encrypted_content } => {
                let c = match texts {
                    Some(c) => Some(c),
                    None => None,
                };
                let e = match encrypted_content {
                    Some(e) => Some(e),
                    None => None,
                };
                match thinking_block(*claude_item, c, e) {
                    Some(b) => push_message(&mut messages, ClaudeRole::Assistant, one_block(b)),
                    None => {},
                }
            },
            HistoryItem::ProviderState { value, kind } => {
                let b = ClaudeBlock::ProviderState { value: value.clone(), kind: Some(kind.clone()) };
                push_message(&mut messages, ClaudeRole::Assistant, one_block(b));
            },
            HistoryItem::Skipped => {},
        }
        i += 1;
    }
    assert(items@.take(items.len() as int) == items@);
    (messages, system)
}

/// Output token cap of a request.
pub const DEFAULT_MAX_TOKENS: u64 = 8_192;

/// The settings of a request that depend on the provider and the turn.
pub struct ClaudeRequestOptions {
    pub reasoning_effort: Option<ReasoningEffort>,
    pub service_tier: Option<ServiceTier>,
    pub prompt_cache_mode: ClaudePromptCacheMode,
    /// The cache breakpoint to place, as the provider names it.
    pub cache_control: String,
    pub cache_editing: ClaudeCacheEditingOptions,
    pub provider_compat: ClaudeProviderCompat,
}

/// A Messages API request, apart from its tools.
#[derive(Debug)]
pub struct ClaudeRequest {
    pub model: String,
    pub max_tokens: u64,
    pub messages: Vec<ClaudeMessage>,
    pub system: Option<ClaudeSystemPrompt>,
    /// `Some(disable_parallel_tool_use)` when there are tools.
    pub tool_choice: Option<bool>,
    pub thinking: Option<ClaudeThinkingConfig>,
    pub output_effort: Option<ClaudeOutputEffort>,
    pub service_tier: Option<ClaudeServiceTier>,
    /// The last tool carries the cache breakpoint.
    pub last_tool_cached: bool,
    pub stream: bool,
}

/// The system prompt segments: the base instructions, the output schema
/// instruction when there is one, then the system and developer messages.
pub open spec fn system_segments(
    base: Seq<char>,
    schema: Option<Seq<char>>,
    items: Seq<HistoryItem>,
) -> Seq<Seq<char>> {
    (seq![base] + match schema {
        Some(s) => seq![s],
        None => Seq::empty(),
    }) + read_items(items).1
}

/// Builds the request (apart from its tools) for `model_slug` from the
/// history `items`: system prompt from its segments, messages prepared and
/// cached, reasoning and service tier settings; refused when the history
/// breaks the tool history rules.
pub fn build_claude_messages_request(
    base_instructions: &str,
    output_schema_instruction: Option<String>,
    items: &Vec<HistoryItem>,
    model_slug: &str,
    tool_count: usize,
    parallel_tool_calls: bool,
    reqs: &ClaudeHistoryRequirements,
    options: &ClaudeRequestOptions,
) -> (r: Result<ClaudeRequest, ClaudeHistoryError>)
    requires
        history_media(normalized_messages(repaired_history(read_items(items@).0), *reqs))
            <= usize::MAX,
    ensures
        ({
            let system = system_text(
                system_segments(
                    base_instructions@,
                    crate::claude_history::opt_view(output_schema_instruction),
                    items@,
                ),
            );
            let final_messages = cached_history(
                prepared_history(read_items(items@).0, *reqs),
                options.prompt_cache_mode,
                options.cache_control@,
                options.cache_editing,
            );
            match history_error(final_messages) {
                Some(p) => r matches Err(e) && e.message_view() == invalid_history_message(p),
                None => r matches Ok(req) && {
                    &&& req.model@ == model_slug@
                    &&& req.max_tokens == DEFAULT_MAX_TOKENS
                    &&& messages_view(req.messages@) == final_messages
                    &&& (system.len() == 0 ==> req.system is None)
                    &&& (system.len() > 0 && options.prompt_cache_mode == ClaudePromptCacheMode::System
                        ==> (req.system matches Some(ClaudeSystemPrompt::Cached { text, cache_control })
                        && text@ == system && cache_control@ == options.cache_control@))
                    &&& (system.len() > 0 && options.prompt_cache_mode != ClaudePromptCacheMode::System
                        ==> (req.system matches Some(ClaudeSystemPrompt::Text(text)) && text@ == system))
                    &&& req.tool_choice == if tool_count > 0 {
                        Some(!parallel_tool_calls)
                    } else {
                        None
                    }
                    &&& (req.thinking, req.output_effort) == reasoning_settings_spec(
                        options.provider_compat,
                        options.reasoning_effort,
                    )
                    &&& req.service_tier == match options.service_tier {
                        Some(ServiceTier::Fast) => Some(ClaudeServiceTier::Auto),
                        Some(ServiceTier::Flex) => Some(ClaudeServiceTier::StandardOnly),
                        None => None,
                    }
                    &&& req.last_tool_cached == (options.prompt_cache_mode
                        != ClaudePromptCacheMode::Off && tool_count > 0)
                    &&& req.stream
                },
            }
        }),
{
    let (messages, extra_segments) = history_messages(items);
    let ghost schema_v = crate::claude_history::opt_view(output_schema_instruction);
    let mut segments: Vec<String> = Vec::new();
    segments.push(base_instructions.to_string());
    assert(strings_view(segments@) == seq![base_instructions@]);
    match output_schema_instruction {
        Some(s) => {
            let ghost sv = s@;
            segments.push(s);
            assert(strings_view(segments@) == seq![base_instructions@, sv]);
        },
        None => {},
    }
    let ghost head = strings_view(segments@);
    assert(head == seq![base_instructions@] + match schema_v {
        Some(x) => seq![x],
        None => Seq::<Seq<char>>::empty(),
    });
    let mut j: usize = 0;
    while j < extra_segments.len()
        invariant
            j <= extra_segments@.len(),
            strings_view(segments@) == head + strings_view(extra_segments@).take(j as int),
        decreases extra_segments.len() - j,
    {
        let ghost before = strings_view(segments@);
        segments.push(extra_segments[j].clone());
        assert(strings_view(segments@) == before.push(extra_segments@[j as int]@));
        assert(strings_view(extra_segments@).take(j + 1) == strings_view(extra_segments@).take(
            j as int,
        ).push(extra_segments@[j as int]@));
        j += 1;
    }
    assert(strings_view(extra_segments@).take(extra_segments.len() as int) == strings_view(
        extra_segments@,
    ));
    assert(strings_view(segments@) == system_segments(base_instructions@, schema_v, items@));
    let system = join_system_segments(&segments);
    let prepared = prepare_claude_messages(
        &messages,
        reqs,
        options.prompt_cache_mode,
        tool_count > 0,
        system.as_str(),
        options.cache_control.as_str(),
        &options.cache_editing,
    )?;
    let (thinking, output_effort) = reasoning_settings(options.provider_compat, options.reasoning_effort);
    let tool_choice = if tool_count > 0 {
        Some(!parallel_tool_calls)
    } else {
        None
    };
    Ok(
        ClaudeRequest {
            model: model_slug.to_string(),
            max_tokens: DEFAULT_MAX_TOKENS,
            messages: prepared.messages,
            system: system_prompt(system, options.prompt_cache_mode, options.cache_control.as_str()),
            tool_choice,
            thinking,
            output_effort,
            service_tier: claude_service_tier(options.service_tier),
            last_tool_cached: prepared.last_tool_cached,
            stream: true,
        },
    )
}


/// The history item of a function call: its input is the JSON object of
/// `arguments`, or `arguments` wrapped under `input`.
pub fn function_call_item(call_id: &str, claude_name: &str, arguments: &str) -> (r: HistoryItem)
    ensures
        r matches HistoryItem::ToolCall { call_id: c, claude_name: n, input_json: i } && c@ == call_id@
            && n@ == claude_name@ && i@ == wrapped_input(
            json_shape_of(arguments@),
            json_compact_text(arguments@),
            json_string_literal(arguments@),
        ),
{
    HistoryItem::ToolCall {
        call_id: call_id.to_string(),
        claude_name: claude_name.to_string(),
        input_json: parse_json_object_or_wrapped(arguments),
    }
}

/// The history item of a freeform tool call: its input text under `input`.
pub fn custom_tool_call_item(call_id: &str, claude_name: &str, input: &str) -> (r: HistoryItem)
    ensures
        r matches HistoryItem::ToolCall { call_id: c, claude_name: n, input_json: i } && c@ == call_id@
            && n@ == claude_name@ && i@ == json_single_entry("input"@, json_string_literal(input@)),
{
    HistoryItem::ToolCall {
        call_id: call_id.to_string(),
        claude_name: claude_name.to_string(),
        input_json: custom_tool_input(input),
    }
}

/// The history item of a local shell call, under its call id (else its item
/// id, else `local_shell_call`).
pub fn local_shell_call_item(
    id: Option<String>,
    call_id: Option<String>,
    claude_name: &str,
    command: &Vec<String>,
    workdir: &Option<String>,
    timeout_ms: Option<u64>,
) -> (r: HistoryItem)
    ensures
        r matches HistoryItem::ToolCall { call_id: c, claude_name: n, input_json: i } && n@
            == claude_name@ && i@ == shell_input_json(strings_chars(command@), opt_chars(*workdir), timeout_ms)
            && c@ == match (call_id, id) {
            (Some(x), _) => x@,
            (None, Some(y)) => y@,
            (None, None) => "local_shell_call"@,
        },
{
    HistoryItem::ToolCall {
        call_id: local_shell_call_id(id, call_id),
        claude_name: claude_name.to_string(),
        input_json: local_shell_input(command, workdir, timeout_ms),
    }
}

/// The history item of a compaction: its provider state when
/// `encrypted_content` is a JSON object with a string `type`, else nothing.
pub fn compaction_item(encrypted_content: &str) -> (r: HistoryItem)
    ensures
        match json_type_field(encrypted_content@) {
            None => r is Skipped,
            Some(kind) => r matches HistoryItem::ProviderState { value, kind: k } && k@ == kind && value@
                == json_compact_text(encrypted_content@),
        },
{
    match provider_state_block(encrypted_content) {
        Some(ClaudeBlock::ProviderState { value, kind: Some(kind) }) => HistoryItem::ProviderState { value, kind },
        _ => HistoryItem::Skipped,
    }
}

} // verus!
