//! Assembling a Chat Completions request from the conversation history.
use vstd::prelude::*;
use crate::claude_provider::ReasoningEffort;
use crate::claude_tool_input::{
    entries_view, json_compact_text, json_object, json_object_text, json_shape_of, json_string, json_string_literal,
    read_json, JsonShape,
};
use crate::claude_content::{starts_with_chars, ContentItem};
use crate::claude_history::{blank, is_blank, opt_view, strings_view};
use crate::claude_request::{FunctionOutput, OutputBody, OutputContentItem};
use crate::text::{chars_of, decimal, push_decimal, push_str_chars, str_eq, string_from_chars};
use crate::context_fragments::{chat_guidance_rendered, ChatFileToolGuidance};
use crate::file_tool_plan::{has_first_party, has_first_party_dedicated_file_tool, ChatFileToolMode, ToolSpecSummary};

verus! {

/// The role of a chat message.
#[derive(Clone, Copy, Debug, PartialEq, Eq, Structural)]
pub enum ChatRole {
    System,
    Developer,
    User,
    Assistant,
    Tool,
}

/// The chat role for a history role name.
pub open spec fn chat_role_of(role: Seq<char>) -> Option<ChatRole> {
    if role == "system"@ {
        Some(ChatRole::System)
    } else if role == "developer"@ {
        Some(ChatRole::Developer)
    } else if role == "user"@ {
        Some(ChatRole::User)
    } else if role == "assistant"@ {
        Some(ChatRole::Assistant)
    } else {
        None
    }
}

/// The chat role for a history role name.
pub fn chat_role(role: &str) -> (r: Option<ChatRole>)
    ensures
        r == chat_role_of(role@),
{
    if str_eq(role, "system") {
        Some(ChatRole::System)
    } else if str_eq(role, "developer") {
        Some(ChatRole::Developer)
    } else if str_eq(role, "user") {
        Some(ChatRole::User)
    } else if str_eq(role, "assistant") {
        Some(ChatRole::Assistant)
    } else {
        None
    }
}

/// A URL the chat API can fetch an image from: a `data:` URL or HTTP(S).
pub open spec fn supported_image_url(url: Seq<char>) -> bool {
    (url.len() >= 5 && url.take(5) == "data:"@) || (url.len() >= 8 && url.take(8) == "https://"@)
        || (url.len() >= 7 && url.take(7) == "http://"@)
}

/// Whether the chat API can fetch an image from `url`.
pub fn is_supported_image_url(url: &str) -> (r: bool)
    ensures
        r == supported_image_url(url@),
{
    let v = chars_of(url);
    proof {
        reveal_strlit("data:");
        reveal_strlit("https://");
        reveal_strlit("http://");
    }
    starts_with_chars(&v, "data:") || starts_with_chars(&v, "https://") || starts_with_chars(
        &v,
        "http://",
    )
}

/// A part of multi-part chat content.
#[derive(Debug, PartialEq)]
pub enum ChatContentPart {
    Text { text: String },
    ImageUrl { url: String, detail: Option<String> },
}

/// The content of a chat message.
#[derive(Debug, PartialEq)]
pub enum ChatMessageContent {
    Text(String),
    Parts(Vec<ChatContentPart>),
}

/// A tool call of an assistant message.
#[derive(Debug, PartialEq)]
pub struct ChatToolCall {
    pub id: String,
    pub name: String,
    pub arguments: String,
}

/// A chat message.
#[derive(Debug, PartialEq)]
pub struct ChatMessage {
    pub role: ChatRole,
    pub content: Option<ChatMessageContent>,
    pub tool_calls: Vec<ChatToolCall>,
    pub tool_call_id: Option<String>,
    pub reasoning_content: Option<String>,
}

pub enum PartView {
    Text { text: Seq<char> },
    ImageUrl { url: Seq<char>, detail: Option<Seq<char>> },
}

pub enum ChatContentView {
    Text(Seq<char>),
    Parts(Seq<PartView>),
}

pub struct ChatMessageView {
    pub role: ChatRole,
    pub content: Option<ChatContentView>,
    pub tool_calls: Seq<(Seq<char>, Seq<char>, Seq<char>)>,
    pub tool_call_id: Option<Seq<char>>,
    pub reasoning_content: Option<Seq<char>>,
}

impl View for ChatContentPart {
    type V = PartView;

    open spec fn view(&self) -> PartView {
        match self {
            ChatContentPart::Text { text } => PartView::Text { text: text@ },
            ChatContentPart::ImageUrl { url, detail } => PartView::ImageUrl {
                url: url@,
                detail: opt_view(*detail),
            },
        }
    }
}

impl View for ChatMessageContent {
    type V = ChatContentView;

    open spec fn view(&self) -> ChatContentView {
        match self {
            ChatMessageContent::Text(t) => ChatContentView::Text(t@),
            ChatMessageContent::Parts(p) => ChatContentView::Parts(
                p@.map_values(|x: ChatContentPart| x@),
            ),
        }
    }
}

impl View for ChatToolCall {
    type V = (Seq<char>, Seq<char>, Seq<char>);

    open spec fn view(&self) -> (Seq<char>, Seq<char>, Seq<char>) {
        (self.id@, self.name@, self.arguments@)
    }
}

/// The view of optional content.
pub open spec fn content_opt_view(c: Option<ChatMessageContent>) -> Option<ChatContentView> {
    match c {
        Some(x) => Some(x@),
        None => None,
    }
}

impl View for ChatMessage {
    type V = ChatMessageView;

    open spec fn view(&self) -> ChatMessageView {
        ChatMessageView {
            role: self.role,
            content: content_opt_view(self.content),
            tool_calls: self.tool_calls@.map_values(|t: ChatToolCall| t@),
            tool_call_id: opt_view(self.tool_call_id),
            reasoning_content: opt_view(self.reasoning_content),
        }
    }
}

/// The views of chat messages.
pub open spec fn chat_view(ms: Seq<ChatMessage>) -> Seq<ChatMessageView> {
    ms.map_values(|m: ChatMessage| m@)
}

/// Stands in for an image the chat API cannot fetch.
pub open spec fn unsupported_image_placeholder() -> Seq<char> {
    "[unsupported image reference omitted]"@
}

/// Some item is an image.
pub open spec fn has_image(items: Seq<ContentItem>) -> bool {
    exists|i: int| 0 <= i < items.len() && #[trigger] items[i] is InputImage
}

/// The texts of text items, concatenated.
pub open spec fn concat_texts(items: Seq<ContentItem>) -> Seq<char>
    decreases items.len(),
{
    if items.len() == 0 {
        Seq::empty()
    } else {
        concat_texts(items.drop_last()) + match items.last() {
            ContentItem::InputText { text } => text@,
            ContentItem::OutputText { text } => text@,
            ContentItem::OutputTextWithCitations { text } => text@,
            ContentItem::InputImage { .. } => Seq::empty(),
        }
    }
}

/// The chat part for a content item.
pub open spec fn content_part(item: ContentItem) -> PartView {
    match item {
        ContentItem::InputText { text } => PartView::Text { text: text@ },
        ContentItem::OutputText { text } => PartView::Text { text: text@ },
        ContentItem::OutputTextWithCitations { text } => PartView::Text { text: text@ },
        ContentItem::InputImage { image_url, detail } => if supported_image_url(image_url@) {
            PartView::ImageUrl { url: image_url@, detail: opt_view(detail) }
        } else {
            PartView::Text { text: unsupported_image_placeholder() }
        },
    }
}

/// Chat content for message items: one text when there is no image, else
/// one part per item.
pub open spec fn chat_content_view(items: Seq<ContentItem>) -> ChatContentView {
    if !has_image(items) {
        ChatContentView::Text(concat_texts(items))
    } else {
        ChatContentView::Parts(items.map_values(|i: ContentItem| content_part(i)))
    }
}

fn copy_opt_string(o: &Option<String>) -> (r: Option<String>)
    ensures
        opt_view(r) == opt_view(*o),
{
    match o {
        Some(s) => Some(s.clone()),
        None => None,
    }
}

fn content_part_exec(item: &ContentItem) -> (r: ChatContentPart)
    ensures
        r@ == content_part(*item),
{
    match item {
        ContentItem::InputText { text } | ContentItem::OutputText { text }
        | ContentItem::OutputTextWithCitations { text } => ChatContentPart::Text { text: text.clone() },
        ContentItem::InputImage { image_url, detail } => {
            if is_supported_image_url(image_url.as_str()) {
                ChatContentPart::ImageUrl { url: image_url.clone(), detail: copy_opt_string(detail) }
            } else {
                ChatContentPart::Text { text: "[unsupported image reference omitted]".to_string() }
            }
        },
    }
}

/// Chat content for message items (see [`chat_content_view`]).
pub fn chat_content(content: &Vec<ContentItem>) -> (r: ChatMessageContent)
    ensures
        r@ == chat_content_view(content@),
{
    let mut any_image = false;
    let mut k: usize = 0;
    while k < content.len()
        invariant
            k <= content@.len(),
            any_image == exists|i: int| 0 <= i < k && #[trigger] content@[i] is InputImage,
        decreases content.len() - k,
    {
        match &content[k] {
            ContentItem::InputImage { .. } => {
                any_image = true;
            },
            _ => {},
        }
        k += 1;
    }
    if !any_image {
        let mut out: Vec<char> = Vec::new();
        let mut i: usize = 0;
        while i < content.len()
            invariant
                i <= content@.len(),
                out@ == concat_texts(content@.take(i as int)),
            decreases content.len() - i,
        {
            proof {
                assert(content@.take(i + 1).drop_last() == content@.take(i as int));
                assert(content@.take(i + 1).last() == content@[i as int]);
            }
            match &content[i] {
                ContentItem::InputText { text } | ContentItem::OutputText { text }
                | ContentItem::OutputTextWithCitations { text } => {
                    push_str_chars(&mut out, text.as_str());
                },
                ContentItem::InputImage { .. } => {
                    assert(out@ + Seq::<char>::empty() == out@);
                },
            }
            i += 1;
        }
        assert(content@.take(content.len() as int) == content@);
        return ChatMessageContent::Text(string_from_chars(out.as_slice()));
    }
    let mut parts: Vec<ChatContentPart> = Vec::new();
    let mut i: usize = 0;
    while i < content.len()
        invariant
            i <= content@.len(),
            parts@.map_values(|x: ChatContentPart| x@) == content@.take(i as int).map_values(
                |c: ContentItem| content_part(c),
            ),
        decreases content.len() - i,
    {
        let p = content_part_exec(&content[i]);
        let ghost before = parts@.map_values(|x: ChatContentPart| x@);
        let ghost pv = p@;
        parts.push(p);
        assert(parts@.map_values(|x: ChatContentPart| x@) == before.push(pv));
        assert(content@.take(i + 1).map_values(|c: ContentItem| content_part(c)) == content@.take(
            i as int,
        ).map_values(|c: ContentItem| content_part(c)).push(content_part(content@[i as int])));
        i += 1;
    }
    assert(content@.take(content.len() as int) == content@);
    ChatMessageContent::Parts(parts)
}

/// The chat part for an item of a tool's output.
pub open spec fn output_part(i: OutputContentItem) -> PartView {
    match i {
        OutputContentItem::InputText { text } => PartView::Text { text: text@ },
        OutputContentItem::InputImage { image_url, detail } => if supported_image_url(image_url@) {
            PartView::ImageUrl { url: image_url@, detail: opt_view(detail) }
        } else {
            PartView::Text { text: unsupported_image_placeholder() }
        },
        OutputContentItem::EncryptedContent { .. } => PartView::Text {
            text: "[encrypted tool output omitted]"@,
        },
    }
}

/// The tool message answering `call_id` with `o`.
pub open spec fn tool_result_view(call_id: Seq<char>, o: FunctionOutput) -> ChatMessageView {
    ChatMessageView {
        role: ChatRole::Tool,
        content: Some(
            match o.body {
                OutputBody::Text(t) => ChatContentView::Text(t@),
                OutputBody::ContentItems(items) => ChatContentView::Parts(
                    items@.map_values(|i: OutputContentItem| output_part(i)),
                ),
            },
        ),
        tool_calls: Seq::empty(),
        tool_call_id: Some(call_id),
        reasoning_content: None,
    }
}

fn output_part_exec(item: &OutputContentItem) -> (r: ChatContentPart)
    ensures
        r@ == output_part(*item),
{
    match item {
        OutputContentItem::InputText { text } => ChatContentPart::Text { text: text.clone() },
        OutputContentItem::InputImage { image_url, detail } => {
            if is_supported_image_url(image_url.as_str()) {
                ChatContentPart::ImageUrl { url: image_url.clone(), detail: copy_opt_string(detail) }
            } else {
                ChatContentPart::Text { text: "[unsupported image reference omitted]".to_string() }
            }
        },
        OutputContentItem::EncryptedContent { .. } => ChatContentPart::Text {
            text: "[encrypted tool output omitted]".to_string(),
        },
    }
}

/// The tool message answering `call_id` with `output`.
pub fn tool_result_message(call_id: &str, output: &FunctionOutput) -> (r: ChatMessage)
    ensures
        r@ == tool_result_view(call_id@, *output),
{
    let content = match &output.body {
        OutputBody::Text(t) => ChatMessageContent::Text(t.clone()),
        OutputBody::ContentItems(items) => {
            let mut parts: Vec<ChatContentPart> = Vec::new();
            let mut i: usize = 0;
            while i < items.len()
                invariant
                    i <= items@.len(),
                    parts@.map_values(|x: ChatContentPart| x@) == items@.take(i as int).map_values(
                        |c: OutputContentItem| output_part(c),
                    ),
                decreases items.len() - i,
            {
                let p = output_part_exec(&items[i]);
                let ghost before = parts@.map_values(|x: ChatContentPart| x@);
                let ghost pv = p@;
                parts.push(p);
                assert(parts@.map_values(|x: ChatContentPart| x@) == before.push(pv));
                assert(items@.take(i + 1).map_values(|c: OutputContentItem| output_part(c))
                    == items@.take(i as int).map_values(|c: OutputContentItem| output_part(c)).push(
                    output_part(items@[i as int]),
                ));
                i += 1;
            }
            assert(items@.take(items.len() as int) == items@);
            ChatMessageContent::Parts(parts)
        },
    };
    let r = ChatMessage {
        role: ChatRole::Tool,
        content: Some(content),
        tool_calls: Vec::new(),
        tool_call_id: Some(call_id.to_string()),
        reasoning_content: None,
    };
    assert(r@.tool_calls == Seq::<(Seq<char>, Seq<char>, Seq<char>)>::empty());
    r
}

/// `ms` with pending reasoning, if any, as an assistant message of its own.
pub open spec fn flushed(ms: Seq<ChatMessageView>, pending: Seq<char>) -> Seq<ChatMessageView> {
    if pending.len() == 0 {
        ms
    } else {
        ms.push(
            ChatMessageView {
                role: ChatRole::Assistant,
                content: None,
                tool_calls: Seq::empty(),
                tool_call_id: None,
                reasoning_content: Some(pending),
            },
        )
    }
}

/// Turns pending reasoning into an assistant message of its own.
pub fn flush_pending_reasoning(messages: &mut Vec<ChatMessage>, pending_reasoning: &mut String)
    ensures
        chat_view(final(messages)@) == flushed(chat_view(old(messages)@), old(pending_reasoning)@),
        final(pending_reasoning)@.len() == 0,
{
    if pending_reasoning.as_str().is_empty() {
        return;
    }
    let ghost before = chat_view(messages@);
    let mut reasoning = String::new();
    std::mem::swap(&mut reasoning, pending_reasoning);
    let m = ChatMessage {
        role: ChatRole::Assistant,
        content: None,
        tool_calls: Vec::new(),
        tool_call_id: None,
        reasoning_content: Some(reasoning),
    };
    let ghost mv = m@;
    messages.push(m);
    assert(chat_view(messages@) == before.push(mv));
    assert(mv.tool_calls == Seq::<(Seq<char>, Seq<char>, Seq<char>)>::empty());
}

/// `ms` with tool call `tc` added: to the last message when it is an
/// assistant message (pending reasoning appended to its reasoning), else
/// as a new assistant message carrying the pending reasoning.
pub open spec fn with_tool_call(
    ms: Seq<ChatMessageView>,
    tc: (Seq<char>, Seq<char>, Seq<char>),
    pending: Seq<char>,
) -> Seq<ChatMessageView> {
    if ms.len() > 0 && ms.last().role == ChatRole::Assistant {
        let m = ms.last();
        ms.update(
            ms.len() - 1,
            ChatMessageView {
                tool_calls: m.tool_calls.push(tc),
                reasoning_content: if pending.len() > 0 {
                    Some(
                        match m.reasoning_content {
                            Some(r) => r + pending,
                            None => pending,
                        },
                    )
                } else {
                    m.reasoning_content
                },
                ..m
            },
        )
    } else {
        ms.push(
            ChatMessageView {
                role: ChatRole::Assistant,
                content: None,
                tool_calls: seq![tc],
                tool_call_id: None,
                reasoning_content: if pending.len() > 0 {
                    Some(pending)
                } else {
                    None
                },
            },
        )
    }
}

/// A tool call after an assistant message joins that message, leaving the
/// earlier messages as they were. Pending reasoning is appended after the
/// reasoning the message already had: the old reasoning is a prefix of the
/// new, and what follows it is the pending reasoning, so reasoning keeps
/// history order. Without pending reasoning the reasoning is unchanged.
pub proof fn law_tool_call_reasoning_keeps_history_order(
    ms: Seq<ChatMessageView>,
    tc: (Seq<char>, Seq<char>, Seq<char>),
    pending: Seq<char>,
)
    requires
        ms.len() > 0,
        ms.last().role == ChatRole::Assistant,
    ensures
        with_tool_call(ms, tc, pending).len() == ms.len(),
        with_tool_call(ms, tc, pending).drop_last() == ms.drop_last(),
        with_tool_call(ms, tc, pending).last().tool_calls == ms.last().tool_calls.push(tc),
        with_tool_call(ms, tc, pending).last().content == ms.last().content,
        pending.len() == 0 ==> with_tool_call(ms, tc, pending).last().reasoning_content
            == ms.last().reasoning_content,
        pending.len() > 0 ==> (with_tool_call(ms, tc, pending).last().reasoning_content matches Some(
            new,
        ) && match ms.last().reasoning_content {
            Some(old) => new.len() == old.len() + pending.len() && new.take(old.len() as int) == old
                && new.skip(old.len() as int) == pending,
            None => new == pending,
        }),
{
    let r = with_tool_call(ms, tc, pending);
    assert(r.drop_last() =~= ms.drop_last());
    if pending.len() > 0 {
        if let Some(old) = ms.last().reasoning_content {
            let new = old + pending;
            assert(new.take(old.len() as int) =~= old);
            assert(new.skip(old.len() as int) =~= pending);
        }
    }
}

/// A tool call after anything but an assistant message starts a new
/// assistant message of its own after the history, carrying the pending
/// reasoning (none when there is none) and no text.
pub proof fn law_tool_call_starts_assistant_message(
    ms: Seq<ChatMessageView>,
    tc: (Seq<char>, Seq<char>, Seq<char>),
    pending: Seq<char>,
)
    requires
        !(ms.len() > 0 && ms.last().role == ChatRole::Assistant),
    ensures
        with_tool_call(ms, tc, pending).len() == ms.len() + 1,
        with_tool_call(ms, tc, pending).drop_last() == ms,
        with_tool_call(ms, tc, pending).last().role == ChatRole::Assistant,
        with_tool_call(ms, tc, pending).last().content is None,
        with_tool_call(ms, tc, pending).last().tool_calls == seq![tc],
        with_tool_call(ms, tc, pending).last().reasoning_content == if pending.len() > 0 {
            Some(pending)
        } else {
            None
        },
{
    assert(with_tool_call(ms, tc, pending).drop_last() =~= ms);
}

/// Adds a tool call to the current assistant turn (see [`with_tool_call`]).
pub fn push_tool_call(
    messages: &mut Vec<ChatMessage>,
    tool_call: ChatToolCall,
    pending_reasoning: &mut String,
)
    ensures
        chat_view(final(messages)@) == with_tool_call(
            chat_view(old(messages)@),
            tool_call@,
            old(pending_reasoning)@,
        ),
        final(pending_reasoning)@.len() == 0,
{
    let ghost before = chat_view(messages@);
    let ghost tc = tool_call@;
    let ghost pending = pending_reasoning@;
    let n = messages.len();
    if n > 0 && messages[n - 1].role == ChatRole::Assistant {
        let mut last = messages.pop().unwrap();
        assert(before.last() == last@);
        let ghost lv = last@;
        let ghost calls = last.tool_calls@.map_values(|t: ChatToolCall| t@);
        last.tool_calls.push(tool_call);
        assert(last.tool_calls@.map_values(|t: ChatToolCall| t@) == calls.push(tc));
        if !pending_reasoning.as_str().is_empty() {
            let mut taken = String::new();
            std::mem::swap(&mut taken, pending_reasoning);
            let merged = match last.reasoning_content {
                Some(r) => {
                    let mut v = chars_of(r.as_str());
                    push_str_chars(&mut v, taken.as_str());
                    string_from_chars(v.as_slice())
                },
                None => taken,
            };
            last.reasoning_content = Some(merged);
        }
        let ghost nv = last@;
        assert(nv == ChatMessageView {
            tool_calls: lv.tool_calls.push(tc),
            reasoning_content: if pending.len() > 0 {
                Some(
                    match lv.reasoning_content {
                        Some(r) => r + pending,
                        None => pending,
                    },
                )
            } else {
                lv.reasoning_content
            },
            ..lv
        });
        messages.push(last);
        assert(chat_view(messages@) == before.drop_last().push(nv));
        assert(before.update(before.len() - 1, nv) == before.drop_last().push(nv));
    } else {
        let reasoning = if pending_reasoning.as_str().is_empty() {
            None
        } else {
            let mut taken = String::new();
            std::mem::swap(&mut taken, pending_reasoning);
            Some(taken)
        };
        let mut calls: Vec<ChatToolCall> = Vec::new();
        calls.push(tool_call);
        assert(calls@.map_values(|t: ChatToolCall| t@) == seq![tc]);
        assert(n > 0 ==> before.last() == messages@[n - 1]@);
        let m = ChatMessage {
            role: ChatRole::Assistant,
            content: None,
            tool_calls: calls,
            tool_call_id: None,
            reasoning_content: reasoning,
        };
        let ghost mv = m@;
        messages.push(m);
        assert(chat_view(messages@) == before.push(mv));
    }
}

/// An item of the conversation history as a chat request reads it; tool
/// names and JSON arguments already resolved.
#[derive(Debug)]
pub enum ChatItem {
    Message { role: String, content: Vec<ContentItem> },
    Reasoning { texts: Option<Vec<String>> },
    /// A tool call with the tool's chat name and its JSON arguments.
    ToolCall { call_id: String, name: String, arguments: String },
    ToolOutput { call_id: String, output: FunctionOutput },
    /// A tool search result, as bounded text.
    ToolSearchOutput { call_id: String, text: String },
    /// An internal agent message, which chat requests cannot carry.
    AgentMessage,
    Skipped,
}

/// A chat request the builder refuses.
#[derive(Debug)]
pub enum ChatRequestError {
    InvalidRequest(String),
}

impl ChatRequestError {
    pub open spec fn message_view(&self) -> Seq<char> {
        match self {
            ChatRequestError::InvalidRequest(m) => m@,
        }
    }

    /// The error's message.
    pub fn to_string(&self) -> (r: String)
        ensures
            r@ == self.message_view(),
    {
        match self {
            ChatRequestError::InvalidRequest(m) => m.clone(),
        }
    }
}

/// All texts of a reasoning item, concatenated.
pub open spec fn joined_texts(texts: Option<Seq<Seq<char>>>) -> Seq<char> {
    match texts {
        Some(t) => t.fold_left(Seq::<char>::empty(), |acc: Seq<char>, x: Seq<char>| acc + x),
        None => Seq::empty(),
    }
}

/// The messages and pending reasoning after reading `items` from the
/// starting messages `init`; `None` when an item cannot be carried.
pub open spec fn read_chat_items(init: Seq<ChatMessageView>, items: Seq<ChatItem>) -> Option<
    (Seq<ChatMessageView>, Seq<char>),
>
    decreases items.len(),
{
    if items.len() == 0 {
        Some((init, Seq::empty()))
    } else {
        match read_chat_items(init, items.drop_last()) {
            None => None,
            Some((ms, pending)) => match items.last() {
                ChatItem::Message { role, content } => match chat_role_of(role@) {
                    None => Some((ms, pending)),
                    Some(r) => {
                        let ms1 = if r != ChatRole::Assistant {
                            flushed(ms, pending)
                        } else {
                            ms
                        };
                        let p1 = if r != ChatRole::Assistant {
                            Seq::empty()
                        } else {
                            pending
                        };
                        let take = r == ChatRole::Assistant && p1.len() > 0;
                        Some(
                            (
                                ms1.push(
                                    ChatMessageView {
                                        role: r,
                                        content: Some(chat_content_view(content@)),
                                        tool_calls: Seq::empty(),
                                        tool_call_id: None,
                                        reasoning_content: if take {
                                            Some(p1)
                                        } else {
                                            None
                                        },
                                    },
                                ),
                                if take {
                                    Seq::empty()
                                } else {
                                    p1
                                },
                            ),
                        )
                    },
                },
                ChatItem::Reasoning { texts } => Some(
                    (
                        ms,
                        pending + joined_texts(
                            match texts {
                                Some(t) => Some(strings_view(t@)),
                                None => None,
                            },
                        ),
                    ),
                ),
                ChatItem::ToolCall { call_id, name, arguments } => Some(
                    (with_tool_call(ms, (call_id@, name@, arguments@), pending), Seq::empty()),
                ),
                ChatItem::ToolOutput { call_id, output } => Some(
                    (flushed(ms, pending).push(tool_result_view(call_id@, output)), Seq::empty()),
                ),
                ChatItem::ToolSearchOutput { call_id, text } => Some(
                    (
                        flushed(ms, pending).push(
                            ChatMessageView {
                                role: ChatRole::Tool,
                                content: Some(ChatContentView::Text(text@)),
                                tool_calls: Seq::empty(),
                                tool_call_id: Some(call_id@),
                                reasoning_content: None,
                            },
                        ),
                        Seq::empty(),
                    ),
                ),
                ChatItem::AgentMessage => None,
                ChatItem::Skipped => Some((ms, pending)),
            },
        }
    }
}

/// The starting messages: the base instructions as a system message unless
/// blank, then the file tool guidance as a developer message.
pub open spec fn chat_preamble(base: Seq<char>, guidance: Option<Seq<char>>) -> Seq<ChatMessageView> {
    let s = if blank(base) {
        Seq::<ChatMessageView>::empty()
    } else {
        seq![
            ChatMessageView {
                role: ChatRole::System,
                content: Some(ChatContentView::Text(base)),
                tool_calls: Seq::empty(),
                tool_call_id: None,
                reasoning_content: None,
            },
        ]
    };
    match guidance {
        Some(g) => s.push(
            ChatMessageView {
                role: ChatRole::Developer,
                content: Some(ChatContentView::Text(g)),
                tool_calls: Seq::empty(),
                tool_call_id: None,
                reasoning_content: None,
            },
        ),
        None => s,
    }
}

/// Some message is not a system or developer message.
pub open spec fn has_visible(ms: Seq<ChatMessageView>) -> bool {
    exists|i: int|
        0 <= i < ms.len() && #[trigger] ms[i].role != ChatRole::System && ms[i].role
            != ChatRole::Developer
}

pub open spec fn msg_agent_message() -> Seq<char> {
    "Chat Completions cannot serialize internal agent messages"@
}

pub open spec fn msg_no_visible_messages() -> Seq<char> {
    "Chat Completions request has no model-visible messages"@
}

/// The reasoning a message carries, empty when it carries none.
pub open spec fn message_reasoning(m: ChatMessageView) -> Seq<char> {
    match m.reasoning_content {
        Some(r) => r,
        None => Seq::empty(),
    }
}

/// The reasoning of `ms`, message after message.
pub open spec fn messages_reasoning(ms: Seq<ChatMessageView>) -> Seq<char>
    decreases ms.len(),
{
    if ms.len() == 0 {
        Seq::empty()
    } else {
        messages_reasoning(ms.drop_last()) + message_reasoning(ms.last())
    }
}

/// The reasoning text of a history item, empty for anything but reasoning.
pub open spec fn item_reasoning(item: ChatItem) -> Seq<char> {
    match item {
        ChatItem::Reasoning { texts } => joined_texts(
            match texts {
                Some(t) => Some(strings_view(t@)),
                None => None,
            },
        ),
        _ => Seq::empty(),
    }
}

/// The reasoning of the history items, item after item.
pub open spec fn items_reasoning(items: Seq<ChatItem>) -> Seq<char>
    decreases items.len(),
{
    if items.len() == 0 {
        Seq::empty()
    } else {
        items_reasoning(items.drop_last()) + item_reasoning(items.last())
    }
}

proof fn lemma_messages_reasoning_push(ms: Seq<ChatMessageView>, m: ChatMessageView)
    ensures
        messages_reasoning(ms.push(m)) == messages_reasoning(ms) + message_reasoning(m),
{
    assert(ms.push(m).drop_last() =~= ms);
}

proof fn lemma_messages_reasoning_flushed(ms: Seq<ChatMessageView>, pending: Seq<char>)
    ensures
        messages_reasoning(flushed(ms, pending)) == messages_reasoning(ms) + pending,
{
    if pending.len() == 0 {
        assert(messages_reasoning(ms) + pending =~= messages_reasoning(ms));
    } else {
        let m = flushed(ms, pending).last();
        assert(flushed(ms, pending) == ms.push(m));
        lemma_messages_reasoning_push(ms, m);
    }
}

proof fn lemma_messages_reasoning_tool_call(
    ms: Seq<ChatMessageView>,
    tc: (Seq<char>, Seq<char>, Seq<char>),
    pending: Seq<char>,
)
    ensures
        messages_reasoning(with_tool_call(ms, tc, pending)) == messages_reasoning(ms) + pending,
{
    let r = with_tool_call(ms, tc, pending);
    if ms.len() > 0 && ms.last().role == ChatRole::Assistant {
        assert(r.drop_last() =~= ms.drop_last());
        let a = messages_reasoning(ms.drop_last());
        let old = message_reasoning(ms.last());
        assert(message_reasoning(r.last()) =~= old + pending);
        assert(messages_reasoning(r) == a + (old + pending));
        assert(messages_reasoning(ms) == a + old);
        assert(a + (old + pending) =~= a + old + pending);
    } else {
        lemma_messages_reasoning_push(ms, r.last());
        assert(r == ms.push(r.last()));
        if pending.len() == 0 {
            assert(messages_reasoning(ms) + Seq::<char>::empty() =~= messages_reasoning(ms));
        }
    }
}

/// Reading the history moves reasoning but never reorders, drops or adds
/// any: the reasoning of the messages, followed by the reasoning still
/// pending, is that of the starting messages followed by the reasoning
/// items' texts in history order.
pub proof fn law_reading_keeps_reasoning_in_history_order(init: Seq<ChatMessageView>, items: Seq<ChatItem>)
    ensures
        read_chat_items(init, items) matches Some((ms, pending)) ==> messages_reasoning(ms) + pending
            == messages_reasoning(init) + items_reasoning(items),
    decreases items.len(),
{
    if items.len() == 0 {
        assert(messages_reasoning(init) + Seq::<char>::empty() =~= messages_reasoning(init));
    } else {
        let d = items.drop_last();
        law_reading_keeps_reasoning_in_history_order(init, d);
        match read_chat_items(init, d) {
            None => {},
            Some((ms, pending)) => {
                let base = messages_reasoning(init) + items_reasoning(d);
                assert(messages_reasoning(ms) + pending == base);
                match items.last() {
                    ChatItem::Message { role, content } => match chat_role_of(role@) {
                        None => {
                            assert(base + Seq::<char>::empty() =~= base);
                        },
                        Some(rl) => {
                            let ms1 = if rl != ChatRole::Assistant {
                                flushed(ms, pending)
                            } else {
                                ms
                            };
                            let p1 = if rl != ChatRole::Assistant {
                                Seq::<char>::empty()
                            } else {
                                pending
                            };
                            lemma_messages_reasoning_flushed(ms, pending);
                            assert(messages_reasoning(ms1) + p1 =~= base);
                            let (out, rest) = read_chat_items(init, items)->0;
                            assert(out == ms1.push(out.last()));
                            lemma_messages_reasoning_push(ms1, out.last());
                            assert(messages_reasoning(out) + rest =~= messages_reasoning(ms1) + p1);
                            assert(base + Seq::<char>::empty() =~= base);
                        },
                    },
                    ChatItem::Reasoning { texts } => {
                        assert(messages_reasoning(ms) + (pending + item_reasoning(items.last())) =~= base
                            + item_reasoning(items.last()));
                    },
                    ChatItem::ToolCall { call_id, name, arguments } => {
                        lemma_messages_reasoning_tool_call(ms, (call_id@, name@, arguments@), pending);
                        assert(base + Seq::<char>::empty() =~= base);
                        assert(messages_reasoning(ms) + pending + Seq::<char>::empty() =~= base);
                    },
                    ChatItem::ToolOutput { call_id, output } => {
                        lemma_messages_reasoning_flushed(ms, pending);
                        lemma_messages_reasoning_push(flushed(ms, pending), tool_result_view(call_id@, output));
                        assert(base + Seq::<char>::empty() =~= base);
                        assert(messages_reasoning(ms) + pending + Seq::<char>::empty() =~= base);
                    },
                    ChatItem::ToolSearchOutput { call_id, text } => {
                        let (out, rest) = read_chat_items(init, items)->0;
                        lemma_messages_reasoning_flushed(ms, pending);
                        assert(out == flushed(ms, pending).push(out.last()));
                        lemma_messages_reasoning_push(flushed(ms, pending), out.last());
                        assert(base + Seq::<char>::empty() =~= base);
                        assert(messages_reasoning(ms) + pending + Seq::<char>::empty() =~= base);
                    },
                    ChatItem::AgentMessage => {},
                    ChatItem::Skipped => {
                        assert(base + Seq::<char>::empty() =~= base);
                    },
                }
            },
        }
    }
}

/// The messages of a chat request carry all of the history's reasoning, in
/// history order: the preamble carries none, and the reasoning still
/// pending at the end goes into a message of its own.
pub proof fn law_chat_messages_keep_reasoning_in_history_order(
    base: Seq<char>,
    guidance: Option<Seq<char>>,
    items: Seq<ChatItem>,
)
    ensures
        chat_messages_spec(base, guidance, items) matches Ok(ms) ==> messages_reasoning(ms)
            == items_reasoning(items),
{
    let pre = chat_preamble(base, guidance);
    let s = if blank(base) {
        Seq::<ChatMessageView>::empty()
    } else {
        seq![pre[0]]
    };
    if !blank(base) {
        assert(pre[0].reasoning_content is None);
        assert(s.drop_last() =~= Seq::<ChatMessageView>::empty());
        assert(s.last() == pre[0]);
        assert(s.len() == 1);
        assert(messages_reasoning(s) == messages_reasoning(s.drop_last()) + message_reasoning(s.last()));
        assert(messages_reasoning(Seq::<ChatMessageView>::empty()) == Seq::<char>::empty());
        assert(message_reasoning(s.last()) == Seq::<char>::empty());
        assert(messages_reasoning(s) =~= Seq::<char>::empty() + Seq::<char>::empty());
    }
    assert(messages_reasoning(s) =~= Seq::<char>::empty());
    match guidance {
        Some(g) => {
            assert(pre == s.push(pre.last()));
            lemma_messages_reasoning_push(s, pre.last());
        },
        None => {
            if !blank(base) {
                assert(pre =~= s);
            }
        },
    }
    assert(messages_reasoning(pre) =~= Seq::<char>::empty());
    law_reading_keeps_reasoning_in_history_order(pre, items);
    match read_chat_items(pre, items) {
        Some((ms, pending)) => {
            lemma_messages_reasoning_flushed(ms, pending);
            assert(Seq::<char>::empty() + items_reasoning(items) =~= items_reasoning(items));
        },
        None => {},
    }
}

/// The chat messages for the history, or the reason they cannot be sent.
pub open spec fn chat_messages_spec(
    base: Seq<char>,
    guidance: Option<Seq<char>>,
    items: Seq<ChatItem>,
) -> Result<Seq<ChatMessageView>, Seq<char>> {
    match read_chat_items(chat_preamble(base, guidance), items) {
        None => Err(msg_agent_message()),
        Some((ms, pending)) => {
            let f = flushed(ms, pending);
            if has_visible(f) {
                Ok(f)
            } else {
                Err(msg_no_visible_messages())
            }
        },
    }
}

proof fn lemma_read_none_extends(init: Seq<ChatMessageView>, items: Seq<ChatItem>, k: int)
    requires
        0 <= k <= items.len(),
        read_chat_items(init, items.take(k)) is None,
    ensures
        read_chat_items(init, items) is None,
    decreases items.len() - k,
{
    if k < items.len() {
        assert(items.drop_last().take(k) == items.take(k));
        lemma_read_none_extends(init, items.drop_last(), k);
    } else {
        assert(items.take(k) == items);
    }
}

fn text_message(role: ChatRole, text: String) -> (r: ChatMessage)
    ensures
        r@ == (ChatMessageView {
            role: role,
            content: Some(ChatContentView::Text(text@)),
            tool_calls: Seq::empty(),
            tool_call_id: None,
            reasoning_content: None,
        }),
{
    let r = ChatMessage {
        role,
        content: Some(ChatMessageContent::Text(text)),
        tool_calls: Vec::new(),
        tool_call_id: None,
        reasoning_content: None,
    };
    assert(r@.tool_calls =~= Seq::<(Seq<char>, Seq<char>, Seq<char>)>::empty());
    r
}

/// The chat messages for the history (see [`chat_messages_spec`]).
pub fn chat_history_messages(base_instructions: &str, guidance: Option<String>, items: &Vec<ChatItem>) -> (r:
    Result<Vec<ChatMessage>, ChatRequestError>)
    ensures
        match chat_messages_spec(base_instructions@, opt_view(guidance), items@) {
            Err(m) => r matches Err(e) && e.message_view() == m,
            Ok(ms) => r matches Ok(v) && chat_view(v@) == ms,
        },
{
    let ghost gv = opt_view(guidance);
    let mut messages: Vec<ChatMessage> = Vec::new();
    if !is_blank(base_instructions) {
        messages.push(text_message(ChatRole::System, base_instructions.to_string()));
    }
    match &guidance {
        Some(g) => {
            let ghost before = chat_view(messages@);
            let m = text_message(ChatRole::Developer, g.clone());
            let ghost mv = m@;
            messages.push(m);
            assert(chat_view(messages@) == before.push(mv));
        },
        None => {},
    }
    let ghost init = chat_view(messages@);
    assert(init == chat_preamble(base_instructions@, gv));
    let mut pending = String::new();
    let mut i: usize = 0;
    while i < items.len()
        invariant
            i <= items@.len(),
            init == chat_preamble(base_instructions@, gv),
            gv == opt_view(guidance),
            read_chat_items(init, items@.take(i as int)) == Some((chat_view(messages@), pending@)),
        decreases items.len() - i,
    {
        proof {
            assert(items@.take(i + 1).drop_last() == items@.take(i as int));
            assert(items@.take(i + 1).last() == items@[i as int]);
        }
        match &items[i] {
            ChatItem::Message { role, content } => {
                match chat_role(role.as_str()) {
                    None => {},
                    Some(r) => {
                        if r != ChatRole::Assistant {
                            flush_pending_reasoning(&mut messages, &mut pending);
                        }
                        let reasoning = if r == ChatRole::Assistant && !pending.as_str().is_empty() {
                            let mut taken = String::new();
                            std::mem::swap(&mut taken, &mut pending);
                            Some(taken)
                        } else {
                            None
                        };
                        let m = ChatMessage {
                            role: r,
                            content: Some(chat_content(content)),
                            tool_calls: Vec::new(),
                            tool_call_id: None,
                            reasoning_content: reasoning,
                        };
                        let ghost before = chat_view(messages@);
                        let ghost mv = m@;
                        assert(mv.tool_calls =~= Seq::<(Seq<char>, Seq<char>, Seq<char>)>::empty());
                        messages.push(m);
                        assert(chat_view(messages@) == before.push(mv));
                    },
                }
            },
            ChatItem::Reasoning { texts } => {
                match texts {
                    Some(t) => {
                        let ghost sv = strings_view(t@);
                        let ghost start = pending@;
                        let mut k: usize = 0;
                        while k < t.len()
                            invariant
                                k <= t@.len(),
                                sv == strings_view(t@),
                                pending@ == start + sv.take(k as int).fold_left(
                                    Seq::<char>::empty(),
                                    |acc: Seq<char>, x: Seq<char>| acc + x,
                                ),
                            decreases t.len() - k,
                        {
                            proof {
                                assert(sv.take(k + 1).drop_last() == sv.take(k as int));
                                assert(sv.take(k + 1).last() == t@[k as int]@);
                            }
                            let mut v = chars_of(pending.as_str());
                            push_str_chars(&mut v, t[k].as_str());
                            pending = string_from_chars(v.as_slice());
                            k += 1;
                        }
                        assert(sv.take(t.len() as int) == sv);
                    },
                    None => {
                        assert(pending@ + Seq::<char>::empty() == pending@);
                    },
                }
            },
            ChatItem::ToolCall { call_id, name, arguments } => {
                let tc = ChatToolCall { id: call_id.clone(), name: name.clone(), arguments: arguments.clone() };
                push_tool_call(&mut messages, tc, &mut pending);
            },
            ChatItem::ToolOutput { call_id, output } => {
                flush_pending_reasoning(&mut messages, &mut pending);
                let ghost before = chat_view(messages@);
                let m = tool_result_message(call_id.as_str(), output);
                let ghost mv = m@;
                messages.push(m);
                assert(chat_view(messages@) == before.push(mv));
            },
            ChatItem::ToolSearchOutput { call_id, text } => {
                flush_pending_reasoning(&mut messages, &mut pending);
                let ghost before = chat_view(messages@);
                let m = ChatMessage {
                    role: ChatRole::Tool,
                    content: Some(ChatMessageContent::Text(text.clone())),
                    tool_calls: Vec::new(),
                    tool_call_id: Some(call_id.clone()),
                    reasoning_content: None,
                };
                let ghost mv = m@;
                assert(mv.tool_calls =~= Seq::<(Seq<char>, Seq<char>, Seq<char>)>::empty());
                messages.push(m);
                assert(chat_view(messages@) == before.push(mv));
            },
            ChatItem::AgentMessage => {
                proof {
                    lemma_read_none_extends(init, items@, i + 1);
                }
                return Err(
                    ChatRequestError::InvalidRequest(
                        "Chat Completions cannot serialize internal agent messages".to_string(),
                    ),
                );
            },
            ChatItem::Skipped => {},
        }
        i += 1;
    }
    assert(items@.take(items.len() as int) == items@);
    flush_pending_reasoning(&mut messages, &mut pending);
    let ghost fin = chat_view(messages@);
    assert(chat_messages_spec(base_instructions@, gv, items@) == if has_visible(fin) {
        Ok::<Seq<ChatMessageView>, Seq<char>>(fin)
    } else {
        Err(msg_no_visible_messages())
    });
    let mut k: usize = 0;
    while k < messages.len()
        invariant
            k <= messages@.len(),
            fin == chat_view(messages@),
            gv == opt_view(guidance),
            chat_messages_spec(base_instructions@, gv, items@) == if has_visible(fin) {
                Ok::<Seq<ChatMessageView>, Seq<char>>(fin)
            } else {
                Err(msg_no_visible_messages())
            },
            forall|j: int| 0 <= j < k ==> #[trigger] messages@[j].role == ChatRole::System
                || messages@[j].role == ChatRole::Developer,
        decreases messages.len() - k,
    {
        if messages[k].role != ChatRole::System && messages[k].role != ChatRole::Developer {
            assert(chat_view(messages@)[k as int].role == messages@[k as int].role);
            assert(has_visible(fin));
            return Ok(messages);
        }
        k += 1;
    }
    assert forall|j: int| 0 <= j < chat_view(messages@).len() implies !(chat_view(messages@)[j].role
        != ChatRole::System && chat_view(messages@)[j].role != ChatRole::Developer) by {
        assert(chat_view(messages@)[j].role == messages@[j].role);
    }
    Err(
        ChatRequestError::InvalidRequest(
            "Chat Completions request has no model-visible messages".to_string(),
        ),
    )
}

/// Token limit of one request item.
pub const MAX_CHAT_REQUEST_ITEM_TOKENS: usize = 10_000;
/// Token limit of a whole request.
pub const MAX_CHAT_REQUEST_TOTAL_TOKENS: usize = 250_000;
/// Most tool calls in one message.
pub const MAX_CHAT_MESSAGE_TOOL_CALLS: usize = 64;

/// `a + b`, saturated.
pub open spec fn sat_add(a: usize, b: usize) -> usize {
    if a + b > usize::MAX {
        usize::MAX
    } else {
        (a + b) as usize
    }
}

/// Accounting one request item of `tokens` tokens after `total`: the new
/// total, or the limit it breaks.
pub open spec fn item_check(kind: Seq<char>, tokens: usize, total: usize) -> Result<usize, Seq<char>> {
    if tokens > MAX_CHAT_REQUEST_ITEM_TOKENS {
        Err("Chat "@ + kind + " exceeds the 10000-token model-context limit"@)
    } else if sat_add(total, tokens) > MAX_CHAT_REQUEST_TOTAL_TOKENS {
        Err("Chat request exceeds the 250000-token model-context limit"@)
    } else {
        Ok(sat_add(total, tokens))
    }
}

/// Checks one request item of `item_tokens` tokens against the item and
/// the request limits, adding it to `total_tokens`.
pub fn validate_chat_request_item(item_kind: &str, item_tokens: usize, total_tokens: &mut usize) -> (r:
    Result<(), ChatRequestError>)
    ensures
        match item_check(item_kind@, item_tokens, *old(total_tokens)) {
            Ok(t) => r is Ok && *final(total_tokens) == t,
            Err(m) => r matches Err(e) && e.message_view() == m,
        },
{
    if item_tokens > MAX_CHAT_REQUEST_ITEM_TOKENS {
        let mut m = chars_of("Chat ");
        push_str_chars(&mut m, item_kind);
        push_str_chars(&mut m, " exceeds the 10000-token model-context limit");
        return Err(ChatRequestError::InvalidRequest(string_from_chars(m.as_slice())));
    }
    *total_tokens = total_tokens.saturating_add(item_tokens);
    if *total_tokens > MAX_CHAT_REQUEST_TOTAL_TOKENS {
        return Err(
            ChatRequestError::InvalidRequest(
                "Chat request exceeds the 250000-token model-context limit".to_string(),
            ),
        );
    }
    Ok(())
}

/// `kind` and the decimal index, as in `message 3`.
pub open spec fn indexed(kind: Seq<char>, i: nat) -> Seq<char> {
    kind + " "@ + decimal(i)
}

/// The messages from index `i` on, accounted after `total`: the new total
/// or the first limit broken.
pub open spec fn messages_check(calls: Seq<usize>, tokens: Seq<usize>, total: usize, i: int) -> Result<
    usize,
    Seq<char>,
>
    decreases tokens.len() - i,
{
    if i < 0 || i >= tokens.len() || i >= calls.len() {
        Ok(total)
    } else if calls[i] > MAX_CHAT_MESSAGE_TOOL_CALLS {
        Err("Chat message "@ + decimal(i as nat) + " exceeds the 64 tool-call limit"@)
    } else {
        match item_check(indexed("message"@, i as nat), tokens[i], total) {
            Err(m) => Err(m),
            Ok(t) => messages_check(calls, tokens, t, i + 1),
        }
    }
}

/// The tools from index `i` on, accounted after `total`.
pub open spec fn tools_check(tokens: Seq<usize>, total: usize, i: int) -> Result<usize, Seq<char>>
    decreases tokens.len() - i,
{
    if i < 0 || i >= tokens.len() {
        Ok(total)
    } else {
        match item_check(indexed("tool"@, i as nat), tokens[i], total) {
            Err(m) => Err(m),
            Ok(t) => tools_check(tokens, t, i + 1),
        }
    }
}

/// The first limit a request breaks: too many tool calls in a message, or
/// too many tokens in an item or in all messages, tools and response format
/// together.
pub open spec fn context_error(
    calls: Seq<usize>,
    message_tokens: Seq<usize>,
    tool_tokens: Seq<usize>,
    format_tokens: Option<usize>,
) -> Option<Seq<char>> {
    match messages_check(calls, message_tokens, 0, 0) {
        Err(m) => Some(m),
        Ok(t1) => match tools_check(tool_tokens, t1, 0) {
            Err(m) => Some(m),
            Ok(t2) => match format_tokens {
                Some(f) => match item_check("response format"@, f, t2) {
                    Err(m) => Some(m),
                    Ok(_) => None,
                },
                None => None,
            },
        },
    }
}

fn indexed_kind(kind: &str, i: usize) -> (r: String)
    ensures
        r@ == indexed(kind@, i as nat),
{
    let mut v = chars_of(kind);
    push_str_chars(&mut v, " ");
    push_decimal(&mut v, i);
    string_from_chars(v.as_slice())
}

/// Checks a request's size: per message its tool calls and tokens, then
/// each tool and the response format (see [`context_error`]). Token counts
/// are those of the items as serialized.
pub fn validate_chat_request_context(
    message_tool_calls: &Vec<usize>,
    message_tokens: &Vec<usize>,
    tool_tokens: &Vec<usize>,
    response_format_tokens: Option<usize>,
) -> (r: Result<(), ChatRequestError>)
    requires
        message_tool_calls@.len() == message_tokens@.len(),
    ensures
        match context_error(message_tool_calls@, message_tokens@, tool_tokens@, response_format_tokens) {
            Some(m) => r matches Err(e) && e.message_view() == m,
            None => r is Ok,
        },
{
    let mut total: usize = 0;
    let mut i: usize = 0;
    while i < message_tokens.len()
        invariant
            i <= message_tokens@.len(),
            message_tool_calls@.len() == message_tokens@.len(),
            messages_check(message_tool_calls@, message_tokens@, 0, 0) == messages_check(
                message_tool_calls@,
                message_tokens@,
                total,
                i as int,
            ),
        decreases message_tokens.len() - i,
    {
        if message_tool_calls[i] > MAX_CHAT_MESSAGE_TOOL_CALLS {
            let mut m = chars_of("Chat message ");
            push_decimal(&mut m, i);
            push_str_chars(&mut m, " exceeds the 64 tool-call limit");
            return Err(ChatRequestError::InvalidRequest(string_from_chars(m.as_slice())));
        }
        let kind = indexed_kind("message", i);
        validate_chat_request_item(kind.as_str(), message_tokens[i], &mut total)?;
        i += 1;
    }
    let ghost t1 = total;
    let mut j: usize = 0;
    while j < tool_tokens.len()
        invariant
            j <= tool_tokens@.len(),
            messages_check(message_tool_calls@, message_tokens@, 0, 0) == Ok::<usize, Seq<char>>(t1),
            tools_check(tool_tokens@, t1, 0) == tools_check(tool_tokens@, total, j as int),
        decreases tool_tokens.len() - j,
    {
        let kind = indexed_kind("tool", j);
        validate_chat_request_item(kind.as_str(), tool_tokens[j], &mut total)?;
        j += 1;
    }
    match response_format_tokens {
        Some(f) => validate_chat_request_item("response format", f, &mut total),
        None => Ok(()),
    }
}

/// A message item from `role` with `content`.
pub fn message(role: &str, content: Vec<ContentItem>) -> (r: ChatItem)
    ensures
        r matches ChatItem::Message { role: got_role, content: got } && got_role@ == role@ && got
            == content,
{
    ChatItem::Message { role: role.to_string(), content }
}


/// What kind of call a chat tool name stands for.
#[derive(Clone, Copy, Debug, PartialEq, Eq, Structural)]
pub enum ChatToolCallKind {
    Function,
    Custom,
    ToolSearch,
}

/// How a tool is named on the chat wire.
#[derive(Debug)]
pub struct ChatToolCallInfo {
    pub chat_name: String,
    pub name: String,
    pub namespace: Option<String>,
    pub kind: ChatToolCallKind,
}

/// The chat name, tool name, namespace and kind of a tool.
pub open spec fn info_view(i: ChatToolCallInfo) -> (Seq<char>, Seq<char>, Option<Seq<char>>, ChatToolCallKind) {
    (i.chat_name@, i.name@, opt_view(i.namespace), i.kind)
}

pub open spec fn infos_view(s: Seq<ChatToolCallInfo>) -> Seq<(Seq<char>, Seq<char>, Option<Seq<char>>, ChatToolCallKind)> {
    s.map_values(|i: ChatToolCallInfo| info_view(i))
}

/// The chat names among `s`.
pub open spec fn chat_names(s: Seq<(Seq<char>, Seq<char>, Option<Seq<char>>, ChatToolCallKind)>) -> Seq<Seq<char>> {
    s.map_values(|i: (Seq<char>, Seq<char>, Option<Seq<char>>, ChatToolCallKind)| i.0)
}

/// The visible tools, then each hidden tool whose chat name is not taken
/// yet.
pub open spec fn merged_infos(
    visible: Seq<(Seq<char>, Seq<char>, Option<Seq<char>>, ChatToolCallKind)>,
    hidden: Seq<(Seq<char>, Seq<char>, Option<Seq<char>>, ChatToolCallKind)>,
) -> Seq<(Seq<char>, Seq<char>, Option<Seq<char>>, ChatToolCallKind)>
    decreases hidden.len(),
{
    if hidden.len() == 0 {
        visible
    } else {
        let m = merged_infos(visible, hidden.drop_last());
        if chat_names(m).contains(hidden.last().0) {
            m
        } else {
            m.push(hidden.last())
        }
    }
}

fn copy_info(i: &ChatToolCallInfo) -> (r: ChatToolCallInfo)
    ensures
        info_view(r) == info_view(*i),
{
    ChatToolCallInfo {
        chat_name: i.chat_name.clone(),
        name: i.name.clone(),
        namespace: match &i.namespace {
            Some(n) => Some(n.clone()),
            None => None,
        },
        kind: i.kind,
    }
}

/// The tools a request can name: the visible ones, then the hidden ones
/// whose chat names are free (hidden tools still resolve historical calls).
pub fn merge_hidden_tool_call_info(visible: &Vec<ChatToolCallInfo>, hidden: &Vec<ChatToolCallInfo>) -> (r: Vec<
    ChatToolCallInfo,
>)
    ensures
        infos_view(r@) == merged_infos(infos_view(visible@), infos_view(hidden@)),
{
    let mut out: Vec<ChatToolCallInfo> = Vec::new();
    let mut i: usize = 0;
    while i < visible.len()
        invariant
            i <= visible@.len(),
            infos_view(out@) == infos_view(visible@).take(i as int),
        decreases visible.len() - i,
    {
        let c = copy_info(&visible[i]);
        let ghost prev = out@;
        out.push(c);
        proof {
            assert(infos_view(prev.push(c)) =~= infos_view(prev).push(info_view(c)));
            assert(infos_view(visible@).take(i + 1) =~= infos_view(visible@).take(i as int).push(
                info_view(visible@[i as int]),
            ));
        }
        i += 1;
    }
    assert(infos_view(visible@).take(visible.len() as int) == infos_view(visible@));
    let ghost hv = infos_view(hidden@);
    let mut j: usize = 0;
    while j < hidden.len()
        invariant
            j <= hidden@.len(),
            hv == infos_view(hidden@),
            infos_view(out@) == merged_infos(infos_view(visible@), hv.take(j as int)),
        decreases hidden.len() - j,
    {
        let ghost ov = infos_view(out@);
        let mut taken = false;
        let mut k: usize = 0;
        while k < out.len()
            invariant
                k <= out@.len(),
                j < hidden@.len(),
                ov == infos_view(out@),
                !taken ==> forall|x: int| 0 <= x < k ==> chat_names(ov)[x] != hidden@[j as int].chat_name@,
                taken ==> chat_names(ov).contains(hidden@[j as int].chat_name@),
            decreases out.len() - k,
        {
            if str_eq(out[k].chat_name.as_str(), hidden[j].chat_name.as_str()) {
                proof {
                    assert(chat_names(ov)[k as int] == hidden@[j as int].chat_name@);
                }
                taken = true;
            }
            k += 1;
        }
        proof {
            assert(hv.take(j + 1).drop_last() == hv.take(j as int));
            assert(hv.take(j + 1).last() == info_view(hidden@[j as int]));
        }
        if !taken {
            let c = copy_info(&hidden[j]);
            let ghost prev = out@;
            out.push(c);
            proof {
                assert(infos_view(prev.push(c)) =~= infos_view(prev).push(info_view(c)));
            }
        }
        j += 1;
    }
    assert(hv.take(hidden.len() as int) == hv);
    out
}

/// The chat name of the last tool with this identity, if any.
pub open spec fn last_identity_match(
    infos: Seq<(Seq<char>, Seq<char>, Option<Seq<char>>, ChatToolCallKind)>,
    namespace: Option<Seq<char>>,
    name: Seq<char>,
    kind: ChatToolCallKind,
) -> Option<Seq<char>>
    decreases infos.len(),
{
    if infos.len() == 0 {
        None
    } else if infos.last().2 == namespace && infos.last().1 == name && infos.last().3 == kind {
        Some(infos.last().0)
    } else {
        last_identity_match(infos.drop_last(), namespace, name, kind)
    }
}

fn opt_str_eq(a: &Option<String>, b: Option<&str>) -> (r: bool)
    ensures
        r == (opt_view(*a) == match b {
            Some(x) => Some(x@),
            None => None::<Seq<char>>,
        }),
{
    match (a, b) {
        (Some(x), Some(y)) => str_eq(x.as_str(), y),
        (None, None) => true,
        _ => false,
    }
}

/// The chat name of a call: that of the tool with the call's namespace,
/// name and kind (the last such tool), else `fallback`, the name the chat
/// wire derives for it.
pub fn mapped_chat_tool_name(
    infos: &Vec<ChatToolCallInfo>,
    namespace: Option<&str>,
    name: &str,
    kind: ChatToolCallKind,
    fallback: &str,
) -> (r: String)
    ensures
        r@ == match last_identity_match(
            infos_view(infos@),
            match namespace {
                Some(x) => Some(x@),
                None => None,
            },
            name@,
            kind,
        ) {
            Some(n) => n,
            None => fallback@,
        },
{
    let ghost ns = match namespace {
        Some(x) => Some(x@),
        None => None::<Seq<char>>,
    };
    let ghost iv = infos_view(infos@);
    let mut k = infos.len();
    assert(iv.take(k as int) =~= iv);
    while k > 0
        invariant
            k <= infos@.len(),
            iv == infos_view(infos@),
            ns == match namespace {
                Some(x) => Some(x@),
                None => None::<Seq<char>>,
            },
            last_identity_match(iv, ns, name@, kind) == last_identity_match(iv.take(k as int), ns, name@, kind),
        decreases k,
    {
        let info = &infos[k - 1];
        proof {
            assert(iv.take(k as int).last() == info_view(*info));
            assert(iv.take(k as int).drop_last() =~= iv.take(k - 1));
        }
        if info.kind == kind && opt_str_eq(&info.namespace, namespace) && str_eq(info.name.as_str(), name) {
            let r = info.chat_name.clone();
            return r;
        }
        k -= 1;
    }
    fallback.to_string()
}


/// The chat names of the plain function tools named `name`, in order.
pub open spec fn first_party_matches(
    infos: Seq<(Seq<char>, Seq<char>, Option<Seq<char>>, ChatToolCallKind)>,
    name: Seq<char>,
) -> Seq<Seq<char>>
    decreases infos.len(),
{
    if infos.len() == 0 {
        Seq::empty()
    } else {
        let m = first_party_matches(infos.drop_last(), name);
        let l = infos.last();
        if l.1 == name && l.2 is None && l.3 == ChatToolCallKind::Function {
            m.push(l.0)
        } else {
            m
        }
    }
}

/// The chat name of the first-party tool `name` when the request declares
/// it and exactly one plain function tool carries that name.
pub open spec fn unique_first_party(
    tools: Seq<ToolSpecSummary>,
    infos: Seq<(Seq<char>, Seq<char>, Option<Seq<char>>, ChatToolCallKind)>,
    name: Seq<char>,
) -> Option<Seq<char>> {
    if !has_first_party(tools, name) {
        None
    } else {
        let ms = first_party_matches(infos, name);
        if ms.len() == 1 {
            Some(ms[0])
        } else {
            None
        }
    }
}

/// The name of a chat file tool mode, as errors show it.
pub open spec fn mode_name(mode: ChatFileToolMode) -> Seq<char> {
    match mode {
        ChatFileToolMode::Legacy => "Legacy"@,
        ChatFileToolMode::Dedicated => "Dedicated"@,
        ChatFileToolMode::DedicatedWithApplyPatch => "DedicatedWithApplyPatch"@,
    }
}

pub open spec fn msg_guidance_gate(mode: ChatFileToolMode) -> Seq<char> {
    "Chat file tool mode `"@ + mode_name(mode)
        + "` requires the dedicated_file_tools gate; enable that gate or set chat_file_tool_mode = legacy"@
}

pub open spec fn msg_guidance_missing(mode: ChatFileToolMode, tool: Seq<char>) -> Seq<char> {
    "Chat file tool mode `"@ + mode_name(mode) + "` requires a unique first-party "@ + tool
        + " tool in the request plan (gate on alone is not enough; same-named third-party tools are rejected)"@
}

/// The file tool guidance of a chat request in a dedicated mode: refused
/// when the feature is off, or when a first-party file tool is missing or its
/// name is ambiguous; otherwise the guidance naming the three tools.
pub open spec fn chat_guidance_spec(
    mode: ChatFileToolMode,
    gate_enabled: bool,
    tools: Seq<ToolSpecSummary>,
    infos: Seq<(Seq<char>, Seq<char>, Option<Seq<char>>, ChatToolCallKind)>,
) -> Result<Seq<char>, Seq<char>> {
    if !gate_enabled {
        Err(msg_guidance_gate(mode))
    } else {
        match unique_first_party(tools, infos, "read_file"@) {
            None => Err(msg_guidance_missing(mode, "read_file"@)),
            Some(r) => match unique_first_party(tools, infos, "edit_file"@) {
                None => Err(msg_guidance_missing(mode, "edit_file"@)),
                Some(e) => match unique_first_party(tools, infos, "write_file"@) {
                    None => Err(msg_guidance_missing(mode, "write_file"@)),
                    Some(w) => Ok(chat_guidance_rendered(r, e, w)),
                },
            },
        }
    }
}

fn mode_name_str(mode: ChatFileToolMode) -> (r: &'static str)
    ensures
        r@ == mode_name(mode),
{
    match mode {
        ChatFileToolMode::Legacy => "Legacy",
        ChatFileToolMode::Dedicated => "Dedicated",
        ChatFileToolMode::DedicatedWithApplyPatch => "DedicatedWithApplyPatch",
    }
}

fn find_unique_first_party(tools: &Vec<ToolSpecSummary>, infos: &Vec<ChatToolCallInfo>, name: &str) -> (r:
    Option<String>)
    ensures
        opt_view(r) == unique_first_party(tools@, infos_view(infos@), name@),
{
    if !has_first_party_dedicated_file_tool(tools, name) {
        return None;
    }
    let ghost iv = infos_view(infos@);
    let mut found: Option<String> = None;
    let mut count: usize = 0;
    let mut i: usize = 0;
    while i < infos.len()
        invariant
            i <= infos@.len(),
            iv == infos_view(infos@),
            count == first_party_matches(iv.take(i as int), name@).len(),
            count <= i,
            count >= 1 ==> (found matches Some(f) && f@ == first_party_matches(iv.take(i as int), name@)[0]),
        decreases infos.len() - i,
    {
        let info = &infos[i];
        proof {
            assert(iv.take(i + 1).drop_last() =~= iv.take(i as int));
            assert(iv.take(i + 1).last() == info_view(*info));
        }
        if info.kind == ChatToolCallKind::Function && info.namespace.is_none() && str_eq(info.name.as_str(), name) {
            if count == 0 {
                found = Some(info.chat_name.clone());
            }
            count += 1;
        }
        i += 1;
    }
    assert(iv.take(infos.len() as int) =~= iv);
    if count == 1 {
        found
    } else {
        None
    }
}

fn guidance_missing(mode: ChatFileToolMode, tool: &str) -> (r: ChatRequestError)
    ensures
        r.message_view() == msg_guidance_missing(mode, tool@),
{
    let mut m = chars_of("Chat file tool mode `");
    push_str_chars(&mut m, mode_name_str(mode));
    push_str_chars(&mut m, "` requires a unique first-party ");
    push_str_chars(&mut m, tool);
    push_str_chars(
        &mut m,
        " tool in the request plan (gate on alone is not enough; same-named third-party tools are rejected)",
    );
    ChatRequestError::InvalidRequest(string_from_chars(m.as_slice()))
}

/// The file tool guidance of a chat request in a dedicated mode (see
/// [`chat_guidance_spec`]); `infos` are the visible tools' chat names.
pub fn dedicated_chat_guidance(
    mode: ChatFileToolMode,
    gate_enabled: bool,
    tools: &Vec<ToolSpecSummary>,
    infos: &Vec<ChatToolCallInfo>,
) -> (r: Result<String, ChatRequestError>)
    ensures
        match chat_guidance_spec(mode, gate_enabled, tools@, infos_view(infos@)) {
            Ok(g) => r matches Ok(t) && t@ == g,
            Err(m) => r matches Err(e) && e.message_view() == m,
        },
{
    if !gate_enabled {
        let mut m = chars_of("Chat file tool mode `");
        push_str_chars(&mut m, mode_name_str(mode));
        push_str_chars(
            &mut m,
            "` requires the dedicated_file_tools gate; enable that gate or set chat_file_tool_mode = legacy",
        );
        return Err(ChatRequestError::InvalidRequest(string_from_chars(m.as_slice())));
    }
    let read_name = match find_unique_first_party(tools, infos, "read_file") {
        Some(n) => n,
        None => return Err(guidance_missing(mode, "read_file")),
    };
    let edit_name = match find_unique_first_party(tools, infos, "edit_file") {
        Some(n) => n,
        None => return Err(guidance_missing(mode, "edit_file")),
    };
    let write_name = match find_unique_first_party(tools, infos, "write_file") {
        Some(n) => n,
        None => return Err(guidance_missing(mode, "write_file")),
    };
    let guidance = ChatFileToolGuidance::new(read_name, edit_name, write_name);
    Ok(guidance.render())
}

/// Token limit of one context item of a chat request.
pub const MAX_CHAT_CONTEXT_ITEM_TOKENS: usize = 1_000;

pub open spec fn msg_guidance_too_large() -> Seq<char> {
    "Chat dedicated file guidance exceeds the context-item limit"@
}

/// Refuses file tool guidance of `guidance_tokens` tokens or more than a
/// context item holds.
pub fn check_guidance_size(guidance_tokens: usize) -> (r: Result<(), ChatRequestError>)
    ensures
        guidance_tokens >= MAX_CHAT_CONTEXT_ITEM_TOKENS ==> (r matches Err(e) && e.message_view()
            == msg_guidance_too_large()),
        guidance_tokens < MAX_CHAT_CONTEXT_ITEM_TOKENS ==> r is Ok,
{
    if guidance_tokens >= MAX_CHAT_CONTEXT_ITEM_TOKENS {
        return Err(
            ChatRequestError::InvalidRequest(
                "Chat dedicated file guidance exceeds the context-item limit".to_string(),
            ),
        );
    }
    Ok(())
}


/// The file tool guidance of a chat request in a dedicated mode (see
/// [`dedicated_chat_guidance`]), refused when it takes
/// [`MAX_CHAT_CONTEXT_ITEM_TOKENS`] tokens or more as `count_tokens`
/// counts them.
pub fn dedicated_chat_guidance_within_limit<F: Fn(&str) -> usize>(
    mode: ChatFileToolMode,
    gate_enabled: bool,
    tools: &Vec<ToolSpecSummary>,
    infos: &Vec<ChatToolCallInfo>,
    count_tokens: F,
) -> (r: Result<String, ChatRequestError>)
    requires
        forall|s: &str| #[trigger] count_tokens.requires((s,)),
    ensures
        match chat_guidance_spec(mode, gate_enabled, tools@, infos_view(infos@)) {
            Err(m) => r matches Err(e) && e.message_view() == m,
            Ok(g) => match r {
                Ok(t) => t@ == g && exists|s: &str, n: usize|
                    s@ == g && n < MAX_CHAT_CONTEXT_ITEM_TOKENS && #[trigger] count_tokens.ensures((s,), n),
                Err(e) => e.message_view() == msg_guidance_too_large() && exists|s: &str, n: usize|
                    s@ == g && n >= MAX_CHAT_CONTEXT_ITEM_TOKENS && #[trigger] count_tokens.ensures((s,), n),
            },
        },
{
    let guidance = dedicated_chat_guidance(mode, gate_enabled, tools, infos)?;
    let tokens = count_tokens(guidance.as_str());
    match check_guidance_size(tokens) {
        Ok(()) => Ok(guidance),
        Err(e) => Err(e),
    }
}


/// A Chat Completions request as sent: always streamed with usage
/// reported; tools offered with automatic choice.
#[derive(Debug)]
pub struct ChatCompletionsRequest {
    pub model: String,
    pub messages: Vec<ChatMessage>,
    pub stream: bool,
    pub include_usage: bool,
    /// The tools as JSON texts.
    pub tools: Vec<String>,
    pub tool_choice: Option<String>,
    pub parallel_tool_calls: Option<bool>,
    pub reasoning_effort: Option<ReasoningEffort>,
    pub service_tier: Option<String>,
    /// The response format as JSON text.
    pub response_format: Option<String>,
    pub tool_call_info: Vec<ChatToolCallInfo>,
}

/// Puts a request together: the model, the messages, streaming with usage,
/// the tools with `auto` choice and the parallel-call setting only when
/// there are tools, and the rest as given.
pub fn assemble_chat_request(
    model_slug: &str,
    messages: Vec<ChatMessage>,
    tools: Vec<String>,
    parallel_tool_calls: bool,
    reasoning_effort: Option<ReasoningEffort>,
    service_tier: Option<String>,
    response_format: Option<String>,
    tool_call_info: Vec<ChatToolCallInfo>,
) -> (r: ChatCompletionsRequest)
    ensures
        r.model@ == model_slug@,
        r.messages@ == messages@,
        r.stream,
        r.include_usage,
        r.tools@ == tools@,
        tools@.len() > 0 ==> (r.tool_choice matches Some(c) && c@ == "auto"@) && r.parallel_tool_calls
            == Some(parallel_tool_calls),
        tools@.len() == 0 ==> r.tool_choice is None && r.parallel_tool_calls is None,
        r.reasoning_effort == reasoning_effort,
        r.service_tier == service_tier,
        r.response_format == response_format,
        r.tool_call_info@ == tool_call_info@,
{
    let has_tools = tools.len() > 0;
    ChatCompletionsRequest {
        model: model_slug.to_string(),
        messages,
        stream: true,
        include_usage: true,
        tools,
        tool_choice: if has_tools {
            Some("auto".to_string())
        } else {
            None
        },
        parallel_tool_calls: if has_tools {
            Some(parallel_tool_calls)
        } else {
            None
        },
        reasoning_effort,
        service_tier,
        response_format,
        tool_call_info,
    }
}

/// The response format asking for output that follows a JSON schema:
/// `{"type": "json_schema", "json_schema": {"name": "codex_output_schema",
/// "strict": .., "schema": ..}}`, as `serde_json` writes it.
pub open spec fn response_format_json(schema: Seq<char>, strict: bool) -> Seq<char> {
    json_object_text(
        seq![
            ("type"@, json_string_literal("json_schema"@)),
            (
                "json_schema"@,
                json_object_text(
                    seq![
                        ("name"@, json_string_literal("codex_output_schema"@)),
                        ("strict"@, if strict {
                            "true"@
                        } else {
                            "false"@
                        }),
                        ("schema"@, schema),
                    ],
                ),
            ),
        ],
    )
}

/// The response format for an output schema given as JSON text; `None`
/// when the text is not JSON.
pub fn chat_response_format(schema: &str, strict: bool) -> (r: Option<String>)
    ensures
        json_shape_of(schema@) == JsonShape::Invalid ==> r is None,
        json_shape_of(schema@) != JsonShape::Invalid ==> (r matches Some(t) && t@ == response_format_json(
            json_compact_text(schema@),
            strict,
        )),
{
    let (shape, compact) = read_json(schema);
    if shape == JsonShape::Invalid {
        return None;
    }
    let name = json_string("codex_output_schema");
    let strict_text = if strict {
        "true".to_string()
    } else {
        "false".to_string()
    };
    let ghost (nv, sv, cv) = (name@, strict_text@, compact@);
    let mut inner: Vec<(String, String)> = Vec::new();
    inner.push(("name".to_string(), name));
    inner.push(("strict".to_string(), strict_text));
    inner.push(("schema".to_string(), compact));
    assert(entries_view(inner@) =~= seq![("name"@, nv), ("strict"@, sv), ("schema"@, cv)]);
    let inner_text = json_object(&inner);
    let kind = json_string("json_schema");
    let ghost (kv, iv) = (kind@, inner_text@);
    let mut outer: Vec<(String, String)> = Vec::new();
    outer.push(("type".to_string(), kind));
    outer.push(("json_schema".to_string(), inner_text));
    assert(entries_view(outer@) =~= seq![("type"@, kv), ("json_schema"@, iv)]);
    Some(json_object(&outer))
}

} // verus!
