//! The message history sent to the Messages API, and its repair:
//! every `tool_use` of an assistant message must be answered, in order and
//! at the start of the next user message, by a `tool_result` for the same
//! id, and no `tool_result` may stand anywhere else.
use vstd::prelude::*;
use crate::text::{
    chars_of, decimal, is_whitespace_char, is_ws, push_all, push_decimal, push_str_chars, str_eq,
    string_from_chars,
};

verus! {

/// Who speaks a message.
#[derive(Clone, Copy, Debug, PartialEq, Eq, Structural)]
pub enum ClaudeRole {
    User,
    Assistant,
}

/// Where an image comes from.
#[derive(Debug, PartialEq)]
pub enum ImageSource {
    Base64 { media_type: String, data: String },
    Url { url: String },
}

/// A block inside the content of a tool result.
#[derive(Debug, PartialEq)]
pub enum NestedBlock {
    Text { text: String, cache_control: Option<String> },
    Image { source: ImageSource },
    /// Any other block, kept as its JSON text.
    Other { raw: String },
}

/// The content of a tool result.
#[derive(Debug, PartialEq)]
pub enum ToolResultContent {
    Text(String),
    Blocks(Vec<NestedBlock>),
}

/// A content block of a message.
#[derive(Debug, PartialEq)]
pub enum ClaudeBlock {
    Text { text: String, cache_control: Option<String> },
    Image { source: ImageSource },
    ToolUse { id: String, name: String, input: String },
    ToolResult {
        tool_use_id: String,
        content: ToolResultContent,
        is_error: bool,
        cache_reference: Option<String>,
    },
    /// Cache edits deleting the cached prefixes with these references.
    CacheEdits { deletes: Vec<String> },
    Thinking { thinking: String, signature: Option<String> },
    /// Provider state kept as its JSON text, with its `type` field when it
    /// is a string.
    ProviderState { value: String, kind: Option<String> },
}

/// A message of the history.
#[derive(Debug, PartialEq)]
pub struct ClaudeMessage {
    pub role: ClaudeRole,
    pub content: Vec<ClaudeBlock>,
}

pub enum ImageView {
    Base64 { media_type: Seq<char>, data: Seq<char> },
    Url { url: Seq<char> },
}

pub enum NestedView {
    Text { text: Seq<char>, cache_control: Option<Seq<char>> },
    Image { source: ImageView },
    Other { raw: Seq<char> },
}

pub enum ResultView {
    Text(Seq<char>),
    Blocks(Seq<NestedView>),
}

pub enum BlockView {
    Text { text: Seq<char>, cache_control: Option<Seq<char>> },
    Image { source: ImageView },
    ToolUse { id: Seq<char>, name: Seq<char>, input: Seq<char> },
    ToolResult {
        tool_use_id: Seq<char>,
        content: ResultView,
        is_error: bool,
        cache_reference: Option<Seq<char>>,
    },
    CacheEdits { deletes: Seq<Seq<char>> },
    Thinking { thinking: Seq<char>, signature: Option<Seq<char>> },
    ProviderState { value: Seq<char>, kind: Option<Seq<char>> },
}

pub struct MessageView {
    pub role: ClaudeRole,
    pub content: Seq<BlockView>,
}

/// The characters of an optional string.
pub open spec fn opt_view(o: Option<String>) -> Option<Seq<char>> {
    match o {
        Some(s) => Some(s@),
        None => None,
    }
}

impl View for ImageSource {
    type V = ImageView;

    open spec fn view(&self) -> ImageView {
        match self {
            ImageSource::Base64 { media_type, data } => ImageView::Base64 {
                media_type: media_type@,
                data: data@,
            },
            ImageSource::Url { url } => ImageView::Url { url: url@ },
        }
    }
}

impl View for NestedBlock {
    type V = NestedView;

    open spec fn view(&self) -> NestedView {
        match self {
            NestedBlock::Text { text, cache_control } => NestedView::Text {
                text: text@,
                cache_control: opt_view(*cache_control),
            },
            NestedBlock::Image { source } => NestedView::Image { source: source@ },
            NestedBlock::Other { raw } => NestedView::Other { raw: raw@ },
        }
    }
}

impl View for ToolResultContent {
    type V = ResultView;

    open spec fn view(&self) -> ResultView {
        match self {
            ToolResultContent::Text(t) => ResultView::Text(t@),
            ToolResultContent::Blocks(b) => ResultView::Blocks(b@.map_values(|n: NestedBlock| n@)),
        }
    }
}

impl View for ClaudeBlock {
    type V = BlockView;

    open spec fn view(&self) -> BlockView {
        match self {
            ClaudeBlock::Text { text, cache_control } => BlockView::Text {
                text: text@,
                cache_control: opt_view(*cache_control),
            },
            ClaudeBlock::Image { source } => BlockView::Image { source: source@ },
            ClaudeBlock::ToolUse { id, name, input } => BlockView::ToolUse {
                id: id@,
                name: name@,
                input: input@,
            },
            ClaudeBlock::ToolResult { tool_use_id, content, is_error, cache_reference } =>
                BlockView::ToolResult {
                tool_use_id: tool_use_id@,
                content: content@,
                is_error: *is_error,
                cache_reference: opt_view(*cache_reference),
            },
            ClaudeBlock::CacheEdits { deletes } => BlockView::CacheEdits {
                deletes: deletes@.map_values(|d: String| d@),
            },
            ClaudeBlock::Thinking { thinking, signature } => BlockView::Thinking {
                thinking: thinking@,
                signature: opt_view(*signature),
            },
            ClaudeBlock::ProviderState { value, kind } => BlockView::ProviderState {
                value: value@,
                kind: opt_view(*kind),
            },
        }
    }
}

/// The views of `bs`.
pub open spec fn blocks_view(bs: Seq<ClaudeBlock>) -> Seq<BlockView> {
    bs.map_values(|b: ClaudeBlock| b@)
}

impl View for ClaudeMessage {
    type V = MessageView;

    open spec fn view(&self) -> MessageView {
        MessageView { role: self.role, content: blocks_view(self.content@) }
    }
}

/// The views of `ms`.
pub open spec fn messages_view(ms: Seq<ClaudeMessage>) -> Seq<MessageView> {
    ms.map_values(|m: ClaudeMessage| m@)
}

/// A copy of an optional string.
pub fn copy_opt(o: &Option<String>) -> (r: Option<String>)
    ensures
        opt_view(r) == opt_view(*o),
{
    match o {
        Some(s) => Some(s.clone()),
        None => None,
    }
}

/// A copy of a list of strings.
pub fn copy_strings(v: &Vec<String>) -> (r: Vec<String>)
    ensures
        r@.map_values(|s: String| s@) == v@.map_values(|s: String| s@),
{
    let mut out: Vec<String> = Vec::new();
    let mut i: usize = 0;
    while i < v.len()
        invariant
            i <= v@.len(),
            out@.map_values(|s: String| s@) == v@.take(i as int).map_values(|s: String| s@),
        decreases v.len() - i,
    {
        out.push(v[i].clone());
        assert(v@.take(i + 1).map_values(|s: String| s@) == v@.take(i as int).map_values(
            |s: String| s@,
        ).push(v@[i as int]@));
        i += 1;
    }
    assert(v@.take(v.len() as int) == v@);
    out
}

impl ImageSource {
    /// A copy of the source.
    pub fn duplicate(&self) -> (r: Self)
        ensures
            r@ == self@,
    {
        match self {
            ImageSource::Base64 { media_type, data } => ImageSource::Base64 {
                media_type: media_type.clone(),
                data: data.clone(),
            },
            ImageSource::Url { url } => ImageSource::Url { url: url.clone() },
        }
    }
}

impl NestedBlock {
    /// A copy of the block.
    pub fn duplicate(&self) -> (r: Self)
        ensures
            r@ == self@,
    {
        match self {
            NestedBlock::Text { text, cache_control } => NestedBlock::Text {
                text: text.clone(),
                cache_control: copy_opt(cache_control),
            },
            NestedBlock::Image { source } => NestedBlock::Image { source: source.duplicate() },
            NestedBlock::Other { raw } => NestedBlock::Other { raw: raw.clone() },
        }
    }
}

/// A copy of nested blocks.
pub fn copy_nested(v: &Vec<NestedBlock>) -> (r: Vec<NestedBlock>)
    ensures
        r@.map_values(|n: NestedBlock| n@) == v@.map_values(|n: NestedBlock| n@),
{
    let mut out: Vec<NestedBlock> = Vec::new();
    let mut i: usize = 0;
    while i < v.len()
        invariant
            i <= v@.len(),
            out@.map_values(|n: NestedBlock| n@) == v@.take(i as int).map_values(
                |n: NestedBlock| n@,
            ),
        decreases v.len() - i,
    {
        out.push(v[i].duplicate());
        assert(v@.take(i + 1) == v@.take(i as int).push(v@[i as int]));
        assert(v@.take(i + 1).map_values(|n: NestedBlock| n@) == v@.take(i as int).map_values(
            |n: NestedBlock| n@,
        ).push(v@[i as int]@));
        i += 1;
    }
    assert(v@.take(v.len() as int) == v@);
    out
}

impl ToolResultContent {
    /// A copy of the content.
    pub fn duplicate(&self) -> (r: Self)
        ensures
            r@ == self@,
    {
        match self {
            ToolResultContent::Text(t) => ToolResultContent::Text(t.clone()),
            ToolResultContent::Blocks(b) => ToolResultContent::Blocks(copy_nested(b)),
        }
    }
}

impl ClaudeBlock {
    /// A copy of the block.
    pub fn duplicate(&self) -> (r: Self)
        ensures
            r@ == self@,
    {
        match self {
            ClaudeBlock::Text { text, cache_control } => ClaudeBlock::Text {
                text: text.clone(),
                cache_control: copy_opt(cache_control),
            },
            ClaudeBlock::Image { source } => ClaudeBlock::Image { source: source.duplicate() },
            ClaudeBlock::ToolUse { id, name, input } => ClaudeBlock::ToolUse {
                id: id.clone(),
                name: name.clone(),
                input: input.clone(),
            },
            ClaudeBlock::ToolResult { tool_use_id, content, is_error, cache_reference } =>
                ClaudeBlock::ToolResult {
                tool_use_id: tool_use_id.clone(),
                content: content.duplicate(),
                is_error: *is_error,
                cache_reference: copy_opt(cache_reference),
            },
            ClaudeBlock::CacheEdits { deletes } => ClaudeBlock::CacheEdits {
                deletes: copy_strings(deletes),
            },
            ClaudeBlock::Thinking { thinking, signature } => ClaudeBlock::Thinking {
                thinking: thinking.clone(),
                signature: copy_opt(signature),
            },
            ClaudeBlock::ProviderState { value, kind } => ClaudeBlock::ProviderState {
                value: value.clone(),
                kind: copy_opt(kind),
            },
        }
    }
}

/// Answers a `tool_use` whose result went missing.
pub open spec fn synthetic_placeholder() -> Seq<char> {
    "[Tool result missing due to internal error]"@
}

/// Stands in for an assistant message left empty by dropped tool uses.
pub open spec fn interrupted_placeholder() -> Seq<char> {
    "[Tool use interrupted]"@
}

/// The id of a `tool_use` block.
pub open spec fn use_id(b: BlockView) -> Option<Seq<char>> {
    match b {
        BlockView::ToolUse { id, .. } => Some(id),
        _ => None,
    }
}

/// The id a `tool_result` block answers.
pub open spec fn result_id(b: BlockView) -> Option<Seq<char>> {
    match b {
        BlockView::ToolResult { tool_use_id, .. } => Some(tool_use_id),
        _ => None,
    }
}

/// The error result that answers `id` when its result is missing.
pub open spec fn synthetic_result(id: Seq<char>) -> BlockView {
    BlockView::ToolResult {
        tool_use_id: id,
        content: ResultView::Text(synthetic_placeholder()),
        is_error: true,
        cache_reference: None,
    }
}

/// An assistant message's content scanned for tool uses, given the ids
/// already seen: the blocks kept, the new ids in order, whether a repeated
/// tool use was dropped, and the ids seen afterwards.
pub open spec fn assistant_fold(c: Seq<BlockView>, seen: Seq<Seq<char>>) -> (
    Seq<BlockView>,
    Seq<Seq<char>>,
    bool,
    Seq<Seq<char>>,
)
    decreases c.len(),
{
    if c.len() == 0 {
        (Seq::empty(), Seq::empty(), false, seen)
    } else {
        let (k, p, d, s) = assistant_fold(c.drop_last(), seen);
        let b = c.last();
        match use_id(b) {
            Some(id) => if s.contains(id) {
                (k, p, true, s)
            } else {
                (k.push(b), p.push(id), d, s.push(id))
            },
            None => (k.push(b), p, d, s),
        }
    }
}

/// The content of a repaired assistant message: repeated tool uses
/// dropped, and a placeholder when nothing else is left.
pub open spec fn repaired_assistant(c: Seq<BlockView>, seen: Seq<Seq<char>>) -> Seq<BlockView> {
    let (k, _p, d, _s) = assistant_fold(c, seen);
    if k.len() == 0 && d {
        seq![BlockView::Text { text: interrupted_placeholder(), cache_control: None }]
    } else {
        k
    }
}

/// The first result in `c` for `id`.
pub open spec fn first_result_for(c: Seq<BlockView>, id: Seq<char>) -> Option<BlockView>
    decreases c.len(),
{
    if c.len() == 0 {
        None
    } else if result_id(c[0]) == Some(id) {
        Some(c[0])
    } else {
        first_result_for(c.drop_first(), id)
    }
}

/// The blocks of `c` that are not tool results, in order.
pub open spec fn ordinary_blocks(c: Seq<BlockView>) -> Seq<BlockView>
    decreases c.len(),
{
    if c.len() == 0 {
        Seq::empty()
    } else if result_id(c.last()) is Some {
        ordinary_blocks(c.drop_last())
    } else {
        ordinary_blocks(c.drop_last()).push(c.last())
    }
}

/// The result answering the `i`-th pending id: the first result for it in
/// `c` (only once per id), else a synthetic error result.
pub open spec fn answer(c: Seq<BlockView>, pending: Seq<Seq<char>>, i: int) -> BlockView {
    if pending.take(i).contains(pending[i]) {
        synthetic_result(pending[i])
    } else {
        match first_result_for(c, pending[i]) {
            Some(b) => b,
            None => synthetic_result(pending[i]),
        }
    }
}

/// The content of a repaired user message that follows tool uses with
/// ids `pending`: one result per id in their order, then the ordinary
/// blocks.
pub open spec fn repaired_user(c: Seq<BlockView>, pending: Seq<Seq<char>>) -> Seq<BlockView> {
    Seq::new(pending.len(), |i: int| answer(c, pending, i)) + ordinary_blocks(c)
}

/// The views of a list of strings.
pub open spec fn strings_view(v: Seq<String>) -> Seq<Seq<char>> {
    v.map_values(|s: String| s@)
}

fn contains_string(v: &Vec<String>, s: &str) -> (r: bool)
    ensures
        r == strings_view(v@).contains(s@),
{
    let mut i: usize = 0;
    while i < v.len()
        invariant
            i <= v@.len(),
            forall|j: int| 0 <= j < i ==> strings_view(v@)[j] != s@,
        decreases v.len() - i,
    {
        if str_eq(v[i].as_str(), s) {
            assert(strings_view(v@)[i as int] == s@);
            return true;
        }
        i += 1;
    }
    false
}

/// A text block without cache control.
pub fn text_block(text: &str) -> (r: ClaudeBlock)
    ensures
        r@ == (BlockView::Text { text: text@, cache_control: None }),
{
    ClaudeBlock::Text { text: text.to_string(), cache_control: None }
}

/// The synthetic error result for `call_id`.
pub fn synthetic_tool_result_block(call_id: &str) -> (r: ClaudeBlock)
    ensures
        r@ == synthetic_result(call_id@),
{
    ClaudeBlock::ToolResult {
        tool_use_id: call_id.to_string(),
        content: ToolResultContent::Text("[Tool result missing due to internal error]".to_string()),
        is_error: true,
        cache_reference: None,
    }
}

/// Drops repeated tool uses from an assistant message (ids in `seen` were
/// used before) and returns the message with the ids of its remaining tool
/// uses, adding them to `seen`.
pub fn repair_assistant_tool_uses(message: &ClaudeMessage, seen: &mut Vec<String>) -> (r: (
    ClaudeMessage,
    Vec<String>,
))
    ensures
        r.0@.role == ClaudeRole::Assistant,
        r.0@.content == repaired_assistant(message@.content, strings_view(old(seen)@)),
        strings_view(r.1@) == assistant_fold(message@.content, strings_view(old(seen)@)).1,
        strings_view(final(seen)@) == assistant_fold(message@.content, strings_view(old(seen)@)).3,
{
    let ghost c = message@.content;
    let ghost seen0 = strings_view(seen@);
    let mut pending: Vec<String> = Vec::new();
    let mut content: Vec<ClaudeBlock> = Vec::new();
    let mut dropped = false;
    let mut i: usize = 0;
    while i < message.content.len()
        invariant
            i <= message.content@.len(),
            c == message@.content,
            (blocks_view(content@), strings_view(pending@), dropped, strings_view(seen@))
                == assistant_fold(c.take(i as int), seen0),
        decreases message.content.len() - i,
    {
        let block = &message.content[i];
        proof {
            assert(c.take(i + 1).drop_last() == c.take(i as int));
            assert(c.take(i + 1).last() == block@);
        }
        match block {
            ClaudeBlock::ToolUse { id, .. } => {
                if contains_string(seen, id.as_str()) {
                    dropped = true;
                } else {
                    seen.push(id.clone());
                    pending.push(id.clone());
                    content.push(block.duplicate());
                }
            },
            _ => {
                content.push(block.duplicate());
            },
        }
        proof {
            assert(blocks_view(content@) == assistant_fold(c.take(i + 1), seen0).0);
        }
        i += 1;
    }
    assert(c.take(message.content.len() as int) == c);
    if content.len() == 0 && dropped {
        content.push(text_block("[Tool use interrupted]"));
    }
    (ClaudeMessage { role: ClaudeRole::Assistant, content }, pending)
}

proof fn lemma_first_result_skip(c: Seq<BlockView>, id: Seq<char>, j: int)
    requires
        0 <= j <= c.len(),
        forall|k: int| 0 <= k < j ==> result_id(#[trigger] c[k]) != Some(id),
    ensures
        first_result_for(c, id) == first_result_for(c.skip(j), id),
    decreases j,
{
    if j > 0 {
        assert(result_id(c[0]) != Some(id));
        let d = c.drop_first();
        assert forall|k: int| 0 <= k < j - 1 implies result_id(#[trigger] d[k]) != Some(id) by {
            assert(d[k] == c[k + 1]);
        }
        lemma_first_result_skip(d, id, j - 1);
        assert(d.skip(j - 1) == c.skip(j));
    } else {
        assert(c.skip(0) == c);
    }
}

/// Index of the first result in `c` for `id`.
fn find_first_result(c: &Vec<ClaudeBlock>, id: &str) -> (r: Option<usize>)
    ensures
        match r {
            Some(j) => j < c@.len() && first_result_for(blocks_view(c@), id@) == Some(
                blocks_view(c@)[j as int],
            ),
            None => first_result_for(blocks_view(c@), id@) is None,
        },
{
    let ghost cv = blocks_view(c@);
    let mut j: usize = 0;
    while j < c.len()
        invariant
            j <= c@.len(),
            cv == blocks_view(c@),
            forall|k: int| 0 <= k < j ==> result_id(#[trigger] cv[k]) != Some(id@),
        decreases c.len() - j,
    {
        match &c[j] {
            ClaudeBlock::ToolResult { tool_use_id, .. } => {
                if str_eq(tool_use_id.as_str(), id) {
                    proof {
                        lemma_first_result_skip(cv, id@, j as int);
                        assert(cv.skip(j as int)[0] == cv[j as int]);
                    }
                    return Some(j);
                }
            },
            _ => {},
        }
        assert(result_id(cv[j as int]) != Some(id@));
        j += 1;
    }
    proof {
        lemma_first_result_skip(cv, id@, j as int);
    }
    None
}

/// Whether `s` occurs among the first `n` strings of `v`.
fn contains_string_before(v: &Vec<String>, n: usize, s: &str) -> (r: bool)
    requires
        n <= v@.len(),
    ensures
        r == strings_view(v@).take(n as int).contains(s@),
{
    let ghost sv = strings_view(v@);
    let mut i: usize = 0;
    while i < n
        invariant
            i <= n <= v@.len(),
            sv == strings_view(v@),
            forall|j: int| 0 <= j < i ==> sv[j] != s@,
        decreases n - i,
    {
        if str_eq(v[i].as_str(), s) {
            assert(sv.take(n as int)[i as int] == s@);
            return true;
        }
        i += 1;
    }
    assert forall|j: int| 0 <= j < n implies sv.take(n as int)[j] != s@ by {
        assert(sv.take(n as int)[j] == sv[j]);
    }
    false
}

/// The user message after tool uses with ids `pending`, repaired: one
/// result per id in their order (the first one given for it, else a
/// synthetic error result), then the blocks that are not tool results.
/// Results for other ids and repeated results are dropped.
pub fn repair_user_tool_results(message: &ClaudeMessage, pending: &Vec<String>) -> (r: ClaudeMessage)
    ensures
        r@ == (MessageView {
            role: ClaudeRole::User,
            content: repaired_user(message@.content, strings_view(pending@)),
        }),
{
    let ghost c = message@.content;
    let ghost pv = strings_view(pending@);
    let mut content: Vec<ClaudeBlock> = Vec::new();
    let mut i: usize = 0;
    while i < pending.len()
        invariant
            i <= pending@.len(),
            c == message@.content,
            pv == strings_view(pending@),
            blocks_view(content@) == Seq::new(i as nat, |k: int| answer(c, pv, k)),
        decreases pending.len() - i,
    {
        let id = pending[i].as_str();
        let b = if contains_string_before(pending, i, id) {
            synthetic_tool_result_block(id)
        } else {
            match find_first_result(&message.content, id) {
                Some(j) => message.content[j].duplicate(),
                None => synthetic_tool_result_block(id),
            }
        };
        assert(b@ == answer(c, pv, i as int));
        let ghost before = blocks_view(content@);
        let ghost bv = b@;
        content.push(b);
        assert(blocks_view(content@) == before.push(bv));
        assert(Seq::new((i + 1) as nat, |k: int| answer(c, pv, k)) =~= Seq::new(
            i as nat,
            |k: int| answer(c, pv, k),
        ).push(answer(c, pv, i as int)));
        i += 1;
    }
    let ghost answered = blocks_view(content@);
    let mut k: usize = 0;
    while k < message.content.len()
        invariant
            k <= message.content@.len(),
            c == message@.content,
            blocks_view(content@) == answered + ordinary_blocks(c.take(k as int)),
        decreases message.content.len() - k,
    {
        proof {
            assert(c.take(k + 1).drop_last() == c.take(k as int));
            assert(c.take(k + 1).last() == message.content@[k as int]@);
        }
        let ghost before = blocks_view(content@);
        match &message.content[k] {
            ClaudeBlock::ToolResult { .. } => {},
            other => {
                let d = other.duplicate();
                let ghost dv = d@;
                content.push(d);
                assert(blocks_view(content@) == before.push(dv));
                assert(result_id(dv) is None);
            },
        }
        k += 1;
    }
    assert(c.take(message.content.len() as int) == c);
    ClaudeMessage { role: ClaudeRole::User, content }
}

/// The blocks of `content` that are not tool results.
pub fn strip_tool_result_blocks(content: &Vec<ClaudeBlock>) -> (r: Vec<ClaudeBlock>)
    ensures
        blocks_view(r@) == ordinary_blocks(blocks_view(content@)),
{
    let ghost c = blocks_view(content@);
    let mut out: Vec<ClaudeBlock> = Vec::new();
    let mut k: usize = 0;
    while k < content.len()
        invariant
            k <= content@.len(),
            c == blocks_view(content@),
            blocks_view(out@) == ordinary_blocks(c.take(k as int)),
        decreases content.len() - k,
    {
        proof {
            assert(c.take(k + 1).drop_last() == c.take(k as int));
            assert(c.take(k + 1).last() == content@[k as int]@);
        }
        let ghost before = blocks_view(out@);
        match &content[k] {
            ClaudeBlock::ToolResult { .. } => {},
            other => {
                let d = other.duplicate();
                let ghost dv = d@;
                out.push(d);
                assert(blocks_view(out@) == before.push(dv));
                assert(result_id(dv) is None);
            },
        }
        k += 1;
    }
    assert(c.take(content.len() as int) == c);
    out
}

/// The synthetic results for `ids`.
pub open spec fn synthetic_results(ids: Seq<Seq<char>>) -> Seq<BlockView> {
    Seq::new(ids.len(), |i: int| synthetic_result(ids[i]))
}

/// The history from message `i` on, repaired, given the tool use ids seen
/// before it. An assistant message loses repeated tool uses; when tool uses
/// remain, the next message is repaired as their answer when it is a user
/// message, else a user message of synthetic results is inserted. Any other
/// user message loses its tool results, and is dropped when nothing is left.
pub open spec fn repair_from(ms: Seq<MessageView>, i: int, seen: Seq<Seq<char>>) -> Seq<MessageView>
    decreases ms.len() - i,
{
    if i < 0 || i >= ms.len() {
        Seq::empty()
    } else if ms[i].role == ClaudeRole::Assistant {
        let f = assistant_fold(ms[i].content, seen);
        let a = MessageView {
            role: ClaudeRole::Assistant,
            content: repaired_assistant(ms[i].content, seen),
        };
        if f.1.len() == 0 {
            seq![a] + repair_from(ms, i + 1, f.3)
        } else if i + 1 < ms.len() && ms[i + 1].role == ClaudeRole::User {
            seq![a, MessageView { role: ClaudeRole::User, content: repaired_user(ms[i + 1].content, f.1) }]
                + repair_from(ms, i + 2, f.3)
        } else {
            seq![a, MessageView { role: ClaudeRole::User, content: synthetic_results(f.1) }]
                + repair_from(ms, i + 1, f.3)
        }
    } else {
        let c = ordinary_blocks(ms[i].content);
        (if c.len() > 0 {
            seq![MessageView { role: ClaudeRole::User, content: c }]
        } else {
            Seq::empty()
        }) + repair_from(ms, i + 1, seen)
    }
}

/// The repaired history.
pub open spec fn repaired_history(ms: Seq<MessageView>) -> Seq<MessageView> {
    repair_from(ms, 0, Seq::empty())
}

/// Repairs the tool history so that every remaining tool use is answered
/// at the start of the next user message and no other tool result remains.
pub fn repair_tool_result_history(messages: &Vec<ClaudeMessage>) -> (r: Vec<ClaudeMessage>)
    ensures
        messages_view(r@) == repaired_history(messages_view(messages@)),
{
    let ghost mv = messages_view(messages@);
    let mut repaired: Vec<ClaudeMessage> = Vec::new();
    let mut seen: Vec<String> = Vec::new();
    let mut index: usize = 0;
    assert(messages_view(repaired@) == Seq::<MessageView>::empty());
    assert(strings_view(seen@) == Seq::<Seq<char>>::empty());
    while index < messages.len()
        invariant
            index <= messages@.len(),
            mv == messages_view(messages@),
            messages_view(repaired@) + repair_from(mv, index as int, strings_view(seen@))
                == repaired_history(mv),
        decreases messages.len() - index,
    {
        let ghost before = messages_view(repaired@);
        let ghost seen0 = strings_view(seen@);
        let message = &messages[index];
        assert(mv[index as int] == message@);
        match message.role {
            ClaudeRole::Assistant => {
                let (fixed, pending) = repair_assistant_tool_uses(message, &mut seen);
                let ghost a = fixed@;
                repaired.push(fixed);
                assert(messages_view(repaired@) == before.push(a));
                if pending.len() == 0 {
                    assert(before + repair_from(mv, index as int, seen0) == before.push(a)
                        + repair_from(mv, index + 1, strings_view(seen@)));
                    index += 1;
                } else if index + 1 < messages.len() && messages[index + 1].role == ClaudeRole::User {
                    assert(mv[index + 1] == messages@[index + 1]@);
                    let answer = repair_user_tool_results(&messages[index + 1], &pending);
                    let ghost u = answer@;
                    repaired.push(answer);
                    assert(messages_view(repaired@) == before.push(a).push(u));
                    assert(before + repair_from(mv, index as int, seen0) == before.push(a).push(u)
                        + repair_from(mv, index + 2, strings_view(seen@)));
                    index += 2;
                } else {
                    if index + 1 < messages.len() {
                        assert(mv[index + 1] == messages@[index + 1]@);
                    }
                    let mut content: Vec<ClaudeBlock> = Vec::new();
                    let mut k: usize = 0;
                    while k < pending.len()
                        invariant
                            k <= pending@.len(),
                            blocks_view(content@) == synthetic_results(strings_view(pending@)).take(
                                k as int,
                            ),
                        decreases pending.len() - k,
                    {
                        let b = synthetic_tool_result_block(pending[k].as_str());
                        let ghost cb = blocks_view(content@);
                        let ghost bv = b@;
                        content.push(b);
                        assert(blocks_view(content@) == cb.push(bv));
                        assert(synthetic_results(strings_view(pending@)).take(k + 1)
                            == synthetic_results(strings_view(pending@)).take(k as int).push(bv));
                        k += 1;
                    }
                    assert(synthetic_results(strings_view(pending@)).take(pending.len() as int)
                        == synthetic_results(strings_view(pending@)));
                    let u = ClaudeMessage { role: ClaudeRole::User, content };
                    let ghost uv = u@;
                    repaired.push(u);
                    assert(messages_view(repaired@) == before.push(a).push(uv));
                    assert(before + repair_from(mv, index as int, seen0) == before.push(a).push(uv)
                        + repair_from(mv, index + 1, strings_view(seen@)));
                    index += 1;
                }
            },
            ClaudeRole::User => {
                let content = strip_tool_result_blocks(&message.content);
                if content.len() > 0 {
                    let u = ClaudeMessage { role: ClaudeRole::User, content };
                    let ghost uv = u@;
                    repaired.push(u);
                    assert(messages_view(repaired@) == before.push(uv));
                    assert(before + repair_from(mv, index as int, seen0) == before.push(uv)
                        + repair_from(mv, index + 1, seen0));
                } else {
                    assert(before + repair_from(mv, index as int, seen0) == before + repair_from(
                        mv,
                        index + 1,
                        seen0,
                    ));
                }
                index += 1;
            },
        }
    }
    assert(repair_from(mv, index as int, strings_view(seen@)) == Seq::<MessageView>::empty());
    repaired
}

/// The ids of the tool uses in `c`, in order.
pub open spec fn use_ids(c: Seq<BlockView>) -> Seq<Seq<char>>
    decreases c.len(),
{
    if c.len() == 0 {
        Seq::empty()
    } else {
        match use_id(c.last()) {
            Some(id) => use_ids(c.drop_last()).push(id),
            None => use_ids(c.drop_last()),
        }
    }
}

/// Some block of `c` from index `from` on is a tool result.
pub open spec fn has_result_from(c: Seq<BlockView>, from: int) -> bool {
    exists|j: int| from <= j < c.len() && #[trigger] result_id(c[j]) is Some
}

/// The first offset `k >= from` below `p.len()` whose block is not the
/// result for `p[k]`.
pub open spec fn first_mismatch_from(c: Seq<BlockView>, p: Seq<Seq<char>>, k: int) -> Option<int>
    decreases p.len() - k,
{
    if k < 0 || k >= p.len() {
        None
    } else if result_id(c[k]) != Some(p[k]) {
        Some(k)
    } else {
        first_mismatch_from(c, p, k + 1)
    }
}

/// `ids` joined by `, `.
pub open spec fn join_ids(ids: Seq<Seq<char>>) -> Seq<char>
    decreases ids.len(),
{
    if ids.len() == 0 {
        Seq::empty()
    } else if ids.len() == 1 {
        ids[0]
    } else {
        join_ids(ids.drop_last()) + ", "@ + ids.last()
    }
}

/// What is wrong with message `m` (number `i`), which follows tool uses
/// with ids `pending`.
pub open spec fn pending_error(i: nat, m: MessageView, pending: Seq<Seq<char>>) -> Option<Seq<char>> {
    if m.role != ClaudeRole::User {
        Some(
            "assistant tool_use blocks must be followed by a user tool_result message, got Assistant message "@
                + decimal(i),
        )
    } else if m.content.len() < pending.len() {
        Some(
            "user message "@ + decimal(i)
                + " has fewer tool_result blocks than preceding tool_use blocks"@,
        )
    } else {
        match first_mismatch_from(m.content, pending, 0) {
            Some(k) => if result_id(m.content[k]) is None {
                Some(
                    "user message "@ + decimal(i)
                        + " has ordinary content before required tool_result "@ + decimal(k as nat)
                        + " for preceding tool_use id "@ + pending[k],
                )
            } else {
                Some(
                    "user message "@ + decimal(i) + " tool_result "@ + decimal(k as nat)
                        + " does not match preceding tool_use id "@ + pending[k],
                )
            },
            None => if has_result_from(m.content, pending.len() as int) {
                Some(
                    "user message "@ + decimal(i)
                        + " contains tool_result blocks after ordinary content"@,
                )
            } else {
                None
            },
        }
    }
}

/// The first problem of the history `ms` (its first message being number
/// `base`) when tool uses with ids `pending` precede it.
pub open spec fn validate_from(ms: Seq<MessageView>, base: nat, pending: Seq<Seq<char>>) -> Option<
    Seq<char>,
>
    decreases ms.len(),
{
    if ms.len() == 0 {
        if pending.len() > 0 {
            Some(
                "assistant tool_use blocks were not followed by matching user tool_result blocks: "@
                    + join_ids(pending),
            )
        } else {
            None
        }
    } else {
        let m = ms[0];
        let err = if pending.len() == 0 {
            if m.role == ClaudeRole::User && has_result_from(m.content, 0) {
                Some(
                    "user message "@ + decimal(base)
                        + " contains tool_result without a preceding assistant tool_use"@,
                )
            } else {
                None
            }
        } else {
            pending_error(base, m, pending)
        };
        match err {
            Some(e) => Some(e),
            None => validate_from(
                ms.drop_first(),
                base + 1,
                if m.role == ClaudeRole::Assistant {
                    use_ids(m.content)
                } else {
                    Seq::empty()
                },
            ),
        }
    }
}

/// The first problem of the tool history, if any.
pub open spec fn history_error(ms: Seq<MessageView>) -> Option<Seq<char>> {
    validate_from(ms, 0, Seq::empty())
}

/// A history the request builder refuses.
#[derive(Debug)]
pub enum ClaudeHistoryError {
    InvalidRequest(String),
}

impl ClaudeHistoryError {
    /// The error's message.
    pub open spec fn message_view(&self) -> Seq<char> {
        match self {
            ClaudeHistoryError::InvalidRequest(m) => m@,
        }
    }

    /// The error's message.
    pub fn to_string(&self) -> (r: String)
        ensures
            r@ == self.message_view(),
    {
        match self {
            ClaudeHistoryError::InvalidRequest(m) => m.clone(),
        }
    }
}

/// The tool uses kept by the scan are exactly the new ids, in order.
proof fn lemma_fold_ids(c: Seq<BlockView>, seen: Seq<Seq<char>>)
    ensures
        use_ids(assistant_fold(c, seen).0) == assistant_fold(c, seen).1,
        use_ids(repaired_assistant(c, seen)) == assistant_fold(c, seen).1,
    decreases c.len(),
{
    if c.len() > 0 {
        lemma_fold_ids(c.drop_last(), seen);
        let (k, p, d, s) = assistant_fold(c.drop_last(), seen);
        let b = c.last();
        assert(k.push(b).drop_last() == k);
    }
    let (k, p, d, s) = assistant_fold(c, seen);
    if k.len() == 0 && d {
        let t = seq![BlockView::Text { text: interrupted_placeholder(), cache_control: None }];
        assert(t.drop_last() == Seq::<BlockView>::empty());
        assert(use_ids(k) == Seq::<Seq<char>>::empty());
    }
}

/// The first result found for `id` answers `id`.
proof fn lemma_first_result_id(c: Seq<BlockView>, id: Seq<char>)
    ensures
        first_result_for(c, id) matches Some(b) ==> result_id(b) == Some(id),
    decreases c.len(),
{
    if c.len() > 0 && result_id(c[0]) != Some(id) {
        lemma_first_result_id(c.drop_first(), id);
    }
}

/// No ordinary block is a tool result.
proof fn lemma_ordinary_blocks(c: Seq<BlockView>)
    ensures
        forall|j: int| 0 <= j < ordinary_blocks(c).len() ==> #[trigger] result_id(ordinary_blocks(c)[j]) is None,
    decreases c.len(),
{
    if c.len() > 0 {
        lemma_ordinary_blocks(c.drop_last());
    }
}

/// A user message made of `answers` for `pending` followed by blocks that
/// are no tool results passes the check after those tool uses.
proof fn lemma_answered_user_valid(
    i: nat,
    answers: Seq<BlockView>,
    rest: Seq<BlockView>,
    pending: Seq<Seq<char>>,
)
    requires
        answers.len() == pending.len(),
        forall|k: int| 0 <= k < pending.len() ==> #[trigger] result_id(answers[k]) == Some(pending[k]),
        forall|j: int| 0 <= j < rest.len() ==> #[trigger] result_id(rest[j]) is None,
    ensures
        pending_error(i, MessageView { role: ClaudeRole::User, content: answers + rest }, pending)
            is None,
{
    let c = answers + rest;
    assert forall|k: int| 0 <= k <= pending.len() implies first_mismatch_from(c, pending, k)
        is None by {
        lemma_no_mismatch(c, pending, k);
    }
    assert forall|j: int| pending.len() <= j < c.len() implies #[trigger] result_id(c[j]) is None by {
        assert(c[j] == rest[j - pending.len()]);
    }
}

proof fn lemma_no_mismatch(c: Seq<BlockView>, p: Seq<Seq<char>>, k: int)
    requires
        0 <= k <= p.len(),
        p.len() <= c.len(),
        forall|j: int| 0 <= j < p.len() ==> #[trigger] result_id(c[j]) == Some(p[j]),
    ensures
        first_mismatch_from(c, p, k) is None,
    decreases p.len() - k,
{
    if k < p.len() {
        lemma_no_mismatch(c, p, k + 1);
    }
}

/// Validation passes over a prefix that ends with no tool use pending.
proof fn lemma_validate_chunk(chunk: Seq<MessageView>, rest: Seq<MessageView>, b: nat)
    requires
        chunk.len() <= 2,
        chunk.len() == 1 ==> ({
            ||| chunk[0].role == ClaudeRole::Assistant && use_ids(chunk[0].content).len() == 0
            ||| chunk[0].role == ClaudeRole::User && !has_result_from(chunk[0].content, 0)
        }),
        chunk.len() == 2 ==> {
            &&& chunk[0].role == ClaudeRole::Assistant
            &&& use_ids(chunk[0].content).len() > 0
            &&& chunk[1].role == ClaudeRole::User
            &&& pending_error(b + 1, chunk[1], use_ids(chunk[0].content)) is None
        },
    ensures
        validate_from(chunk + rest, b, Seq::empty()) == validate_from(rest, b + chunk.len(), Seq::empty()),
{
    if chunk.len() == 1 {
        assert((chunk + rest).drop_first() == rest);
        assert((chunk + rest)[0] == chunk[0]);
        if chunk[0].role == ClaudeRole::Assistant {
            assert(use_ids(chunk[0].content) =~= Seq::<Seq<char>>::empty());
        }
    } else if chunk.len() == 2 {
        let all = chunk + rest;
        let p = use_ids(chunk[0].content);
        let tail = seq![chunk[1]] + rest;
        assert(all[0] == chunk[0]);
        assert(all.drop_first() == tail);
        assert(validate_from(all, b, Seq::empty()) == validate_from(tail, b + 1, p));
        assert(tail[0] == chunk[1]);
        assert(tail.drop_first() == rest);
        assert(validate_from(tail, b + 1, p) == validate_from(rest, b + 2, Seq::empty()));
    } else {
        assert(chunk + rest == rest);
    }
}

/// The repaired history from message `i` on passes validation.
proof fn lemma_repair_from_valid(ms: Seq<MessageView>, i: int, seen: Seq<Seq<char>>, b: nat)
    requires
        0 <= i,
    ensures
        validate_from(repair_from(ms, i, seen), b, Seq::empty()) is None,
    decreases ms.len() - i,
{
    if i >= ms.len() {
        return;
    }
    let m = ms[i];
    if m.role == ClaudeRole::Assistant {
        let f = assistant_fold(m.content, seen);
        lemma_fold_ids(m.content, seen);
        let a = MessageView {
            role: ClaudeRole::Assistant,
            content: repaired_assistant(m.content, seen),
        };
        if f.1.len() == 0 {
            lemma_repair_from_valid(ms, i + 1, f.3, b + 1);
            lemma_validate_chunk(seq![a], repair_from(ms, i + 1, f.3), b);
        } else if i + 1 < ms.len() && ms[i + 1].role == ClaudeRole::User {
            let c = ms[i + 1].content;
            let answers = Seq::new(f.1.len(), |k: int| answer(c, f.1, k));
            assert forall|k: int| 0 <= k < f.1.len() implies #[trigger] result_id(answers[k]) == Some(
                f.1[k],
            ) by {
                lemma_first_result_id(c, f.1[k]);
            }
            lemma_ordinary_blocks(c);
            lemma_answered_user_valid(b + 1, answers, ordinary_blocks(c), f.1);
            let u = MessageView { role: ClaudeRole::User, content: repaired_user(c, f.1) };
            lemma_repair_from_valid(ms, i + 2, f.3, b + 2);
            lemma_validate_chunk(seq![a, u], repair_from(ms, i + 2, f.3), b);
        } else {
            let answers = synthetic_results(f.1);
            lemma_answered_user_valid(b + 1, answers, Seq::empty(), f.1);
            assert(answers + Seq::<BlockView>::empty() == answers);
            let u = MessageView { role: ClaudeRole::User, content: answers };
            lemma_repair_from_valid(ms, i + 1, f.3, b + 2);
            lemma_validate_chunk(seq![a, u], repair_from(ms, i + 1, f.3), b);
        }
    } else {
        let c = ordinary_blocks(m.content);
        lemma_ordinary_blocks(m.content);
        if c.len() > 0 {
            lemma_repair_from_valid(ms, i + 1, seen, b + 1);
            lemma_validate_chunk(
                seq![MessageView { role: ClaudeRole::User, content: c }],
                repair_from(ms, i + 1, seen),
                b,
            );
        } else {
            lemma_repair_from_valid(ms, i + 1, seen, b);
            assert(Seq::<MessageView>::empty() + repair_from(ms, i + 1, seen) == repair_from(
                ms,
                i + 1,
                seen,
            ));
        }
    }
}

/// A repaired history always passes the tool history check.
pub proof fn law_repaired_history_is_valid(ms: Seq<MessageView>)
    ensures
        history_error(repaired_history(ms)) is None,
{
    lemma_repair_from_valid(ms, 0, Seq::empty(), 0);
}

/// The error for tool history problem `problem`.
pub open spec fn invalid_history_message(problem: Seq<char>) -> Seq<char> {
    "invalid tool history: "@ + problem
}

fn invalid_claude_history(problem: &Vec<char>) -> (r: ClaudeHistoryError)
    ensures
        r.message_view() == invalid_history_message(problem@),
{
    let mut m = chars_of("invalid tool history: ");
    push_all(&mut m, problem);
    ClaudeHistoryError::InvalidRequest(string_from_chars(m.as_slice()))
}

/// `r` reports problem `p` (`None`: no problem).
pub open spec fn reports_problem(r: Result<(), ClaudeHistoryError>, p: Option<Seq<char>>) -> bool {
    match p {
        Some(problem) => r matches Err(e) && e.message_view() == invalid_history_message(problem),
        None => r is Ok,
    }
}

proof fn lemma_mismatch_skip(c: Seq<BlockView>, p: Seq<Seq<char>>, k: int)
    requires
        0 <= k <= p.len(),
        forall|j: int| 0 <= j < k ==> #[trigger] result_id(c[j]) == Some(p[j]),
    ensures
        first_mismatch_from(c, p, 0) == first_mismatch_from(c, p, k),
    decreases k,
{
    if k > 0 {
        lemma_mismatch_skip_from(c, p, 0, k);
    }
}

proof fn lemma_mismatch_skip_from(c: Seq<BlockView>, p: Seq<Seq<char>>, from: int, k: int)
    requires
        0 <= from <= k <= p.len(),
        forall|j: int| from <= j < k ==> #[trigger] result_id(c[j]) == Some(p[j]),
    ensures
        first_mismatch_from(c, p, from) == first_mismatch_from(c, p, k),
    decreases k - from,
{
    if from < k {
        lemma_mismatch_skip_from(c, p, from + 1, k);
    }
}

/// Checks the user message number `message_index` that follows tool uses
/// with ids `pending`: it must start with their results, in order, and hold
/// no other result.
pub fn validate_pending_tool_results(
    message_index: usize,
    message: &ClaudeMessage,
    pending: &Vec<String>,
) -> (r: Result<(), ClaudeHistoryError>)
    ensures
        reports_problem(r, pending_error(message_index as nat, message@, strings_view(pending@))),
{
    let ghost c = message@.content;
    let ghost p = strings_view(pending@);
    if message.role != ClaudeRole::User {
        let mut m = chars_of(
            "assistant tool_use blocks must be followed by a user tool_result message, got Assistant message ",
        );
        push_decimal(&mut m, message_index);
        return Err(invalid_claude_history(&m));
    }
    if message.content.len() < pending.len() {
        let mut m = chars_of("user message ");
        push_decimal(&mut m, message_index);
        push_str_chars(&mut m, " has fewer tool_result blocks than preceding tool_use blocks");
        return Err(invalid_claude_history(&m));
    }
    let mut offset: usize = 0;
    while offset < pending.len()
        invariant
            offset <= pending@.len() <= message.content@.len(),
            c == message@.content,
            p == strings_view(pending@),
            message@.role == ClaudeRole::User,
            forall|j: int| 0 <= j < offset ==> #[trigger] result_id(c[j]) == Some(p[j]),
        decreases pending.len() - offset,
    {
        proof {
            lemma_mismatch_skip(c, p, offset as int);
        }
        assert(c[offset as int] == message.content@[offset as int]@);
        match &message.content[offset] {
            ClaudeBlock::ToolResult { tool_use_id, .. } => {
                if !str_eq(tool_use_id.as_str(), pending[offset].as_str()) {
                    let mut m = chars_of("user message ");
                    push_decimal(&mut m, message_index);
                    push_str_chars(&mut m, " tool_result ");
                    push_decimal(&mut m, offset);
                    push_str_chars(&mut m, " does not match preceding tool_use id ");
                    push_str_chars(&mut m, pending[offset].as_str());
                    return Err(invalid_claude_history(&m));
                }
            },
            _ => {
                let mut m = chars_of("user message ");
                push_decimal(&mut m, message_index);
                push_str_chars(&mut m, " has ordinary content before required tool_result ");
                push_decimal(&mut m, offset);
                push_str_chars(&mut m, " for preceding tool_use id ");
                push_str_chars(&mut m, pending[offset].as_str());
                return Err(invalid_claude_history(&m));
            },
        }
        offset += 1;
    }
    proof {
        lemma_mismatch_skip(c, p, offset as int);
    }
    let mut j = pending.len();
    while j < message.content.len()
        invariant
            pending@.len() <= j <= message.content@.len(),
            c == message@.content,
            p == strings_view(pending@),
            message@.role == ClaudeRole::User,
            first_mismatch_from(c, p, 0) is None,
            forall|k: int| pending@.len() <= k < j ==> #[trigger] result_id(c[k]) is None,
        decreases message.content.len() - j,
    {
        assert(c[j as int] == message.content@[j as int]@);
        match &message.content[j] {
            ClaudeBlock::ToolResult { .. } => {
                assert(result_id(c[j as int]) is Some);
                assert(has_result_from(c, p.len() as int));
                let mut m = chars_of("user message ");
                push_decimal(&mut m, message_index);
                push_str_chars(&mut m, " contains tool_result blocks after ordinary content");
                return Err(invalid_claude_history(&m));
            },
            _ => {},
        }
        j += 1;
    }
    Ok(())
}

/// Whether some block of `content` is a tool result.
pub fn has_tool_result(content: &Vec<ClaudeBlock>) -> (r: bool)
    ensures
        r == has_result_from(blocks_view(content@), 0),
{
    let ghost c = blocks_view(content@);
    let mut j: usize = 0;
    while j < content.len()
        invariant
            j <= content@.len(),
            c == blocks_view(content@),
            forall|k: int| 0 <= k < j ==> #[trigger] result_id(c[k]) is None,
        decreases content.len() - j,
    {
        assert(c[j as int] == content@[j as int]@);
        match &content[j] {
            ClaudeBlock::ToolResult { .. } => {
                assert(result_id(c[j as int]) is Some);
                return true;
            },
            _ => {},
        }
        j += 1;
    }
    false
}

/// The ids of the tool uses in `content`, in order.
pub fn tool_use_ids(content: &Vec<ClaudeBlock>) -> (r: Vec<String>)
    ensures
        strings_view(r@) == use_ids(blocks_view(content@)),
{
    let ghost c = blocks_view(content@);
    let mut ids: Vec<String> = Vec::new();
    let mut j: usize = 0;
    while j < content.len()
        invariant
            j <= content@.len(),
            c == blocks_view(content@),
            strings_view(ids@) == use_ids(c.take(j as int)),
        decreases content.len() - j,
    {
        proof {
            assert(c.take(j + 1).drop_last() == c.take(j as int));
            assert(c.take(j + 1).last() == content@[j as int]@);
        }
        match &content[j] {
            ClaudeBlock::ToolUse { id, .. } => {
                let ghost before = strings_view(ids@);
                ids.push(id.clone());
                assert(strings_view(ids@) == before.push(id@));
            },
            _ => {},
        }
        j += 1;
    }
    assert(c.take(content.len() as int) == c);
    ids
}

fn push_joined_ids(out: &mut Vec<char>, ids: &Vec<String>)
    ensures
        final(out)@ == old(out)@ + join_ids(strings_view(ids@)),
{
    let ghost v = strings_view(ids@);
    let ghost start = out@;
    let mut k: usize = 0;
    while k < ids.len()
        invariant
            k <= ids@.len(),
            v == strings_view(ids@),
            out@ == start + join_ids(v.take(k as int)),
        decreases ids.len() - k,
    {
        if k > 0 {
            push_str_chars(out, ", ");
        }
        push_str_chars(out, ids[k].as_str());
        proof {
            assert(v.take(k + 1).drop_last() == v.take(k as int));
            assert(v.take(k + 1).last() == v[k as int]);
            if k == 0 {
                assert(v.take(1)[0] == v[0]);
            }
        }
        k += 1;
    }
    assert(v.take(ids.len() as int) == v);
}

/// Checks that every tool use is answered at the start of the next user
/// message and that no other tool result occurs.
pub fn validate_tool_result_history(messages: &Vec<ClaudeMessage>) -> (r: Result<
    (),
    ClaudeHistoryError,
>)
    ensures
        reports_problem(r, history_error(messages_view(messages@))),
{
    let ghost mv = messages_view(messages@);
    let mut pending: Vec<String> = Vec::new();
    let mut i: usize = 0;
    assert(mv.skip(0) == mv);
    assert(strings_view(pending@) == Seq::<Seq<char>>::empty());
    while i < messages.len()
        invariant
            i <= messages@.len(),
            mv == messages_view(messages@),
            history_error(mv) == validate_from(mv.skip(i as int), i as nat, strings_view(pending@)),
        decreases messages.len() - i,
    {
        let message = &messages[i];
        let ghost ms = mv.skip(i as int);
        assert(ms[0] == message@);
        assert(ms.drop_first() == mv.skip(i + 1));
        if pending.len() == 0 {
            if message.role == ClaudeRole::User && has_tool_result(&message.content) {
                let mut m = chars_of("user message ");
                push_decimal(&mut m, i);
                push_str_chars(&mut m, " contains tool_result without a preceding assistant tool_use");
                return Err(invalid_claude_history(&m));
            }
        } else {
            match validate_pending_tool_results(i, message, &pending) {
                Ok(()) => {},
                Err(e) => return Err(e),
            }
        }
        if message.role == ClaudeRole::Assistant {
            pending = tool_use_ids(&message.content);
        } else {
            pending = Vec::new();
            assert(strings_view(pending@) == Seq::<Seq<char>>::empty());
        }
        i += 1;
    }
    if pending.len() > 0 {
        let mut m = chars_of(
            "assistant tool_use blocks were not followed by matching user tool_result blocks: ",
        );
        push_joined_ids(&mut m, &pending);
        return Err(invalid_claude_history(&m));
    }
    Ok(())
}

/// `s` without leading whitespace.
pub open spec fn trim_start(s: Seq<char>) -> Seq<char>
    decreases s.len(),
{
    if s.len() > 0 && is_ws(s[0]) {
        trim_start(s.drop_first())
    } else {
        s
    }
}

/// `s` without trailing whitespace.
pub open spec fn trim_end(s: Seq<char>) -> Seq<char>
    decreases s.len(),
{
    if s.len() > 0 && is_ws(s.last()) {
        trim_end(s.drop_last())
    } else {
        s
    }
}

/// `s` without leading and trailing whitespace (`str::trim`).
pub open spec fn trim(s: Seq<char>) -> Seq<char> {
    trim_end(trim_start(s))
}

/// `s` is empty or only whitespace.
pub open spec fn blank(s: Seq<char>) -> bool {
    forall|i: int| 0 <= i < s.len() ==> is_ws(#[trigger] s[i])
}

/// Whether `s` is empty or only whitespace.
pub fn is_blank(s: &str) -> (r: bool)
    ensures
        r == blank(s@),
{
    let v = chars_of(s);
    let mut i: usize = 0;
    while i < v.len()
        invariant
            i <= v@.len(),
            v@ == s@,
            forall|j: int| 0 <= j < i ==> is_ws(#[trigger] v@[j]),
        decreases v.len() - i,
    {
        if !is_whitespace_char(v[i]) {
            return false;
        }
        i += 1;
    }
    true
}

proof fn lemma_trim_start_skip(s: Seq<char>, a: int)
    requires
        0 <= a <= s.len(),
        forall|j: int| 0 <= j < a ==> is_ws(#[trigger] s[j]),
        a == s.len() || !is_ws(s[a]),
    ensures
        trim_start(s) == s.skip(a),
    decreases a,
{
    if a > 0 {
        let d = s.drop_first();
        assert forall|j: int| 0 <= j < a - 1 implies is_ws(#[trigger] d[j]) by {
            assert(d[j] == s[j + 1]);
        }
        if a < s.len() {
            assert(d[a - 1] == s[a]);
        }
        lemma_trim_start_skip(d, a - 1);
        assert(d.skip(a - 1) == s.skip(a));
    } else {
        assert(s.skip(0) == s);
    }
}

proof fn lemma_trim_end_take(s: Seq<char>, b: int)
    requires
        0 <= b <= s.len(),
        forall|j: int| b <= j < s.len() ==> is_ws(#[trigger] s[j]),
        b == 0 || !is_ws(s[b - 1]),
    ensures
        trim_end(s) == s.take(b),
    decreases s.len() - b,
{
    if b < s.len() {
        let d = s.drop_last();
        assert forall|j: int| b <= j < d.len() implies is_ws(#[trigger] d[j]) by {
            assert(d[j] == s[j]);
        }
        if b > 0 {
            assert(d[b - 1] == s[b - 1]);
        }
        assert(is_ws(s.last()));
        lemma_trim_end_take(d, b);
        assert(d.take(b) == s.take(b));
    } else {
        assert(s.take(b) == s);
    }
}

/// The characters of `s` without leading and trailing whitespace.
pub fn trim_chars(s: &str) -> (r: Vec<char>)
    ensures
        r@ == trim(s@),
{
    let v = chars_of(s);
    let mut a: usize = 0;
    while a < v.len() && is_whitespace_char(v[a])
        invariant
            a <= v@.len(),
            forall|j: int| 0 <= j < a ==> is_ws(#[trigger] v@[j]),
        decreases v.len() - a,
    {
        a += 1;
    }
    proof {
        lemma_trim_start_skip(v@, a as int);
    }
    let mut b: usize = v.len();
    while b > a && is_whitespace_char(v[b - 1])
        invariant
            a <= b <= v@.len(),
            forall|j: int| b <= j < v@.len() ==> is_ws(#[trigger] v@[j]),
        decreases b,
    {
        b -= 1;
    }
    let ghost t = v@.skip(a as int);
    proof {
        assert forall|j: int| b - a <= j < t.len() implies is_ws(#[trigger] t[j]) by {
            assert(t[j] == v@[a + j]);
        }
        if b > a {
            assert(t[b - a - 1] == v@[b - 1]);
        }
        lemma_trim_end_take(t, (b - a) as int);
    }
    let mut out: Vec<char> = Vec::new();
    let mut k = a;
    while k < b
        invariant
            a <= k <= b <= v@.len(),
            out@ == v@.subrange(a as int, k as int),
        decreases b - k,
    {
        out.push(v[k]);
        assert(v@.subrange(a as int, k + 1) == v@.subrange(a as int, k as int).push(v@[k as int]));
        k += 1;
    }
    assert(t.take(b - a) == v@.subrange(a as int, b as int));
    out
}

/// Which provider state the history must keep.
#[derive(Clone, Copy, Debug)]
pub struct ClaudeHistoryRequirements {
    pub preserve_mcp_tool_results: bool,
    pub preserve_server_tool_results: bool,
    pub preserve_structured_citations: bool,
}

/// Stands in for an error result that had no text.
pub open spec fn non_text_error_placeholder() -> Seq<char> {
    "[Non-text tool error content omitted]"@
}

/// Provider state of kind `kind` is kept: compaction and redacted thinking
/// always; MCP, server tool and citation state only when required; any
/// other kind, and state without a kind, always.
pub open spec fn preserve_state(kind: Option<Seq<char>>, reqs: ClaudeHistoryRequirements) -> bool {
    match kind {
        None => true,
        Some(k) => if k == "compaction"@ || k == "redacted_thinking"@ {
            true
        } else if k == "mcp_tool_use"@ || k == "mcp_tool_result"@ {
            reqs.preserve_mcp_tool_results
        } else if k == "server_tool_use"@ || k == "web_search_tool_result"@ || k
            == "web_fetch_tool_result"@ || k == "code_execution_tool_result"@ || k
            == "bash_code_execution_tool_result"@ || k == "text_editor_code_execution_tool_result"@
            || k == "tool_search_tool_result"@ || k == "advisor_tool_result"@ || k
            == "advisor_tool_result_error"@ || k == "container_upload"@ || k == "tool_reference"@ {
            reqs.preserve_server_tool_results
        } else if k == "citation"@ || k == "citations"@ || k == "search_result_location"@ || k
            == "web_search_result_location"@ || k == "web_fetch_result_location"@ {
            reqs.preserve_structured_citations
        } else {
            true
        },
    }
}

/// Whether provider state of kind `kind` stays in the history.
pub fn should_preserve_provider_state(kind: Option<&str>, reqs: &ClaudeHistoryRequirements) -> (r: bool)
    ensures
        r == preserve_state(
            match kind {
                Some(k) => Some(k@),
                None => None,
            },
            *reqs,
        ),
{
    let k = match kind {
        None => {
            return true;
        },
        Some(k) => k,
    };
    if str_eq(k, "compaction") || str_eq(k, "redacted_thinking") {
        true
    } else if str_eq(k, "mcp_tool_use") || str_eq(k, "mcp_tool_result") {
        reqs.preserve_mcp_tool_results
    } else if str_eq(k, "server_tool_use") || str_eq(k, "web_search_tool_result") || str_eq(
        k,
        "web_fetch_tool_result",
    ) || str_eq(k, "code_execution_tool_result") || str_eq(k, "bash_code_execution_tool_result")
        || str_eq(k, "text_editor_code_execution_tool_result") || str_eq(
        k,
        "tool_search_tool_result",
    ) || str_eq(k, "advisor_tool_result") || str_eq(k, "advisor_tool_result_error") || str_eq(
        k,
        "container_upload",
    ) || str_eq(k, "tool_reference") {
        reqs.preserve_server_tool_results
    } else if str_eq(k, "citation") || str_eq(k, "citations") || str_eq(k, "search_result_location")
        || str_eq(k, "web_search_result_location") || str_eq(k, "web_fetch_result_location") {
        reqs.preserve_structured_citations
    } else {
        true
    }
}

/// The trimmed non-blank texts of nested blocks, in order.
pub open spec fn nested_texts(bs: Seq<NestedView>) -> Seq<Seq<char>>
    decreases bs.len(),
{
    if bs.len() == 0 {
        Seq::empty()
    } else {
        match bs.last() {
            NestedView::Text { text, .. } => if blank(text) {
                nested_texts(bs.drop_last())
            } else {
                nested_texts(bs.drop_last()).push(trim(text))
            },
            _ => nested_texts(bs.drop_last()),
        }
    }
}

/// `ts` joined by blank lines.
pub open spec fn join_paragraphs(ts: Seq<Seq<char>>) -> Seq<char>
    decreases ts.len(),
{
    if ts.len() == 0 {
        Seq::empty()
    } else if ts.len() == 1 {
        ts[0]
    } else {
        join_paragraphs(ts.drop_last()) + "\n\n"@ + ts.last()
    }
}

/// An error result's blocks flattened to their text, or the placeholder
/// when they hold none.
pub open spec fn flattened_error_text(bs: Seq<NestedView>) -> Seq<char> {
    let t = join_paragraphs(nested_texts(bs));
    if t.len() == 0 {
        non_text_error_placeholder()
    } else {
        t
    }
}

/// A block as the history keeps it, or `None` when it is dropped: blank
/// text is dropped (padded to one space when it carries cache control),
/// an error result is reduced to text, and provider state that need not be
/// kept is dropped.
pub open spec fn normalized_block(b: BlockView, reqs: ClaudeHistoryRequirements) -> Option<BlockView> {
    match b {
        BlockView::Text { text, cache_control } => if blank(text) {
            match cache_control {
                Some(_) => Some(BlockView::Text { text: " "@, cache_control }),
                None => None,
            }
        } else {
            Some(b)
        },
        BlockView::ToolResult { tool_use_id, content, is_error, cache_reference } => if is_error {
            Some(
                BlockView::ToolResult {
                    tool_use_id,
                    content: match content {
                        ResultView::Text(t) => if blank(t) {
                            ResultView::Text(non_text_error_placeholder())
                        } else {
                            ResultView::Text(t)
                        },
                        ResultView::Blocks(bs) => ResultView::Text(flattened_error_text(bs)),
                    },
                    is_error: true,
                    cache_reference,
                },
            )
        } else {
            Some(b)
        },
        BlockView::ProviderState { kind, .. } => if preserve_state(kind, reqs) {
            Some(b)
        } else {
            None
        },
        _ => Some(b),
    }
}

fn push_paragraph(out: &mut Vec<char>, count: usize, t: &Vec<char>)
    ensures
        final(out)@ == old(out)@ + if count > 0 {
            "\n\n"@ + t@
        } else {
            t@
        },
{
    if count > 0 {
        push_str_chars(out, "\n\n");
    }
    push_all(out, t);
}

/// The text an error result's blocks flatten to.
fn flatten_error_blocks(bs: &Vec<NestedBlock>) -> (r: String)
    ensures
        r@ == flattened_error_text(bs@.map_values(|n: NestedBlock| n@)),
{
    let ghost v = bs@.map_values(|n: NestedBlock| n@);
    let mut out: Vec<char> = Vec::new();
    let mut count: usize = 0;
    let mut i: usize = 0;
    while i < bs.len()
        invariant
            i <= bs@.len(),
            v == bs@.map_values(|n: NestedBlock| n@),
            count == nested_texts(v.take(i as int)).len(),
            count <= i,
            out@ == join_paragraphs(nested_texts(v.take(i as int))),
        decreases bs.len() - i,
    {
        proof {
            assert(v.take(i + 1).drop_last() == v.take(i as int));
            assert(v.take(i + 1).last() == bs@[i as int]@);
        }
        let ghost ts = nested_texts(v.take(i as int));
        match &bs[i] {
            NestedBlock::Text { text, .. } => {
                if !is_blank(text.as_str()) {
                    let t = trim_chars(text.as_str());
                    push_paragraph(&mut out, count, &t);
                    proof {
                        let ts2 = ts.push(t@);
                        assert(ts2.drop_last() == ts);
                        if count == 0 {
                            assert(ts2 == seq![t@]);
                        }
                    }
                    count += 1;
                }
            },
            _ => {},
        }
        i += 1;
    }
    assert(v.take(bs.len() as int) == v);
    if out.len() == 0 {
        return "[Non-text tool error content omitted]".to_string();
    }
    string_from_chars(out.as_slice())
}

/// The block as the history keeps it, or `None` when it is dropped.
pub fn normalize_block(b: &ClaudeBlock, reqs: &ClaudeHistoryRequirements) -> (r: Option<ClaudeBlock>)
    ensures
        match r {
            Some(x) => normalized_block(b@, *reqs) == Some(x@),
            None => normalized_block(b@, *reqs) is None,
        },
{
    match b {
        ClaudeBlock::Text { text, cache_control } => {
            if is_blank(text.as_str()) {
                match cache_control {
                    Some(c) => Some(
                        ClaudeBlock::Text { text: " ".to_string(), cache_control: Some(c.clone()) },
                    ),
                    None => None,
                }
            } else {
                Some(b.duplicate())
            }
        },
        ClaudeBlock::ToolResult { tool_use_id, content, is_error, cache_reference } => {
            if *is_error {
                let new_content = match content {
                    ToolResultContent::Text(t) => {
                        if is_blank(t.as_str()) {
                            ToolResultContent::Text("[Non-text tool error content omitted]".to_string())
                        } else {
                            ToolResultContent::Text(t.clone())
                        }
                    },
                    ToolResultContent::Blocks(bs) => ToolResultContent::Text(flatten_error_blocks(bs)),
                };
                Some(
                    ClaudeBlock::ToolResult {
                        tool_use_id: tool_use_id.clone(),
                        content: new_content,
                        is_error: true,
                        cache_reference: copy_opt(cache_reference),
                    },
                )
            } else {
                Some(b.duplicate())
            }
        },
        ClaudeBlock::ProviderState { value: _, kind } => {
            let k = match kind {
                Some(k) => Some(k.as_str()),
                None => None,
            };
            if should_preserve_provider_state(k, reqs) {
                Some(b.duplicate())
            } else {
                None
            }
        },
        _ => Some(b.duplicate()),
    }
}

/// The blocks of `c` as the history keeps them.
pub open spec fn normalized_content(c: Seq<BlockView>, reqs: ClaudeHistoryRequirements) -> Seq<
    BlockView,
>
    decreases c.len(),
{
    if c.len() == 0 {
        Seq::empty()
    } else {
        match normalized_block(c.last(), reqs) {
            Some(x) => normalized_content(c.drop_last(), reqs).push(x),
            None => normalized_content(c.drop_last(), reqs),
        }
    }
}

/// A thinking block without a signature.
pub open spec fn unsigned_thinking(b: BlockView) -> bool {
    b matches BlockView::Thinking { signature: None, .. }
}

/// `c` without its trailing unsigned thinking blocks.
pub open spec fn drop_unsigned_tail(c: Seq<BlockView>) -> Seq<BlockView>
    decreases c.len(),
{
    if c.len() > 0 && unsigned_thinking(c.last()) {
        drop_unsigned_tail(c.drop_last())
    } else {
        c
    }
}

/// `ms` with a message of `content` from `role` added: nothing when the
/// content is empty, merged into the last message when that one has the
/// same role.
pub open spec fn pushed_message(ms: Seq<MessageView>, role: ClaudeRole, content: Seq<BlockView>) -> Seq<
    MessageView,
> {
    if content.len() == 0 {
        ms
    } else if ms.len() > 0 && ms.last().role == role {
        ms.update(
            ms.len() - 1,
            MessageView { role: role, content: ms.last().content + content },
        )
    } else {
        ms.push(MessageView { role: role, content: content })
    }
}

/// Adds a message of `content` from `role`, merging it into the last
/// message when that one has the same role; empty content adds nothing.
pub fn push_message(messages: &mut Vec<ClaudeMessage>, role: ClaudeRole, content: Vec<ClaudeBlock>)
    ensures
        messages_view(final(messages)@) == pushed_message(
            messages_view(old(messages)@),
            role,
            blocks_view(content@),
        ),
{
    let ghost before = messages_view(messages@);
    if content.len() == 0 {
        return;
    }
    let n = messages.len();
    if n > 0 && messages[n - 1].role == role {
        let mut last = messages.pop().unwrap();
        assert(before.last() == last@);
        assert(messages_view(messages@) == before.drop_last());
        let mut content = content;
        let ghost lc = blocks_view(last.content@);
        let ghost cc = blocks_view(content@);
        last.content.append(&mut content);
        assert(blocks_view(last.content@) == lc + cc);
        let ghost lv = last@;
        messages.push(last);
        assert(messages_view(messages@) == before.drop_last().push(lv));
        assert(before.update(before.len() - 1, lv) == before.drop_last().push(lv));
    } else {
        let m = ClaudeMessage { role, content };
        let ghost mv = m@;
        messages.push(m);
        assert(messages_view(messages@) == before.push(mv));
    }
}

/// The history normalized message by message: blocks normalized, trailing
/// unsigned thinking dropped from assistant messages, empty messages
/// dropped, and neighbours from the same role merged.
pub open spec fn normalized_messages(ms: Seq<MessageView>, reqs: ClaudeHistoryRequirements) -> Seq<
    MessageView,
>
    decreases ms.len(),
{
    if ms.len() == 0 {
        Seq::empty()
    } else {
        let m = ms.last();
        let c = normalized_content(m.content, reqs);
        pushed_message(
            normalized_messages(ms.drop_last(), reqs),
            m.role,
            if m.role == ClaudeRole::Assistant {
                drop_unsigned_tail(c)
            } else {
                c
            },
        )
    }
}

fn ends_with_unsigned_thinking(content: &Vec<ClaudeBlock>) -> (r: bool)
    ensures
        r == (content@.len() > 0 && unsigned_thinking(blocks_view(content@).last())),
{
    if content.len() == 0 {
        return false;
    }
    assert(blocks_view(content@).last() == content@[content@.len() - 1]@);
    match &content[content.len() - 1] {
        ClaudeBlock::Thinking { signature: None, .. } => true,
        _ => false,
    }
}

/// Normalizes the history before it is sent (see [`normalized_messages`]).
pub fn normalize_claude_messages(messages: &Vec<ClaudeMessage>, reqs: &ClaudeHistoryRequirements) -> (r:
    Vec<ClaudeMessage>)
    ensures
        messages_view(r@) == normalized_messages(messages_view(messages@), *reqs),
{
    let ghost mv = messages_view(messages@);
    let mut out: Vec<ClaudeMessage> = Vec::new();
    let mut i: usize = 0;
    while i < messages.len()
        invariant
            i <= messages@.len(),
            mv == messages_view(messages@),
            messages_view(out@) == normalized_messages(mv.take(i as int), *reqs),
        decreases messages.len() - i,
    {
        let message = &messages[i];
        proof {
            assert(mv.take(i + 1).drop_last() == mv.take(i as int));
            assert(mv.take(i + 1).last() == message@);
        }
        let ghost mc = message@.content;
        let mut content: Vec<ClaudeBlock> = Vec::new();
        let mut k: usize = 0;
        while k < message.content.len()
            invariant
                k <= message.content@.len(),
                mc == message@.content,
                blocks_view(content@) == normalized_content(mc.take(k as int), *reqs),
            decreases message.content.len() - k,
        {
            proof {
                assert(mc.take(k + 1).drop_last() == mc.take(k as int));
                assert(mc.take(k + 1).last() == message.content@[k as int]@);
            }
            let ghost before = blocks_view(content@);
            match normalize_block(&message.content[k], reqs) {
                Some(x) => {
                    let ghost xv = x@;
                    content.push(x);
                    assert(blocks_view(content@) == before.push(xv));
                },
                None => {},
            }
            k += 1;
        }
        assert(mc.take(message.content.len() as int) == mc);
        if message.role == ClaudeRole::Assistant {
            let ghost full = blocks_view(content@);
            while ends_with_unsigned_thinking(&content)
                invariant
                    drop_unsigned_tail(blocks_view(content@)) == drop_unsigned_tail(full),
                decreases content.len(),
            {
                let ghost cv = blocks_view(content@);
                content.pop();
                assert(blocks_view(content@) == cv.drop_last());
            }
        }
        push_message(&mut out, message.role, content);
        i += 1;
    }
    assert(mv.take(messages.len() as int) == mv);
    out
}

/// The counters of what normalizing a history changed.
#[derive(Clone, Copy, Debug, PartialEq, Eq, Structural)]
pub struct ClaudeNormalizationStats {
    pub empty_text_blocks_dropped: usize,
    pub empty_cached_text_blocks_padded: usize,
    pub empty_messages_dropped: usize,
    pub error_tool_result_empty_text_replaced: usize,
    pub error_tool_result_blocks_flattened: usize,
    pub error_tool_result_nested_blocks_dropped: usize,
    pub unsigned_trailing_thinking_blocks_dropped: usize,
    pub unsigned_orphan_thinking_messages_dropped: usize,
    pub provider_state_dropped: usize,
}

/// Names one counter of [`ClaudeNormalizationStats`].
#[derive(Clone, Copy, Debug, PartialEq, Eq, Structural)]
pub enum NormalizationCounter {
    EmptyTextBlocksDropped,
    EmptyCachedTextBlocksPadded,
    EmptyMessagesDropped,
    ErrorToolResultEmptyTextReplaced,
    ErrorToolResultBlocksFlattened,
    ErrorToolResultNestedBlocksDropped,
    UnsignedTrailingThinkingBlocksDropped,
    UnsignedOrphanThinkingMessagesDropped,
    ProviderStateDropped,
}

/// The value of counter `c` in `s`.
pub open spec fn stat_field(s: ClaudeNormalizationStats, c: NormalizationCounter) -> usize {
    match c {
        NormalizationCounter::EmptyTextBlocksDropped => s.empty_text_blocks_dropped,
        NormalizationCounter::EmptyCachedTextBlocksPadded => s.empty_cached_text_blocks_padded,
        NormalizationCounter::EmptyMessagesDropped => s.empty_messages_dropped,
        NormalizationCounter::ErrorToolResultEmptyTextReplaced => s.error_tool_result_empty_text_replaced,
        NormalizationCounter::ErrorToolResultBlocksFlattened => s.error_tool_result_blocks_flattened,
        NormalizationCounter::ErrorToolResultNestedBlocksDropped => s.error_tool_result_nested_blocks_dropped,
        NormalizationCounter::UnsignedTrailingThinkingBlocksDropped => s.unsigned_trailing_thinking_blocks_dropped,
        NormalizationCounter::UnsignedOrphanThinkingMessagesDropped => s.unsigned_orphan_thinking_messages_dropped,
        NormalizationCounter::ProviderStateDropped => s.provider_state_dropped,
    }
}

/// What one block adds to counter `c`: a dropped blank text, a padded
/// blank cached text, a blank error text replaced, an error result
/// flattened with the nested blocks it loses, or dropped provider state.
pub open spec fn block_count(b: BlockView, reqs: ClaudeHistoryRequirements, c: NormalizationCounter) -> nat {
    match b {
        BlockView::Text { text, cache_control } => if blank(text) {
            match (c, cache_control) {
                (NormalizationCounter::EmptyTextBlocksDropped, None) => 1,
                (NormalizationCounter::EmptyCachedTextBlocksPadded, Some(_)) => 1,
                _ => 0,
            }
        } else {
            0
        },
        BlockView::ToolResult { content, is_error, .. } => if is_error {
            match content {
                ResultView::Text(t) => if blank(t) && c == NormalizationCounter::ErrorToolResultEmptyTextReplaced {
                    1
                } else {
                    0
                },
                ResultView::Blocks(bs) => match c {
                    NormalizationCounter::ErrorToolResultBlocksFlattened => 1,
                    NormalizationCounter::ErrorToolResultNestedBlocksDropped => (bs.len()
                        - nested_texts(bs).len()) as nat,
                    _ => 0,
                },
            }
        } else {
            0
        },
        BlockView::ProviderState { kind, .. } => if !preserve_state(kind, reqs)
            && c == NormalizationCounter::ProviderStateDropped {
            1
        } else {
            0
        },
        _ => 0,
    }
}

/// What the blocks of `bs` add to counter `c`.
pub open spec fn content_count(bs: Seq<BlockView>, reqs: ClaudeHistoryRequirements, c: NormalizationCounter) -> nat
    decreases bs.len(),
{
    if bs.len() == 0 {
        0
    } else {
        content_count(bs.drop_last(), reqs, c) + block_count(bs.last(), reqs, c)
    }
}

/// Every block of `c` is unsigned thinking.
pub open spec fn all_unsigned_thinking(c: Seq<BlockView>) -> bool {
    forall|i: int| 0 <= i < c.len() ==> unsigned_thinking(#[trigger] c[i])
}

/// The content a message keeps once normalized.
pub open spec fn kept_content(m: MessageView, reqs: ClaudeHistoryRequirements) -> Seq<BlockView> {
    let nc = normalized_content(m.content, reqs);
    if m.role == ClaudeRole::Assistant {
        drop_unsigned_tail(nc)
    } else {
        nc
    }
}

/// What a message adds to counter `c` as a whole: the message is dropped
/// when it keeps nothing; an assistant message loses its trailing unsigned
/// thinking, and is an orphan when it held unsigned thinking only.
pub open spec fn message_count(m: MessageView, reqs: ClaudeHistoryRequirements, c: NormalizationCounter) -> nat {
    let nc = normalized_content(m.content, reqs);
    match c {
        NormalizationCounter::EmptyMessagesDropped => if kept_content(m, reqs).len() == 0 {
            1
        } else {
            0
        },
        NormalizationCounter::UnsignedTrailingThinkingBlocksDropped => if m.role == ClaudeRole::Assistant {
            (nc.len() - drop_unsigned_tail(nc).len()) as nat
        } else {
            0
        },
        NormalizationCounter::UnsignedOrphanThinkingMessagesDropped => if m.role == ClaudeRole::Assistant
            && nc.len() > 0 && all_unsigned_thinking(nc) {
            1
        } else {
            0
        },
        _ => 0,
    }
}

/// The total of counter `c` over the history.
pub open spec fn stat_total(ms: Seq<MessageView>, reqs: ClaudeHistoryRequirements, c: NormalizationCounter) -> nat
    decreases ms.len(),
{
    if ms.len() == 0 {
        0
    } else {
        stat_total(ms.drop_last(), reqs, c) + content_count(ms.last().content, reqs, c) + message_count(
            ms.last(),
            reqs,
            c,
        )
    }
}

/// `n`, or `usize::MAX` when it is larger.
pub open spec fn saturated(n: nat) -> usize {
    if n > usize::MAX {
        usize::MAX
    } else {
        n as usize
    }
}

proof fn lemma_nested_texts_len(bs: Seq<NestedView>)
    ensures
        nested_texts(bs).len() <= bs.len(),
    decreases bs.len(),
{
    if bs.len() > 0 {
        lemma_nested_texts_len(bs.drop_last());
    }
}

proof fn lemma_drop_unsigned_tail_len(c: Seq<BlockView>)
    ensures
        drop_unsigned_tail(c).len() <= c.len(),
        drop_unsigned_tail(c) == c.take(drop_unsigned_tail(c).len() as int),
    decreases c.len(),
{
    if c.len() > 0 && unsigned_thinking(c.last()) {
        lemma_drop_unsigned_tail_len(c.drop_last());
        let d = drop_unsigned_tail(c.drop_last());
        assert(c.drop_last().take(d.len() as int) =~= c.take(d.len() as int));
    } else {
        assert(c.take(c.len() as int) =~= c);
    }
}

fn zero_stats() -> (r: ClaudeNormalizationStats)
    ensures
        forall|c: NormalizationCounter| #[trigger] stat_field(r, c) == 0,
        r.empty_text_blocks_dropped == 0,
        r.empty_cached_text_blocks_padded == 0,
        r.empty_messages_dropped == 0,
        r.error_tool_result_empty_text_replaced == 0,
        r.error_tool_result_blocks_flattened == 0,
        r.error_tool_result_nested_blocks_dropped == 0,
        r.unsigned_trailing_thinking_blocks_dropped == 0,
        r.unsigned_orphan_thinking_messages_dropped == 0,
        r.provider_state_dropped == 0,
{
    ClaudeNormalizationStats {
        empty_text_blocks_dropped: 0,
        empty_cached_text_blocks_padded: 0,
        empty_messages_dropped: 0,
        error_tool_result_empty_text_replaced: 0,
        error_tool_result_blocks_flattened: 0,
        error_tool_result_nested_blocks_dropped: 0,
        unsigned_trailing_thinking_blocks_dropped: 0,
        unsigned_orphan_thinking_messages_dropped: 0,
        provider_state_dropped: 0,
    }
}

/// `a + b`, or `usize::MAX` when that is larger.
pub open spec fn sat_add(a: usize, b: usize) -> usize {
    saturated((a + b) as nat)
}

fn add_stats(acc: &mut ClaudeNormalizationStats, x: &ClaudeNormalizationStats)
    ensures
        forall|c: NormalizationCounter| #[trigger] stat_field(*final(acc), c) == sat_add(
            stat_field(*old(acc), c),
            stat_field(*x, c),
        ),
{
    acc.empty_text_blocks_dropped = acc.empty_text_blocks_dropped.saturating_add(x.empty_text_blocks_dropped);
    acc.empty_cached_text_blocks_padded = acc.empty_cached_text_blocks_padded.saturating_add(
        x.empty_cached_text_blocks_padded,
    );
    acc.empty_messages_dropped = acc.empty_messages_dropped.saturating_add(x.empty_messages_dropped);
    acc.error_tool_result_empty_text_replaced = acc.error_tool_result_empty_text_replaced.saturating_add(
        x.error_tool_result_empty_text_replaced,
    );
    acc.error_tool_result_blocks_flattened = acc.error_tool_result_blocks_flattened.saturating_add(
        x.error_tool_result_blocks_flattened,
    );
    acc.error_tool_result_nested_blocks_dropped = acc.error_tool_result_nested_blocks_dropped.saturating_add(
        x.error_tool_result_nested_blocks_dropped,
    );
    acc.unsigned_trailing_thinking_blocks_dropped = acc.unsigned_trailing_thinking_blocks_dropped.saturating_add(
        x.unsigned_trailing_thinking_blocks_dropped,
    );
    acc.unsigned_orphan_thinking_messages_dropped = acc.unsigned_orphan_thinking_messages_dropped.saturating_add(
        x.unsigned_orphan_thinking_messages_dropped,
    );
    acc.provider_state_dropped = acc.provider_state_dropped.saturating_add(x.provider_state_dropped);
}

fn kept_nested_text_count(bs: &Vec<NestedBlock>) -> (r: usize)
    ensures
        r == nested_texts(bs@.map_values(|n: NestedBlock| n@)).len(),
{
    let ghost v = bs@.map_values(|n: NestedBlock| n@);
    let mut count: usize = 0;
    let mut i: usize = 0;
    while i < bs.len()
        invariant
            i <= bs@.len(),
            v == bs@.map_values(|n: NestedBlock| n@),
            count == nested_texts(v.take(i as int)).len(),
            count <= i,
        decreases bs.len() - i,
    {
        proof {
            assert(v.take(i + 1).drop_last() == v.take(i as int));
            assert(v.take(i + 1).last() == bs@[i as int]@);
        }
        match &bs[i] {
            NestedBlock::Text { text, .. } => {
                if !is_blank(text.as_str()) {
                    count += 1;
                }
            },
            _ => {},
        }
        i += 1;
    }
    assert(v.take(bs.len() as int) == v);
    count
}

/// What one block adds to each counter.
fn block_stats(b: &ClaudeBlock, reqs: &ClaudeHistoryRequirements) -> (r: ClaudeNormalizationStats)
    ensures
        forall|c: NormalizationCounter| #[trigger] stat_field(r, c) == block_count(b@, *reqs, c),
{
    let mut r = zero_stats();
    match b {
        ClaudeBlock::Text { text, cache_control } => {
            if is_blank(text.as_str()) {
                match cache_control {
                    Some(_) => r.empty_cached_text_blocks_padded = 1,
                    None => r.empty_text_blocks_dropped = 1,
                }
            }
        },
        ClaudeBlock::ToolResult { content, is_error, .. } => {
            if *is_error {
                match content {
                    ToolResultContent::Text(t) => {
                        if is_blank(t.as_str()) {
                            r.error_tool_result_empty_text_replaced = 1;
                        }
                    },
                    ToolResultContent::Blocks(bs) => {
                        r.error_tool_result_blocks_flattened = 1;
                        let kept = kept_nested_text_count(bs);
                        proof {
                            lemma_nested_texts_len(bs@.map_values(|n: NestedBlock| n@));
                        }
                        r.error_tool_result_nested_blocks_dropped = bs.len() - kept;
                    },
                }
            }
        },
        ClaudeBlock::ProviderState { kind, .. } => {
            let k = match kind {
                Some(k) => Some(k.as_str()),
                None => None,
            };
            if !should_preserve_provider_state(k, reqs) {
                r.provider_state_dropped = 1;
            }
        },
        _ => {},
    }
    r
}

/// The blocks of `content` as the history keeps them.
fn normalized_blocks(content: &Vec<ClaudeBlock>, reqs: &ClaudeHistoryRequirements) -> (r: Vec<ClaudeBlock>)
    ensures
        blocks_view(r@) == normalized_content(blocks_view(content@), *reqs),
{
    let ghost mc = blocks_view(content@);
    let mut out: Vec<ClaudeBlock> = Vec::new();
    let mut k: usize = 0;
    while k < content.len()
        invariant
            k <= content@.len(),
            mc == blocks_view(content@),
            blocks_view(out@) == normalized_content(mc.take(k as int), *reqs),
        decreases content.len() - k,
    {
        proof {
            assert(mc.take(k + 1).drop_last() == mc.take(k as int));
            assert(mc.take(k + 1).last() == content@[k as int]@);
        }
        let ghost before = blocks_view(out@);
        match normalize_block(&content[k], reqs) {
            Some(x) => {
                let ghost xv = x@;
                out.push(x);
                assert(blocks_view(out@) == before.push(xv));
            },
            None => {},
        }
        k += 1;
    }
    assert(mc.take(content.len() as int) == mc);
    out
}

fn is_unsigned_thinking_block(b: &ClaudeBlock) -> (r: bool)
    ensures
        r == unsigned_thinking(b@),
{
    match b {
        ClaudeBlock::Thinking { signature: None, .. } => true,
        _ => false,
    }
}

/// Length of `c` without its trailing unsigned thinking blocks.
fn kept_tail_len(c: &Vec<ClaudeBlock>) -> (r: usize)
    ensures
        r == drop_unsigned_tail(blocks_view(c@)).len(),
{
    let ghost cv = blocks_view(c@);
    let mut j: usize = c.len();
    assert(cv.take(j as int) =~= cv);
    while j > 0 && is_unsigned_thinking_block(&c[j - 1])
        invariant
            j <= c@.len(),
            cv == blocks_view(c@),
            drop_unsigned_tail(cv) == drop_unsigned_tail(cv.take(j as int)),
        decreases j,
    {
        proof {
            let t = cv.take(j as int);
            assert(t.last() == c@[j - 1]@);
            assert(t.drop_last() =~= cv.take(j - 1));
        }
        j -= 1;
    }
    proof {
        let t = cv.take(j as int);
        if j > 0 {
            assert(t.last() == c@[j - 1]@);
        }
    }
    j
}

fn all_unsigned_thinking_exec(c: &Vec<ClaudeBlock>) -> (r: bool)
    ensures
        r == all_unsigned_thinking(blocks_view(c@)),
{
    let ghost cv = blocks_view(c@);
    let mut i: usize = 0;
    while i < c.len()
        invariant
            i <= c@.len(),
            cv == blocks_view(c@),
            forall|j: int| 0 <= j < i ==> unsigned_thinking(#[trigger] cv[j]),
        decreases c.len() - i,
    {
        assert(cv[i as int] == c@[i as int]@);
        match &c[i] {
            ClaudeBlock::Thinking { signature: None, .. } => {},
            _ => {
                return false;
            },
        }
        i += 1;
    }
    true
}

/// What a message adds to each counter as a whole.
fn message_stats(m: &ClaudeMessage, reqs: &ClaudeHistoryRequirements) -> (r: ClaudeNormalizationStats)
    ensures
        forall|c: NormalizationCounter| #[trigger] stat_field(r, c) == message_count(m@, *reqs, c),
{
    let nc = normalized_blocks(&m.content, reqs);
    let ghost ncv = blocks_view(nc@);
    let mut r = zero_stats();
    let n = nc.len();
    let kept = if m.role == ClaudeRole::Assistant {
        let t = kept_tail_len(&nc);
        proof {
            lemma_drop_unsigned_tail_len(ncv);
        }
        r.unsigned_trailing_thinking_blocks_dropped = n - t;
        if n > 0 && all_unsigned_thinking_exec(&nc) {
            r.unsigned_orphan_thinking_messages_dropped = 1;
        }
        t
    } else {
        n
    };
    if kept == 0 {
        r.empty_messages_dropped = 1;
    }
    r
}

/// The counters of what [`normalize_claude_messages`] changes in the
/// history, each saturated at `usize::MAX`.
pub fn normalization_stats(messages: &Vec<ClaudeMessage>, reqs: &ClaudeHistoryRequirements) -> (r:
    ClaudeNormalizationStats)
    ensures
        forall|c: NormalizationCounter| #[trigger] stat_field(r, c) == saturated(
            stat_total(messages_view(messages@), *reqs, c),
        ),
{
    let ghost mv = messages_view(messages@);
    let mut acc = zero_stats();
    let mut i: usize = 0;
    while i < messages.len()
        invariant
            i <= messages@.len(),
            mv == messages_view(messages@),
            forall|c: NormalizationCounter| #[trigger] stat_field(acc, c) == saturated(
                stat_total(mv.take(i as int), *reqs, c),
            ),
        decreases messages.len() - i,
    {
        let message = &messages[i];
        let ghost mc = message@.content;
        proof {
            assert(mv.take(i + 1).drop_last() == mv.take(i as int));
            assert(mv.take(i + 1).last() == message@);
        }
        let mut k: usize = 0;
        while k < message.content.len()
            invariant
                k <= message.content@.len(),
                mc == message@.content,
                mc == blocks_view(message.content@),
                forall|c: NormalizationCounter| #[trigger] stat_field(acc, c) == saturated(
                    stat_total(mv.take(i as int), *reqs, c) + content_count(mc.take(k as int), *reqs, c),
                ),
            decreases message.content.len() - k,
        {
            proof {
                assert(mc.take(k + 1).drop_last() == mc.take(k as int));
                assert(mc.take(k + 1).last() == message.content@[k as int]@);
            }
            let x = block_stats(&message.content[k], reqs);
            let ghost prev = acc;
            add_stats(&mut acc, &x);
            k += 1;
        }
        assert(mc.take(message.content.len() as int) == mc);
        let x = message_stats(message, reqs);
        add_stats(&mut acc, &x);
        i += 1;
    }
    assert(mv.take(messages.len() as int) == mv);
    acc
}

/// Normalizes the history (see [`normalize_claude_messages`]) and counts
/// what it changed (see [`normalization_stats`]).
pub fn normalize_claude_messages_with_stats(
    messages: &Vec<ClaudeMessage>,
    reqs: &ClaudeHistoryRequirements,
) -> (r: (Vec<ClaudeMessage>, ClaudeNormalizationStats))
    ensures
        messages_view(r.0@) == normalized_messages(messages_view(messages@), *reqs),
        forall|c: NormalizationCounter| #[trigger] stat_field(r.1, c) == saturated(
            stat_total(messages_view(messages@), *reqs, c),
        ),
{
    let normalized = normalize_claude_messages(messages, reqs);
    let stats = normalization_stats(messages, reqs);
    (normalized, stats)
}

/// Most media blocks one request may carry.
pub const CLAUDE_MAX_MEDIA_PER_REQUEST: usize = 100;

/// Stands in for a tool result whose media were all pruned.
pub open spec fn pruned_media_placeholder() -> Seq<char> {
    "[Media content omitted to stay within request limits]"@
}

/// Number of images among nested blocks.
pub open spec fn nested_media(bs: Seq<NestedView>) -> nat
    decreases bs.len(),
{
    if bs.len() == 0 {
        0
    } else {
        nested_media(bs.drop_last()) + if bs.last() is Image {
            1nat
        } else {
            0nat
        }
    }
}

/// Number of images a block carries, inside a tool result too.
pub open spec fn block_media(b: BlockView) -> nat {
    match b {
        BlockView::Image { .. } => 1,
        BlockView::ToolResult { content: ResultView::Blocks(bs), .. } => nested_media(bs),
        _ => 0,
    }
}

/// Number of images in a message's content.
pub open spec fn content_media(c: Seq<BlockView>) -> nat
    decreases c.len(),
{
    if c.len() == 0 {
        0
    } else {
        content_media(c.drop_last()) + block_media(c.last())
    }
}

/// Number of images in the history.
pub open spec fn history_media(ms: Seq<MessageView>) -> nat
    decreases ms.len(),
{
    if ms.len() == 0 {
        0
    } else {
        history_media(ms.drop_last()) + content_media(ms.last().content)
    }
}

/// Nested blocks with their first images removed while `k` more are to
/// go; the blocks kept and how many are still to go.
pub open spec fn prune_nested(bs: Seq<NestedView>, k: nat) -> (Seq<NestedView>, nat)
    decreases bs.len(),
{
    if bs.len() == 0 {
        (Seq::empty(), k)
    } else {
        let (r, k2) = prune_nested(bs.drop_last(), k);
        if k2 > 0 && bs.last() is Image {
            (r, (k2 - 1) as nat)
        } else {
            (r.push(bs.last()), k2)
        }
    }
}

/// A block with images removed while `k` more are to go: the blocks left
/// in its place and how many are still to go. A tool result stripped of
/// all its blocks by the pruning gets a placeholder text.
pub open spec fn prune_block(b: BlockView, k: nat) -> (Seq<BlockView>, nat) {
    match b {
        BlockView::ToolResult { tool_use_id, content: ResultView::Blocks(bs), is_error, cache_reference } => {
            let (kept, k2) = prune_nested(bs, k);
            let content = if kept.len() == 0 && k2 < k {
                seq![NestedView::Text { text: pruned_media_placeholder(), cache_control: None }]
            } else {
                kept
            };
            (
                seq![BlockView::ToolResult { tool_use_id, content: ResultView::Blocks(content), is_error, cache_reference }],
                k2,
            )
        },
        BlockView::Image { .. } => if k > 0 {
            (Seq::empty(), (k - 1) as nat)
        } else {
            (seq![b], k)
        },
        _ => (seq![b], k),
    }
}

/// A message's content with images removed while `k` more are to go.
pub open spec fn prune_content(c: Seq<BlockView>, k: nat) -> (Seq<BlockView>, nat)
    decreases c.len(),
{
    if c.len() == 0 {
        (Seq::empty(), k)
    } else {
        let (r, k2) = prune_content(c.drop_last(), k);
        let (x, k3) = prune_block(c.last(), k2);
        (r + x, k3)
    }
}

/// The history with its oldest images removed while `k` more are to go.
pub open spec fn prune_messages(ms: Seq<MessageView>, k: nat) -> (Seq<MessageView>, nat)
    decreases ms.len(),
{
    if ms.len() == 0 {
        (Seq::empty(), k)
    } else {
        let (r, k2) = prune_messages(ms.drop_last(), k);
        let (c, k3) = prune_content(ms.last().content, k2);
        (r.push(MessageView { role: ms.last().role, content: c }), k3)
    }
}

/// The history with the oldest images beyond `limit` removed.
pub open spec fn pruned_history(ms: Seq<MessageView>, limit: usize) -> Seq<MessageView> {
    prune_messages(
        ms,
        if history_media(ms) > limit {
            (history_media(ms) - limit) as nat
        } else {
            0
        },
    ).0
}

fn nested_media_count(bs: &Vec<NestedBlock>) -> (r: usize)
    requires
        nested_media(bs@.map_values(|n: NestedBlock| n@)) <= usize::MAX,
    ensures
        r == nested_media(bs@.map_values(|n: NestedBlock| n@)),
{
    let ghost v = bs@.map_values(|n: NestedBlock| n@);
    let mut n: usize = 0;
    let mut i: usize = 0;
    while i < bs.len()
        invariant
            i <= bs@.len(),
            v == bs@.map_values(|n: NestedBlock| n@),
            nested_media(v) <= usize::MAX,
            n == nested_media(v.take(i as int)),
        decreases bs.len() - i,
    {
        proof {
            assert(v.take(i + 1).drop_last() == v.take(i as int));
            assert(v.take(i + 1).last() == bs@[i as int]@);
            lemma_nested_media_prefix(v, i + 1);
        }
        match &bs[i] {
            NestedBlock::Image { .. } => {
                n = n + 1;
            },
            _ => {},
        }
        i += 1;
    }
    assert(v.take(bs.len() as int) == v);
    n
}

proof fn lemma_nested_media_prefix(v: Seq<NestedView>, j: int)
    requires
        0 <= j <= v.len(),
    ensures
        nested_media(v.take(j)) <= nested_media(v),
    decreases v.len() - j,
{
    if j < v.len() {
        lemma_nested_media_prefix(v, j + 1);
        assert(v.take(j + 1).drop_last() == v.take(j));
    } else {
        assert(v.take(j) == v);
    }
}

proof fn lemma_content_media_prefix(v: Seq<BlockView>, j: int)
    requires
        0 <= j <= v.len(),
    ensures
        content_media(v.take(j)) <= content_media(v),
    decreases v.len() - j,
{
    if j < v.len() {
        lemma_content_media_prefix(v, j + 1);
        assert(v.take(j + 1).drop_last() == v.take(j));
    } else {
        assert(v.take(j) == v);
    }
}

/// Number of images in a message's content, inside tool results too.
pub fn count_claude_media(content: &Vec<ClaudeBlock>) -> (r: usize)
    requires
        content_media(blocks_view(content@)) <= usize::MAX,
    ensures
        r == content_media(blocks_view(content@)),
{
    let ghost c = blocks_view(content@);
    let mut n: usize = 0;
    let mut i: usize = 0;
    while i < content.len()
        invariant
            i <= content@.len(),
            c == blocks_view(content@),
            content_media(c) <= usize::MAX,
            n == content_media(c.take(i as int)),
        decreases content.len() - i,
    {
        proof {
            assert(c.take(i + 1).drop_last() == c.take(i as int));
            assert(c.take(i + 1).last() == content@[i as int]@);
            lemma_content_media_prefix(c, i + 1);
        }
        match &content[i] {
            ClaudeBlock::Image { .. } => {
                n = n + 1;
            },
            ClaudeBlock::ToolResult { content: ToolResultContent::Blocks(bs), .. } => {
                n = n + nested_media_count(bs);
            },
            _ => {},
        }
        i += 1;
    }
    assert(c.take(content.len() as int) == c);
    n
}

fn prune_nested_exec(bs: &Vec<NestedBlock>, k: usize) -> (r: (Vec<NestedBlock>, usize))
    ensures
        (r.0@.map_values(|n: NestedBlock| n@), r.1 as nat) == prune_nested(
            bs@.map_values(|n: NestedBlock| n@),
            k as nat,
        ),
{
    let ghost v = bs@.map_values(|n: NestedBlock| n@);
    let mut out: Vec<NestedBlock> = Vec::new();
    let mut left = k;
    let mut i: usize = 0;
    while i < bs.len()
        invariant
            i <= bs@.len(),
            v == bs@.map_values(|n: NestedBlock| n@),
            (out@.map_values(|n: NestedBlock| n@), left as nat) == prune_nested(
                v.take(i as int),
                k as nat,
            ),
        decreases bs.len() - i,
    {
        proof {
            assert(v.take(i + 1).drop_last() == v.take(i as int));
            assert(v.take(i + 1).last() == bs@[i as int]@);
        }
        let is_image = match &bs[i] {
            NestedBlock::Image { .. } => true,
            _ => false,
        };
        if left > 0 && is_image {
            left = left - 1;
        } else {
            let ghost before = out@.map_values(|n: NestedBlock| n@);
            let d = bs[i].duplicate();
            let ghost dv = d@;
            out.push(d);
            assert(out@.map_values(|n: NestedBlock| n@) == before.push(dv));
        }
        i += 1;
    }
    assert(v.take(bs.len() as int) == v);
    (out, left)
}

fn prune_block_exec(b: &ClaudeBlock, k: usize) -> (r: (Vec<ClaudeBlock>, usize))
    ensures
        (blocks_view(r.0@), r.1 as nat) == prune_block(b@, k as nat),
{
    match b {
        ClaudeBlock::ToolResult {
            tool_use_id,
            content: ToolResultContent::Blocks(bs),
            is_error,
            cache_reference,
        } => {
            let (mut kept, left) = prune_nested_exec(bs, k);
            if kept.len() == 0 && left < k {
                kept.push(
                    NestedBlock::Text {
                        text: "[Media content omitted to stay within request limits]".to_string(),
                        cache_control: None,
                    },
                );
                assert(kept@.map_values(|n: NestedBlock| n@) == seq![
                    NestedView::Text { text: pruned_media_placeholder(), cache_control: None },
                ]);
            }
            let mut out: Vec<ClaudeBlock> = Vec::new();
            out.push(
                ClaudeBlock::ToolResult {
                    tool_use_id: tool_use_id.clone(),
                    content: ToolResultContent::Blocks(kept),
                    is_error: *is_error,
                    cache_reference: copy_opt(cache_reference),
                },
            );
            (out, left)
        },
        ClaudeBlock::Image { .. } => {
            if k > 0 {
                (Vec::new(), k - 1)
            } else {
                let mut out: Vec<ClaudeBlock> = Vec::new();
                out.push(b.duplicate());
                (out, k)
            }
        },
        _ => {
            let mut out: Vec<ClaudeBlock> = Vec::new();
            out.push(b.duplicate());
            (out, k)
        },
    }
}

fn prune_content_exec(c: &Vec<ClaudeBlock>, k: usize) -> (r: (Vec<ClaudeBlock>, usize))
    ensures
        (blocks_view(r.0@), r.1 as nat) == prune_content(blocks_view(c@), k as nat),
{
    let ghost v = blocks_view(c@);
    let mut out: Vec<ClaudeBlock> = Vec::new();
    let mut left = k;
    let mut i: usize = 0;
    while i < c.len()
        invariant
            i <= c@.len(),
            v == blocks_view(c@),
            (blocks_view(out@), left as nat) == prune_content(v.take(i as int), k as nat),
        decreases c.len() - i,
    {
        proof {
            assert(v.take(i + 1).drop_last() == v.take(i as int));
            assert(v.take(i + 1).last() == c@[i as int]@);
        }
        let (mut x, l2) = prune_block_exec(&c[i], left);
        let ghost before = blocks_view(out@);
        let ghost xv = blocks_view(x@);
        out.append(&mut x);
        assert(blocks_view(out@) == before + xv);
        left = l2;
        i += 1;
    }
    assert(v.take(c.len() as int) == v);
    (out, left)
}

proof fn lemma_history_media_prefix(v: Seq<MessageView>, j: int)
    requires
        0 <= j <= v.len(),
    ensures
        history_media(v.take(j)) <= history_media(v),
    decreases v.len() - j,
{
    if j < v.len() {
        lemma_history_media_prefix(v, j + 1);
        assert(v.take(j + 1).drop_last() == v.take(j));
    } else {
        assert(v.take(j) == v);
    }
}

/// Removes the oldest images (top-level or inside tool results) until at
/// most `limit` remain; a tool result left without blocks by the pruning
/// gets a placeholder text.
pub fn prune_excess_claude_media(messages: &mut Vec<ClaudeMessage>, limit: usize)
    requires
        history_media(messages_view(old(messages)@)) <= usize::MAX,
    ensures
        messages_view(final(messages)@) == pruned_history(messages_view(old(messages)@), limit),
{
    let ghost mv = messages_view(messages@);
    let mut total: usize = 0;
    let mut i: usize = 0;
    while i < messages.len()
        invariant
            i <= messages@.len(),
            mv == messages_view(messages@),
            history_media(mv) <= usize::MAX,
            total == history_media(mv.take(i as int)),
        decreases messages.len() - i,
    {
        proof {
            assert(mv.take(i + 1).drop_last() == mv.take(i as int));
            assert(mv.take(i + 1).last() == messages@[i as int]@);
            lemma_history_media_prefix(mv, i + 1);
        }
        total = total + count_claude_media(&messages[i].content);
        i += 1;
    }
    assert(mv.take(messages.len() as int) == mv);
    let k = total.saturating_sub(limit);
    let mut out: Vec<ClaudeMessage> = Vec::new();
    let mut left = k;
    let mut j: usize = 0;
    while j < messages.len()
        invariant
            j <= messages@.len(),
            mv == messages_view(messages@),
            (messages_view(out@), left as nat) == prune_messages(mv.take(j as int), k as nat),
        decreases messages.len() - j,
    {
        proof {
            assert(mv.take(j + 1).drop_last() == mv.take(j as int));
            assert(mv.take(j + 1).last() == messages@[j as int]@);
        }
        let (content, l2) = prune_content_exec(&messages[j].content, left);
        let m = ClaudeMessage { role: messages[j].role, content };
        let ghost before = messages_view(out@);
        let ghost m_v = m@;
        out.push(m);
        assert(messages_view(out@) == before.push(m_v));
        left = l2;
        j += 1;
    }
    assert(mv.take(messages.len() as int) == mv);
    *messages = out;
}

/// The smaller of `a` and `b`.
pub open spec fn min_nat(a: nat, b: nat) -> nat {
    if a <= b {
        a
    } else {
        b
    }
}

proof fn lemma_prune_nested_count(bs: Seq<NestedView>, k: nat)
    ensures
        prune_nested(bs, k).1 <= k,
        k - prune_nested(bs, k).1 == min_nat(k, nested_media(bs)),
        nested_media(prune_nested(bs, k).0) == nested_media(bs) - min_nat(k, nested_media(bs)),
    decreases bs.len(),
{
    if bs.len() > 0 {
        lemma_prune_nested_count(bs.drop_last(), k);
        let (r, k2) = prune_nested(bs.drop_last(), k);
        assert(r.push(bs.last()).drop_last() == r);
    }
}

pub proof fn lemma_content_media_concat(a: Seq<BlockView>, b: Seq<BlockView>)
    ensures
        content_media(a + b) == content_media(a) + content_media(b),
    decreases b.len(),
{
    if b.len() > 0 {
        lemma_content_media_concat(a, b.drop_last());
        assert((a + b).drop_last() == a + b.drop_last());
    } else {
        assert(a + b == a);
    }
}

proof fn lemma_prune_block_count(b: BlockView, k: nat)
    ensures
        prune_block(b, k).1 <= k,
        k - prune_block(b, k).1 == min_nat(k, block_media(b)),
        content_media(prune_block(b, k).0) == block_media(b) - min_nat(k, block_media(b)),
{
    let (x, k2) = prune_block(b, k);
    assert(x.len() <= 1);
    assert(content_media(Seq::<BlockView>::empty()) == 0);
    if x.len() == 1 {
        assert(x.drop_last() == Seq::<BlockView>::empty());
        assert(content_media(x) == block_media(x[0]));
    }
    match b {
        BlockView::ToolResult { tool_use_id, content: ResultView::Blocks(bs), is_error, cache_reference } => {
            lemma_prune_nested_count(bs, k);
            let (kept, k2) = prune_nested(bs, k);
            let t = seq![NestedView::Text { text: pruned_media_placeholder(), cache_control: None }];
            assert(t.drop_last() == Seq::<NestedView>::empty());
            assert(nested_media(Seq::<NestedView>::empty()) == 0);
            assert(!(t.last() is Image));
            assert(nested_media(t) == 0);
            if kept.len() == 0 {
                assert(kept == Seq::<NestedView>::empty());
                assert(nested_media(kept) == 0);
            }
            assert(x.drop_last() == Seq::<BlockView>::empty());
            assert(content_media(Seq::<BlockView>::empty()) == 0);
            let content = if kept.len() == 0 && k2 < k {
                t
            } else {
                kept
            };
            assert(x[0] == BlockView::ToolResult { tool_use_id, content: ResultView::Blocks(content), is_error, cache_reference });
            assert(block_media(x[0]) == nested_media(content));
            assert(content_media(x) == block_media(x[0]));
            if kept.len() == 0 && k2 < k {
                assert(nested_media(content) == 0);
                assert(nested_media(bs) - min_nat(k, nested_media(bs)) == 0);
            } else {
                assert(nested_media(content) == nested_media(bs) - min_nat(k, nested_media(bs)));
            }
            assert(block_media(b) == nested_media(bs));
            assert(prune_block(b, k).0 == x);
            assert(content_media(x) == nested_media(content));
        },
        _ => {},
    }
}

proof fn lemma_prune_content_count(c: Seq<BlockView>, k: nat)
    ensures
        prune_content(c, k).1 <= k,
        k - prune_content(c, k).1 == min_nat(k, content_media(c)),
        content_media(prune_content(c, k).0) == content_media(c) - min_nat(k, content_media(c)),
    decreases c.len(),
{
    if c.len() > 0 {
        lemma_prune_content_count(c.drop_last(), k);
        let (r, k2) = prune_content(c.drop_last(), k);
        lemma_prune_block_count(c.last(), k2);
        let (x, k3) = prune_block(c.last(), k2);
        lemma_content_media_concat(r, x);
    }
}

proof fn lemma_prune_messages_count(ms: Seq<MessageView>, k: nat)
    ensures
        prune_messages(ms, k).1 <= k,
        k - prune_messages(ms, k).1 == min_nat(k, history_media(ms)),
        history_media(prune_messages(ms, k).0) == history_media(ms) - min_nat(k, history_media(ms)),
    decreases ms.len(),
{
    if ms.len() > 0 {
        lemma_prune_messages_count(ms.drop_last(), k);
        let (r, k2) = prune_messages(ms.drop_last(), k);
        lemma_prune_content_count(ms.last().content, k2);
        let (c, k3) = prune_content(ms.last().content, k2);
        let m = MessageView { role: ms.last().role, content: c };
        assert(r.push(m).drop_last() == r);
    }
}

/// After pruning, a history keeps exactly `limit` images when it had more,
/// and all of them otherwise.
pub proof fn law_pruned_media_within_limit(ms: Seq<MessageView>, limit: usize)
    ensures
        history_media(pruned_history(ms, limit)) == min_nat(history_media(ms), limit as nat),
{
    let total = history_media(ms);
    let k: nat = if total > limit {
        (total - limit) as nat
    } else {
        0
    };
    lemma_prune_messages_count(ms, k);
}


proof fn lemma_normalized_block_media(b: BlockView, reqs: ClaudeHistoryRequirements)
    ensures
        match normalized_block(b, reqs) {
            Some(x) => block_media(x) <= block_media(b),
            None => true,
        },
{
}

proof fn lemma_normalized_content_media(c: Seq<BlockView>, reqs: ClaudeHistoryRequirements)
    ensures
        content_media(normalized_content(c, reqs)) <= content_media(c),
    decreases c.len(),
{
    if c.len() > 0 {
        lemma_normalized_content_media(c.drop_last(), reqs);
        lemma_normalized_block_media(c.last(), reqs);
        let r = normalized_content(c.drop_last(), reqs);
        match normalized_block(c.last(), reqs) {
            Some(x) => {
                assert(r.push(x).drop_last() =~= r);
                assert(content_media(r.push(x)) == content_media(r) + block_media(x));
            },
            None => {},
        }
    }
}

proof fn lemma_drop_unsigned_tail_media(c: Seq<BlockView>)
    ensures
        content_media(drop_unsigned_tail(c)) <= content_media(c),
{
    lemma_drop_unsigned_tail_len(c);
    lemma_content_media_prefix(c, drop_unsigned_tail(c).len() as int);
}

proof fn lemma_pushed_message_media(ms: Seq<MessageView>, role: ClaudeRole, c: Seq<BlockView>)
    ensures
        history_media(pushed_message(ms, role, c)) == history_media(ms) + content_media(c),
{
    if c.len() == 0 {
    } else if ms.len() > 0 && ms.last().role == role {
        let u = ms.update(ms.len() - 1, MessageView { role: role, content: ms.last().content + c });
        assert(u.drop_last() =~= ms.drop_last());
        lemma_content_media_concat(ms.last().content, c);
    } else {
        assert(ms.push(MessageView { role: role, content: c }).drop_last() =~= ms);
    }
}

proof fn lemma_normalized_messages_media(ms: Seq<MessageView>, reqs: ClaudeHistoryRequirements)
    ensures
        history_media(normalized_messages(ms, reqs)) <= history_media(ms),
    decreases ms.len(),
{
    if ms.len() > 0 {
        let m = ms.last();
        let c = normalized_content(m.content, reqs);
        lemma_normalized_messages_media(ms.drop_last(), reqs);
        lemma_normalized_content_media(m.content, reqs);
        lemma_drop_unsigned_tail_media(c);
        let kept = if m.role == ClaudeRole::Assistant {
            drop_unsigned_tail(c)
        } else {
            c
        };
        lemma_pushed_message_media(normalized_messages(ms.drop_last(), reqs), m.role, kept);
    }
}

/// Normalizing a history never adds images.
pub proof fn law_normalizing_adds_no_media(ms: Seq<MessageView>, reqs: ClaudeHistoryRequirements)
    ensures
        history_media(normalized_messages(ms, reqs)) <= history_media(ms),
{
    lemma_normalized_messages_media(ms, reqs);
}

} // verus!
