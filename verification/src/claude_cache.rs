//! Prompt caching on a Messages API request: cache breakpoints, cache edits that
//! delete cached prefixes, and cache references on cached tool results.
use vstd::prelude::*;
use crate::claude_provider::{
    ClaudeCacheEditingCapability, ClaudeCacheEditingOptions, ClaudePinnedCacheEdits,
};
use crate::claude_history::{
    blank, block_media, blocks_view, content_media, copy_opt, history_media, is_blank,
    lemma_content_media_concat, messages_view, result_id, strings_view, trim, trim_chars,
    BlockView, ClaudeBlock, ClaudeMessage, ClaudeRole, MessageView,
};
use crate::text::{str_eq, string_from_chars};

verus! {

/// Index of the last non-blank text block of `c` (-1 when none).
pub open spec fn last_nonblank_text(c: Seq<BlockView>) -> int
    decreases c.len(),
{
    if c.len() == 0 {
        -1
    } else if c.last() matches BlockView::Text { text, .. } && !blank(text) {
        c.len() - 1
    } else {
        last_nonblank_text(c.drop_last())
    }
}

proof fn lemma_last_nonblank_text(c: Seq<BlockView>)
    ensures
        -1 <= last_nonblank_text(c) < c.len(),
        last_nonblank_text(c) >= 0 ==> (c[last_nonblank_text(c)] matches BlockView::Text { text, .. }
            && !blank(text)),
    decreases c.len(),
{
    if c.len() > 0 {
        lemma_last_nonblank_text(c.drop_last());
    }
}

/// The newest user message at or before index `i` holding non-blank text,
/// with the index of its last such text block.
pub open spec fn stable_text_target(ms: Seq<MessageView>, i: int) -> Option<(int, int)>
    decreases i + 1,
{
    if i < 0 || i >= ms.len() {
        None
    } else if ms[i].role == ClaudeRole::User && last_nonblank_text(ms[i].content) >= 0 {
        Some((i, last_nonblank_text(ms[i].content)))
    } else {
        stable_text_target(ms, i - 1)
    }
}

/// `ms` with the text block at `(i, j)` carrying `cc` as its cache control.
pub open spec fn with_text_cache_control(ms: Seq<MessageView>, i: int, j: int, cc: Seq<char>) -> Seq<
    MessageView,
> {
    let m = ms[i];
    match m.content[j] {
        BlockView::Text { text, .. } => ms.update(
            i,
            MessageView {
                role: m.role,
                content: m.content.update(j, BlockView::Text { text, cache_control: Some(cc) }),
            },
        ),
        _ => ms,
    }
}

/// The conversation cache breakpoint: the last non-blank text of the newest
/// user message before the final message gets cache control `cc`.
pub open spec fn marked_stable_prior_text(ms: Seq<MessageView>, cc: Seq<char>) -> Seq<MessageView> {
    if ms.len() < 2 {
        ms
    } else {
        match stable_text_target(ms, ms.len() - 2) {
            Some((i, j)) => with_text_cache_control(ms, i, j, cc),
            None => ms,
        }
    }
}

fn last_nonblank_text_exec(c: &Vec<ClaudeBlock>) -> (r: Option<usize>)
    ensures
        match r {
            Some(j) => j < c@.len() && last_nonblank_text(blocks_view(c@)) == j,
            None => last_nonblank_text(blocks_view(c@)) == -1,
        },
{
    let ghost cv = blocks_view(c@);
    let mut k = c.len();
    assert(cv.take(k as int) == cv);
    while k > 0
        invariant
            k <= c@.len(),
            cv == blocks_view(c@),
            last_nonblank_text(cv) == last_nonblank_text(cv.take(k as int)),
        decreases k,
    {
        let ghost t = cv.take(k as int);
        assert(t.last() == c@[k - 1]@);
        assert(t.drop_last() == cv.take(k - 1));
        let hit = match &c[k - 1] {
            ClaudeBlock::Text { text, .. } => !is_blank(text.as_str()),
            _ => false,
        };
        if hit {
            return Some(k - 1);
        }
        k -= 1;
    }
    None
}

/// Marks the conversation cache breakpoint (see [`marked_stable_prior_text`]);
/// tells whether a block was marked.
pub fn mark_latest_stable_prior_text_block(messages: &mut Vec<ClaudeMessage>, cache_control: &str) -> (r:
    bool)
    ensures
        messages_view(final(messages)@) == marked_stable_prior_text(
            messages_view(old(messages)@),
            cache_control@,
        ),
        r == (messages_view(old(messages)@).len() >= 2 && stable_text_target(
            messages_view(old(messages)@),
            messages_view(old(messages)@).len() - 2,
        ) is Some),
{
    let ghost mv = messages_view(messages@);
    if messages.len() < 2 {
        return false;
    }
    let mut i = messages.len() - 1;
    while i > 0
        invariant
            i <= messages@.len() - 1,
            messages@.len() >= 2,
            mv == messages_view(messages@),
            messages@ == old(messages)@,
            stable_text_target(mv, mv.len() - 2) == stable_text_target(mv, i - 1),
        decreases i,
    {
        let idx = i - 1;
        assert(mv[idx as int] == messages@[idx as int]@);
        if messages[idx].role == ClaudeRole::User {
            match last_nonblank_text_exec(&messages[idx].content) {
                Some(j) => {
                    proof {
                        lemma_last_nonblank_text(mv[idx as int].content);
                        assert(stable_text_target(mv, idx as int) == Some((idx as int, j as int)));
                    }
                    let mut message = messages.remove(idx);
                    let old_block = message.content.remove(j);
                    let new_block = match old_block {
                        ClaudeBlock::Text { text, .. } => ClaudeBlock::Text {
                            text,
                            cache_control: Some(cache_control.to_string()),
                        },
                        other => other,
                    };
                    message.content.insert(j, new_block);
                    messages.insert(idx, message);
                    proof {
                        let m = mv[idx as int];
                        assert(blocks_view(message.content@) =~= m.content.update(
                            j as int,
                            blocks_view(message.content@)[j as int],
                        ));
                        assert(messages_view(messages@) =~= with_text_cache_control(
                            mv,
                            idx as int,
                            j as int,
                            cache_control@,
                        ));
                    }
                    return true;
                },
                None => {},
            }
        }
        i -= 1;
    }
    false
}

/// The delete edits for `refs` given references already used: each
/// reference trimmed, blank or repeated ones dropped; and the references
/// used afterwards.
pub open spec fn delete_edits(refs: Seq<Seq<char>>, seen: Seq<Seq<char>>) -> (Seq<Seq<char>>, Seq<Seq<char>>)
    decreases refs.len(),
{
    if refs.len() == 0 {
        (Seq::empty(), seen)
    } else {
        let (e, s) = delete_edits(refs.drop_last(), seen);
        let r = trim(refs.last());
        if r.len() == 0 || s.contains(r) {
            (e, s)
        } else {
            (e.push(r), s.push(r))
        }
    }
}

fn contains_view(v: &Vec<String>, s: &Vec<char>) -> (r: bool)
    ensures
        r == strings_view(v@).contains(s@),
{
    let t = string_from_chars(s.as_slice());
    let mut i: usize = 0;
    while i < v.len()
        invariant
            i <= v@.len(),
            t@ == s@,
            forall|j: int| 0 <= j < i ==> strings_view(v@)[j] != s@,
        decreases v.len() - i,
    {
        if str_eq(v[i].as_str(), t.as_str()) {
            assert(strings_view(v@)[i as int] == s@);
            return true;
        }
        i += 1;
    }
    false
}

/// The delete edits for `references` (see [`delete_edits`]), recording the
/// references used in `seen`.
pub fn cache_delete_edits(references: &Vec<String>, seen: &mut Vec<String>) -> (r: Vec<String>)
    ensures
        (strings_view(r@), strings_view(final(seen)@)) == delete_edits(
            strings_view(references@),
            strings_view(old(seen)@),
        ),
{
    let ghost rv = strings_view(references@);
    let ghost s0 = strings_view(seen@);
    let mut edits: Vec<String> = Vec::new();
    let mut i: usize = 0;
    while i < references.len()
        invariant
            i <= references@.len(),
            rv == strings_view(references@),
            (strings_view(edits@), strings_view(seen@)) == delete_edits(rv.take(i as int), s0),
        decreases references.len() - i,
    {
        proof {
            assert(rv.take(i + 1).drop_last() == rv.take(i as int));
            assert(rv.take(i + 1).last() == references@[i as int]@);
        }
        let t = trim_chars(references[i].as_str());
        if !(t.len() == 0 || contains_view(seen, &t)) {
            let ts = string_from_chars(t.as_slice());
            let ghost e0 = strings_view(edits@);
            let ghost sv0 = strings_view(seen@);
            seen.push(ts.clone());
            edits.push(ts);
            assert(strings_view(edits@) == e0.push(t@));
            assert(strings_view(seen@) == sv0.push(t@));
        }
        i += 1;
    }
    assert(rv.take(references.len() as int) == rv);
    edits
}

/// Index of the first block of `c` that is not a tool result (the length
/// when all are).
pub open spec fn first_non_result(c: Seq<BlockView>, from: int) -> int
    decreases c.len() - from,
{
    if from < 0 || from >= c.len() {
        c.len() as int
    } else if result_id(c[from]) is None {
        from
    } else {
        first_non_result(c, from + 1)
    }
}

/// `c` with a cache edits block deleting `deletes` placed right after its
/// leading tool results.
pub open spec fn with_cache_edits(c: Seq<BlockView>, deletes: Seq<Seq<char>>) -> Seq<BlockView> {
    let p = first_non_result(c, 0);
    c.take(p) + seq![BlockView::CacheEdits { deletes }] + c.skip(p)
}

fn is_tool_result(b: &ClaudeBlock) -> (r: bool)
    ensures
        r == (result_id(b@) is Some),
{
    match b {
        ClaudeBlock::ToolResult { .. } => true,
        _ => false,
    }
}

/// Places a cache edits block deleting `deletes` right after the leading
/// tool results of `content`.
pub fn insert_cache_edits_after_tool_results(content: &mut Vec<ClaudeBlock>, deletes: Vec<String>)
    ensures
        blocks_view(final(content)@) == with_cache_edits(blocks_view(old(content)@), strings_view(deletes@)),
{
    let ghost cv = blocks_view(content@);
    let mut p: usize = 0;
    while p < content.len() && is_tool_result(&content[p])
        invariant
            p <= content@.len(),
            cv == blocks_view(content@),
            first_non_result(cv, 0) == first_non_result(cv, p as int),
        decreases content.len() - p,
    {
        assert(cv[p as int] == content@[p as int]@);
        p += 1;
    }
    assert(p < content@.len() ==> cv[p as int] == content@[p as int]@);
    let ghost dv = strings_view(deletes@);
    let block = ClaudeBlock::CacheEdits { deletes };
    assert(block@ == BlockView::CacheEdits { deletes: dv });
    content.insert(p, block);
    assert(blocks_view(content@) =~= cv.take(p as int) + seq![block@] + cv.skip(p as int));
}

/// A text block carrying cache control.
pub open spec fn has_cache_control(b: BlockView) -> bool {
    b matches BlockView::Text { cache_control: Some(_), .. }
}

/// Index of the last message with a cache breakpoint (-1 when none).
pub open spec fn last_cached_message(ms: Seq<MessageView>) -> int
    decreases ms.len(),
{
    if ms.len() == 0 {
        -1
    } else if exists|j: int| 0 <= j < ms.last().content.len() && has_cache_control(
        #[trigger] ms.last().content[j],
    ) {
        ms.len() - 1
    } else {
        last_cached_message(ms.drop_last())
    }
}

/// A tool result without a cache reference gets its own id as one.
pub open spec fn with_cache_reference(b: BlockView) -> BlockView {
    match b {
        BlockView::ToolResult { tool_use_id, content, is_error, cache_reference: None } =>
            BlockView::ToolResult {
            tool_use_id,
            content,
            is_error,
            cache_reference: Some(tool_use_id),
        },
        _ => b,
    }
}

/// Tool results in user messages before the last cache breakpoint get
/// cache references.
pub open spec fn with_cached_prefix_references(ms: Seq<MessageView>) -> Seq<MessageView> {
    let last = last_cached_message(ms);
    Seq::new(
        ms.len(),
        |i: int|
            if i < last && ms[i].role == ClaudeRole::User {
                MessageView {
                    role: ms[i].role,
                    content: ms[i].content.map_values(|b: BlockView| with_cache_reference(b)),
                }
            } else {
                ms[i]
            },
    )
}

fn message_has_cache_control(m: &ClaudeMessage) -> (r: bool)
    ensures
        r == exists|j: int| 0 <= j < m@.content.len() && has_cache_control(#[trigger] m@.content[j]),
{
    let mut j: usize = 0;
    while j < m.content.len()
        invariant
            j <= m.content@.len(),
            forall|k: int| 0 <= k < j ==> !has_cache_control(#[trigger] m@.content[k]),
        decreases m.content.len() - j,
    {
        assert(m@.content[j as int] == m.content@[j as int]@);
        match &m.content[j] {
            ClaudeBlock::Text { cache_control: Some(_), .. } => {
                return true;
            },
            _ => {},
        }
        j += 1;
    }
    false
}

fn add_cache_reference(b: &ClaudeBlock) -> (r: ClaudeBlock)
    ensures
        r@ == with_cache_reference(b@),
{
    match b {
        ClaudeBlock::ToolResult { tool_use_id, content, is_error, cache_reference: None } =>
            ClaudeBlock::ToolResult {
            tool_use_id: tool_use_id.clone(),
            content: content.duplicate(),
            is_error: *is_error,
            cache_reference: Some(tool_use_id.clone()),
        },
        _ => b.duplicate(),
    }
}

/// Gives tool results in user messages before the last cache breakpoint
/// cache references (see [`with_cached_prefix_references`]).
pub fn mark_cached_prefix_tool_results(messages: &mut Vec<ClaudeMessage>)
    ensures
        messages_view(final(messages)@) == with_cached_prefix_references(
            messages_view(old(messages)@),
        ),
{
    let ghost mv = messages_view(messages@);
    let mut last = messages.len();
    let mut found = false;
    assert(mv.take(last as int) == mv);
    while last > 0 && !found
        invariant
            last <= messages@.len(),
            mv == messages_view(messages@),
            found ==> last < messages@.len() && last_cached_message(mv) == last,
            !found ==> last_cached_message(mv) == last_cached_message(mv.take(last as int)),
        decreases last + if found {
            0int
        } else {
            1int
        },
    {
        let ghost t = mv.take(last as int);
        assert(t.last() == messages@[last - 1]@);
        assert(t.drop_last() == mv.take(last - 1));
        if message_has_cache_control(&messages[last - 1]) {
            found = true;
            last = last - 1;
        } else {
            last = last - 1;
        }
    }
    if !found {
        assert(last_cached_message(mv) == -1);
        assert(with_cached_prefix_references(mv) =~= mv);
        return;
    }
    let mut out: Vec<ClaudeMessage> = Vec::new();
    let mut i: usize = 0;
    while i < messages.len()
        invariant
            i <= messages@.len(),
            mv == messages_view(messages@),
            last_cached_message(mv) == last,
            messages_view(out@) == with_cached_prefix_references(mv).take(i as int),
        decreases messages.len() - i,
    {
        let m = &messages[i];
        assert(mv[i as int] == m@);
        let ghost before = messages_view(out@);
        if i < last && m.role == ClaudeRole::User {
            let mut content: Vec<ClaudeBlock> = Vec::new();
            let mut k: usize = 0;
            while k < m.content.len()
                invariant
                    k <= m.content@.len(),
                    blocks_view(content@) == m@.content.take(k as int).map_values(
                        |b: BlockView| with_cache_reference(b),
                    ),
                decreases m.content.len() - k,
            {
                let b = add_cache_reference(&m.content[k]);
                let ghost cb = blocks_view(content@);
                let ghost bv = b@;
                content.push(b);
                assert(blocks_view(content@) == cb.push(bv));
                assert(m@.content[k as int] == m.content@[k as int]@);
                assert(m@.content.take(k + 1).map_values(|b: BlockView| with_cache_reference(b))
                    == m@.content.take(k as int).map_values(|b: BlockView| with_cache_reference(b)).push(
                    bv,
                ));
                k += 1;
            }
            assert(m@.content.take(m.content.len() as int) == m@.content);
            let nm = ClaudeMessage { role: m.role, content };
            let ghost nv = nm@;
            out.push(nm);
            assert(messages_view(out@) == before.push(nv));
        } else {
            let nm = ClaudeMessage { role: m.role, content: copy_blocks(&m.content) };
            let ghost nv = nm@;
            out.push(nm);
            assert(messages_view(out@) == before.push(nv));
        }
        assert(with_cached_prefix_references(mv).take(i + 1) == with_cached_prefix_references(
            mv,
        ).take(i as int).push(with_cached_prefix_references(mv)[i as int]));
        i += 1;
    }
    assert(with_cached_prefix_references(mv).take(messages.len() as int)
        == with_cached_prefix_references(mv));
    *messages = out;
}

/// A copy of blocks.
pub fn copy_blocks(c: &Vec<ClaudeBlock>) -> (r: Vec<ClaudeBlock>)
    ensures
        blocks_view(r@) == blocks_view(c@),
{
    let mut out: Vec<ClaudeBlock> = Vec::new();
    let mut k: usize = 0;
    while k < c.len()
        invariant
            k <= c@.len(),
            blocks_view(out@) == blocks_view(c@).take(k as int),
        decreases c.len() - k,
    {
        let b = c[k].duplicate();
        let ghost ob = blocks_view(out@);
        let ghost bv = b@;
        out.push(b);
        assert(blocks_view(out@) == ob.push(bv));
        assert(blocks_view(c@).take(k + 1) == blocks_view(c@).take(k as int).push(bv));
        k += 1;
    }
    assert(blocks_view(c@).take(c.len() as int) == blocks_view(c@));
    out
}

/// Index of the last user message (-1 when none).
pub open spec fn last_user_index(ms: Seq<MessageView>) -> int
    decreases ms.len(),
{
    if ms.len() == 0 {
        -1
    } else if ms.last().role == ClaudeRole::User {
        ms.len() - 1
    } else {
        last_user_index(ms.drop_last())
    }
}

/// `ms` with cache edits deleting `e` placed in user message `idx`, when
/// there are edits and message `idx` is a user message.
pub open spec fn edits_into(ms: Seq<MessageView>, idx: int, e: Seq<Seq<char>>) -> Seq<MessageView> {
    if e.len() > 0 && 0 <= idx < ms.len() && ms[idx].role == ClaudeRole::User {
        ms.update(
            idx,
            MessageView { role: ClaudeRole::User, content: with_cache_edits(ms[idx].content, e) },
        )
    } else {
        ms
    }
}

/// The views of pinned cache edits.
pub open spec fn pins_view(pins: Seq<ClaudePinnedCacheEdits>) -> Seq<(usize, Seq<Seq<char>>)> {
    pins.map_values(
        |p: ClaudePinnedCacheEdits| (p.user_message_index, strings_view(p.delete_references@)),
    )
}

/// The pinned edits applied in order, with the references used.
pub open spec fn apply_pins(ms: Seq<MessageView>, pins: Seq<(usize, Seq<Seq<char>>)>) -> (
    Seq<MessageView>,
    Seq<Seq<char>>,
)
    decreases pins.len(),
{
    if pins.len() == 0 {
        (ms, Seq::empty())
    } else {
        let (m1, s1) = apply_pins(ms, pins.drop_last());
        let (idx, refs) = pins.last();
        let (e, s2) = delete_edits(refs, s1);
        (edits_into(m1, idx as int, e), s2)
    }
}

/// The history after the cache editing policy: nothing changes when the
/// provider does not edit caches; otherwise the pinned edits go into their
/// user messages, the new edits into the last user message (references
/// trimmed, blank or repeated ones dropped), and tool results before the
/// last cache breakpoint get cache references.
pub open spec fn cache_edited(
    ms: Seq<MessageView>,
    capability: ClaudeCacheEditingCapability,
    pins: Seq<(usize, Seq<Seq<char>>)>,
    new_refs: Seq<Seq<char>>,
) -> Seq<MessageView> {
    if capability == ClaudeCacheEditingCapability::Disabled {
        ms
    } else {
        let (m1, s1) = apply_pins(ms, pins);
        let (e, _s2) = delete_edits(new_refs, s1);
        with_cached_prefix_references(edits_into(m1, last_user_index(m1), e))
    }
}

fn insert_edits_into(messages: &mut Vec<ClaudeMessage>, idx: usize, edits: Vec<String>)
    requires
        edits@.len() > 0,
        idx < old(messages)@.len(),
        old(messages)@[idx as int].role == ClaudeRole::User,
    ensures
        messages_view(final(messages)@) == edits_into(
            messages_view(old(messages)@),
            idx as int,
            strings_view(edits@),
        ),
{
    let ghost mv = messages_view(messages@);
    let mut message = messages.remove(idx);
    assert(message@ == mv[idx as int]);
    insert_cache_edits_after_tool_results(&mut message.content, edits);
    messages.insert(idx, message);
    assert(messages_view(messages@) =~= edits_into(mv, idx as int, strings_view(edits@)));
}

/// Applies the cache editing policy (see [`cache_edited`]).
pub fn apply_cache_editing_policy(options: &ClaudeCacheEditingOptions, messages: &mut Vec<ClaudeMessage>)
    ensures
        messages_view(final(messages)@) == cache_edited(
            messages_view(old(messages)@),
            options.capability,
            pins_view(options.pinned_deletes@),
            strings_view(options.new_delete_references@),
        ),
{
    if options.capability == ClaudeCacheEditingCapability::Disabled {
        return;
    }
    let ghost mv = messages_view(messages@);
    let ghost pv = pins_view(options.pinned_deletes@);
    let mut seen: Vec<String> = Vec::new();
    let mut i: usize = 0;
    assert(strings_view(seen@) == Seq::<Seq<char>>::empty());
    while i < options.pinned_deletes.len()
        invariant
            i <= options.pinned_deletes@.len(),
            pv == pins_view(options.pinned_deletes@),
            (messages_view(messages@), strings_view(seen@)) == apply_pins(mv, pv.take(i as int)),
        decreases options.pinned_deletes.len() - i,
    {
        proof {
            assert(pv.take(i + 1).drop_last() == pv.take(i as int));
            assert(pv.take(i + 1).last() == pv[i as int]);
        }
        let pinned = &options.pinned_deletes[i];
        let edits = cache_delete_edits(&pinned.delete_references, &mut seen);
        let idx = pinned.user_message_index;
        if edits.len() > 0 && idx < messages.len() && messages[idx].role == ClaudeRole::User {
            insert_edits_into(messages, idx, edits);
        }
        i += 1;
    }
    assert(pv.take(options.pinned_deletes.len() as int) == pv);
    let ghost m1 = messages_view(messages@);
    let edits = cache_delete_edits(&options.new_delete_references, &mut seen);
    if edits.len() > 0 {
        let mut u = messages.len();
        assert(m1.take(u as int) == m1);
        while u > 0 && messages[u - 1].role != ClaudeRole::User
            invariant
                u <= messages@.len(),
                m1 == messages_view(messages@),
                last_user_index(m1) == last_user_index(m1.take(u as int)),
            decreases u,
        {
            let ghost t = m1.take(u as int);
            assert(t.last() == messages@[u - 1]@);
            assert(t.drop_last() == m1.take(u - 1));
            u -= 1;
        }
        if u > 0 {
            let ghost t = m1.take(u as int);
            assert(t.last() == messages@[u - 1]@);
            insert_edits_into(messages, u - 1, edits);
        }
    }
    mark_cached_prefix_tool_results(messages);
}

/// Where the prompt cache breakpoints go.
#[derive(Clone, Copy, Debug, PartialEq, Eq, Structural)]
pub enum ClaudePromptCacheMode {
    Off,
    System,
    Conversation,
}

/// Applies the prompt cache policy to the history and tells whether the
/// last tool gets the cache breakpoint `cache_control`: off, nothing
/// changes; otherwise the last tool is marked, and in conversation mode the
/// newest stable user text before the final message too.
pub fn apply_prompt_cache_policy(
    mode: ClaudePromptCacheMode,
    has_tools: bool,
    system: &str,
    messages: &mut Vec<ClaudeMessage>,
    cache_control: &str,
) -> (r: bool)
    ensures
        r == (mode != ClaudePromptCacheMode::Off && has_tools),
        messages_view(final(messages)@) == if mode == ClaudePromptCacheMode::Conversation {
            marked_stable_prior_text(messages_view(old(messages)@), cache_control@)
        } else {
            messages_view(old(messages)@)
        },
{
    if mode == ClaudePromptCacheMode::Off {
        return false;
    }
    let tool_marked = has_tools;
    if !is_blank(system) && mode == ClaudePromptCacheMode::System {
        return tool_marked;
    }
    if mode == ClaudePromptCacheMode::Conversation {
        let _ = mark_latest_stable_prior_text_block(messages, cache_control);
    }
    tool_marked
}

/// The system prompt of a request.
#[derive(Debug, PartialEq)]
pub enum ClaudeSystemPrompt {
    /// Plain text.
    Text(String),
    /// One text block carrying the cache breakpoint `cache_control`.
    Cached { text: String, cache_control: String },
}

/// The system prompt: none when empty, a cached block in system cache mode,
/// plain text otherwise.
pub fn system_prompt(system: String, mode: ClaudePromptCacheMode, cache_control: &str) -> (r: Option<
    ClaudeSystemPrompt,
>)
    ensures
        system@.len() == 0 ==> r is None,
        system@.len() > 0 && mode == ClaudePromptCacheMode::System ==> (r matches Some(
            ClaudeSystemPrompt::Cached { text, cache_control: c },
        ) && text@ == system@ && c@ == cache_control@),
        system@.len() > 0 && mode != ClaudePromptCacheMode::System ==> (r matches Some(
            ClaudeSystemPrompt::Text(text),
        ) && text@ == system@),
{
    if system.as_str().is_empty() {
        return None;
    }
    if mode == ClaudePromptCacheMode::System {
        Some(ClaudeSystemPrompt::Cached { text: system, cache_control: cache_control.to_string() })
    } else {
        Some(ClaudeSystemPrompt::Text(system))
    }
}


proof fn lemma_content_media_pointwise(a: Seq<BlockView>, b: Seq<BlockView>)
    requires
        a.len() == b.len(),
        forall|i: int| 0 <= i < a.len() ==> block_media(#[trigger] a[i]) == block_media(b[i]),
    ensures
        content_media(a) == content_media(b),
    decreases a.len(),
{
    if a.len() > 0 {
        lemma_content_media_pointwise(a.drop_last(), b.drop_last());
    }
}

proof fn lemma_history_media_pointwise(a: Seq<MessageView>, b: Seq<MessageView>)
    requires
        a.len() == b.len(),
        forall|i: int| 0 <= i < a.len() ==> content_media((#[trigger] a[i]).content) == content_media(b[i].content),
    ensures
        history_media(a) == history_media(b),
    decreases a.len(),
{
    if a.len() > 0 {
        lemma_history_media_pointwise(a.drop_last(), b.drop_last());
    }
}

proof fn lemma_first_non_result_range(c: Seq<BlockView>, from: int)
    requires
        0 <= from,
    ensures
        0 <= first_non_result(c, from) <= c.len(),
    decreases c.len() - from,
{
    if from < c.len() && result_id(c[from]) is Some {
        lemma_first_non_result_range(c, from + 1);
    }
}

proof fn lemma_with_cache_edits_media(c: Seq<BlockView>, deletes: Seq<Seq<char>>)
    ensures
        content_media(with_cache_edits(c, deletes)) == content_media(c),
{
    let p = first_non_result(c, 0);
    lemma_first_non_result_range(c, 0);
    let e = seq![BlockView::CacheEdits { deletes }];
    lemma_content_media_concat(c.take(p), e);
    lemma_content_media_concat(c.take(p) + e, c.skip(p));
    lemma_content_media_concat(c.take(p), c.skip(p));
    assert(c.take(p) + c.skip(p) =~= c);
    assert(e.drop_last() =~= Seq::<BlockView>::empty());
    assert(e.last() == BlockView::CacheEdits { deletes });
    assert(content_media(e) == content_media(e.drop_last()) + block_media(e.last()));
    assert(content_media(e) == 0);
    assert(with_cache_edits(c, deletes) == c.take(p) + e + c.skip(p));
}

proof fn lemma_edits_into_media(ms: Seq<MessageView>, idx: int, e: Seq<Seq<char>>)
    ensures
        edits_into(ms, idx, e).len() == ms.len(),
        history_media(edits_into(ms, idx, e)) == history_media(ms),
{
    if e.len() > 0 && 0 <= idx < ms.len() && ms[idx].role == ClaudeRole::User {
        lemma_with_cache_edits_media(ms[idx].content, e);
        lemma_history_media_pointwise(edits_into(ms, idx, e), ms);
    }
}

proof fn lemma_apply_pins_media(ms: Seq<MessageView>, pins: Seq<(usize, Seq<Seq<char>>)>)
    ensures
        apply_pins(ms, pins).0.len() == ms.len(),
        history_media(apply_pins(ms, pins).0) == history_media(ms),
    decreases pins.len(),
{
    if pins.len() > 0 {
        lemma_apply_pins_media(ms, pins.drop_last());
        let (m1, s1) = apply_pins(ms, pins.drop_last());
        let (idx, refs) = pins.last();
        let (e, s2) = delete_edits(refs, s1);
        lemma_edits_into_media(m1, idx as int, e);
    }
}

proof fn lemma_cached_prefix_references_media(ms: Seq<MessageView>)
    ensures
        with_cached_prefix_references(ms).len() == ms.len(),
        history_media(with_cached_prefix_references(ms)) == history_media(ms),
{
    let r = with_cached_prefix_references(ms);
    assert forall|i: int| 0 <= i < r.len() implies content_media((#[trigger] r[i]).content) == content_media(
        ms[i].content,
    ) by {
        let c = ms[i].content;
        let d = c.map_values(|b: BlockView| with_cache_reference(b));
        assert forall|j: int| 0 <= j < d.len() implies block_media(#[trigger] d[j]) == block_media(c[j]) by {}
        lemma_content_media_pointwise(d, c);
    }
    lemma_history_media_pointwise(r, ms);
}

/// The cache editing policy only adds cache edits and references: the
/// history keeps its messages and its images.
pub proof fn law_cache_editing_keeps_media(
    ms: Seq<MessageView>,
    capability: ClaudeCacheEditingCapability,
    pins: Seq<(usize, Seq<Seq<char>>)>,
    new_refs: Seq<Seq<char>>,
)
    ensures
        cache_edited(ms, capability, pins, new_refs).len() == ms.len(),
        history_media(cache_edited(ms, capability, pins, new_refs)) == history_media(ms),
{
    if capability != ClaudeCacheEditingCapability::Disabled {
        lemma_apply_pins_media(ms, pins);
        let (m1, s1) = apply_pins(ms, pins);
        let (e, _s2) = delete_edits(new_refs, s1);
        let m2 = edits_into(m1, last_user_index(m1), e);
        lemma_edits_into_media(m1, last_user_index(m1), e);
        lemma_cached_prefix_references_media(m2);
    }
}

/// The conversation cache breakpoint only marks a text block: the history
/// keeps its messages and its images.
pub proof fn law_cache_breakpoint_keeps_media(ms: Seq<MessageView>, cc: Seq<char>)
    ensures
        marked_stable_prior_text(ms, cc).len() == ms.len(),
        history_media(marked_stable_prior_text(ms, cc)) == history_media(ms),
{
    if ms.len() >= 2 {
        match stable_text_target(ms, ms.len() - 2) {
            Some((i, j)) => {
                lemma_stable_text_target_range(ms, ms.len() - 2);
                let m = ms[i];
                match m.content[j] {
                    BlockView::Text { text, .. } => {
                        let c2 = m.content.update(j, BlockView::Text { text, cache_control: Some(cc) });
                        assert forall|k: int| 0 <= k < c2.len() implies block_media(#[trigger] c2[k])
                            == block_media(m.content[k]) by {}
                        lemma_content_media_pointwise(c2, m.content);
                        lemma_history_media_pointwise(marked_stable_prior_text(ms, cc), ms);
                    },
                    _ => {},
                }
            },
            None => {},
        }
    }
}

proof fn lemma_stable_text_target_range(ms: Seq<MessageView>, i: int)
    ensures
        stable_text_target(ms, i) matches Some((a, b)) ==> 0 <= a < ms.len() && 0 <= b < ms[a].content.len(),
    decreases i + 1,
{
    if 0 <= i < ms.len() && !(ms[i].role == ClaudeRole::User && last_nonblank_text(ms[i].content) >= 0) {
        lemma_stable_text_target_range(ms, i - 1);
    }
    if 0 <= i < ms.len() && ms[i].role == ClaudeRole::User && last_nonblank_text(ms[i].content) >= 0 {
        lemma_last_nonblank_text(ms[i].content);
    }
}

} // verus!
