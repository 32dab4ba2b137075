//! How earlier reasoning is sent back to a Responses API provider.
//! Providers that continue thinking from an encrypted handoff get that
//! handoff only when it is safe to replay; providers that need the raw
//! reasoning text get it, without provider-specific state.
use vstd::prelude::*;
use crate::claude_content::starts_with_chars;
use crate::claude_tool_input::opt_chars;
use crate::text::{chars_of, push_str_chars, string_from_chars};
use crate::token_budget::TokenBudget;

verus! {

/// Per-item cap on raw reasoning replayed into a request, in tokens.
pub const RAW_REASONING_REPLAY_ITEM_MAX_TOKENS: usize = 8_000;
/// Cap on the reasoning kept from the last turn when compacting, in tokens.
pub const COMPACT_RETAINED_REASONING_MAX_TOKENS: usize = 8_000;

/// How historical reasoning is replayed.
#[derive(Clone, Copy, Debug, PartialEq, Eq, Structural)]
pub enum ResponsesReasoningReplay {
    /// Omit raw content; keep the encrypted handoff only where it is safe.
    EncryptedHandoff { is_openai_provider: bool },
    /// Keep the raw reasoning text so the next turn can continue thinking.
    RawReasoningText,
}

/// Models that must see their raw reasoning again (`raw_replay_model`)
/// replay it; every other model replays the encrypted handoff.
pub fn responses_reasoning_replay(raw_replay_model: bool, is_openai_provider: bool) -> (r:
    ResponsesReasoningReplay)
    ensures
        r == if raw_replay_model {
            ResponsesReasoningReplay::RawReasoningText
        } else {
            ResponsesReasoningReplay::EncryptedHandoff { is_openai_provider }
        },
{
    if raw_replay_model {
        ResponsesReasoningReplay::RawReasoningText
    } else {
        ResponsesReasoningReplay::EncryptedHandoff { is_openai_provider }
    }
}

/// A part of a reasoning item's content.
#[derive(Debug, PartialEq)]
pub enum ReasoningContent {
    ReasoningText { text: String },
    Text { text: String },
}

/// A reasoning item of the history.
#[derive(Debug, PartialEq)]
pub struct ReasoningItem {
    pub id: Option<String>,
    pub summary: Vec<String>,
    pub content: Option<Vec<ReasoningContent>>,
    pub encrypted_content: Option<String>,
}

/// The text of a content part.
pub open spec fn part_text(p: ReasoningContent) -> Seq<char> {
    match p {
        ReasoningContent::ReasoningText { text } => text@,
        ReasoningContent::Text { text } => text@,
    }
}

pub open spec fn content_texts(c: Option<Vec<ReasoningContent>>) -> Option<Seq<Seq<char>>> {
    match c {
        Some(v) => Some(v@.map_values(|p: ReasoningContent| part_text(p))),
        None => None,
    }
}

/// The item has raw reasoning content.
pub open spec fn has_raw_content(item: ReasoningItem) -> bool {
    match item.content {
        Some(v) => v@.len() > 0,
        None => false,
    }
}

/// The encrypted handoff is dropped for items of another provider's
/// format (`foreign_item`), for raw reasoning of unknown origin (no id),
/// and for raw reasoning sent to a provider other than OpenAI.
pub open spec fn drops_handoff(item: ReasoningItem, is_openai_provider: bool, foreign_item: bool) -> bool {
    let id_empty = match item.id {
        Some(i) => i@.len() == 0,
        None => true,
    };
    foreign_item || (id_empty && has_raw_content(item)) || (!is_openai_provider && has_raw_content(item))
}

/// Prepares a reasoning item for a provider that continues from encrypted
/// handoffs: its raw content is emptied, and its handoff is dropped where
/// replaying it is unsafe (see [`drops_handoff`]). `foreign_item` tells
/// whether the item's id is in another provider's format.
pub fn strip_encrypted_handoff_reasoning(item: &mut ReasoningItem, is_openai_provider: bool, foreign_item: bool)
    ensures
        final(item).id == old(item).id,
        final(item).summary == old(item).summary,
        final(item).content matches Some(v) && v@.len() == 0,
        final(item).encrypted_content == if drops_handoff(*old(item), is_openai_provider, foreign_item) {
            None
        } else {
            old(item).encrypted_content
        },
{
    let has_raw = match &item.content {
        Some(v) => v.len() > 0,
        None => false,
    };
    let id_empty = match &item.id {
        Some(i) => i.as_str().is_empty(),
        None => true,
    };
    item.content = Some(Vec::new());
    if foreign_item || (id_empty && has_raw) || (!is_openai_provider && has_raw) {
        item.encrypted_content = None;
    }
}

/// Every part as raw reasoning text, with its text unchanged.
pub open spec fn all_reasoning_text(c: Option<Vec<ReasoningContent>>) -> bool {
    match c {
        Some(v) => forall|i: int| 0 <= i < v@.len() ==> (#[trigger] v@[i]) is ReasoningText,
        None => true,
    }
}

/// Turns legacy text parts into reasoning text parts.
pub fn normalize_raw_reasoning_content(content: &mut Option<Vec<ReasoningContent>>)
    ensures
        content_texts(*final(content)) == content_texts(*old(content)),
        all_reasoning_text(*final(content)),
{
    let taken = match content {
        Some(v) => {
            let mut w: Vec<ReasoningContent> = Vec::new();
            std::mem::swap(&mut w, v);
            Some(w)
        },
        None => None,
    };
    match taken {
        None => {},
        Some(parts) => {
            let ghost pt = parts@.map_values(|p: ReasoningContent| part_text(p));
            let n = parts.len();
            let mut rest = parts;
            let mut rev: Vec<ReasoningContent> = Vec::new();
            while rest.len() > 0
                invariant
                    rest@.len() + rev@.len() == pt.len(),
                    pt.len() == n,
                    forall|j: int| 0 <= j < rest@.len() ==> part_text(#[trigger] rest@[j]) == pt[j],
                    forall|j: int| 0 <= j < rev@.len() ==> part_text(#[trigger] rev@[j]) == pt[pt.len() - 1 - j],
                decreases rest.len(),
            {
                let x = rest.pop().unwrap();
                rev.push(x);
            }
            let mut out: Vec<ReasoningContent> = Vec::new();
            let mut k: usize = 0;
            while rev.len() > 0
                invariant
                    k + rev@.len() == pt.len(),
                    pt.len() == n,
                    forall|j: int| 0 <= j < rev@.len() ==> part_text(#[trigger] rev@[j]) == pt[pt.len() - 1 - j],
                    out@.map_values(|p: ReasoningContent| part_text(p)) == pt.take(k as int),
                    forall|j: int| 0 <= j < out@.len() ==> (#[trigger] out@[j]) is ReasoningText,
                decreases rev.len(),
            {
                let x = rev.pop().unwrap();
                let y = match x {
                    ReasoningContent::ReasoningText { text } => ReasoningContent::ReasoningText { text },
                    ReasoningContent::Text { text } => ReasoningContent::ReasoningText { text },
                };
                let ghost prev = out@;
                out.push(y);
                proof {
                    assert(out@.map_values(|p: ReasoningContent| part_text(p)) =~= prev.map_values(
                        |p: ReasoningContent| part_text(p),
                    ).push(part_text(y)));
                    assert(pt.take(k + 1) =~= pt.take(k as int).push(pt[k as int]));
                }
                k += 1;
            }
            assert(pt.take(n as int) =~= pt);
            *content = Some(out);
        },
    }
}

/// Drops what another provider cannot use: the id, the summary and the
/// encrypted handoff.
pub fn clear_provider_state(item: &mut ReasoningItem)
    ensures
        final(item).id is None,
        final(item).summary@.len() == 0,
        final(item).encrypted_content is None,
        final(item).content == old(item).content,
{
    item.id = None;
    item.summary = Vec::new();
    item.encrypted_content = None;
}

/// What the raw replay of one item does with its content, given its token
/// count: empty content is sent as an empty list; content over the item
/// cap keeps only its newest reasoning, cut to the cap.
#[derive(Clone, Copy, Debug, PartialEq, Eq, Structural)]
pub enum RawContentStep {
    SendEmpty,
    SendAsIs,
    KeepNewestWithin { budget: usize },
}

pub fn raw_content_step(tokens: usize) -> (r: RawContentStep)
    ensures
        r == if tokens == 0 {
            RawContentStep::SendEmpty
        } else if tokens > RAW_REASONING_REPLAY_ITEM_MAX_TOKENS {
            RawContentStep::KeepNewestWithin { budget: RAW_REASONING_REPLAY_ITEM_MAX_TOKENS }
        } else {
            RawContentStep::SendAsIs
        },
{
    if tokens == 0 {
        RawContentStep::SendEmpty
    } else if tokens > RAW_REASONING_REPLAY_ITEM_MAX_TOKENS {
        RawContentStep::KeepNewestWithin { budget: RAW_REASONING_REPLAY_ITEM_MAX_TOKENS }
    } else {
        RawContentStep::SendAsIs
    }
}

/// What keeping the newest reasoning within a budget does with one part,
/// walking from the newest part back.
#[derive(Clone, Copy, Debug, PartialEq, Eq, Structural)]
pub enum RetainStep {
    /// The budget is spent: the part's text is cleared.
    Clear,
    /// The part fits and is kept whole.
    Keep,
    /// The part does not fit and is cut to the remaining budget.
    TruncateTo { budget: usize },
}

/// The step for a part of `tokens` tokens with `remaining` left of the
/// budget, and what is left after it (for a cut part, the caller subtracts
/// the tokens of the cut text with [`remaining_after_truncation`]).
pub fn retain_step(remaining: usize, tokens: usize) -> (r: (RetainStep, usize))
    ensures
        remaining == 0 ==> r == (RetainStep::Clear, 0usize),
        remaining > 0 && tokens <= remaining ==> r == (RetainStep::Keep, (remaining - tokens) as usize),
        remaining > 0 && tokens > remaining ==> r == (RetainStep::TruncateTo { budget: remaining }, remaining),
{
    if remaining == 0 {
        (RetainStep::Clear, 0)
    } else if tokens <= remaining {
        (RetainStep::Keep, remaining - tokens)
    } else {
        (RetainStep::TruncateTo { budget: remaining }, remaining)
    }
}

/// What is left of the budget after a part was cut to a text of
/// `truncated_tokens` tokens.
pub fn remaining_after_truncation(remaining: usize, truncated_tokens: usize) -> (r: usize)
    ensures
        r == if truncated_tokens >= remaining { 0 } else { remaining - truncated_tokens },
{
    remaining.saturating_sub(truncated_tokens)
}

/// The texts of `parts` that are not empty, in order.
pub open spec fn nonempty_texts(texts: Seq<Seq<char>>) -> Seq<Seq<char>>
    decreases texts.len(),
{
    if texts.len() == 0 {
        texts
    } else if texts.last().len() > 0 {
        nonempty_texts(texts.drop_last()).push(texts.last())
    } else {
        nonempty_texts(texts.drop_last())
    }
}

/// Drops the parts whose text is empty, keeping the others in order.
pub fn drop_empty_parts(content: &mut Option<Vec<ReasoningContent>>)
    ensures
        content_texts(*final(content)) == match content_texts(*old(content)) {
            Some(t) => Some(nonempty_texts(t)),
            None => None,
        },
        all_reasoning_text(*old(content)) ==> all_reasoning_text(*final(content)),
{
    let taken = match content {
        Some(v) => {
            let mut w: Vec<ReasoningContent> = Vec::new();
            std::mem::swap(&mut w, v);
            Some(w)
        },
        None => None,
    };
    match taken {
        None => {},
        Some(parts) => {
            let ghost pt = parts@.map_values(|p: ReasoningContent| part_text(p));
            let ghost all_text = forall|j: int| 0 <= j < parts@.len() ==> (#[trigger] parts@[j]) is ReasoningText;
            let n = parts.len();
            let mut rest = parts;
            let mut rev: Vec<ReasoningContent> = Vec::new();
            while rest.len() > 0
                invariant
                    rest@.len() + rev@.len() == pt.len(),
                    pt.len() == n,
                    forall|j: int| 0 <= j < rest@.len() ==> part_text(#[trigger] rest@[j]) == pt[j],
                    forall|j: int| 0 <= j < rev@.len() ==> part_text(#[trigger] rev@[j]) == pt[pt.len() - 1 - j],
                    all_text ==> forall|j: int| 0 <= j < rest@.len() ==> (#[trigger] rest@[j]) is ReasoningText,
                    all_text ==> forall|j: int| 0 <= j < rev@.len() ==> (#[trigger] rev@[j]) is ReasoningText,
                decreases rest.len(),
            {
                let x = rest.pop().unwrap();
                rev.push(x);
            }
            let mut out: Vec<ReasoningContent> = Vec::new();
            let mut k: usize = 0;
            while rev.len() > 0
                invariant
                    k + rev@.len() == pt.len(),
                    pt.len() == n,
                    forall|j: int| 0 <= j < rev@.len() ==> part_text(#[trigger] rev@[j]) == pt[pt.len() - 1 - j],
                    out@.map_values(|p: ReasoningContent| part_text(p)) == nonempty_texts(pt.take(k as int)),
                    all_text ==> forall|j: int| 0 <= j < rev@.len() ==> (#[trigger] rev@[j]) is ReasoningText,
                    all_text ==> forall|j: int| 0 <= j < out@.len() ==> (#[trigger] out@[j]) is ReasoningText,
                decreases rev.len(),
            {
                let x = rev.pop().unwrap();
                proof {
                    assert(pt.take(k + 1).drop_last() =~= pt.take(k as int));
                    assert(pt.take(k + 1).last() == pt[k as int]);
                }
                let empty = match &x {
                    ReasoningContent::ReasoningText { text } => text.as_str().is_empty(),
                    ReasoningContent::Text { text } => text.as_str().is_empty(),
                };
                if !empty {
                    let ghost prev = out@;
                    out.push(x);
                    proof {
                        assert(out@.map_values(|p: ReasoningContent| part_text(p)) =~= prev.map_values(
                            |p: ReasoningContent| part_text(p),
                        ).push(part_text(x)));
                    }
                }
                k += 1;
            }
            assert(pt.take(n as int) =~= pt);
            *content = Some(out);
        },
    }
}

/// One step of keeping the newest reasoning within a budget, on a part of
/// text `t` reached with `before` tokens left: `out` is the part's new text,
/// `used` the tokens it takes and `after` what is left. With nothing left
/// the text is cleared; a text that fits is kept whole; a longer one is cut
/// to what is left.
pub open spec fn retain_step_holds<C: Fn(&str) -> usize, T: Fn(&str, usize) -> String>(
    budget: &TokenBudget<C, T>,
    t: Seq<char>,
    before: usize,
    out: Seq<char>,
    used: usize,
    after: usize,
) -> bool {
    if before == 0 {
        out.len() == 0 && used == 0 && after == 0
    } else {
        exists|n: usize|
            #[trigger] budget.counts(t, n) && if n <= before {
                out == t && used == n && after == before - n
            } else {
                &&& exists|x: &str, o: String| x@ == t && o@ == out && #[trigger] budget.cut.ensures((x, before), o)
                &&& budget.counts(out, used)
                &&& used <= before
                &&& after == before - used
            }
    }
}

/// Keeping the newest of the parts `texts` within the budget, walking from
/// the newest part back, gives the texts `kept`: part `i` is reached with
/// `left[i + 1]` tokens left, takes `used[i]` of them, and leaves `left[i]`.
pub open spec fn retention_trace<C: Fn(&str) -> usize, T: Fn(&str, usize) -> String>(
    budget: &TokenBudget<C, T>,
    texts: Seq<Seq<char>>,
    kept: Seq<Seq<char>>,
    used: Seq<usize>,
    left: Seq<usize>,
) -> bool {
    &&& kept.len() == texts.len()
    &&& used.len() == texts.len()
    &&& left.len() == texts.len() + 1
    &&& left[texts.len() as int] == budget.max_tokens
    &&& forall|i: int|
        0 <= i < texts.len() ==> #[trigger] retain_step_holds(
            budget,
            texts[i],
            left[i + 1],
            kept[i],
            used[i],
            left[i],
        )
}

/// The sum of `s`.
pub open spec fn total_used(s: Seq<usize>) -> nat
    decreases s.len(),
{
    if s.len() == 0 {
        0
    } else {
        s[0] as nat + total_used(s.drop_first())
    }
}

/// One part kept within what is left of the budget.
fn retain_part<C: Fn(&str) -> usize, T: Fn(&str, usize) -> String>(
    budget: &TokenBudget<C, T>,
    text: &str,
    remaining: usize,
) -> (r: (String, usize, usize))
    requires
        budget.wf(),
    ensures
        retain_step_holds(budget, text@, remaining, r.0@, r.1, r.2),
{
    if remaining == 0 {
        return (String::new(), 0, 0);
    }
    let tokens = (budget.count_tokens)(text);
    proof {
        assert(budget.counts(text@, tokens));
    }
    match retain_step(remaining, tokens) {
        (RetainStep::Keep, after) => (text.to_string(), tokens, after),
        (_, _) => {
            let cut = (budget.cut)(text, remaining);
            let used = (budget.count_tokens)(cut.as_str());
            proof {
                assert(budget.counts(cut@, used));
                assert(budget.cut.ensures((text, remaining), cut));
            }
            let after = remaining_after_truncation(remaining, used);
            (cut, used, after)
        },
    }
}

/// Keeps the newest raw reasoning within the budget: walking from the
/// newest part back, parts are kept whole while they fit, the first that
/// does not is cut to what is left, and the older ones are cleared; parts
/// left empty are dropped. Returns what is left of the budget.
pub fn retain_newest_raw_reasoning_content<C: Fn(&str) -> usize, T: Fn(&str, usize) -> String>(
    content: &mut Option<Vec<ReasoningContent>>,
    budget: &TokenBudget<C, T>,
) -> (r: usize)
    requires
        budget.wf(),
    ensures
        match content_texts(*old(content)) {
            None => content_texts(*final(content)) is None && r == budget.max_tokens,
            Some(t) => exists|kept: Seq<Seq<char>>, used: Seq<usize>, left: Seq<usize>|
                #[trigger] retention_trace(budget, t, kept, used, left) && content_texts(*final(content))
                    == Some(nonempty_texts(kept)) && r == left[0],
        },
        all_reasoning_text(*old(content)) ==> all_reasoning_text(*final(content)),
{
    let taken = match content {
        Some(v) => {
            let mut w: Vec<ReasoningContent> = Vec::new();
            std::mem::swap(&mut w, v);
            Some(w)
        },
        None => None,
    };
    let mut parts = match taken {
        None => {
            return budget.max_tokens;
        },
        Some(parts) => parts,
    };
    let ghost texts = parts@.map_values(|p: ReasoningContent| part_text(p));
    let ghost all_text = all_reasoning_text(Some(parts));
    let n = parts.len();
    let mut remaining = budget.max_tokens;
    let ghost mut used_g: Seq<usize> = Seq::new(n as nat, |j: int| 0usize);
    let ghost mut left_g: Seq<usize> = Seq::new((n + 1) as nat, |j: int| budget.max_tokens);
    let mut i = n;
    while i > 0
        invariant
            i <= n,
            n == parts@.len(),
            texts.len() == n,
            budget.wf(),
            used_g.len() == n,
            left_g.len() == n + 1,
            left_g[n as int] == budget.max_tokens,
            left_g[i as int] == remaining,
            forall|j: int| 0 <= j < i ==> part_text(#[trigger] parts@[j]) == texts[j],
            forall|j: int|
                i <= j < n ==> #[trigger] retain_step_holds(
                    budget,
                    texts[j],
                    left_g[j + 1],
                    part_text(parts@[j]),
                    used_g[j],
                    left_g[j],
                ),
            all_text ==> all_reasoning_text(Some(parts)),
        decreases i,
    {
        i -= 1;
        let (new_text, used, after) = match &parts[i] {
            ReasoningContent::ReasoningText { text } => retain_part(budget, text.as_str(), remaining),
            ReasoningContent::Text { text } => retain_part(budget, text.as_str(), remaining),
        };
        let part = match &parts[i] {
            ReasoningContent::ReasoningText { .. } => ReasoningContent::ReasoningText { text: new_text },
            ReasoningContent::Text { .. } => ReasoningContent::Text { text: new_text },
        };
        parts.set(i, part);
        proof {
            used_g = used_g.update(i as int, used);
            left_g = left_g.update(i as int, after);
        }
        remaining = after;
    }
    let ghost kept = parts@.map_values(|p: ReasoningContent| part_text(p));
    proof {
        assert forall|j: int| 0 <= j < n implies #[trigger] retain_step_holds(
            budget,
            texts[j],
            left_g[j + 1],
            kept[j],
            used_g[j],
            left_g[j],
        ) by {
            assert(kept[j] == part_text(parts@[j]));
        }
        assert(retention_trace(budget, texts, kept, used_g, left_g));
    }
    let mut out = Some(parts);
    drop_empty_parts(&mut out);
    *content = out;
    assert(content_texts(*old(content)) == Some(texts));
    assert(retention_trace(budget, content_texts(*old(content))->0, kept, used_g, left_g));
    remaining
}

/// `ns` holds a token count for each of `texts`.
pub open spec fn counts_each<C: Fn(&str) -> usize, T: Fn(&str, usize) -> String>(
    budget: &TokenBudget<C, T>,
    texts: Seq<Seq<char>>,
    ns: Seq<usize>,
) -> bool {
    &&& ns.len() == texts.len()
    &&& forall|i: int| 0 <= i < texts.len() ==> #[trigger] budget.counts(texts[i], ns[i])
}

/// `n`, or `usize::MAX` when it is larger.
pub open spec fn saturated(n: nat) -> usize {
    if n > usize::MAX {
        usize::MAX
    } else {
        n as usize
    }
}

/// The texts of a content, none when there is no content.
pub open spec fn texts_or_empty(c: Option<Vec<ReasoningContent>>) -> Seq<Seq<char>> {
    match content_texts(c) {
        Some(t) => t,
        None => Seq::empty(),
    }
}

/// The tokens of all parts of `content`, added up (saturating, so the
/// comparisons made with it are those of the exact sum).
pub fn raw_reasoning_content_tokens<C: Fn(&str) -> usize, T: Fn(&str, usize) -> String>(
    content: &Option<Vec<ReasoningContent>>,
    budget: &TokenBudget<C, T>,
) -> (r: usize)
    requires
        budget.wf(),
    ensures
        exists|ns: Seq<usize>| #[trigger] counts_each(budget, texts_or_empty(*content), ns) && r == saturated(
            total_used(ns),
        ),
{
    let ghost texts = texts_or_empty(*content);
    let parts = match content {
        Some(v) => v,
        None => {
            assert(counts_each(budget, texts, Seq::<usize>::empty()));
            return 0;
        },
    };
    let n = parts.len();
    let ghost mut ns: Seq<usize> = Seq::new(n as nat, |j: int| 0usize);
    let mut total: usize = 0;
    let mut i = n;
    while i > 0
        invariant
            i <= n,
            n == parts@.len(),
            texts == parts@.map_values(|p: ReasoningContent| part_text(p)),
            budget.wf(),
            ns.len() == n,
            forall|j: int| i <= j < n ==> #[trigger] budget.counts(texts[j], ns[j]),
            total == saturated(total_used(ns.subrange(i as int, n as int))),
        decreases i,
    {
        i -= 1;
        let c = match &parts[i] {
            ReasoningContent::ReasoningText { text } => (budget.count_tokens)(text.as_str()),
            ReasoningContent::Text { text } => (budget.count_tokens)(text.as_str()),
        };
        proof {
            assert(budget.counts(texts[i as int], c));
            let old_ns = ns;
            ns = ns.update(i as int, c);
            assert(ns.subrange(i as int, n as int).drop_first() =~= old_ns.subrange(i + 1, n as int));
        }
        total = total.saturating_add(c);
    }
    assert(ns.subrange(0, n as int) =~= ns);
    assert(counts_each(budget, texts, ns));
    total
}

/// Prepares one reasoning item for a provider that replays raw reasoning:
/// its id, summary and encrypted handoff are dropped, legacy text parts
/// become reasoning text, content of no tokens (or none at all) is sent as
/// an empty list, and content over the per-item cap keeps only its newest
/// reasoning within the cap.
pub fn sanitize_raw_reasoning_item<C: Fn(&str) -> usize, T: Fn(&str, usize) -> String>(
    item: &mut ReasoningItem,
    budget: &TokenBudget<C, T>,
)
    requires
        budget.wf(),
        budget.max_tokens == RAW_REASONING_REPLAY_ITEM_MAX_TOKENS,
    ensures
        final(item).id is None,
        final(item).summary@.len() == 0,
        final(item).encrypted_content is None,
        all_reasoning_text(final(item).content),
        exists|ns: Seq<usize>|
            #[trigger] counts_each(budget, texts_or_empty(old(item).content), ns) && {
                let total = total_used(ns);
                &&& total == 0 ==> (final(item).content matches Some(v) && v@.len() == 0)
                &&& 0 < total <= budget.max_tokens ==> content_texts(final(item).content) == content_texts(
                    old(item).content,
                )
                &&& total > budget.max_tokens ==> exists|
                    kept: Seq<Seq<char>>,
                    used: Seq<usize>,
                    left: Seq<usize>,
                |
                    #[trigger] retention_trace(budget, texts_or_empty(old(item).content), kept, used, left)
                        && content_texts(final(item).content) == Some(nonempty_texts(kept))
            },
{
    clear_provider_state(item);
    normalize_raw_reasoning_content(&mut item.content);
    let tokens = raw_reasoning_content_tokens(&item.content, budget);
    let ghost ns = choose|ns: Seq<usize>| #[trigger] counts_each(budget, texts_or_empty(item.content), ns) && tokens == saturated(total_used(ns));
    assert(texts_or_empty(item.content) == texts_or_empty(old(item).content));
    match raw_content_step(tokens) {
        RawContentStep::SendEmpty => {
            item.content = Some(Vec::new());
        },
        RawContentStep::SendAsIs => {},
        RawContentStep::KeepNewestWithin { .. } => {
            let ghost before = item.content;
            retain_newest_raw_reasoning_content(&mut item.content, budget);
            proof {
                if before is None {
                    assert(texts_or_empty(before) =~= Seq::<Seq<char>>::empty());
                    assert(counts_each(budget, Seq::<Seq<char>>::empty(), ns));
                }
                assert(content_texts(before)->0 == texts_or_empty(old(item).content));
            }
        },
    }
    assert(counts_each(budget, texts_or_empty(old(item).content), ns));
}

/// The last-turn item that did not fit when compacting
/// ([`select_last_turn_reasoning`]'s second result), cut to the compaction
/// budget: its newest reasoning is kept within the budget, and the item is
/// kept only when that used some of it.
pub fn cut_last_turn_reasoning<C: Fn(&str) -> usize, T: Fn(&str, usize) -> String>(
    content: &mut Option<Vec<ReasoningContent>>,
    budget: &TokenBudget<C, T>,
) -> (keep: bool)
    requires
        budget.wf(),
        budget.max_tokens == COMPACT_RETAINED_REASONING_MAX_TOKENS,
    ensures
        match content_texts(*old(content)) {
            None => content_texts(*final(content)) is None && !keep,
            Some(t) => exists|kept: Seq<Seq<char>>, used: Seq<usize>, left: Seq<usize>|
                #[trigger] retention_trace(budget, t, kept, used, left) && content_texts(*final(content))
                    == Some(nonempty_texts(kept)) && keep == (left[0] < budget.max_tokens),
        },
        all_reasoning_text(*old(content)) ==> all_reasoning_text(*final(content)),
{
    let left = retain_newest_raw_reasoning_content(content, budget);
    left < COMPACT_RETAINED_REASONING_MAX_TOKENS
}

/// Keeping the newest reasoning spends the budget exactly: the tokens of the
/// parts kept and what is left add up to the budget. A part that is cleared
/// uses nothing, and one that is kept or cut uses its text's count.
pub proof fn law_retained_reasoning_within_budget<C: Fn(&str) -> usize, T: Fn(&str, usize) -> String>(
    budget: &TokenBudget<C, T>,
    texts: Seq<Seq<char>>,
    kept: Seq<Seq<char>>,
    used: Seq<usize>,
    left: Seq<usize>,
)
    requires
        retention_trace(budget, texts, kept, used, left),
    ensures
        total_used(used) + left[0] == budget.max_tokens,
        forall|i: int| 0 <= i < texts.len() && kept[i].len() > 0 ==> budget.counts(kept[i], #[trigger] used[i]),
{
    lemma_retained_suffix(budget, texts, kept, used, left, 0);
    assert(used.subrange(0, used.len() as int) =~= used);
    assert forall|i: int| 0 <= i < texts.len() && kept[i].len() > 0 implies budget.counts(kept[i], #[trigger] used[i]) by {
        assert(retain_step_holds(budget, texts[i], left[i + 1], kept[i], used[i], left[i]));
    }
}

proof fn lemma_retained_suffix<C: Fn(&str) -> usize, T: Fn(&str, usize) -> String>(
    budget: &TokenBudget<C, T>,
    texts: Seq<Seq<char>>,
    kept: Seq<Seq<char>>,
    used: Seq<usize>,
    left: Seq<usize>,
    i: int,
)
    requires
        retention_trace(budget, texts, kept, used, left),
        0 <= i <= texts.len(),
    ensures
        total_used(used.subrange(i, used.len() as int)) + left[i] == budget.max_tokens,
    decreases texts.len() - i,
{
    if i < texts.len() {
        lemma_retained_suffix(budget, texts, kept, used, left, i + 1);
        assert(retain_step_holds(budget, texts[i], left[i + 1], kept[i], used[i], left[i]));
        let s = used.subrange(i, used.len() as int);
        assert(s.drop_first() =~= used.subrange(i + 1, used.len() as int));
    } else {
        assert(used.subrange(i, used.len() as int) =~= Seq::<usize>::empty());
    }
}

/// The reasoning kept from the last turn when compacting, read from the
/// newest item back: items of no tokens are skipped; items are taken while
/// they fit in what is left of the budget; the first item that does not fit
/// ends the walk, and is kept cut to the budget when nothing was taken yet
/// (`cut`); an exhausted budget ends the walk.
pub open spec fn select_from(tokens: Seq<Option<usize>>, remaining: nat, taken: Seq<int>) -> (Seq<int>, Option<int>)
    decreases tokens.len(),
{
    if tokens.len() == 0 {
        (taken, None)
    } else {
        let i = tokens.len() - 1;
        match tokens[i] {
            None => select_from(tokens.drop_last(), remaining, taken),
            Some(t) => if t == 0 {
                select_from(tokens.drop_last(), remaining, taken)
            } else if t > remaining {
                if taken.len() == 0 {
                    (taken, Some(i))
                } else {
                    (taken, None)
                }
            } else if t == remaining {
                (taken.push(i), None)
            } else {
                select_from(tokens.drop_last(), (remaining - t) as nat, taken.push(i))
            },
        }
    }
}

/// Which items of the last turn keep their reasoning: `tokens[i]` is the
/// raw reasoning token count of item `i` after the last real user message,
/// or `None` for an item that is no reasoning. The result lists the kept
/// items newest first, and the item to keep cut to the budget, if any.
pub fn select_last_turn_reasoning(tokens: &Vec<Option<usize>>) -> (r: (Vec<usize>, Option<usize>))
    ensures
        r.0@.map_values(|i: usize| i as int) == select_from(tokens@, COMPACT_RETAINED_REASONING_MAX_TOKENS as nat, Seq::empty()).0,
        match (r.1, select_from(tokens@, COMPACT_RETAINED_REASONING_MAX_TOKENS as nat, Seq::empty()).1) {
            (Some(a), Some(b)) => a as int == b,
            (None, None) => true,
            _ => false,
        },
{
    let mut taken: Vec<usize> = Vec::new();
    let mut remaining: usize = COMPACT_RETAINED_REASONING_MAX_TOKENS;
    let mut k = tokens.len();
    let ghost goal = select_from(tokens@, COMPACT_RETAINED_REASONING_MAX_TOKENS as nat, Seq::empty());
    assert(tokens@.take(k as int) =~= tokens@);
    assert(taken@.map_values(|i: usize| i as int) =~= Seq::<int>::empty());
    while k > 0
        invariant
            k <= tokens@.len(),
            remaining > 0,
            goal == select_from(tokens@, COMPACT_RETAINED_REASONING_MAX_TOKENS as nat, Seq::empty()),
            goal == select_from(tokens@.take(k as int), remaining as nat, taken@.map_values(|i: usize| i as int)),
        decreases k,
    {
        let i = k - 1;
        let ghost before = tokens@.take(k as int);
        proof {
            assert(before.drop_last() =~= tokens@.take(i as int));
            assert(before[before.len() - 1] == tokens@[i as int]);
        }
        match tokens[i] {
            None => {},
            Some(t) => {
                if t == 0 {
                } else if t > remaining {
                    if taken.len() == 0 {
                        return (taken, Some(i));
                    } else {
                        return (taken, None);
                    }
                } else if t == remaining {
                    let ghost prev = taken@;
                    taken.push(i);
                    proof {
                        assert(taken@.map_values(|x: usize| x as int) =~= prev.map_values(|x: usize| x as int).push(i as int));
                    }
                    return (taken, None);
                } else {
                    let ghost prev = taken@;
                    taken.push(i);
                    remaining = remaining - t;
                    proof {
                        assert(taken@.map_values(|x: usize| x as int) =~= prev.map_values(|x: usize| x as int).push(i as int));
                    }
                }
            },
        }
        k = i;
    }
    (taken, None)
}


/// The token counts of the items at `idx`, added up.
pub open spec fn picked_sum(tokens: Seq<Option<usize>>, idx: Seq<int>) -> int
    decreases idx.len(),
{
    if idx.len() == 0 {
        0
    } else {
        picked_sum(tokens, idx.drop_last()) + token_count(tokens, idx.last())
    }
}

/// The token count of item `i`.
pub open spec fn token_count(tokens: Seq<Option<usize>>, i: int) -> int {
    match tokens[i] {
        Some(t) => t as int,
        None => 0,
    }
}

/// Each index lies before the one in front of it.
pub open spec fn newest_first(idx: Seq<int>) -> bool {
    forall|a: int, b: int| 0 <= a < b < idx.len() ==> idx[a] > idx[b]
}

proof fn lemma_select_from(all: Seq<Option<usize>>, n: int, remaining: nat, taken: Seq<int>)
    requires
        0 <= n <= all.len(),
        newest_first(taken),
        forall|x: int| 0 <= x < taken.len() ==> #[trigger] taken[x] >= n,
    ensures
        ({
            let sel = select_from(all.take(n), remaining, taken).0;
            let extra = sel.skip(taken.len() as int);
            &&& sel.len() >= taken.len()
            &&& sel.take(taken.len() as int) == taken
            &&& picked_sum(all, extra) <= remaining
            &&& newest_first(sel)
            &&& forall|x: int| 0 <= x < extra.len() ==> 0 <= #[trigger] extra[x] < n
        }),
    decreases n,
{
    let tk = all.take(n);
    assert(picked_sum(all, Seq::<int>::empty()) == 0);
    if n == 0 {
        assert(taken.skip(taken.len() as int) =~= Seq::<int>::empty());
        assert(taken.take(taken.len() as int) =~= taken);
    } else {
        let i = n - 1;
        assert(tk.drop_last() =~= all.take(n - 1));
        assert(tk[tk.len() - 1] == all[i]);
        match all[i] {
            None => {
                lemma_select_from(all, n - 1, remaining, taken);
                assert(select_from(tk, remaining, taken) == select_from(all.take(n - 1), remaining, taken));
            },
            Some(t) => {
                if t == 0 {
                    lemma_select_from(all, n - 1, remaining, taken);
                    assert(select_from(tk, remaining, taken) == select_from(all.take(n - 1), remaining, taken));
                } else if t > remaining {
                    assert(taken.skip(taken.len() as int) =~= Seq::<int>::empty());
                    assert(taken.take(taken.len() as int) =~= taken);
                } else {
                    let t2 = taken.push(i);
                    assert(newest_first(t2));
                    assert(token_count(all, i) == t as int);
                    if t == remaining {
                        assert(t2.skip(taken.len() as int) =~= seq![i]);
                        assert(t2.take(taken.len() as int) =~= taken);
                        assert(seq![i].drop_last() =~= Seq::<int>::empty());
                        assert(seq![i].last() == i);
                        assert(picked_sum(all, seq![i]) == t as int);
                    } else {
                        lemma_select_from(all, n - 1, (remaining - t) as nat, t2);
                        let sel = select_from(all.take(n - 1), (remaining - t) as nat, t2).0;
                        let extra2 = sel.skip(t2.len() as int);
                        let extra = sel.skip(taken.len() as int);
                        assert(sel.len() >= t2.len());
                        assert(sel[taken.len() as int] == i) by {
                            assert(sel.take(t2.len() as int)[taken.len() as int] == t2[taken.len() as int]);
                        }
                        assert(extra =~= seq![i] + extra2) by {
                            assert forall|x: int| 0 <= x < extra.len() implies extra[x] == (seq![i] + extra2)[x] by {
                                if x > 0 {
                                    assert(extra[x] == sel[taken.len() + x]);
                                    assert(extra2[x - 1] == sel[t2.len() + x - 1]);
                                }
                            }
                        }
                        assert(sel.take(taken.len() as int) =~= taken) by {
                            assert(sel.take(t2.len() as int) == t2);
                        }
                        lemma_picked_sum_prepend(all, i, extra2);
                    }
                }
            },
        }
    }
}

proof fn lemma_picked_sum_prepend(tokens: Seq<Option<usize>>, i: int, rest: Seq<int>)
    ensures
        picked_sum(tokens, seq![i] + rest) == picked_sum(tokens, rest) + token_count(tokens, i),
    decreases rest.len(),
{
    if rest.len() == 0 {
        assert(seq![i] + rest =~= seq![i]);
        assert(seq![i].drop_last() =~= Seq::<int>::empty());
        assert(seq![i].last() == i);
        assert(picked_sum(tokens, seq![i]) == picked_sum(tokens, Seq::<int>::empty()) + token_count(tokens, i));
        assert(picked_sum(tokens, Seq::<int>::empty()) == 0);
    } else {
        lemma_picked_sum_prepend(tokens, i, rest.drop_last());
        assert((seq![i] + rest).drop_last() =~= seq![i] + rest.drop_last());
        assert((seq![i] + rest).last() == rest.last());
    }
}

/// The reasoning kept from the last turn never exceeds the budget, and is
/// taken newest first.
pub proof fn law_kept_reasoning_fits_the_budget(tokens: Seq<Option<usize>>)
    ensures
        picked_sum(tokens, select_from(tokens, COMPACT_RETAINED_REASONING_MAX_TOKENS as nat, Seq::empty()).0)
            <= COMPACT_RETAINED_REASONING_MAX_TOKENS,
        newest_first(select_from(tokens, COMPACT_RETAINED_REASONING_MAX_TOKENS as nat, Seq::empty()).0),
{
    lemma_select_from(tokens, tokens.len() as int, COMPACT_RETAINED_REASONING_MAX_TOKENS as nat, Seq::empty());
    assert(tokens.take(tokens.len() as int) =~= tokens);
    let sel = select_from(tokens, COMPACT_RETAINED_REASONING_MAX_TOKENS as nat, Seq::empty()).0;
    assert(sel.skip(0) =~= sel);
}


/// A user message that starts a real turn: one that is no compaction
/// summary (whose text begins with `summary_prefix` and a line feed).
pub open spec fn real_user_message(m: Option<Seq<char>>, summary_prefix: Seq<char>) -> bool {
    match m {
        Some(t) => {
            let p = summary_prefix + "\n"@;
            !(t.len() >= p.len() && t.take(p.len() as int) == p)
        },
        None => false,
    }
}

/// The index of the last real user message.
pub open spec fn last_real_user(ms: Seq<Option<Seq<char>>>, summary_prefix: Seq<char>) -> Option<int>
    decreases ms.len(),
{
    if ms.len() == 0 {
        None
    } else if real_user_message(ms.last(), summary_prefix) {
        Some(ms.len() - 1)
    } else {
        last_real_user(ms.drop_last(), summary_prefix)
    }
}

/// Where the last turn starts: the index of the last user message that is
/// no compaction summary. `user_texts[i]` is the text of item `i` when it
/// is a user message, `None` otherwise.
pub fn last_real_user_index(user_texts: &Vec<Option<String>>, summary_prefix: &str) -> (r: Option<usize>)
    ensures
        match last_real_user(user_texts@.map_values(|o: Option<String>| opt_chars(o)), summary_prefix@) {
            Some(i) => r == Some(i as usize),
            None => r is None,
        },
{
    let ghost ms = user_texts@.map_values(|o: Option<String>| opt_chars(o));
    let mut prefix = chars_of(summary_prefix);
    push_str_chars(&mut prefix, "\n");
    let mut k: usize = user_texts.len();
    assert(ms.take(k as int) =~= ms);
    while k > 0
        invariant
            k <= user_texts@.len(),
            ms == user_texts@.map_values(|o: Option<String>| opt_chars(o)),
            prefix@ == summary_prefix@ + "\n"@,
            last_real_user(ms, summary_prefix@) == last_real_user(ms.take(k as int), summary_prefix@),
        decreases k,
    {
        let i = k - 1;
        proof {
            assert(ms.take(k as int).drop_last() =~= ms.take(i as int));
            assert(ms.take(k as int).last() == ms[i as int]);
        }
        match &user_texts[i] {
            Some(t) => {
                let v = chars_of(t.as_str());
                let p = string_from_chars(prefix.as_slice());
                if !starts_with_chars(&v, p.as_str()) {
                    return Some(i);
                }
            },
            None => {},
        }
        k = i;
    }
    None
}

} // verus!
