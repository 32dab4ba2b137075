//! Message content turned into Messages API content blocks.
use vstd::prelude::*;
use crate::claude_history::{
    blank, blocks_view, text_block, trim, trim_chars, BlockView, ClaudeBlock, ImageSource,
    ImageView,
};
use crate::claude_provider::{eq_ignore_ascii_case, eq_ignore_ascii_case_exec};
use crate::text::{chars_of, push_all, push_str_chars, str_eq, string_from_chars};

verus! {

/// Index of the first `c` in `s` at or after `from` (the length when none).
pub open spec fn index_of_char(s: Seq<char>, c: char, from: int) -> int
    decreases s.len() - from,
{
    if from < 0 || from >= s.len() {
        s.len() as int
    } else if s[from] == c {
        from
    } else {
        index_of_char(s, c, from + 1)
    }
}

pub proof fn lemma_index_of_char(s: Seq<char>, c: char, from: int)
    requires
        0 <= from <= s.len(),
    ensures
        from <= index_of_char(s, c, from) <= s.len(),
        index_of_char(s, c, from) < s.len() ==> s[index_of_char(s, c, from)] == c,
        forall|j: int| from <= j < index_of_char(s, c, from) ==> s[j] != c,
    decreases s.len() - from,
{
    if from < s.len() && s[from] != c {
        lemma_index_of_char(s, c, from + 1);
    }
}

proof fn lemma_index_of_char_is(s: Seq<char>, c: char, from: int, i: int)
    requires
        0 <= from <= i <= s.len(),
        forall|j: int| from <= j < i ==> s[j] != c,
        i == s.len() || s[i] == c,
    ensures
        index_of_char(s, c, from) == i,
    decreases i - from,
{
    if from < i {
        lemma_index_of_char_is(s, c, from + 1, i);
    }
}

/// The pieces of `s` between occurrences of `c` (`str::split`).
pub open spec fn split_on(s: Seq<char>, c: char) -> Seq<Seq<char>>
    decreases s.len(),
{
    let i = index_of_char(s, c, 0);
    if i >= s.len() {
        seq![s]
    } else {
        proof {
            lemma_index_of_char(s, c, 0);
        }
        seq![s.take(i)] + split_on(s.skip(i + 1), c)
    }
}

/// The media type and the data of a base64 `data:` URL: after `data:`,
/// the media type (trimmed, not empty) is the first `;`-separated part
/// before the first comma and some later part is `base64` in any case; the
/// data, after the comma, must not be blank.
pub open spec fn data_url_parts(s: Seq<char>) -> Option<(Seq<char>, Seq<char>)> {
    if !(s.len() >= 5 && s.take(5) == "data:"@) {
        None
    } else {
        let rest = s.skip(5);
        let ci = index_of_char(rest, ',', 0);
        if ci >= rest.len() {
            None
        } else {
            let meta = rest.take(ci);
            let data = rest.skip(ci + 1);
            let parts = split_on(meta, ';');
            if blank(data) {
                None
            } else if trim(parts[0]).len() == 0 {
                None
            } else if exists|j: int|
                1 <= j < parts.len() && eq_ignore_ascii_case(trim(#[trigger] parts[j]), "base64"@) {
                Some((trim(parts[0]), data))
            } else {
                None
            }
        }
    }
}

/// Whether `v` starts with the characters of `p`.
pub fn starts_with_chars(v: &Vec<char>, p: &str) -> (r: bool)
    ensures
        r == (v@.len() >= p@.len() && v@.take(p@.len() as int) == p@),
{
    let q = chars_of(p);
    if q.len() > v.len() {
        return false;
    }
    let mut i: usize = 0;
    while i < q.len()
        invariant
            i <= q@.len() <= v@.len(),
            q@ == p@,
            forall|j: int| 0 <= j < i ==> v@[j] == q@[j],
        decreases q.len() - i,
    {
        if v[i] != q[i] {
            assert(v@.take(q@.len() as int)[i as int] != q@[i as int]);
            return false;
        }
        i += 1;
    }
    assert(v@.take(q@.len() as int) =~= q@);
    true
}

fn sub_chars(v: &Vec<char>, from: usize, to: usize) -> (r: Vec<char>)
    requires
        from <= to <= v@.len(),
    ensures
        r@ == v@.subrange(from as int, to as int),
{
    let mut out: Vec<char> = Vec::new();
    let mut k = from;
    while k < to
        invariant
            from <= k <= to <= v@.len(),
            out@ == v@.subrange(from as int, k as int),
        decreases to - k,
    {
        out.push(v[k]);
        assert(v@.subrange(from as int, k + 1) == v@.subrange(from as int, k as int).push(v@[k as int]));
        k += 1;
    }
    out
}

/// The media type and the data of a base64 `data:` URL.
pub fn parse_base64_data_url(image_url: &str) -> (r: Option<(String, String)>)
    ensures
        match r {
            Some((m, d)) => data_url_parts(image_url@) == Some((m@, d@)),
            None => data_url_parts(image_url@) is None,
        },
{
    let s = chars_of(image_url);
    if !starts_with_chars(&s, "data:") {
        return None;
    }
    proof {
        reveal_strlit("data:");
    }
    let rest = sub_chars(&s, 5, s.len());
    assert(rest@ == s@.skip(5));
    let mut ci: usize = 0;
    while ci < rest.len() && rest[ci] != ','
        invariant
            ci <= rest@.len(),
            forall|j: int| 0 <= j < ci ==> rest@[j] != ',',
        decreases rest.len() - ci,
    {
        ci += 1;
    }
    proof {
        lemma_index_of_char_is(rest@, ',', 0, ci as int);
    }
    if ci >= rest.len() {
        return None;
    }
    let meta = sub_chars(&rest, 0, ci);
    let data = sub_chars(&rest, ci + 1, rest.len());
    assert(meta@ == rest@.take(ci as int));
    assert(data@ == rest@.skip(ci + 1));
    let data_str = string_from_chars(data.as_slice());
    if crate::claude_history::is_blank(data_str.as_str()) {
        return None;
    }
    let parts = split_chars(&meta, ';');
    let ghost pv = split_on(meta@, ';');
    let first = string_from_chars(parts[0].as_slice());
    let media = trim_chars(first.as_str());
    if media.len() == 0 {
        return None;
    }
    assert(media@ == trim(pv[0]));
    assert(data_url_parts(image_url@) == if exists|k: int|
        1 <= k < pv.len() && eq_ignore_ascii_case(trim(#[trigger] pv[k]), "base64"@) {
        Some((media@, data_str@))
    } else {
        None::<(Seq<char>, Seq<char>)>
    });
    let mut j: usize = 1;
    while j < parts.len()
        invariant
            1 <= j <= parts@.len(),
            data_url_parts(image_url@) == if exists|k: int|
                1 <= k < pv.len() && eq_ignore_ascii_case(trim(#[trigger] pv[k]), "base64"@) {
                Some((media@, data_str@))
            } else {
                None::<(Seq<char>, Seq<char>)>
            },
            parts@.len() == pv.len(),
            forall|k: int| 0 <= k < parts@.len() ==> #[trigger] parts@[k]@ == pv[k],
            forall|k: int| 1 <= k < j ==> !eq_ignore_ascii_case(trim(#[trigger] pv[k]), "base64"@),
        decreases parts.len() - j,
    {
        let part = string_from_chars(parts[j].as_slice());
        let t = trim_chars(part.as_str());
        let ts = string_from_chars(t.as_slice());
        if eq_ignore_ascii_case_exec(ts.as_str(), "base64") {
            assert(eq_ignore_ascii_case(trim(pv[j as int]), "base64"@));
            return Some((string_from_chars(media.as_slice()), data_str));
        }
        j += 1;
    }
    None
}

/// Splits `s` at every `c`.
fn split_chars(s: &Vec<char>, c: char) -> (r: Vec<Vec<char>>)
    ensures
        r@.len() == split_on(s@, c).len(),
        r@.len() >= 1,
        forall|k: int| 0 <= k < r@.len() ==> #[trigger] r@[k]@ == split_on(s@, c)[k],
{
    let mut out: Vec<Vec<char>> = Vec::new();
    let mut pos: usize = 0;
    assert(s@.skip(0) == s@);
    loop
        invariant
            pos <= s@.len(),
            split_on(s@, c) == out@.map_values(|v: Vec<char>| v@) + split_on(s@.skip(pos as int), c),
        decreases s@.len() - pos,
    {
        let ghost rest = s@.skip(pos as int);
        let mut i = pos;
        while i < s.len() && s[i] != c
            invariant
                pos <= i <= s@.len(),
                forall|j: int| pos <= j < i ==> s@[j] != c,
            decreases s.len() - i,
        {
            i += 1;
        }
        proof {
            assert forall|j: int| 0 <= j < i - pos implies rest[j] != c by {
                assert(rest[j] == s@[pos + j]);
            }
            if i < s.len() {
                assert(rest[i - pos] == c);
            }
            lemma_index_of_char_is(rest, c, 0, (i - pos) as int);
        }
        let piece = sub_chars(s, pos, i);
        let ghost before = out@.map_values(|v: Vec<char>| v@);
        let ghost pv = piece@;
        out.push(piece);
        assert(out@.map_values(|v: Vec<char>| v@) == before.push(pv));
        if i >= s.len() {
            assert(rest == s@.subrange(pos as int, i as int));
            assert(split_on(rest, c) == seq![pv]);
            assert(split_on(s@, c) == out@.map_values(|v: Vec<char>| v@));
            return out;
        }
        assert(rest.take(i - pos) == pv);
        assert(rest.skip(i - pos + 1) == s@.skip(i + 1));
        assert(split_on(rest, c) == seq![pv] + split_on(s@.skip(i + 1), c));
        pos = i + 1;
    }
}

/// `s` starts with `http://` or `https://`.
pub open spec fn http_url(s: Seq<char>) -> bool {
    (s.len() >= 7 && s.take(7) == "http://"@) || (s.len() >= 8 && s.take(8) == "https://"@)
}

/// Whether `image_url` is an HTTP(S) URL.
pub fn is_http_url(image_url: &str) -> (r: bool)
    ensures
        r == http_url(image_url@),
{
    let s = chars_of(image_url);
    proof {
        reveal_strlit("http://");
        reveal_strlit("https://");
    }
    starts_with_chars(&s, "http://") || starts_with_chars(&s, "https://")
}

/// The block for an image reference: base64 data, a URL, or else a text
/// naming it.
pub open spec fn image_block_view(url: Seq<char>) -> BlockView {
    match data_url_parts(url) {
        Some((m, d)) => BlockView::Image { source: ImageView::Base64 { media_type: m, data: d } },
        None => if http_url(url) {
            BlockView::Image { source: ImageView::Url { url: url } }
        } else {
            BlockView::Text { text: "[image: "@ + url + "]"@, cache_control: None }
        },
    }
}

/// The block for an image reference.
pub fn image_content_block(image_url: &str) -> (r: ClaudeBlock)
    ensures
        r@ == image_block_view(image_url@),
{
    match parse_base64_data_url(image_url) {
        Some((media_type, data)) => ClaudeBlock::Image {
            source: ImageSource::Base64 { media_type, data },
        },
        None => {
            if is_http_url(image_url) {
                ClaudeBlock::Image { source: ImageSource::Url { url: image_url.to_string() } }
            } else {
                let mut t = chars_of("[image: ");
                push_str_chars(&mut t, image_url);
                push_str_chars(&mut t, "]");
                let text = string_from_chars(t.as_slice());
                text_block(text.as_str())
            }
        },
    }
}

/// An item of message content.
#[derive(Debug)]
pub enum ContentItem {
    InputText { text: String },
    OutputText { text: String },
    OutputTextWithCitations { text: String },
    InputImage { image_url: String, detail: Option<String> },
}

/// The text of a text item, or the URL of an image item.
pub open spec fn item_text(item: ContentItem) -> Option<Seq<char>> {
    match item {
        ContentItem::InputText { text } => Some(text@),
        ContentItem::OutputText { text } => Some(text@),
        ContentItem::OutputTextWithCitations { text } => Some(text@),
        ContentItem::InputImage { .. } => None,
    }
}

/// The blocks for content items: non-empty texts as text blocks, images as
/// image blocks.
pub open spec fn content_blocks_view(items: Seq<ContentItem>) -> Seq<BlockView>
    decreases items.len(),
{
    if items.len() == 0 {
        Seq::empty()
    } else {
        let rest = content_blocks_view(items.drop_last());
        match items.last() {
            ContentItem::InputImage { image_url, .. } => rest.push(image_block_view(image_url@)),
            other => match item_text(other) {
                Some(t) => if t.len() > 0 {
                    rest.push(BlockView::Text { text: t, cache_control: None })
                } else {
                    rest
                },
                None => rest,
            },
        }
    }
}

/// The blocks for message content.
pub fn content_blocks(content: &Vec<ContentItem>) -> (r: Vec<ClaudeBlock>)
    ensures
        blocks_view(r@) == content_blocks_view(content@),
{
    let mut out: Vec<ClaudeBlock> = Vec::new();
    let mut i: usize = 0;
    while i < content.len()
        invariant
            i <= content@.len(),
            blocks_view(out@) == content_blocks_view(content@.take(i as int)),
        decreases content.len() - i,
    {
        proof {
            assert(content@.take(i + 1).drop_last() == content@.take(i as int));
            assert(content@.take(i + 1).last() == content@[i as int]);
        }
        let ghost before = blocks_view(out@);
        match &content[i] {
            ContentItem::InputImage { image_url, .. } => {
                let b = image_content_block(image_url.as_str());
                let ghost bv = b@;
                out.push(b);
                assert(blocks_view(out@) == before.push(bv));
            },
            ContentItem::InputText { text } | ContentItem::OutputText { text }
            | ContentItem::OutputTextWithCitations { text } => {
                if !text.as_str().is_empty() {
                    let b = text_block(text.as_str());
                    let ghost bv = b@;
                    out.push(b);
                    assert(blocks_view(out@) == before.push(bv));
                }
            },
        }
        i += 1;
    }
    assert(content@.take(content.len() as int) == content@);
    out
}

/// The text of one content item: its text, or a note naming an image.
pub open spec fn item_as_text(item: ContentItem) -> Seq<char> {
    match item {
        ContentItem::InputImage { image_url, .. } => if data_url_parts(image_url@) is Some {
            "[image: data-url]"@
        } else {
            "[image: "@ + image_url@ + "]"@
        },
        other => item_text(other).unwrap(),
    }
}

/// The texts of content items joined by line feeds.
pub open spec fn content_text_view(items: Seq<ContentItem>) -> Seq<char>
    decreases items.len(),
{
    if items.len() == 0 {
        Seq::empty()
    } else if items.len() == 1 {
        item_as_text(items[0])
    } else {
        content_text_view(items.drop_last()) + "\n"@ + item_as_text(items.last())
    }
}

/// The text of message content, one item per line.
pub fn content_text(content: &Vec<ContentItem>) -> (r: String)
    ensures
        r@ == content_text_view(content@),
{
    let mut out: Vec<char> = Vec::new();
    let mut i: usize = 0;
    while i < content.len()
        invariant
            i <= content@.len(),
            out@ == content_text_view(content@.take(i as int)),
        decreases content.len() - i,
    {
        proof {
            assert(content@.take(i + 1).drop_last() == content@.take(i as int));
            assert(content@.take(i + 1).last() == content@[i as int]);
            if i == 0 {
                assert(content@.take(1)[0] == content@[0]);
            }
        }
        if i > 0 {
            push_str_chars(&mut out, "\n");
        }
        match &content[i] {
            ContentItem::InputImage { image_url, .. } => {
                if parse_base64_data_url(image_url.as_str()).is_some() {
                    push_str_chars(&mut out, "[image: data-url]");
                } else {
                    push_str_chars(&mut out, "[image: ");
                    push_str_chars(&mut out, image_url.as_str());
                    push_str_chars(&mut out, "]");
                }
            },
            ContentItem::InputText { text } | ContentItem::OutputText { text }
            | ContentItem::OutputTextWithCitations { text } => {
                push_str_chars(&mut out, text.as_str());
            },
        }
        i += 1;
    }
    assert(content@.take(content.len() as int) == content@);
    string_from_chars(out.as_slice())
}

} // verus!
