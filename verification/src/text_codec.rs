//! What surrounds the decoding of file text: byte-order mark and line-ending
//! normalization on the way in, and their restoration on the way out.
use vstd::prelude::*;
use crate::search::{
    find_from, first_match_from, lemma_first_match_from, occurs_at, replace_all_exec, replace_all_from,
};
use crate::text::{chars_of, string_from_chars};

verus! {

/// Decoded file text with what is needed to write it back the same way.
pub struct DecodedText {
    /// The text with a leading byte-order mark removed and CRLF turned into LF.
    pub text: String,
    /// The decoded text held a CRLF line ending.
    pub had_crlf: bool,
    /// The raw bytes began with a UTF-8 byte-order mark.
    pub utf8_bom: bool,
}

/// The raw bytes begin with the UTF-8 byte-order mark.
pub open spec fn starts_with_utf8_bom(bytes: Seq<u8>) -> bool {
    bytes.len() >= 3 && bytes[0] == 0xEFu8 && bytes[1] == 0xBBu8 && bytes[2] == 0xBFu8
}

/// Whether `bytes` begin with the UTF-8 byte-order mark.
pub fn has_utf8_bom(bytes: &[u8]) -> (r: bool)
    ensures
        r == starts_with_utf8_bom(bytes@),
{
    bytes.len() >= 3 && bytes[0] == 0xEFu8 && bytes[1] == 0xBBu8 && bytes[2] == 0xBFu8
}

/// `s` without a leading U+FEFF.
pub open spec fn strip_feff(s: Seq<char>) -> Seq<char> {
    if s.len() > 0 && s[0] == '\u{feff}' {
        s.drop_first()
    } else {
        s
    }
}

/// `s` holds a CRLF.
pub open spec fn has_crlf(s: Seq<char>) -> bool {
    first_match_from(s, "\r\n"@, 0) is Some
}

/// Normalizes decoded `contents`: drops a leading byte-order mark and turns
/// every CRLF into LF, remembering whether there was one.
pub fn normalize_decoded(contents: &str, utf8_bom: bool) -> (r: DecodedText)
    ensures
        r.had_crlf == has_crlf(contents@),
        r.text@ == replace_all_from(strip_feff(contents@), "\r\n"@, "\n"@, 0),
        r.utf8_bom == utf8_bom,
{
    proof {
        reveal_strlit("\r\n");
    }
    let chars = chars_of(contents);
    let crlf = chars_of("\r\n");
    let lf = chars_of("\n");
    let had_crlf = find_from(&chars, &crlf, 0).is_some();
    let mut body: Vec<char> = Vec::new();
    let start: usize = if chars.len() > 0 && chars[0] == '\u{feff}' {
        1
    } else {
        0
    };
    let mut i = start;
    while i < chars.len()
        invariant
            start <= i <= chars@.len(),
            body@ == chars@.subrange(start as int, i as int),
        decreases chars.len() - i,
    {
        body.push(chars[i]);
        assert(chars@.subrange(start as int, i + 1) == chars@.subrange(start as int, i as int).push(
            chars@[i as int],
        ));
        i += 1;
    }
    assert(body@ == strip_feff(contents@));
    let text = replace_all_exec(&body, &crlf, &lf);
    DecodedText { text: string_from_chars(text.as_slice()), had_crlf, utf8_bom }
}

/// The line endings to write `text` back with: CRLF throughout when the
/// file had CRLF, else the text unchanged.
pub open spec fn restored_line_endings(text: Seq<char>, had_crlf: bool) -> Seq<char> {
    if had_crlf {
        replace_all_from(replace_all_from(text, "\r\n"@, "\n"@, 0), "\n"@, "\r\n"@, 0)
    } else {
        text
    }
}

/// `text` with the line endings of the file it is written back to.
pub fn restore_line_endings(text: &str, had_crlf: bool) -> (r: String)
    ensures
        r@ == restored_line_endings(text@, had_crlf),
{
    proof {
        reveal_strlit("\r\n");
        reveal_strlit("\n");
    }
    if !had_crlf {
        return text.to_string();
    }
    let chars = chars_of(text);
    let crlf = chars_of("\r\n");
    let lf = chars_of("\n");
    let unified = replace_all_exec(&chars, &crlf, &lf);
    let out = replace_all_exec(&unified, &lf, &crlf);
    string_from_chars(out.as_slice())
}

/// `bytes` preceded by the UTF-8 byte-order mark.
pub fn with_utf8_bom(bytes: &Vec<u8>) -> (r: Vec<u8>)
    ensures
        r@ == seq![0xEFu8, 0xBBu8, 0xBFu8] + bytes@,
{
    let mut out: Vec<u8> = Vec::new();
    out.push(0xEFu8);
    out.push(0xBBu8);
    out.push(0xBFu8);
    let mut i: usize = 0;
    while i < bytes.len()
        invariant
            i <= bytes@.len(),
            out@ == seq![0xEFu8, 0xBBu8, 0xBFu8] + bytes@.take(i as int),
        decreases bytes.len() - i,
    {
        out.push(bytes[i]);
        assert(bytes@.take(i + 1) == bytes@.take(i as int).push(bytes@[i as int]));
        i += 1;
    }
    assert(bytes@.take(bytes.len() as int) == bytes@);
    out
}


/// The byte-order mark a decoded text began with, as a character.
pub open spec fn leading_feff(s: Seq<char>) -> Seq<char> {
    if s.len() > 0 && s[0] == '\u{feff}' {
        seq!['\u{feff}']
    } else {
        Seq::empty()
    }
}

proof fn lemma_no_match_after_drop(t: Seq<char>, p: Seq<char>)
    requires
        t.len() > 0,
        p.len() > 0,
        first_match_from(t, p, 0) is None,
    ensures
        first_match_from(t.drop_first(), p, 0) is None,
{
    lemma_first_match_from(t, p, 0);
    lemma_first_match_from(t.drop_first(), p, 0);
    let d = t.drop_first();
    if first_match_from(d, p, 0) is Some {
        let i = first_match_from(d, p, 0)->0;
        assert(occurs_at(d, p, i));
        assert(t.subrange(i + 1, i + 1 + p.len()) =~= d.subrange(i, i + p.len()));
        assert(occurs_at(t, p, i + 1));
    }
}

/// A text without CRLF comes back as it was read: normalizing and then
/// restoring its line endings, with the byte-order mark put back in front,
/// gives the decoded text again.
pub proof fn law_text_without_crlf_round_trips(contents: Seq<char>)
    requires
        !has_crlf(contents),
    ensures
        leading_feff(contents) + restored_line_endings(
            replace_all_from(strip_feff(contents), "\r\n"@, "\n"@, 0),
            has_crlf(contents),
        ) == contents,
{
    reveal_strlit("\r\n");
    let t = strip_feff(contents);
    if contents.len() > 0 && contents[0] == '\u{feff}' {
        lemma_no_match_after_drop(contents, "\r\n"@);
        assert(seq!['\u{feff}'] + contents.drop_first() =~= contents);
    } else {
        assert(Seq::<char>::empty() + contents =~= contents);
    }
    assert(first_match_from(t, "\r\n"@, 0) is None);
    assert(replace_all_from(t, "\r\n"@, "\n"@, 0) == t.skip(0));
    assert(t.skip(0) =~= t);
}


/// `t` with every non-overlapping occurrence of a non-empty `p` replaced by
/// `r`, read from the front.
pub open spec fn replaced_from_front(t: Seq<char>, p: Seq<char>, r: Seq<char>) -> Seq<char>
    decreases t.len(),
{
    if t.len() == 0 || p.len() == 0 {
        t
    } else if t.len() >= p.len() && t.take(p.len() as int) == p {
        r + replaced_from_front(t.skip(p.len() as int), p, r)
    } else {
        seq![t[0]] + replaced_from_front(t.skip(1), p, r)
    }
}

proof fn lemma_occurs_skip(t: Seq<char>, p: Seq<char>, f: int, j: int)
    requires
        0 <= f <= t.len(),
        0 <= j,
    ensures
        occurs_at(t.skip(f), p, j) == occurs_at(t, p, f + j),
{
    if occurs_at(t.skip(f), p, j) {
        assert(t.subrange(f + j, f + j + p.len()) =~= t.skip(f).subrange(j, j + p.len()));
    }
    if occurs_at(t, p, f + j) {
        assert(t.subrange(f + j, f + j + p.len()) =~= t.skip(f).subrange(j, j + p.len()));
    }
}

proof fn lemma_front_no_match(u: Seq<char>, p: Seq<char>, r: Seq<char>)
    requires
        p.len() > 0,
        forall|j: int| 0 <= j ==> !#[trigger] occurs_at(u, p, j),
    ensures
        replaced_from_front(u, p, r) == u,
    decreases u.len(),
{
    if u.len() > 0 {
        if u.len() >= p.len() && u.take(p.len() as int) == p {
            assert(u.subrange(0, p.len() as int) =~= u.take(p.len() as int));
            assert(occurs_at(u, p, 0));
        }
        let v = u.skip(1);
        assert forall|j: int| 0 <= j implies !#[trigger] occurs_at(v, p, j) by {
            lemma_occurs_skip(u, p, 1, j);
            assert(!occurs_at(u, p, 1 + j));
        }
        lemma_front_no_match(v, p, r);
        assert(seq![u[0]] + v =~= u);
    }
}

proof fn lemma_front_prefix(u: Seq<char>, p: Seq<char>, r: Seq<char>, k: int)
    requires
        p.len() > 0,
        0 <= k <= u.len(),
        forall|j: int| 0 <= j < k ==> !#[trigger] occurs_at(u, p, j),
    ensures
        replaced_from_front(u, p, r) == u.take(k) + replaced_from_front(u.skip(k), p, r),
    decreases k,
{
    if k == 0 {
        assert(u.take(0) + u.skip(0) =~= u);
        assert(u.skip(0) =~= u);
        assert(u.take(0) =~= Seq::<char>::empty());
    } else {
        if u.len() >= p.len() && u.take(p.len() as int) == p {
            assert(u.subrange(0, p.len() as int) =~= u.take(p.len() as int));
            assert(occurs_at(u, p, 0));
        }
        let v = u.skip(1);
        assert forall|j: int| 0 <= j < k - 1 implies !#[trigger] occurs_at(v, p, j) by {
            lemma_occurs_skip(u, p, 1, j);
            assert(!occurs_at(u, p, 1 + j));
        }
        lemma_front_prefix(v, p, r, k - 1);
        assert(v.skip(k - 1) =~= u.skip(k));
        assert(seq![u[0]] + v.take(k - 1) =~= u.take(k));
    }
}

/// Replacing all occurrences from index `f` reads the rest of `t` from the
/// front.
proof fn lemma_replace_all_is_front(t: Seq<char>, p: Seq<char>, r: Seq<char>, f: int)
    requires
        p.len() > 0,
        0 <= f <= t.len(),
    ensures
        replace_all_from(t, p, r, f) == replaced_from_front(t.skip(f), p, r),
    decreases t.len() - f,
{
    let u = t.skip(f);
    lemma_first_match_from(t, p, f);
    match first_match_from(t, p, f) {
        None => {
            assert forall|j: int| 0 <= j implies !#[trigger] occurs_at(u, p, j) by {
                lemma_occurs_skip(t, p, f, j);
            }
            lemma_front_no_match(u, p, r);
        },
        Some(i) => {
            let k = i - f;
            assert forall|j: int| 0 <= j < k implies !#[trigger] occurs_at(u, p, j) by {
                lemma_occurs_skip(t, p, f, j);
            }
            lemma_front_prefix(u, p, r, k);
            let w = u.skip(k);
            assert(w =~= t.skip(i));
            assert(w.take(p.len() as int) =~= t.subrange(i, i + p.len()));
            assert(w.skip(p.len() as int) =~= t.skip(i + p.len()));
            lemma_replace_all_is_front(t, p, r, i + p.len());
            assert(u.take(k) =~= t.subrange(f, i));
        },
    }
}

/// Every line feed of `s` ends a CRLF and every carriage return starts one.
pub open spec fn crlf_only(s: Seq<char>) -> bool {
    forall|i: int| 0 <= i < s.len() ==> {
        &&& (#[trigger] s[i] == '\n' ==> i > 0 && s[i - 1] == '\r')
        &&& (s[i] == '\r' ==> i + 1 < s.len() && s[i + 1] == '\n')
    }
}

/// `s` holds no carriage return.
pub open spec fn no_cr(s: Seq<char>) -> bool {
    forall|i: int| 0 <= i < s.len() ==> #[trigger] s[i] != '\r'
}

proof fn lemma_no_cr_front(t: Seq<char>)
    requires
        no_cr(t),
    ensures
        replaced_from_front(t, "\r\n"@, "\n"@) == t,
    decreases t.len(),
{
    reveal_strlit("\r\n");
    if t.len() > 0 {
        assert(!(t.len() >= 2 && t.take(2) == "\r\n"@)) by {
            if t.len() >= 2 && t.take(2) == "\r\n"@ {
                assert(t.take(2)[0] == t[0]);
            }
        }
        lemma_no_cr_front(t.skip(1));
        assert(seq![t[0]] + t.skip(1) =~= t);
    }
}

proof fn lemma_crlf_round_trip(s: Seq<char>)
    requires
        crlf_only(s),
    ensures
        no_cr(replaced_from_front(s, "\r\n"@, "\n"@)),
        replaced_from_front(replaced_from_front(s, "\r\n"@, "\n"@), "\n"@, "\r\n"@) == s,
    decreases s.len(),
{
    reveal_strlit("\r\n");
    reveal_strlit("\n");
    let crlf = "\r\n"@;
    let lf = "\n"@;
    if s.len() > 0 {
        if s.len() >= 2 && s.take(2) == crlf {
            let rest = s.skip(2);
            assert forall|i: int| 0 <= i < rest.len() implies {
                &&& (#[trigger] rest[i] == '\n' ==> i > 0 && rest[i - 1] == '\r')
                &&& (rest[i] == '\r' ==> i + 1 < rest.len() && rest[i + 1] == '\n')
            } by {
                assert(rest[i] == s[i + 2]);
                if rest[i] == '\n' {
                    assert(s[i + 1] == '\r');
                    if i == 0 {
                        assert(s.take(2)[1] == s[1]);
                    }
                }
                if rest[i] == '\r' {
                    assert(s[i + 3] == '\n');
                }
            }
            lemma_crlf_round_trip(rest);
            let x = replaced_from_front(rest, crlf, lf);
            let l = lf + x;
            assert(replaced_from_front(s, crlf, lf) == l);
            assert(no_cr(l)) by {
                assert forall|i: int| 0 <= i < l.len() implies #[trigger] l[i] != '\r' by {
                    if i > 0 {
                        assert(l[i] == x[i - 1]);
                    }
                }
            }
            assert(l.take(1) =~= lf);
            assert(l.skip(1) =~= x);
            assert(crlf + rest =~= s);
        } else {
            assert(s[0] != '\r') by {
                if s[0] == '\r' {
                    assert(s[1] == '\n');
                    assert(s.take(2) =~= crlf);
                }
            }
            assert(s[0] != '\n');
            let rest = s.skip(1);
            assert forall|i: int| 0 <= i < rest.len() implies {
                &&& (#[trigger] rest[i] == '\n' ==> i > 0 && rest[i - 1] == '\r')
                &&& (rest[i] == '\r' ==> i + 1 < rest.len() && rest[i + 1] == '\n')
            } by {
                assert(rest[i] == s[i + 1]);
                if rest[i] == '\r' {
                    assert(s[i + 2] == '\n');
                }
            }
            lemma_crlf_round_trip(rest);
            let x = replaced_from_front(rest, crlf, lf);
            let l = seq![s[0]] + x;
            assert(replaced_from_front(s, crlf, lf) == l);
            assert(no_cr(l)) by {
                assert forall|i: int| 0 <= i < l.len() implies #[trigger] l[i] != '\r' by {
                    if i > 0 {
                        assert(l[i] == x[i - 1]);
                    }
                }
            }
            assert(!(l.take(1) == lf)) by {
                assert(l.take(1)[0] == s[0]);
            }
            assert(l.skip(1) =~= x);
            assert(seq![s[0]] + rest =~= s);
        }
    }
}

/// A text whose line endings are all CRLF comes back as it was read:
/// normalizing turns them into LF, and restoring, with the byte-order mark
/// put back in front, gives the decoded text again.
pub proof fn law_crlf_text_round_trips(contents: Seq<char>)
    requires
        crlf_only(strip_feff(contents)),
    ensures
        leading_feff(contents) + restored_line_endings(
            replace_all_from(strip_feff(contents), "\r\n"@, "\n"@, 0),
            has_crlf(contents),
        ) == contents,
{
    reveal_strlit("\r\n");
    reveal_strlit("\n");
    let t = strip_feff(contents);
    if !has_crlf(contents) {
        law_text_without_crlf_round_trips(contents);
    } else {
        lemma_replace_all_is_front(t, "\r\n"@, "\n"@, 0);
        assert(t.skip(0) =~= t);
        lemma_crlf_round_trip(t);
        let l = replaced_from_front(t, "\r\n"@, "\n"@);
        lemma_replace_all_is_front(l, "\r\n"@, "\n"@, 0);
        assert(l.skip(0) =~= l);
        lemma_no_cr_front(l);
        lemma_replace_all_is_front(l, "\n"@, "\r\n"@, 0);
        if contents.len() > 0 && contents[0] == '\u{feff}' {
            assert(seq!['\u{feff}'] + contents.drop_first() =~= contents);
        } else {
            assert(Seq::<char>::empty() + contents =~= contents);
        }
    }
}

} // verus!
