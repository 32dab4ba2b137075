//! Character-level helpers shared by the text-processing modules.
use vstd::prelude::*;

verus! {

/// Appends one character to a string (`String::push`).
#[verifier::external_body]
pub(crate) fn push_char(s: &mut String, c: char)
    ensures
        final(s)@ == old(s)@.push(c),
{
    s.push(c);
}

/// The characters of `s`, in order.
pub fn chars_of(s: &str) -> (r: Vec<char>)
    ensures
        r@ == s@,
{
    let mut out: Vec<char> = Vec::new();
    for c in it: s.chars()
        invariant
            out@ == it.seq().take(it.index() as int),
            it.seq() == s@,
    {
        out.push(c);
    }
    out
}

/// Whether two strings hold the same characters.
pub fn str_eq(a: &str, b: &str) -> (r: bool)
    ensures
        r == (a@ == b@),
{
    let x = chars_of(a);
    let y = chars_of(b);
    if x.len() != y.len() {
        return false;
    }
    let mut i: usize = 0;
    while i < x.len()
        invariant
            i <= x@.len(),
            x@.len() == y@.len(),
            x@ == a@,
            y@ == b@,
            forall|j: int| 0 <= j < i ==> x@[j] == y@[j],
        decreases x.len() - i,
    {
        if x[i] != y[i] {
            return false;
        }
        i += 1;
    }
    assert(x@ =~= y@);
    true
}

/// A string holding exactly the characters of `v`.
pub fn string_from_chars(v: &[char]) -> (r: String)
    ensures
        r@ == v@,
{
    let mut out = String::new();
    let mut i: usize = 0;
    while i < v.len()
        invariant
            i <= v.len(),
            out@ == v@.take(i as int),
        decreases v.len() - i,
    {
        push_char(&mut out, v[i]);
        assert(v@.take(i + 1) == v@.take(i as int).push(v@[i as int]));
        i += 1;
    }
    assert(v@.take(v.len() as int) == v@);
    out
}

} // verus!

verus! {

/// Unicode `White_Space` characters, the set that `char::is_whitespace`
/// and `str::split_whitespace` use.
pub open spec fn is_ws(c: char) -> bool {
    let u = c as u32;
    ||| (0x09 <= u && u <= 0x0D)
    ||| u == 0x20
    ||| u == 0x85
    ||| u == 0xA0
    ||| u == 0x1680
    ||| (0x2000 <= u && u <= 0x200A)
    ||| u == 0x2028
    ||| u == 0x2029
    ||| u == 0x202F
    ||| u == 0x205F
    ||| u == 0x3000
}

/// Executable test for [`is_ws`].
pub fn is_whitespace_char(c: char) -> (r: bool)
    ensures
        r == is_ws(c),
{
    let u = c as u32;
    (0x09 <= u && u <= 0x0D) || u == 0x20 || u == 0x85 || u == 0xA0 || u == 0x1680 || (0x2000
        <= u && u <= 0x200A) || u == 0x2028 || u == 0x2029 || u == 0x202F || u == 0x205F || u
        == 0x3000
}

/// The maximal runs of non-whitespace characters of `s`, in order
/// (what `str::split_whitespace` yields).
pub open spec fn words(s: Seq<char>) -> Seq<Seq<char>>
    decreases s.len(),
{
    if s.len() == 0 {
        Seq::empty()
    } else {
        let w = words(s.drop_last());
        let c = s.last();
        if is_ws(c) {
            w
        } else if s.len() >= 2 && !is_ws(s[s.len() - 2]) && w.len() > 0 {
            w.update(w.len() - 1, w.last().push(c))
        } else {
            w.push(seq![c])
        }
    }
}

/// The pieces of `ws` joined by single spaces.
pub open spec fn join_space(ws: Seq<Seq<char>>) -> Seq<char>
    decreases ws.len(),
{
    if ws.len() == 0 {
        Seq::empty()
    } else if ws.len() == 1 {
        ws[0]
    } else {
        join_space(ws.drop_last()) + seq![' '] + ws.last()
    }
}

/// `s` with every whitespace run collapsed to one space and the ends trimmed:
/// the words of `s` joined by single spaces.
pub open spec fn collapse_whitespace(s: Seq<char>) -> Seq<char> {
    join_space(words(s))
}

/// Every word is non-empty and holds no whitespace.
pub proof fn lemma_words_wf(s: Seq<char>)
    ensures
        forall|k: int|
            0 <= k < words(s).len() ==> #[trigger] words(s)[k].len() > 0 && forall|j: int|
                0 <= j < words(s)[k].len() ==> !is_ws(#[trigger] words(s)[k][j]),
        s.len() > 0 && !is_ws(s.last()) ==> words(s).len() > 0,
    decreases s.len(),
{
    if s.len() > 0 {
        lemma_words_wf(s.drop_last());
        let w = words(s.drop_last());
        let c = s.last();
        let r = words(s);
        if !is_ws(c) {
            assert forall|k: int| 0 <= k < r.len() implies #[trigger] r[k].len() > 0 && forall|
                j: int,
            | 0 <= j < r[k].len() ==> !is_ws(#[trigger] r[k][j]) by {
                if k < w.len() && k != w.len() - 1 {
                    assert(r[k] == w[k]);
                } else if k == w.len() - 1 && s.len() >= 2 && !is_ws(s[s.len() - 2]) && w.len()
                    > 0 {
                    assert(r[k] == w[k].push(c));
                    assert forall|j: int| 0 <= j < r[k].len() implies !is_ws(#[trigger] r[k][j]) by {
                        if j < w[k].len() {
                            assert(r[k][j] == w[k][j]);
                        }
                    }
                } else if k < w.len() {
                    assert(r[k] == w[k]);
                } else {
                    assert(r[k] == seq![c]);
                }
            }
        }
    }
}

/// Joining non-empty pieces is empty only for no pieces.
pub proof fn lemma_join_space_empty(ws: Seq<Seq<char>>)
    requires
        forall|k: int| 0 <= k < ws.len() ==> #[trigger] ws[k].len() > 0,
    ensures
        (join_space(ws).len() == 0) == (ws.len() == 0),
    decreases ws.len(),
{
    if ws.len() > 1 {
        lemma_join_space_empty(ws.drop_last());
    }
}

/// Extending the last piece extends the join.
pub proof fn lemma_join_space_extend_last(ws: Seq<Seq<char>>, c: char)
    requires
        ws.len() > 0,
    ensures
        join_space(ws.update(ws.len() - 1, ws.last().push(c))) == join_space(ws).push(c),
{
    let ws2 = ws.update(ws.len() - 1, ws.last().push(c));
    if ws.len() > 1 {
        assert(ws2.drop_last() == ws.drop_last());
    }
}

/// Computes [`collapse_whitespace`] of `s`.
pub fn collapse_whitespace_exec(s: &str) -> (r: String)
    ensures
        r@ == collapse_whitespace(s@),
{
    let v = chars_of(s);
    let mut out = String::new();
    let mut i: usize = 0;
    while i < v.len()
        invariant
            i <= v.len(),
            v@ == s@,
            out@ == join_space(words(v@.take(i as int))),
        decreases v.len() - i,
    {
        let c = v[i];
        let ghost pre = v@.take(i as int);
        let ghost cur = v@.take(i + 1);
        assert(cur.drop_last() == pre);
        proof {
            lemma_words_wf(pre);
            lemma_join_space_empty(words(pre));
        }
        if is_whitespace_char(c) {
        } else if i >= 1 && !is_whitespace_char(v[i - 1]) {
            proof {
                assert(pre.last() == v@[i - 1]);
                lemma_join_space_extend_last(words(pre), c);
            }
            push_char(&mut out, c);
        } else {
            if !out.as_str().is_empty() {
                push_char(&mut out, ' ');
            }
            push_char(&mut out, c);
            proof {
                let w = words(pre);
                let w2 = w.push(seq![c]);
                if w.len() > 0 {
                    assert(w2.drop_last() == w);
                }
            }
        }
        i += 1;
    }
    assert(v@.take(v.len() as int) == v@);
    out
}

} // verus!

verus! {

/// Number of bytes in the UTF-8 encoding of `c`.
pub open spec fn char_utf8_width(c: char) -> nat {
    let u = c as u32;
    if u <= 0x7F {
        1
    } else if u <= 0x7FF {
        2
    } else if u <= 0xFFFF {
        3
    } else {
        4
    }
}

/// Number of bytes in the UTF-8 encoding of `s`.
pub open spec fn utf8_len(s: Seq<char>) -> nat
    decreases s.len(),
{
    if s.len() == 0 {
        0
    } else {
        utf8_len(s.drop_last()) + char_utf8_width(s.last())
    }
}

/// UTF-8 lengths add up over concatenation.
pub proof fn lemma_utf8_len_concat(a: Seq<char>, b: Seq<char>)
    ensures
        utf8_len(a + b) == utf8_len(a) + utf8_len(b),
    decreases b.len(),
{
    if b.len() > 0 {
        lemma_utf8_len_concat(a, b.drop_last());
        assert((a + b).drop_last() == a + b.drop_last());
    } else {
        assert(a + b == a);
    }
}

/// A string holds at least as many UTF-8 bytes as characters.
pub proof fn lemma_utf8_len_bounds(s: Seq<char>)
    ensures
        s.len() <= utf8_len(s) <= 4 * s.len(),
    decreases s.len(),
{
    if s.len() > 0 {
        lemma_utf8_len_bounds(s.drop_last());
    }
}

/// [`utf8_len`] is the length of vstd's UTF-8 encoding, which `str::len` reports.
pub proof fn lemma_utf8_len_is_encoding_len(s: Seq<char>)
    ensures
        utf8_len(s) == vstd::utf8::encode_utf8(s).len(),
    decreases s.len(),
{
    if s.len() > 0 {
        lemma_utf8_len_is_encoding_len(s.drop_first());
        lemma_utf8_len_concat(seq![s[0]], s.drop_first());
        assert(seq![s[0]] + s.drop_first() == s);
        assert(seq![s[0]].drop_last() == Seq::<char>::empty());
        vstd::utf8::char_is_scalar(s[0]);
        assert(vstd::utf8::encode_scalar(s[0] as u32).len() == char_utf8_width(s[0]));
        let one = seq![s[0]];
        assert(one.drop_last() =~= Seq::<char>::empty());
        assert(utf8_len(one.drop_last()) == 0);
        assert(one.last() == s[0]);
        assert(utf8_len(one) == char_utf8_width(s[0]));
        assert(vstd::utf8::encode_utf8(s) == vstd::utf8::encode_scalar(s[0] as u32)
            + vstd::utf8::encode_utf8(s.drop_first()));
    }
}

/// The byte length that `str::len` reports for a string with characters `s`.
pub open spec fn str_len(s: Seq<char>) -> usize {
    vstd::utf8::encode_utf8(s).len() as usize
}

/// Number of bytes in the UTF-8 encoding of `c`.
pub fn char_width(c: char) -> (r: usize)
    ensures
        r == char_utf8_width(c),
{
    let u = c as u32;
    if u <= 0x7F {
        1
    } else if u <= 0x7FF {
        2
    } else if u <= 0xFFFF {
        3
    } else {
        4
    }
}

/// Number of bytes in the UTF-8 encoding of `v`.
pub fn utf8_len_of(v: &Vec<char>) -> (r: usize)
    requires
        4 * v@.len() <= usize::MAX,
    ensures
        r == utf8_len(v@),
{
    let mut n: usize = 0;
    let mut i: usize = 0;
    while i < v.len()
        invariant
            i <= v.len(),
            4 * v@.len() <= usize::MAX,
            n == utf8_len(v@.take(i as int)),
            n <= 4 * i,
        decreases v.len() - i,
    {
        assert(v@.take(i + 1).drop_last() == v@.take(i as int));
        n = n + char_width(v[i]);
        i += 1;
    }
    assert(v@.take(v.len() as int) == v@);
    n
}

/// `n` capped at `usize::MAX`.
pub open spec fn sat_usize(n: nat) -> usize {
    if n > usize::MAX {
        usize::MAX
    } else {
        n as usize
    }
}

/// Number of bytes in the UTF-8 encoding of `v`, saturated at `usize::MAX`.
pub fn utf8_len_sat(v: &Vec<char>) -> (r: usize)
    ensures
        r == sat_usize(utf8_len(v@)),
{
    let mut n: usize = 0;
    let mut i: usize = 0;
    while i < v.len()
        invariant
            i <= v.len(),
            n == sat_usize(utf8_len(v@.take(i as int))),
        decreases v.len() - i,
    {
        assert(v@.take(i + 1).drop_last() == v@.take(i as int));
        n = n.saturating_add(char_width(v[i]));
        i += 1;
    }
    assert(v@.take(v.len() as int) == v@);
    n
}

/// The first `n` characters of `v`.
pub fn prefix_chars(v: &Vec<char>, n: usize) -> (r: Vec<char>)
    requires
        n <= v@.len(),
    ensures
        r@ == v@.take(n as int),
{
    let mut out: Vec<char> = Vec::new();
    let mut i: usize = 0;
    while i < n
        invariant
            i <= n <= v@.len(),
            out@ == v@.take(i as int),
        decreases n - i,
    {
        out.push(v[i]);
        assert(v@.take(i + 1) == v@.take(i as int).push(v@[i as int]));
        i += 1;
    }
    out
}

/// Number of leading characters of `s`, from index `i` on, that still fit
/// in `cap` bytes when `acc` bytes are already used.
pub open spec fn fit_prefix_from(s: Seq<char>, i: int, acc: int, cap: int) -> int
    decreases s.len() - i,
{
    if i < 0 || i >= s.len() || acc + char_utf8_width(s[i]) > cap {
        i
    } else {
        fit_prefix_from(s, i + 1, acc + char_utf8_width(s[i]), cap)
    }
}

/// Number of leading characters of `s` whose UTF-8 encoding fits in `cap`
/// bytes: the largest character boundary at or below `cap`.
pub open spec fn fit_prefix(s: Seq<char>, cap: int) -> int {
    fit_prefix_from(s, 0, 0, cap)
}

/// Decimal digits of `n`.
pub open spec fn decimal(n: nat) -> Seq<char>
    decreases n,
{
    if n < 10 {
        seq![digit_char(n)]
    } else {
        decimal(n / 10).push(digit_char(n % 10))
    }
}

/// The ASCII digit for `d < 10`.
pub open spec fn digit_char(d: nat) -> char {
    if d == 0 {
        '0'
    } else if d == 1 {
        '1'
    } else if d == 2 {
        '2'
    } else if d == 3 {
        '3'
    } else if d == 4 {
        '4'
    } else if d == 5 {
        '5'
    } else if d == 6 {
        '6'
    } else if d == 7 {
        '7'
    } else if d == 8 {
        '8'
    } else {
        '9'
    }
}

fn digit_char_exec(d: usize) -> (r: char)
    requires
        d < 10,
    ensures
        r == digit_char(d as nat),
{
    if d == 0 {
        '0'
    } else if d == 1 {
        '1'
    } else if d == 2 {
        '2'
    } else if d == 3 {
        '3'
    } else if d == 4 {
        '4'
    } else if d == 5 {
        '5'
    } else if d == 6 {
        '6'
    } else if d == 7 {
        '7'
    } else if d == 8 {
        '8'
    } else {
        '9'
    }
}

/// Appends the decimal digits of `n` to `out`.
pub fn push_decimal(out: &mut Vec<char>, n: usize)
    ensures
        final(out)@ == old(out)@ + decimal(n as nat),
    decreases n,
{
    if n < 10 {
        out.push(digit_char_exec(n));
    } else {
        push_decimal(out, n / 10);
        out.push(digit_char_exec(n % 10));
        proof {
            assert(old(out)@ + decimal(n as nat) == (old(out)@ + decimal((n / 10) as nat)).push(
                digit_char((n % 10) as nat),
            ));
        }
    }
}

/// Appends the decimal digits of the 64-bit `n` to `out`.
pub fn push_decimal_u64(out: &mut Vec<char>, n: u64)
    ensures
        final(out)@ == old(out)@ + decimal(n as nat),
    decreases n,
{
    if n < 10 {
        out.push(digit_char_exec(n as usize));
    } else {
        push_decimal_u64(out, n / 10);
        out.push(digit_char_exec((n % 10) as usize));
        proof {
            assert(old(out)@ + decimal(n as nat) == (old(out)@ + decimal((n / 10) as nat)).push(
                digit_char((n % 10) as nat),
            ));
        }
    }
}

/// Appends the characters of `s` to `out`.
pub fn push_str_chars(out: &mut Vec<char>, s: &str)
    ensures
        final(out)@ == old(out)@ + s@,
{
    let v = chars_of(s);
    push_all(out, &v);
}

/// Appends `v` to `out`.
pub fn push_all(out: &mut Vec<char>, v: &Vec<char>)
    ensures
        final(out)@ == old(out)@ + v@,
{
    let mut i: usize = 0;
    while i < v.len()
        invariant
            i <= v.len(),
            out@ == old(out)@ + v@.take(i as int),
        decreases v.len() - i,
    {
        out.push(v[i]);
        assert(v@.take(i + 1) == v@.take(i as int).push(v@[i as int]));
        i += 1;
    }
    assert(v@.take(v.len() as int) == v@);
}

/// The lines of `t` as `str::lines` yields them: split at line feeds, a
/// carriage return just before a line feed dropped, and no empty line after a
/// final line feed.
pub open spec fn text_lines(t: Seq<char>) -> Seq<Seq<char>>
    decreases t.len(),
{
    if t.len() == 0 {
        Seq::empty()
    } else {
        proof {
            lemma_first_newline(t, 0);
        }
        let i = first_newline(t, 0);
        if i >= t.len() {
            seq![t]
        } else {
            let raw = t.take(i);
            let line = if raw.len() > 0 && raw.last() == '\r' {
                raw.drop_last()
            } else {
                raw
            };
            seq![line] + text_lines(t.skip(i + 1))
        }
    }
}

/// Index of the first line feed at or after `from` (or the length when none).
pub open spec fn first_newline(t: Seq<char>, from: int) -> int
    decreases t.len() - from,
{
    if from < 0 || from >= t.len() {
        t.len() as int
    } else if t[from] == '\n' {
        from
    } else {
        first_newline(t, from + 1)
    }
}

pub proof fn lemma_first_newline(t: Seq<char>, from: int)
    requires
        0 <= from <= t.len(),
    ensures
        from <= first_newline(t, from) <= t.len(),
        first_newline(t, from) < t.len() ==> t[first_newline(t, from)] == '\n',
        forall|j: int| from <= j < first_newline(t, from) ==> t[j] != '\n',
    decreases t.len() - from,
{
    if from < t.len() && t[from] != '\n' {
        lemma_first_newline(t, from + 1);
    }
}

/// Splits `t` into its [`text_lines`].
pub fn split_lines(t: &Vec<char>) -> (r: Vec<Vec<char>>)
    ensures
        r@.len() == text_lines(t@).len(),
        forall|k: int| 0 <= k < r@.len() ==> #[trigger] r@[k]@ == text_lines(t@)[k],
{
    let mut out: Vec<Vec<char>> = Vec::new();
    let mut pos: usize = 0;
    assert(t@.skip(0) == t@);
    assert(out@.map_values(|v: Vec<char>| v@) == Seq::<Seq<char>>::empty());
    while pos < t.len()
        invariant
            pos <= t.len(),
            text_lines(t@) == out@.map_values(|v: Vec<char>| v@) + text_lines(t@.skip(pos as int)),
        decreases t.len() - pos,
    {
        let mut i = pos;
        while i < t.len() && t[i] != '\n'
            invariant
                pos <= i <= t.len(),
                forall|j: int| pos <= j < i ==> t@[j] != '\n',
            decreases t.len() - i,
        {
            i += 1;
        }
        let ghost rest = t@.skip(pos as int);
        proof {
            lemma_first_newline(rest, 0);
            assert forall|j: int| 0 <= j < i - pos implies rest[j] != '\n' by {
                assert(rest[j] == t@[pos + j]);
            }
            if i < t.len() {
                assert(rest[i - pos] == '\n');
            }
            lemma_first_newline_at(rest, (i - pos) as int);
        }
        let mut line: Vec<char> = Vec::new();
        let mut end = i;
        if i < t.len() && end > pos && t[end - 1] == '\r' {
            end = end - 1;
        }
        let mut k = pos;
        while k < end
            invariant
                pos <= k <= end <= i <= t.len(),
                line@ == t@.subrange(pos as int, k as int),
            decreases end - k,
        {
            line.push(t[k]);
            assert(t@.subrange(pos as int, k + 1) == t@.subrange(pos as int, k as int).push(
                t@[k as int],
            ));
            k += 1;
        }
        proof {
            if i >= t.len() {
                assert(rest == t@.subrange(pos as int, i as int));
            } else {
                assert(rest.take(i - pos) == t@.subrange(pos as int, i as int));
                assert(rest.skip(i - pos + 1) == t@.skip(i + 1));
            }
        }
        let ghost old_out = out@;
        out.push(line);
        proof {
            assert(out@.map_values(|v: Vec<char>| v@) == old_out.map_values(|v: Vec<char>| v@).push(
                line@,
            ));
        }
        let ghost mapped_old = old_out.map_values(|v: Vec<char>| v@);
        let ghost start_pos = pos;
        if i >= t.len() {
            pos = t.len();
            proof {
                assert(t@.skip(pos as int) == Seq::<char>::empty());
                assert(text_lines(rest) == seq![line@]);
                assert(text_lines(t@.skip(pos as int)) == Seq::<Seq<char>>::empty());
                assert(mapped_old + text_lines(rest) == mapped_old.push(line@) + text_lines(
                    t@.skip(pos as int),
                ));
            }
        } else {
            pos = i + 1;
            proof {
                let raw = rest.take(i - start_pos);
                assert(raw == t@.subrange(start_pos as int, i as int));
                if end < i {
                    assert(line@ == raw.drop_last());
                } else {
                    assert(line@ == raw);
                }
                assert(text_lines(rest) == seq![line@] + text_lines(t@.skip(pos as int)));
                assert(mapped_old + text_lines(rest) == mapped_old.push(line@) + text_lines(
                    t@.skip(pos as int),
                ));
            }
        }
    }
    assert(t@.skip(pos as int) == Seq::<char>::empty());
    assert(text_lines(t@) == out@.map_values(|v: Vec<char>| v@));
    out
}

proof fn lemma_first_newline_at(t: Seq<char>, i: int)
    requires
        0 <= i <= t.len(),
        forall|j: int| 0 <= j < i ==> t[j] != '\n',
        i == t.len() || t[i] == '\n',
    ensures
        first_newline(t, 0) == i,
{
    lemma_first_newline(t, 0);
}

} // verus!
