//! The native `text_editor` tool of the Messages API: line-numbered views and the patches
//! that its create, replace and insert commands turn into.
use vstd::prelude::*;
use crate::errors::FunctionCallError;
use crate::search::{count_matches, match_count, replace_first, replace_first_exec};
use crate::text::{
    chars_of, decimal, is_whitespace_char, is_ws, split_lines, text_lines, first_newline, lemma_first_newline, push_all, push_char, push_decimal,
    push_str_chars, string_from_chars,
};

verus! {

/// Patch body lines for `t`: each line of `t` (split after every line feed)
/// with `prefix` in front and exactly one line feed after it.
pub open spec fn patch_lines(prefix: char, t: Seq<char>) -> Seq<char>
    decreases t.len(),
{
    if t.len() == 0 {
        Seq::empty()
    } else {
        proof {
            lemma_first_newline(t, 0);
        }
        let i = first_newline(t, 0);
        if i >= t.len() {
            seq![prefix] + t + seq!['\n']
        } else {
            seq![prefix] + t.take(i) + seq!['\n'] + patch_lines(prefix, t.skip(i + 1))
        }
    }
}

/// Appends the patch body lines of `text` with `prefix` to `patch`.
pub fn append_patch_lines(patch: &mut String, prefix: char, text: &str)
    ensures
        final(patch)@ == old(patch)@ + patch_lines(prefix, text@),
{
    let t = chars_of(text);
    let mut pos: usize = 0;
    assert(t@.skip(0) == t@);
    while pos < t.len()
        invariant
            pos <= t@.len(),
            t@ == text@,
            patch@ + patch_lines(prefix, t@.skip(pos as int)) == old(patch)@ + patch_lines(
                prefix,
                text@,
            ),
        decreases t.len() - pos,
    {
        let ghost rest = t@.skip(pos as int);
        let ghost before = patch@;
        push_char(patch, prefix);
        let mut i = pos;
        while i < t.len() && t[i] != '\n'
            invariant
                pos <= i <= t@.len(),
                forall|j: int| pos <= j < i ==> t@[j] != '\n',
                patch@ == before.push(prefix) + t@.subrange(pos as int, i as int),
            decreases t.len() - i,
        {
            push_char(patch, t[i]);
            assert(t@.subrange(pos as int, i + 1) == t@.subrange(pos as int, i as int).push(
                t@[i as int],
            ));
            i += 1;
        }
        push_char(patch, '\n');
        proof {
            lemma_first_newline(rest, 0);
            assert forall|j: int| 0 <= j < i - pos implies rest[j] != '\n' by {
                assert(rest[j] == t@[pos + j]);
            }
            if i < t.len() {
                assert(rest[i - pos] == '\n');
            }
            lemma_first_newline_is(rest, (i - pos) as int);
            assert(rest.take(i - pos) == t@.subrange(pos as int, i as int));
            if i < t.len() {
                assert(rest.skip(i - pos + 1) == t@.skip(i + 1));
            } else {
                assert(rest == t@.subrange(pos as int, i as int));
                assert(t@.skip(i as int) == Seq::<char>::empty());
            }
        }
        if i < t.len() {
            pos = i + 1;
        } else {
            pos = i;
        }
        proof {
            assert(patch@ + patch_lines(prefix, t@.skip(pos as int)) == before + patch_lines(
                prefix,
                rest,
            ));
        }
    }
    assert(t@.skip(pos as int) == Seq::<char>::empty());
}

proof fn lemma_first_newline_is(t: Seq<char>, i: int)
    requires
        0 <= i <= t.len(),
        forall|j: int| 0 <= j < i ==> t[j] != '\n',
        i == t.len() || t[i] == '\n',
    ensures
        first_newline(t, 0) == i,
{
    lemma_first_newline(t, 0);
}

/// The patch that creates `path` with `file_text`.
pub open spec fn create_patch_text(path: Seq<char>, file_text: Seq<char>) -> Seq<char> {
    "*** Begin Patch\n*** Add File: "@ + path + "\n"@ + patch_lines('+', file_text)
        + "*** End Patch"@
}

/// The patch that replaces the whole of `current` in `path` by `updated`.
pub open spec fn update_patch_text(path: Seq<char>, current: Seq<char>, updated: Seq<char>) -> Seq<
    char,
> {
    "*** Begin Patch\n*** Update File: "@ + path + "\n@@\n"@ + patch_lines('-', current)
        + patch_lines('+', updated) + "*** End Patch"@
}

fn string_of(s: &str) -> (r: String)
    ensures
        r@ == s@,
{
    s.to_string()
}

fn append_str(out: &mut String, s: &str)
    ensures
        final(out)@ == old(out)@ + s@,
{
    let v = chars_of(s);
    let mut i: usize = 0;
    while i < v.len()
        invariant
            i <= v@.len(),
            v@ == s@,
            out@ == old(out)@ + v@.take(i as int),
        decreases v.len() - i,
    {
        push_char(out, v[i]);
        assert(v@.take(i + 1) == v@.take(i as int).push(v@[i as int]));
        i += 1;
    }
    assert(v@.take(v.len() as int) == v@);
}

/// The patch that creates `path` with `file_text`.
pub fn create_file_patch(path: &str, file_text: &str) -> (r: String)
    ensures
        r@ == create_patch_text(path@, file_text@),
{
    let mut patch = string_of("*** Begin Patch\n*** Add File: ");
    append_str(&mut patch, path);
    append_str(&mut patch, "\n");
    append_patch_lines(&mut patch, '+', file_text);
    append_str(&mut patch, "*** End Patch");
    patch
}

/// The patch that replaces the whole of `current` in `path` by `updated`.
pub fn update_file_patch(path: &str, current: &str, updated: &str) -> (r: String)
    ensures
        r@ == update_patch_text(path@, current@, updated@),
{
    let mut patch = string_of("*** Begin Patch\n*** Update File: ");
    append_str(&mut patch, path);
    append_str(&mut patch, "\n@@\n");
    append_patch_lines(&mut patch, '-', current);
    append_patch_lines(&mut patch, '+', updated);
    append_str(&mut patch, "*** End Patch");
    patch
}

/// The pieces of `t` split after every line feed, each keeping its line
/// feed (`str::split_inclusive`); none for empty text.
pub open spec fn inclusive_lines(t: Seq<char>) -> Seq<Seq<char>>
    decreases t.len(),
{
    if t.len() == 0 {
        Seq::empty()
    } else {
        proof {
            lemma_first_newline(t, 0);
        }
        let i = first_newline(t, 0);
        if i >= t.len() {
            seq![t]
        } else {
            seq![t.take(i + 1)] + inclusive_lines(t.skip(i + 1))
        }
    }
}

/// The concatenation of `pieces`.
pub open spec fn concat(pieces: Seq<Seq<char>>) -> Seq<char>
    decreases pieces.len(),
{
    if pieces.len() == 0 {
        Seq::empty()
    } else {
        concat(pieces.drop_last()) + pieces.last()
    }
}

/// `current` with `new_str` inserted after its first `k` lines, followed by
/// a line feed unless it ends with one.
pub open spec fn inserted_text(current: Seq<char>, k: int, new_str: Seq<char>) -> Seq<char> {
    let lines = inclusive_lines(current);
    concat(lines.take(k)) + new_str + (if new_str.len() > 0 && new_str.last() == '\n' {
        Seq::empty()
    } else {
        seq!['\n']
    }) + concat(lines.skip(k))
}

proof fn lemma_concat_prepend(a: Seq<char>, s: Seq<Seq<char>>)
    ensures
        concat(seq![a] + s) == a + concat(s),
    decreases s.len(),
{
    let t = seq![a] + s;
    if s.len() == 0 {
        assert(t =~= seq![a]);
        assert(t.drop_last() =~= Seq::<Seq<char>>::empty());
        assert(concat(t) == concat(t.drop_last()) + t.last());
        assert(concat(t.drop_last()) == Seq::<char>::empty());
        assert(Seq::<char>::empty() + a =~= a);
        assert(concat(s) == Seq::<char>::empty());
        assert(a + Seq::<char>::empty() =~= a);
    } else {
        assert(t.drop_last() =~= seq![a] + s.drop_last());
        assert(t.last() == s.last());
        lemma_concat_prepend(a, s.drop_last());
        assert(concat(t) == concat(t.drop_last()) + t.last());
        assert(concat(s) == concat(s.drop_last()) + s.last());
        assert(a + concat(s.drop_last()) + s.last() =~= a + (concat(s.drop_last()) + s.last()));
    }
}

/// The number of line feeds in `s`.
pub open spec fn newlines(s: Seq<char>) -> nat
    decreases s.len(),
{
    if s.len() == 0 {
        0
    } else {
        newlines(s.drop_last()) + if s.last() == '\n' {
            1nat
        } else {
            0nat
        }
    }
}

proof fn lemma_newlines_append(a: Seq<char>, b: Seq<char>)
    ensures
        newlines(a + b) == newlines(a) + newlines(b),
    decreases b.len(),
{
    if b.len() == 0 {
        assert(a + b =~= a);
    } else {
        lemma_newlines_append(a, b.drop_last());
        assert((a + b).drop_last() =~= a + b.drop_last());
        assert((a + b).last() == b.last());
    }
}

proof fn lemma_newlines_none(s: Seq<char>)
    requires
        forall|j: int| 0 <= j < s.len() ==> s[j] != '\n',
    ensures
        newlines(s) == 0,
    decreases s.len(),
{
    if s.len() > 0 {
        lemma_newlines_none(s.drop_last());
    }
}

/// The line feeds in the first `k` of `s`, each of which holds exactly one.
proof fn lemma_newlines_concat(s: Seq<Seq<char>>, k: int)
    requires
        0 <= k <= s.len(),
        forall|j: int| 0 <= j < k ==> #[trigger] newlines(s[j]) == 1,
    ensures
        newlines(concat(s.take(k))) == k,
    decreases k,
{
    if k == 0 {
        assert(s.take(0) =~= Seq::<Seq<char>>::empty());
    } else {
        lemma_newlines_concat(s, k - 1);
        assert(s.take(k).drop_last() =~= s.take(k - 1));
        assert(s.take(k).last() == s[k - 1]);
        lemma_newlines_append(concat(s.take(k - 1)), s[k - 1]);
    }
}

/// Joining the lines of `t` gives `t` back; every line is non-empty and
/// every line but the last ends with a line feed.
proof fn lemma_inclusive_lines(t: Seq<char>)
    ensures
        concat(inclusive_lines(t)) == t,
        forall|j: int| 0 <= j < inclusive_lines(t).len() ==> #[trigger] inclusive_lines(t)[j].len() > 0,
        forall|j: int|
            0 <= j < inclusive_lines(t).len() - 1 ==> #[trigger] inclusive_lines(t)[j].last() == '\n',
        forall|j: int|
            0 <= j < inclusive_lines(t).len() ==> #[trigger] newlines(inclusive_lines(t)[j]) == if inclusive_lines(
                t,
            )[j].last() == '\n' {
                1nat
            } else {
                0nat
            },
    decreases t.len(),
{
    if t.len() > 0 {
        lemma_first_newline(t, 0);
        let i = first_newline(t, 0);
        if i >= t.len() {
            let all = inclusive_lines(t);
            assert(all == seq![t]);
            assert(all.drop_last() =~= Seq::<Seq<char>>::empty());
            assert(concat(all) == concat(all.drop_last()) + all.last());
            assert(concat(all.drop_last()) == Seq::<char>::empty());
            assert(Seq::<char>::empty() + t =~= t);
            lemma_newlines_none(t);
        } else {
            let rest = inclusive_lines(t.skip(i + 1));
            lemma_inclusive_lines(t.skip(i + 1));
            lemma_concat_prepend(t.take(i + 1), rest);
            assert(t.take(i + 1) + t.skip(i + 1) =~= t);
            let all = inclusive_lines(t);
            assert(all == seq![t.take(i + 1)] + rest);
            assert forall|j: int| 0 <= j < all.len() implies #[trigger] all[j].len() > 0 by {
                if j > 0 {
                    assert(all[j] == rest[j - 1]);
                }
            }
            assert forall|j: int| 0 <= j < all.len() - 1 implies #[trigger] all[j].last() == '\n' by {
                if j > 0 {
                    assert(all[j] == rest[j - 1]);
                } else {
                    assert(t.take(i + 1).last() == t[i]);
                }
            }
            let first = t.take(i + 1);
            assert(first.drop_last() =~= t.take(i));
            lemma_newlines_none(t.take(i));
            assert(first.last() == t[i]);
            assert forall|j: int| 0 <= j < all.len() implies #[trigger] newlines(all[j]) == if all[j].last()
                == '\n' {
                1nat
            } else {
                0nat
            } by {
                if j > 0 {
                    assert(all[j] == rest[j - 1]);
                }
            }
        }
    }
}

proof fn lemma_concat_split(s: Seq<Seq<char>>, k: int)
    requires
        0 <= k <= s.len(),
    ensures
        concat(s.take(k)) + concat(s.skip(k)) == concat(s),
    decreases s.len(),
{
    if k == s.len() {
        assert(s.take(k) =~= s);
        assert(s.skip(k) =~= Seq::<Seq<char>>::empty());
        assert(concat(s) + Seq::<char>::empty() =~= concat(s));
    } else {
        let d = s.drop_last();
        lemma_concat_split(d, k);
        assert(d.take(k) =~= s.take(k));
        assert(s.skip(k).drop_last() =~= d.skip(k));
        assert(s.skip(k).last() == s.last());
        assert(concat(s.take(k)) + (concat(d.skip(k)) + s.last()) =~= (concat(d.take(k)) + concat(
            d.skip(k),
        )) + s.last());
    }
}

/// Inserting after line `k` puts `new_str` in at a line boundary `p` of
/// `current` (its start, its end, or just after a line feed), keeping all
/// of `current` around it, and adds a line feed only when `new_str` does
/// not already end with one: a `new_str` ending in a line feed grows the
/// text by exactly its own length.
pub proof fn law_insert_adds_exactly_the_new_text(current: Seq<char>, k: int, new_str: Seq<char>)
    requires
        0 <= k <= inclusive_lines(current).len(),
    ensures
        new_str.len() > 0 && new_str.last() == '\n' ==> inserted_text(current, k, new_str).len()
            == current.len() + new_str.len(),
        !(new_str.len() > 0 && new_str.last() == '\n') ==> inserted_text(current, k, new_str).len()
            == current.len() + new_str.len() + 1,
        exists|p: int|
            0 <= p <= current.len() && (p == 0 || p == current.len() || current[p - 1] == '\n')
                && inserted_text(current, k, new_str).take(p) == #[trigger] current.take(p)
                && inserted_text(current, k, new_str).subrange(p, p + new_str.len()) == new_str
                && inserted_text(current, k, new_str).skip(
                inserted_text(current, k, new_str).len() - (current.len() - p),
            ) == current.skip(p) && (p < current.len() ==> newlines(current.take(p)) == k) && (p
                == current.len() ==> (newlines(current) == k || (newlines(current) + 1 == k
                && current.last() != '\n'))),
{
    let lines = inclusive_lines(current);
    lemma_inclusive_lines(current);
    lemma_concat_split(lines, k);
    let pre = concat(lines.take(k));
    let post = concat(lines.skip(k));
    let nl: Seq<char> = if new_str.len() > 0 && new_str.last() == '\n' {
        Seq::empty()
    } else {
        seq!['\n']
    };
    let r = inserted_text(current, k, new_str);
    assert(r == pre + new_str + nl + post);
    let p = pre.len() as int;
    assert(current == pre + post);
    assert(current.take(p) =~= pre);
    assert(current.skip(p) =~= post);
    assert(r.take(p) =~= pre);
    assert(r.subrange(p, p + new_str.len()) =~= new_str);
    assert(r.skip(r.len() - (current.len() - p)) =~= post);
    assert forall|j: int| 0 <= j < k && j < lines.len() - 1 implies #[trigger] newlines(lines[j]) == 1 by {
        assert(lines[j].last() == '\n');
    }
    if k < lines.len() {
        lemma_newlines_concat(lines, k);
        let ls = lines.skip(k);
        assert(ls.last() == lines[lines.len() - 1]);
        assert(post == concat(ls.drop_last()) + ls.last());
        assert(post.len() > 0);
    } else if lines.len() > 0 {
        let j = lines.len() - 1;
        lemma_newlines_concat(lines, j);
        assert(lines.take(k) =~= lines);
        assert(lines.take(k).drop_last() =~= lines.take(j));
        assert(pre == concat(lines.take(j)) + lines[j]);
        lemma_newlines_append(concat(lines.take(j)), lines[j]);
        assert(current.take(p) =~= current);
        assert(current.last() == lines[j].last());
    } else {
        assert(lines.take(k) =~= Seq::<Seq<char>>::empty());
        assert(current.len() == 0);
    }
    if 0 < k < lines.len() {
        let lk = lines.take(k);
        assert(lk.last() == lines[k - 1]);
        assert(lines[k - 1].len() > 0);
        assert(pre == concat(lk.drop_last()) + lk.last());
        assert(pre[p - 1] == lines[k - 1].last());
        assert(current[p - 1] == pre[p - 1]);
    } else if k == lines.len() {
        assert(lines.skip(k) =~= Seq::<Seq<char>>::empty());
        assert(post.len() == 0);
    } else {
        assert(lines.take(0) =~= Seq::<Seq<char>>::empty());
    }
}

pub open spec fn msg_insert_line_too_large(k: nat, count: nat) -> Seq<char> {
    "Text editor insert_line "@ + decimal(k) + " exceeds file line count "@ + decimal(count)
}

/// Splits `t` into its [`inclusive_lines`].
fn split_inclusive_lines(t: &Vec<char>) -> (r: Vec<Vec<char>>)
    ensures
        r@.len() == inclusive_lines(t@).len(),
        forall|k: int| 0 <= k < r@.len() ==> #[trigger] r@[k]@ == inclusive_lines(t@)[k],
{
    let mut out: Vec<Vec<char>> = Vec::new();
    let mut pos: usize = 0;
    assert(t@.skip(0) == t@);
    while pos < t.len()
        invariant
            pos <= t@.len(),
            inclusive_lines(t@) == out@.map_values(|v: Vec<char>| v@) + inclusive_lines(
                t@.skip(pos as int),
            ),
        decreases t.len() - pos,
    {
        let ghost rest = t@.skip(pos as int);
        let mut line: Vec<char> = Vec::new();
        let mut i = pos;
        while i < t.len() && t[i] != '\n'
            invariant
                pos <= i <= t@.len(),
                forall|j: int| pos <= j < i ==> t@[j] != '\n',
                line@ == t@.subrange(pos as int, i as int),
            decreases t.len() - i,
        {
            line.push(t[i]);
            assert(t@.subrange(pos as int, i + 1) == t@.subrange(pos as int, i as int).push(
                t@[i as int],
            ));
            i += 1;
        }
        proof {
            lemma_first_newline(rest, 0);
            assert forall|j: int| 0 <= j < i - pos implies rest[j] != '\n' by {
                assert(rest[j] == t@[pos + j]);
            }
            if i < t.len() {
                assert(rest[i - pos] == '\n');
            }
            lemma_first_newline_is(rest, (i - pos) as int);
        }
        if i < t.len() {
            line.push('\n');
            proof {
                assert(t@.subrange(pos as int, i + 1) == t@.subrange(pos as int, i as int).push(
                    t@[i as int],
                ));
                assert(rest.take(i - pos + 1) == t@.subrange(pos as int, i + 1));
                assert(rest.skip(i - pos + 1) == t@.skip(i + 1));
            }
        } else {
            proof {
                assert(rest == t@.subrange(pos as int, i as int));
            }
        }
        let ghost old_out = out@;
        out.push(line);
        proof {
            assert(out@.map_values(|v: Vec<char>| v@) == old_out.map_values(|v: Vec<char>| v@).push(
                line@,
            ));
        }
        if i < t.len() {
            pos = i + 1;
        } else {
            pos = i;
            assert(t@.skip(pos as int) == Seq::<char>::empty());
        }
        proof {
            let m = old_out.map_values(|v: Vec<char>| v@);
            assert(inclusive_lines(rest) == seq![line@] + inclusive_lines(t@.skip(pos as int)));
            assert(m + inclusive_lines(rest) == m.push(line@) + inclusive_lines(t@.skip(pos as int)));
        }
    }
    assert(t@.skip(pos as int) == Seq::<char>::empty());
    assert(inclusive_lines(t@) == out@.map_values(|v: Vec<char>| v@));
    out
}

/// `current` with `new_str` inserted after line `insert_line` (0: before
/// the first line).
pub fn insert_after_line(current: &str, insert_line: usize, new_str: &str) -> (r: Result<
    String,
    FunctionCallError,
>)
    ensures
        insert_line > inclusive_lines(current@).len() ==> (r matches Err(e) && e.message_view()
            == msg_insert_line_too_large(insert_line as nat, inclusive_lines(current@).len())),
        insert_line <= inclusive_lines(current@).len() ==> (r matches Ok(u) && u@ == inserted_text(
            current@,
            insert_line as int,
            new_str@,
        )),
{
    let t = chars_of(current);
    let lines = split_inclusive_lines(&t);
    let ghost all = inclusive_lines(current@);
    if insert_line > lines.len() {
        let mut m = chars_of("Text editor insert_line ");
        push_decimal(&mut m, insert_line);
        push_str_chars(&mut m, " exceeds file line count ");
        push_decimal(&mut m, lines.len());
        return Err(FunctionCallError::RespondToModel(string_from_chars(m.as_slice())));
    }
    let mut out: Vec<char> = Vec::new();
    let mut j: usize = 0;
    assert(all.take(0) == Seq::<Seq<char>>::empty());
    while j < insert_line
        invariant
            j <= insert_line <= lines@.len(),
            lines@.len() == all.len(),
            forall|k: int| 0 <= k < lines@.len() ==> #[trigger] lines@[k]@ == all[k],
            out@ == concat(all.take(j as int)),
        decreases insert_line - j,
    {
        push_all(&mut out, &lines[j]);
        assert(all.take(j + 1).drop_last() == all.take(j as int));
        j += 1;
    }
    let ghost prefix = out@;
    let n = chars_of(new_str);
    push_all(&mut out, &n);
    if !(n.len() > 0 && n[n.len() - 1] == '\n') {
        out.push('\n');
    }
    let ghost middle = out@;
    let mut j = insert_line;
    assert(all.subrange(insert_line as int, insert_line as int) == Seq::<Seq<char>>::empty());
    while j < lines.len()
        invariant
            insert_line <= j <= lines@.len(),
            lines@.len() == all.len(),
            forall|k: int| 0 <= k < lines@.len() ==> #[trigger] lines@[k]@ == all[k],
            out@ == middle + concat(all.subrange(insert_line as int, j as int)),
        decreases lines.len() - j,
    {
        push_all(&mut out, &lines[j]);
        assert(all.subrange(insert_line as int, j + 1).drop_last() == all.subrange(
            insert_line as int,
            j as int,
        ));
        j += 1;
    }
    assert(all.subrange(insert_line as int, all.len() as int) == all.skip(insert_line as int));
    Ok(string_from_chars(out.as_slice()))
}

pub open spec fn msg_required_arg(command: Seq<char>, field: Seq<char>) -> Seq<char> {
    "Text editor "@ + command + " requires `"@ + field + "`"@
}

/// The value of a required argument `field` of `command`.
pub fn required_arg(value: Option<String>, field: &str, command: &str) -> (r: Result<
    String,
    FunctionCallError,
>)
    ensures
        match value {
            Some(v) => r matches Ok(x) && x@ == v@,
            None => r matches Err(e) && e.message_view() == msg_required_arg(command@, field@),
        },
{
    match value {
        Some(v) => Ok(v),
        None => {
            let mut m = chars_of("Text editor ");
            push_str_chars(&mut m, command);
            push_str_chars(&mut m, " requires `");
            push_str_chars(&mut m, field);
            push_str_chars(&mut m, "`");
            Err(FunctionCallError::RespondToModel(string_from_chars(m.as_slice())))
        },
    }
}

/// The error for a failed filesystem operation of the text editor.
pub fn text_editor_io_error(message: &str) -> (r: FunctionCallError)
    ensures
        r.message_view() == "Text editor filesystem error: "@ + message@,
{
    let mut m = chars_of("Text editor filesystem error: ");
    push_str_chars(&mut m, message);
    FunctionCallError::RespondToModel(string_from_chars(m.as_slice()))
}

/// `n` in decimal, right-aligned in six columns (`{:>6}`).
pub open spec fn pad6(n: nat) -> Seq<char> {
    let d = decimal(n);
    if d.len() < 6 {
        Seq::new((6 - d.len()) as nat, |_i: int| ' ') + d
    } else {
        d
    }
}

/// The view of line index `i`: its number, a tab, and the line.
pub open spec fn view_entry(i: int, line: Seq<char>) -> Seq<char> {
    pad6((i + 1) as nat) + "\t"@ + line
}

/// The views of line indices `a..b`, joined by line feeds.
pub open spec fn view_join(lines: Seq<Seq<char>>, a: int, b: int) -> Seq<char>
    decreases b - a,
{
    if b <= a {
        Seq::empty()
    } else if b == a + 1 {
        view_entry(a, lines[a])
    } else {
        view_join(lines, a, b - 1) + "\n"@ + view_entry(b - 1, lines[b - 1])
    }
}

/// The 1-based first and last line a view asks for among `n` lines, or
/// `None` when the range is malformed.
pub open spec fn view_bounds(n: nat, range: Option<Seq<i64>>) -> Option<(usize, usize)> {
    match range {
        None => Some((1usize, n as usize)),
        Some(r) => if r.len() == 2 && r[0] > 0 && (r[1] == -1 || r[1] >= r[0]) {
            Some(
                (
                    r[0] as usize,
                    if r[1] == -1 {
                        n as usize
                    } else if (r[1] as usize) < n {
                        r[1] as usize
                    } else {
                        n as usize
                    },
                ),
            )
        } else {
            None
        },
    }
}

/// Index after the last line shown for bounds `start..=end` among `n` lines:
/// from index `start - 1`, `end - start + 1` lines (saturating), at most to
/// the end.
pub open spec fn view_stop(n: nat, start: usize, end: usize) -> int {
    let first = if start == 0 {
        0
    } else {
        start - 1
    };
    let count = if end >= start {
        if end - start + 1 > usize::MAX {
            usize::MAX as int
        } else {
            end - start + 1
        }
    } else {
        1
    };
    if first + count < n {
        first + count
    } else {
        n as int
    }
}

pub open spec fn msg_bad_view_range() -> Seq<char> {
    "Text editor view_range must be [start_line, end_line] with positive line numbers, or end_line -1"@
}

/// The numbered view of the lines of `text` that `view_range` selects.
pub open spec fn numbered_view(text: Seq<char>, range: Option<Seq<i64>>) -> Option<Seq<char>> {
    let lines = text_lines(text);
    match view_bounds(lines.len(), range) {
        None => None,
        Some((start, end)) => Some(
            view_join(
                lines,
                if start == 0 {
                    0
                } else {
                    start - 1
                },
                view_stop(lines.len(), start, end),
            ),
        ),
    }
}

fn push_pad6(out: &mut Vec<char>, n: usize)
    ensures
        final(out)@ == old(out)@ + pad6(n as nat),
{
    let mut d: Vec<char> = Vec::new();
    push_decimal(&mut d, n);
    assert(d@ == decimal(n as nat));
    if d.len() < 6 {
        let pad = 6 - d.len();
        let ghost start = out@;
        let mut k: usize = 0;
        while k < pad
            invariant
                k <= pad,
                out@ == start + Seq::new(k as nat, |_i: int| ' '),
            decreases pad - k,
        {
            out.push(' ');
            assert(Seq::new((k + 1) as nat, |_i: int| ' ') == Seq::new(k as nat, |_i: int| ' ').push(
                ' ',
            ));
            k += 1;
        }
    }
    push_all(out, &d);
}

/// A line-numbered view of `text`, of the lines `view_range` selects (all
/// of them when it is absent).
pub fn line_numbered_view(text: &str, view_range: Option<&[i64]>) -> (r: Result<
    String,
    FunctionCallError,
>)
    ensures
        match numbered_view(
            text@,
            match view_range {
                Some(v) => Some(v@),
                None => None,
            },
        ) {
            None => r matches Err(e) && e.message_view() == msg_bad_view_range(),
            Some(v) => r matches Ok(out) && out@ == v,
        },
{
    let chars = chars_of(text);
    let lines = split_lines(&chars);
    let ghost all = text_lines(text@);
    let n = lines.len();
    let (start, end): (usize, usize) = match view_range {
        Some(r) => {
            if r.len() == 2 && r[0] > 0 && (r[1] == -1 || r[1] >= r[0]) {
                let s = #[verifier::truncate] (r[0] as usize);
                let e: usize = if r[1] == -1 {
                    n
                } else if (#[verifier::truncate] (r[1] as usize)) < n {
                    #[verifier::truncate] (r[1] as usize)
                } else {
                    n
                };
                (s, e)
            } else {
                return Err(
                    FunctionCallError::respond(
                        "Text editor view_range must be [start_line, end_line] with positive line numbers, or end_line -1",
                    ),
                );
            }
        },
        None => (1, n),
    };
    let first = start.saturating_sub(1);
    let count = end.saturating_sub(start).saturating_add(1);
    let stop: usize = if first < n && count < n - first {
        first + count
    } else {
        n
    };
    assert(stop as int == view_stop(n as nat, start, end));
    let mut out: Vec<char> = Vec::new();
    if first < stop {
        let mut i = first;
        while i < stop
            invariant
                first <= i <= stop <= n,
                n == lines@.len(),
                n == all.len(),
                forall|k: int| 0 <= k < lines@.len() ==> #[trigger] lines@[k]@ == all[k],
                out@ == view_join(all, first as int, i as int),
            decreases stop - i,
        {
            if i > first {
                push_str_chars(&mut out, "\n");
            }
            push_pad6(&mut out, i + 1);
            push_str_chars(&mut out, "\t");
            push_all(&mut out, &lines[i]);
            i += 1;
        }
    }
    assert(out@ == view_join(all, first as int, stop as int));
    Ok(string_from_chars(out.as_slice()))
}

/// The text editor handler; `multi_environment` tells whether the session
/// selected several execution environments.
pub struct ClaudeTextEditorHandler {
    pub multi_environment: bool,
}

impl ClaudeTextEditorHandler {
    /// A handler for a session with one or several environments.
    pub fn new(multi_environment: bool) -> (r: Self)
        ensures
            r.multi_environment == multi_environment,
    {
        ClaudeTextEditorHandler { multi_environment }
    }
}

pub open spec fn msg_empty_path() -> Seq<char> {
    "Text editor path must not be empty"@
}

/// A path argument is refused when it is only whitespace (`str::trim`).
pub fn check_text_editor_path(raw_path: &str) -> (r: Result<(), FunctionCallError>)
    ensures
        r is Err <==> (forall|i: int| 0 <= i < raw_path@.len() ==> is_ws(#[trigger] raw_path@[i])),
        r matches Err(e) ==> e.message_view() == msg_empty_path(),
{
    let v = chars_of(raw_path);
    let mut i: usize = 0;
    while i < v.len()
        invariant
            i <= v@.len(),
            v@ == raw_path@,
            forall|j: int| 0 <= j < i ==> is_ws(#[trigger] v@[j]),
        decreases v.len() - i,
    {
        if !is_whitespace_char(v[i]) {
            return Ok(());
        }
        i += 1;
    }
    Err(FunctionCallError::respond("Text editor path must not be empty"))
}

/// `path` with every backslash turned into a slash.
pub open spec fn slashes(path: Seq<char>) -> Seq<char> {
    Seq::new(path.len(), |i: int| if path[i] == '\\' { '/' } else { path[i] })
}

/// Some `/`-separated segment of `p` is `..`.
pub open spec fn has_parent_segment(p: Seq<char>) -> bool {
    exists|i: int|
        0 <= i && i + 2 <= p.len() && #[trigger] p[i] == '.' && p[i + 1] == '.' && (i == 0 || p[i
            - 1] == '/') && (i + 2 == p.len() || p[i + 2] == '/')
}

pub open spec fn msg_path_not_under_workspace() -> Seq<char> {
    "Text editor path must point to a file or directory under the workspace"@
}

pub open spec fn msg_path_traversal() -> Seq<char> {
    "Text editor path traversal is not allowed"@
}

/// The workspace-relative path as a patch names it: slashes only, and no
/// `..` segment.
pub fn relative_path_for_patch(path: &str) -> (r: Result<String, FunctionCallError>)
    ensures
        path@.len() == 0 ==> (r matches Err(e) && e.message_view()
            == msg_path_not_under_workspace()),
        path@.len() > 0 && has_parent_segment(slashes(path@)) ==> (r matches Err(e)
            && e.message_view() == msg_path_traversal()),
        path@.len() > 0 && !has_parent_segment(slashes(path@)) ==> (r matches Ok(v) && v@
            == slashes(path@)),
{
    let v = chars_of(path);
    if v.len() == 0 {
        return Err(
            FunctionCallError::respond(
                "Text editor path must point to a file or directory under the workspace",
            ),
        );
    }
    let mut out: Vec<char> = Vec::new();
    let mut i: usize = 0;
    while i < v.len()
        invariant
            i <= v@.len(),
            v@ == path@,
            out@ == slashes(path@).take(i as int),
        decreases v.len() - i,
    {
        let c = if v[i] == '\\' {
            '/'
        } else {
            v[i]
        };
        out.push(c);
        assert(slashes(path@).take(i + 1) == slashes(path@).take(i as int).push(c));
        i += 1;
    }
    assert(slashes(path@).take(v.len() as int) == slashes(path@));
    let mut j: usize = 0;
    while j < out.len() - 1
        invariant
            out@ == slashes(path@),
            out@.len() >= 1,
            j <= out@.len(),
            forall|k: int|
                0 <= k < j && k + 2 <= out@.len() ==> !(#[trigger] out@[k] == '.' && out@[k + 1] == '.'
                    && (k == 0 || out@[k - 1] == '/') && (k + 2 == out@.len() || out@[k + 2] == '/')),
        decreases out.len() - j,
    {
        if out[j] == '.' && out[j + 1] == '.' && (j == 0 || out[j - 1] == '/') && (j + 2 == out.len()
            || out[j + 2] == '/') {
            return Err(FunctionCallError::respond("Text editor path traversal is not allowed"));
        }
        j += 1;
    }
    Ok(string_from_chars(out.as_slice()))
}

/// The commands of the text editor tool.
pub enum ClaudeTextEditorCommand {
    View,
    Create,
    StrReplace,
    Insert,
    UndoEdit,
}

/// The arguments of a text editor call.
pub struct ClaudeTextEditorArgs {
    pub command: ClaudeTextEditorCommand,
    pub path: String,
    pub file_text: Option<String>,
    pub old_str: Option<String>,
    pub new_str: Option<String>,
    pub insert_line: Option<usize>,
    pub view_range: Option<Vec<i64>>,
}

/// An edit that needs the file's current text.
pub enum TextEditorEdit {
    /// Replace the single occurrence of `old_str` by `new_str`.
    StrReplace { old_str: String, new_str: String },
    /// Insert `new_str` after line `insert_line`.
    Insert { insert_line: usize, new_str: String },
}

/// What a text editor call does next.
pub enum TextEditorAction {
    /// Show the file or directory at the path.
    View,
    /// Apply this patch.
    ApplyPatch(String),
    /// Read the file's current text, then make this edit.
    Edit(TextEditorEdit),
}

pub open spec fn msg_insert_requires_line() -> Seq<char> {
    "Text editor insert requires `insert_line`"@
}

pub open spec fn msg_undo_unavailable() -> Seq<char> {
    "Text editor undo_edit is not available for the active native text editor tool version"@
}

/// Decides what a text editor call does, `patch_path` being its
/// workspace-relative path.
pub fn plan_text_editor_command(args: ClaudeTextEditorArgs, patch_path: &str) -> (r: Result<
    TextEditorAction,
    FunctionCallError,
>)
    ensures
        match args.command {
            ClaudeTextEditorCommand::View => r matches Ok(TextEditorAction::View),
            ClaudeTextEditorCommand::Create => match args.file_text {
                Some(t) => r matches Ok(TextEditorAction::ApplyPatch(p)) && p@ == create_patch_text(
                    patch_path@,
                    t@,
                ),
                None => r matches Err(e) && e.message_view() == msg_required_arg(
                    "create"@,
                    "file_text"@,
                ),
            },
            ClaudeTextEditorCommand::StrReplace => match (args.old_str, args.new_str) {
                (Some(o), Some(n)) => r matches Ok(
                    TextEditorAction::Edit(TextEditorEdit::StrReplace { old_str, new_str }),
                ) && old_str@ == o@ && new_str@ == n@,
                (None, _) => r matches Err(e) && e.message_view() == msg_required_arg(
                    "str_replace"@,
                    "old_str"@,
                ),
                (Some(_), None) => r matches Err(e) && e.message_view() == msg_required_arg(
                    "str_replace"@,
                    "new_str"@,
                ),
            },
            ClaudeTextEditorCommand::Insert => match (args.insert_line, args.new_str) {
                (Some(k), Some(n)) => r matches Ok(
                    TextEditorAction::Edit(TextEditorEdit::Insert { insert_line, new_str }),
                ) && insert_line == k && new_str@ == n@,
                (None, _) => r matches Err(e) && e.message_view() == msg_insert_requires_line(),
                (Some(_), None) => r matches Err(e) && e.message_view() == msg_required_arg(
                    "insert"@,
                    "new_str"@,
                ),
            },
            ClaudeTextEditorCommand::UndoEdit => r matches Err(e) && e.message_view()
                == msg_undo_unavailable(),
        },
{
    match args.command {
        ClaudeTextEditorCommand::View => Ok(TextEditorAction::View),
        ClaudeTextEditorCommand::Create => {
            let file_text = required_arg(args.file_text, "file_text", "create")?;
            Ok(TextEditorAction::ApplyPatch(create_file_patch(patch_path, file_text.as_str())))
        },
        ClaudeTextEditorCommand::StrReplace => {
            let old_str = required_arg(args.old_str, "old_str", "str_replace")?;
            let new_str = required_arg(args.new_str, "new_str", "str_replace")?;
            Ok(TextEditorAction::Edit(TextEditorEdit::StrReplace { old_str, new_str }))
        },
        ClaudeTextEditorCommand::Insert => {
            let insert_line = match args.insert_line {
                Some(k) => k,
                None => {
                    return Err(
                        FunctionCallError::respond(
                            "Text editor insert requires `insert_line`",
                        ),
                    );
                },
            };
            let new_str = required_arg(args.new_str, "new_str", "insert")?;
            Ok(TextEditorAction::Edit(TextEditorEdit::Insert { insert_line, new_str }))
        },
        ClaudeTextEditorCommand::UndoEdit => Err(
            FunctionCallError::respond(
                "Text editor undo_edit is not available for the active native text editor tool version",
            ),
        ),
    }
}

pub open spec fn msg_str_replace_count(m: nat) -> Seq<char> {
    "Text editor str_replace expected exactly one match, found "@ + decimal(m)
}

/// The patch an edit makes of the file's `current` text at `patch_path`.
pub fn edit_patch(edit: &TextEditorEdit, patch_path: &str, current: &str) -> (r: Result<
    String,
    FunctionCallError,
>)
    requires
        current@.len() < usize::MAX,
    ensures
        match edit {
            TextEditorEdit::StrReplace { old_str, new_str } => if match_count(current@, old_str@)
                != 1 {
                r matches Err(e) && e.message_view() == msg_str_replace_count(
                    match_count(current@, old_str@),
                )
            } else {
                r matches Ok(p) && p@ == update_patch_text(
                    patch_path@,
                    current@,
                    replace_first(current@, old_str@, new_str@),
                )
            },
            TextEditorEdit::Insert { insert_line, new_str } => if *insert_line > inclusive_lines(
                current@,
            ).len() {
                r matches Err(e) && e.message_view() == msg_insert_line_too_large(
                    *insert_line as nat,
                    inclusive_lines(current@).len(),
                )
            } else {
                r matches Ok(p) && p@ == update_patch_text(
                    patch_path@,
                    current@,
                    inserted_text(current@, *insert_line as int, new_str@),
                )
            },
        },
{
    match edit {
        TextEditorEdit::StrReplace { old_str, new_str } => {
            let t = chars_of(current);
            let o = chars_of(old_str.as_str());
            let m = count_matches(&t, &o);
            if m != 1 {
                let mut msg = chars_of(
                    "Text editor str_replace expected exactly one match, found ",
                );
                push_decimal(&mut msg, m);
                return Err(FunctionCallError::RespondToModel(string_from_chars(msg.as_slice())));
            }
            let n = chars_of(new_str.as_str());
            let updated = replace_first_exec(&t, &o, &n);
            let updated = string_from_chars(updated.as_slice());
            Ok(update_file_patch(patch_path, current, updated.as_str()))
        },
        TextEditorEdit::Insert { insert_line, new_str } => {
            let updated = insert_after_line(current, *insert_line, new_str.as_str())?;
            Ok(update_file_patch(patch_path, current, updated.as_str()))
        },
    }
}

/// An entry of a directory listing.
pub struct DirectoryEntry {
    pub file_name: String,
    pub is_directory: bool,
}

/// `a` sorts before `b`: code point by code point, a proper prefix first.
/// This is the order of `str`'s `Ord`, UTF-8 byte order being code point
/// order.
pub open spec fn name_lt(a: Seq<char>, b: Seq<char>) -> bool
    decreases a.len(),
{
    if a.len() == 0 {
        b.len() > 0
    } else if b.len() == 0 {
        false
    } else if a[0] != b[0] {
        a[0] < b[0]
    } else {
        name_lt(a.drop_first(), b.drop_first())
    }
}

/// `s` with `x` placed after every entry whose name does not sort after it.
pub open spec fn insert_entry<T>(s: Seq<(Seq<char>, T)>, x: (Seq<char>, T)) -> Seq<
    (Seq<char>, T),
>
    decreases s.len(),
{
    if s.len() == 0 {
        seq![x]
    } else if name_lt(x.0, s[0].0) {
        seq![x] + s
    } else {
        seq![s[0]] + insert_entry(s.drop_first(), x)
    }
}

/// The entries sorted by name, entries with equal names in their order.
pub open spec fn sort_entries<T>(s: Seq<(Seq<char>, T)>) -> Seq<(Seq<char>, T)>
    decreases s.len(),
{
    if s.len() == 0 {
        Seq::empty()
    } else {
        insert_entry(sort_entries(s.drop_last()), s.last())
    }
}

/// One listing line: the name, with a slash after a directory's.
pub open spec fn listing_line(e: (Seq<char>, bool)) -> Seq<char> {
    e.0 + if e.1 {
        "/"@
    } else {
        Seq::empty()
    }
}

/// The listing lines of `s`, joined by line feeds.
pub open spec fn join_listing(s: Seq<(Seq<char>, bool)>) -> Seq<char>
    decreases s.len(),
{
    if s.len() == 0 {
        Seq::empty()
    } else if s.len() == 1 {
        listing_line(s[0])
    } else {
        join_listing(s.drop_last()) + "\n"@ + listing_line(s.last())
    }
}

/// The view of a directory: its entries sorted by name, one per line.
pub open spec fn directory_listing_text(entries: Seq<(Seq<char>, bool)>) -> Seq<char> {
    join_listing(sort_entries(entries))
}

fn name_lt_exec(a: &Vec<char>, b: &Vec<char>) -> (r: bool)
    ensures
        r == name_lt(a@, b@),
{
    let mut i: usize = 0;
    assert(a@.skip(0) == a@ && b@.skip(0) == b@);
    while i < a.len() && i < b.len() && a[i] == b[i]
        invariant
            i <= a@.len(),
            i <= b@.len(),
            name_lt(a@, b@) == name_lt(a@.skip(i as int), b@.skip(i as int)),
        decreases a.len() - i,
    {
        assert(a@.skip(i as int).drop_first() == a@.skip(i + 1));
        assert(b@.skip(i as int).drop_first() == b@.skip(i + 1));
        i += 1;
    }
    if i == a.len() {
        i < b.len()
    } else if i == b.len() {
        false
    } else {
        a[i] < b[i]
    }
}

proof fn lemma_insert_entry_at<T>(s: Seq<(Seq<char>, T)>, x: (Seq<char>, T), p: int)
    requires
        0 <= p <= s.len(),
        forall|j: int| 0 <= j < p ==> !name_lt(x.0, #[trigger] s[j].0),
        p == s.len() || name_lt(x.0, s[p].0),
    ensures
        insert_entry(s, x) == s.take(p) + seq![x] + s.skip(p),
    decreases p,
{
    if p == 0 {
        assert(s.take(0) + seq![x] + s.skip(0) == seq![x] + s);
        if s.len() == 0 {
            assert(seq![x] + s == seq![x]);
        }
    } else {
        let t = s.drop_first();
        assert forall|j: int| 0 <= j < p - 1 implies !name_lt(x.0, #[trigger] t[j].0) by {
            assert(t[j] == s[j + 1]);
        }
        if p < s.len() {
            assert(t[p - 1] == s[p]);
        }
        lemma_insert_entry_at(t, x, p - 1);
        assert(s.take(p) + seq![x] + s.skip(p) == seq![s[0]] + (t.take(p - 1) + seq![x] + t.skip(
            p - 1,
        )));
    }
}

/// Names as plain values, each with its payload.
pub open spec fn named_view<T>(s: Seq<(Vec<char>, T)>) -> Seq<(Seq<char>, T)> {
    s.map_values(|e: (Vec<char>, T)| (e.0@, e.1))
}

/// `items` sorted by name, items with equal names in their order.
pub fn sort_by_name<T>(items: Vec<(Vec<char>, T)>) -> (r: Vec<(Vec<char>, T)>)
    ensures
        named_view(r@) == sort_entries(named_view(items@)),
{
    let ghost input = named_view(items@);
    let n = items.len();
    assert(input.len() == n);
    let mut items = items;
    let mut rev: Vec<(Vec<char>, T)> = Vec::new();
    while items.len() > 0
        invariant
            items@.len() + rev@.len() == input.len(),
            input.len() <= usize::MAX,
            forall|j: int| 0 <= j < items@.len() ==> (#[trigger] items@[j]).0@ == input[j].0
                && items@[j].1 == input[j].1,
            forall|j: int| 0 <= j < rev@.len() ==> (#[trigger] rev@[j]).0@ == input[input.len() - 1 - j].0
                && rev@[j].1 == input[input.len() - 1 - j].1,
        decreases items.len(),
    {
        let x = items.pop().unwrap();
        rev.push(x);
    }
    let mut sorted: Vec<(Vec<char>, T)> = Vec::new();
    let mut i: usize = 0;
    assert(input.len() == rev@.len());
    while rev.len() > 0
        invariant
            i + rev@.len() == input.len(),
            input.len() <= usize::MAX,
            forall|j: int| 0 <= j < rev@.len() ==> (#[trigger] rev@[j]).0@ == input[input.len() - 1 - j].0
                && rev@[j].1 == input[input.len() - 1 - j].1,
            named_view(sorted@) == sort_entries(input.take(i as int)),
        decreases rev.len(),
    {
        let x = rev.pop().unwrap();
        let ghost xv = (x.0@, x.1);
        assert(xv == input[i as int]);
        let ghost sv = named_view(sorted@);
        let mut p: usize = 0;
        while p < sorted.len() && !name_lt_exec(&x.0, &sorted[p].0)
            invariant
                p <= sorted@.len(),
                xv.0 == x.0@,
                sv == named_view(sorted@),
                forall|j: int| 0 <= j < p ==> !name_lt(xv.0, #[trigger] sv[j].0),
            decreases sorted.len() - p,
        {
            assert(sv[p as int] == (sorted@[p as int].0@, sorted@[p as int].1));
            p += 1;
        }
        proof {
            lemma_insert_entry_at(sv, xv, p as int);
            assert(input.take(i + 1).drop_last() == input.take(i as int));
            assert(input.take(i + 1).last() == xv);
        }
        sorted.insert(p, x);
        assert(named_view(sorted@) == sv.take(p as int) + seq![xv] + sv.skip(p as int));
        i += 1;
    }
    assert(input.take(input.len() as int) == input);
    sorted
}

/// The text of a directory view: entry names sorted, directories marked
/// with a trailing slash, one per line.
pub fn directory_listing(entries: &Vec<DirectoryEntry>) -> (r: String)
    ensures
        r@ == directory_listing_text(entries@.map_values(|e: DirectoryEntry| (e.file_name@, e.is_directory))),
{
    let ghost input = entries@.map_values(|e: DirectoryEntry| (e.file_name@, e.is_directory));
    let mut named: Vec<(Vec<char>, bool)> = Vec::new();
    let mut i: usize = 0;
    while i < entries.len()
        invariant
            i <= entries@.len(),
            input == entries@.map_values(|e: DirectoryEntry| (e.file_name@, e.is_directory)),
            named_view(named@) == input.take(i as int),
        decreases entries.len() - i,
    {
        let name = chars_of(entries[i].file_name.as_str());
        let x = (name, entries[i].is_directory);
        let ghost prev = named@;
        named.push(x);
        proof {
            assert(named@ == prev.push(x));
            assert(named_view(prev.push(x)) =~= named_view(prev).push((x.0@, x.1)));
            assert(input.take(i + 1) =~= input.take(i as int).push(input[i as int]));
        }
        i += 1;
    }
    assert(input.take(entries.len() as int) == input);
    let sorted = sort_by_name(named);
    let ghost sv = named_view(sorted@);
    let mut out: Vec<char> = Vec::new();
    let mut k: usize = 0;
    while k < sorted.len()
        invariant
            k <= sorted@.len(),
            sv == named_view(sorted@),
            out@ == join_listing(sv.take(k as int)),
        decreases sorted.len() - k,
    {
        if k > 0 {
            push_str_chars(&mut out, "\n");
        }
        push_all(&mut out, &sorted[k].0);
        if sorted[k].1 {
            push_str_chars(&mut out, "/");
        }
        assert(sv.take(k + 1).drop_last() == sv.take(k as int));
        assert(sv.take(k + 1).last() == sv[k as int]);
        if k == 0 {
            assert(sv.take(1)[0] == sv[0]);
        }
        k += 1;
    }
    assert(sv.take(sorted.len() as int) == sv);
    string_from_chars(out.as_slice())
}


/// What a view shows for a path.
#[derive(Debug)]
pub enum ViewKind {
    /// The directory's sorted listing.
    Listing,
    /// The file's numbered lines.
    Lines,
}

pub open spec fn msg_view_not_file() -> Seq<char> {
    "Text editor can only view files or directories"@
}

/// A view lists a directory, shows a regular file, and refuses anything
/// else.
pub fn view_kind(is_directory: bool, is_file: bool) -> (r: Result<ViewKind, FunctionCallError>)
    ensures
        is_directory ==> r matches Ok(ViewKind::Listing),
        !is_directory && is_file ==> r matches Ok(ViewKind::Lines),
        !is_directory && !is_file ==> (r matches Err(e) && e.message_view() == msg_view_not_file()),
{
    if is_directory {
        return Ok(ViewKind::Listing);
    }
    if !is_file {
        return Err(FunctionCallError::respond("Text editor can only view files or directories"));
    }
    Ok(ViewKind::Lines)
}

} // verus!
