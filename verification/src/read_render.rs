//! The text that `read_file` returns: a header, numbered lines, and a cut at
//! a line boundary when the output budget runs out.
use vstd::prelude::*;
use crate::errors::FunctionCallError;
use crate::file_tools::{MAX_OUTPUT_BYTES, MAX_OUTPUT_TOKEN_BYTES};
use crate::search::{replace_first, replace_first_exec};
use crate::text::{
    chars_of, decimal, push_all, push_decimal, push_str_chars, sat_usize, split_lines, str_len,
    string_from_chars, text_lines, utf8_len, utf8_len_sat, lemma_utf8_len_concat,
};

verus! {

/// Appended to output cut at a line boundary.
pub open spec fn truncation_marker() -> Seq<char> {
    "[output truncated at line boundary]"@
}

/// Output budget of `read_file` in bytes: the smaller of the byte and the
/// token cap.
pub open spec fn output_cap() -> usize {
    if MAX_OUTPUT_BYTES < MAX_OUTPUT_TOKEN_BYTES {
        MAX_OUTPUT_BYTES
    } else {
        MAX_OUTPUT_TOKEN_BYTES
    }
}

/// `true` or `false`, as `Display` writes a `bool`.
pub open spec fn bool_text(b: bool) -> Seq<char> {
    if b {
        "true"@
    } else {
        "false"@
    }
}

/// The header that precedes the numbered lines.
pub open spec fn read_header(
    path: Seq<char>,
    first: nat,
    last: nat,
    total: Option<nat>,
    complete: bool,
    write_eligible: bool,
) -> Seq<char> {
    "Path: "@ + path + "\nLines: "@ + decimal(first) + "-"@ + decimal(last) + "\nTotal lines: "@
        + match total {
        Some(n) => decimal(n),
        None => "unknown"@,
    } + "\nComplete: "@ + bool_text(complete) + "\nWrite eligible: "@ + bool_text(write_eligible)
        + "\nReceipt scope: current turn\nContent:\n"@
}

/// One numbered line of output: `L{n}: {line}` and a line feed.
pub open spec fn line_entry(n: nat, line: Seq<char>) -> Seq<char> {
    "L"@ + decimal(n) + ": "@ + line + "\n"@
}

/// The numbered entries of the lines with indices `start..k`.
pub open spec fn entries_text(lines: Seq<Seq<char>>, start: int, k: int) -> Seq<char>
    decreases k - start,
{
    if k <= start {
        Seq::empty()
    } else {
        entries_text(lines, start, k - 1) + line_entry(k as nat, lines[k - 1])
    }
}

/// Index after the last line, from `i` on, whose entry still fits in the
/// output budget with room for the truncation marker, `acc` bytes being
/// used already.
pub open spec fn fit_lines_from(lines: Seq<Seq<char>>, i: int, end: int, acc: int) -> int
    decreases end - i,
{
    if i < 0 || i >= end || i >= lines.len() || acc + utf8_len(line_entry((i + 1) as nat, lines[i]))
        + str_len(truncation_marker()) > output_cap() {
        i
    } else {
        fit_lines_from(
            lines,
            i + 1,
            end,
            acc + utf8_len(line_entry((i + 1) as nat, lines[i])),
        )
    }
}

/// Index of the first requested line.
pub open spec fn read_start(offset: usize) -> int {
    if offset == 0 {
        0
    } else {
        offset - 1
    }
}

/// Index after the last requested line.
pub open spec fn read_end(n: nat, offset: usize, limit: usize) -> int {
    if read_start(offset) + limit < n {
        read_start(offset) + limit
    } else {
        n as int
    }
}

/// The requested range covers the whole file.
pub open spec fn read_complete(n: nat, reached_eof: bool, offset: usize, limit: usize) -> bool {
    reached_eof && read_end(n, offset, limit) == n && read_start(offset) == 0
}

/// The header for a read of `lines`.
pub open spec fn read_header_for(
    path: Seq<char>,
    lines: Seq<Seq<char>>,
    reached_eof: bool,
    editable: bool,
    offset: usize,
    limit: usize,
) -> Seq<char> {
    let n = lines.len();
    let complete = read_complete(n, reached_eof, offset, limit);
    read_header(
        path,
        if n == 0 {
            1
        } else {
            (read_start(offset) + 1) as nat
        },
        if n == 0 {
            0
        } else {
            read_end(n, offset, limit) as nat
        },
        if reached_eof {
            Some(n)
        } else {
            None
        },
        complete,
        editable && complete,
    )
}

/// The file of `n` lines was read to its end and the request starts at
/// line 1 (offset 0 or 1) and asks for at least `n` lines.
pub open spec fn whole_file_requested(n: nat, reached_eof: bool, offset: usize, limit: usize) -> bool {
    reached_eof && offset <= 1 && limit >= n
}

/// The whole file was requested, as above, and the file is editable.
pub open spec fn writable_whole_file(n: nat, reached_eof: bool, editable: bool, offset: usize, limit: usize) -> bool {
    editable && whole_file_requested(n, reached_eof, offset, limit)
}

/// A read is complete exactly when the file was read to its end and the
/// requested range runs from line 1 through the last line; a read whose
/// first requested line is not line 1 is never complete. The header names
/// the requested lines (from `offset`, line 1 for offset 0, through at most
/// `limit` lines and never past the last line), the total when the end was
/// reached, the completeness flag, and write eligibility, which is that
/// flag together with editability.
pub proof fn law_read_complete_covers_every_line(
    path: Seq<char>,
    lines: Seq<Seq<char>>,
    reached_eof: bool,
    editable: bool,
    offset: usize,
    limit: usize,
)
    ensures
        read_complete(lines.len(), reached_eof, offset, limit) <==> (reached_eof && offset <= 1 && limit
            >= lines.len()),
        offset >= 2 ==> !read_complete(lines.len(), reached_eof, offset, limit),
        lines.len() > 0 ==> read_header_for(path, lines, reached_eof, editable, offset, limit)
            == read_header(
            path,
            if offset == 0 {
                1
            } else {
                offset as nat
            },
            if offset == 0 {
                if limit < lines.len() {
                    limit as nat
                } else {
                    lines.len()
                }
            } else if offset - 1 + limit < lines.len() {
                (offset - 1 + limit) as nat
            } else {
                lines.len()
            },
            if reached_eof {
                Some(lines.len())
            } else {
                None
            },
            whole_file_requested(lines.len(), reached_eof, offset, limit),
            writable_whole_file(lines.len(), reached_eof, editable, offset, limit),
        ),
        lines.len() == 0 ==> read_header_for(path, lines, reached_eof, editable, offset, limit)
            == read_header(
            path,
            1,
            0,
            if reached_eof {
                Some(0nat)
            } else {
                None
            },
            whole_file_requested(0, reached_eof, offset, limit),
            writable_whole_file(0, reached_eof, editable, offset, limit),
        ),
{
}

/// Index after the last line that the output shows.
pub open spec fn read_rendered_end(
    path: Seq<char>,
    lines: Seq<Seq<char>>,
    reached_eof: bool,
    editable: bool,
    offset: usize,
    limit: usize,
) -> int {
    fit_lines_from(
        lines,
        read_start(offset),
        read_end(lines.len(), offset, limit),
        utf8_len(read_header_for(path, lines, reached_eof, editable, offset, limit)) as int,
    )
}

/// The output of a read: header and shown lines; when lines had to be left
/// out, the first `Complete: true` and `Write eligible: true` turned false
/// and the truncation marker appended.
pub open spec fn read_output(
    path: Seq<char>,
    lines: Seq<Seq<char>>,
    reached_eof: bool,
    editable: bool,
    offset: usize,
    limit: usize,
) -> Seq<char> {
    let start = read_start(offset);
    let end = read_end(lines.len(), offset, limit);
    let shown = read_rendered_end(path, lines, reached_eof, editable, offset, limit);
    let body = read_header_for(path, lines, reached_eof, editable, offset, limit) + entries_text(
        lines,
        start,
        shown,
    );
    if shown < end {
        replace_first(
            replace_first(body, "Complete: true"@, "Complete: false"@),
            "Write eligible: true"@,
            "Write eligible: false"@,
        ) + truncation_marker()
    } else {
        body
    }
}

pub open spec fn msg_scan_limit_range() -> Seq<char> {
    "read_file reached the 64 MiB scan limit before the requested range; use a specialized script for this file"@
}

pub open spec fn msg_offset_past_end() -> Seq<char> {
    "read_file offset exceeds the file length"@
}

/// Whether a read at `offset` is refused for the lines at hand.
pub open spec fn read_offset_error(n: nat, reached_eof: bool, offset: usize) -> Option<Seq<char>> {
    if !reached_eof && offset > n {
        Some(msg_scan_limit_range())
    } else if reached_eof && offset > n + 1 {
        Some(msg_offset_past_end())
    } else {
        None
    }
}

/// What a read renders, besides its output text.
pub struct ReadRender {
    /// The text returned to the model.
    pub output: String,
    /// Index of the first requested line.
    pub start: usize,
    /// Index after the last requested line.
    pub end: usize,
    /// Index after the last line shown.
    pub rendered_end: usize,
    /// Number of lines in the scanned text.
    pub total_lines: usize,
}

fn push_bool(out: &mut Vec<char>, b: bool)
    ensures
        final(out)@ == old(out)@ + bool_text(b),
{
    if b {
        push_str_chars(out, "true");
    } else {
        push_str_chars(out, "false");
    }
}

fn header_chars(
    path: &str,
    first: usize,
    last: usize,
    total: Option<usize>,
    complete: bool,
    write_eligible: bool,
) -> (r: Vec<char>)
    ensures
        r@ == read_header(
            path@,
            first as nat,
            last as nat,
            match total {
                Some(n) => Some(n as nat),
                None => None,
            },
            complete,
            write_eligible,
        ),
{
    let mut out: Vec<char> = Vec::new();
    push_str_chars(&mut out, "Path: ");
    push_str_chars(&mut out, path);
    push_str_chars(&mut out, "\nLines: ");
    push_decimal(&mut out, first);
    push_str_chars(&mut out, "-");
    push_decimal(&mut out, last);
    push_str_chars(&mut out, "\nTotal lines: ");
    match total {
        Some(n) => push_decimal(&mut out, n),
        None => push_str_chars(&mut out, "unknown"),
    }
    push_str_chars(&mut out, "\nComplete: ");
    push_bool(&mut out, complete);
    push_str_chars(&mut out, "\nWrite eligible: ");
    push_bool(&mut out, write_eligible);
    push_str_chars(&mut out, "\nReceipt scope: current turn\nContent:\n");
    out
}

fn entry_chars(n: usize, line: &Vec<char>) -> (r: Vec<char>)
    ensures
        r@ == line_entry(n as nat, line@),
{
    let mut out: Vec<char> = Vec::new();
    push_str_chars(&mut out, "L");
    push_decimal(&mut out, n);
    push_str_chars(&mut out, ": ");
    push_all(&mut out, line);
    push_str_chars(&mut out, "\n");
    out
}

/// Appends the entries of lines `start..` to `out` while they fit in the
/// output budget; returns the index after the last one appended.
fn append_fitting_lines(
    out: &mut Vec<char>,
    lines: &Vec<Vec<char>>,
    Ghost(all): Ghost<Seq<Seq<char>>>,
    start: usize,
    end: usize,
) -> (r: usize)
    requires
        start <= end <= lines@.len(),
        all.len() == lines@.len(),
        forall|k: int| 0 <= k < lines@.len() ==> #[trigger] lines@[k]@ == all[k],
    ensures
        start <= r <= end,
        r == fit_lines_from(all, start as int, end as int, utf8_len(old(out)@) as int),
        final(out)@ == old(out)@ + entries_text(all, start as int, r as int),
{
    let ghost header = out@;
    let mut out_len = utf8_len_sat(out);
    let marker_len = "[output truncated at line boundary]".len();
    let cap: usize = if MAX_OUTPUT_BYTES < MAX_OUTPUT_TOKEN_BYTES {
        MAX_OUTPUT_BYTES
    } else {
        MAX_OUTPUT_TOKEN_BYTES
    };
    let mut i = start;
    let mut truncated = false;
    assert(out@ == header + entries_text(all, start as int, start as int));
    while i < end && !truncated
        invariant
            start <= i <= end <= lines@.len(),
            all.len() == lines@.len(),
            forall|k: int| 0 <= k < lines@.len() ==> #[trigger] lines@[k]@ == all[k],
            out@ == header + entries_text(all, start as int, i as int),
            out_len == sat_usize(utf8_len(out@)),
            marker_len == str_len(truncation_marker()),
            cap == output_cap(),
            truncated ==> i < end,
            truncated ==> fit_lines_from(all, i as int, end as int, utf8_len(out@) as int) == i,
            fit_lines_from(all, i as int, end as int, utf8_len(out@) as int) == fit_lines_from(
                all,
                start as int,
                end as int,
                utf8_len(header) as int,
            ),
        decreases end - i + if truncated {
            0int
        } else {
            1int
        },
    {
        let entry = entry_chars(i + 1, &lines[i]);
        let add = utf8_len_sat(&entry);
        assert(entry@ == line_entry((i + 1) as nat, all[i as int]));
        if out_len.saturating_add(add).saturating_add(marker_len) > cap {
            truncated = true;
        } else {
            proof {
                lemma_utf8_len_concat(out@, entry@);
            }
            push_all(out, &entry);
            out_len = out_len + add;
            i = i + 1;
            assert(entries_text(all, start as int, i as int) == entries_text(
                all,
                start as int,
                i - 1,
            ) + line_entry(i as nat, all[i - 1]));
        }
    }
    i
}

/// Renders a read of the lines of `text` at `offset`, at most `limit` of
/// them, for the file shown as `path`. `reached_eof` tells whether `text`
/// is the whole file, `editable` whether the file is small enough to edit.
pub fn render_read(
    path: &str,
    text: &str,
    reached_eof: bool,
    editable: bool,
    offset: usize,
    limit: usize,
) -> (r: Result<ReadRender, FunctionCallError>)
    ensures
        match read_offset_error(text_lines(text@).len(), reached_eof, offset) {
            Some(m) => r matches Err(e) && e.message_view() == m,
            None => r matches Ok(rr) && rr.output@ == read_output(
                path@,
                text_lines(text@),
                reached_eof,
                editable,
                offset,
                limit,
            ) && rr.start == read_start(offset) && rr.end == read_end(
                text_lines(text@).len(),
                offset,
                limit,
            ) && rr.rendered_end == read_rendered_end(
                path@,
                text_lines(text@),
                reached_eof,
                editable,
                offset,
                limit,
            ) && rr.total_lines == text_lines(text@).len(),
        },
{
    let chars = chars_of(text);
    let lines = split_lines(&chars);
    let ghost all = text_lines(text@);
    let n = lines.len();
    if !reached_eof && offset > n {
        return Err(
            FunctionCallError::respond(
                "read_file reached the 64 MiB scan limit before the requested range; use a specialized script for this file",
            ),
        );
    }
    if reached_eof && offset > n.saturating_add(1) {
        return Err(FunctionCallError::respond("read_file offset exceeds the file length"));
    }
    let start: usize = if offset == 0 {
        0
    } else {
        offset - 1
    };
    let sum = start.saturating_add(limit);
    let end: usize = if sum < n {
        sum
    } else {
        n
    };
    let complete = reached_eof && end == n && start == 0;
    let write_eligible = editable && complete;
    let first: usize = if n == 0 {
        1
    } else {
        start + 1
    };
    let last: usize = if n == 0 {
        0
    } else {
        end
    };
    let total: Option<usize> = if reached_eof {
        Some(n)
    } else {
        None
    };
    let mut out = header_chars(path, first, last, total, complete, write_eligible);
    let ghost header = out@;
    assert(header == read_header_for(path@, all, reached_eof, editable, offset, limit));
    let i = append_fitting_lines(&mut out, &lines, Ghost(all), start, end);
    let truncated = i < end;
    if truncated {
        let a = replace_first_exec(&out, &chars_of("Complete: true"), &chars_of("Complete: false"));
        let mut b = replace_first_exec(
            &a,
            &chars_of("Write eligible: true"),
            &chars_of("Write eligible: false"),
        );
        push_str_chars(&mut b, "[output truncated at line boundary]");
        out = b;
    }
    Ok(
        ReadRender {
            output: string_from_chars(out.as_slice()),
            start,
            end,
            rendered_end: i,
            total_lines: n,
        },
    )
}

} // verus!
