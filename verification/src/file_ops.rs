//! The decisions of the dedicated file tools between their filesystem
//! calls: which bytes to decode, what a read shows and records, whether an
//! edit applies, and what a commit leaves in the receipt store.
use vstd::prelude::*;
use crate::errors::FunctionCallError;
use crate::file_receipts::{
    FileMetadata, FileReceipt, FileReceiptKey, FileToolState, ReceiptView, record_read_effect,
    record_read_error, reports,
};
use crate::file_receipts::{
    fingerprint, insert_effect, lookup, observed_ranges_effect, observed_ranges_error,
    receipt_check, remove_key, sat_inc, sha256_digest, update_key,
};
use crate::file_tools::{bounded_event_text, event_text, EditFileArgs, MAX_FILE_BYTES, MAX_PATH_BYTES};
use crate::claude_history::{blank, is_blank};
use crate::search::{
    count_matches, match_count, replace_all_exec, replace_all_from, replace_first,
    replace_first_exec,
};
use crate::read_render::{
    read_offset_error, read_output, read_rendered_end, read_start, render_read,
};
use crate::text::{
    chars_of, decimal, push_decimal, push_str_chars, str_eq, str_len, string_from_chars,
    text_lines,
};

verus! {

pub open spec fn msg_read_not_regular() -> Seq<char> {
    "read_file supports regular text files only"@
}

/// `read_file` reads regular files only.
pub fn check_read_metadata(metadata: &FileMetadata) -> (r: Result<(), FunctionCallError>)
    ensures
        r is Err <==> (metadata.is_directory || !metadata.is_file),
        r matches Err(e) ==> e.message_view() == msg_read_not_regular(),
{
    if metadata.is_directory || !metadata.is_file {
        return Err(FunctionCallError::respond("read_file supports regular text files only"));
    }
    Ok(())
}

pub open spec fn msg_scan_without_line() -> Seq<char> {
    "read_file reached the 64 MiB scan limit before a complete requested line; use a specialized script for this file"@
}

/// Index of the last line feed in `b` (-1 when there is none).
pub open spec fn last_line_feed(b: Seq<u8>) -> int
    decreases b.len(),
{
    if b.len() == 0 {
        -1
    } else if b.last() == 10u8 {
        b.len() - 1
    } else {
        last_line_feed(b.drop_last())
    }
}

/// The complete lines of a scan: all of it at the end of the file, else up
/// to and including the last line feed.
pub open spec fn complete_lines(b: Seq<u8>, reached_eof: bool) -> Option<Seq<u8>> {
    if reached_eof {
        Some(b)
    } else if last_line_feed(b) < 0 {
        None
    } else {
        Some(b.take(last_line_feed(b) + 1))
    }
}

proof fn lemma_last_line_feed(b: Seq<u8>, i: int)
    requires
        0 <= i <= b.len(),
        forall|j: int| i <= j < b.len() ==> b[j] != 10u8,
        i == 0 || b[i - 1] == 10u8,
    ensures
        last_line_feed(b) == i - 1,
        last_line_feed(b) < 0 <==> !b.contains(10u8),
    decreases b.len(),
{
    if b.len() > i {
        lemma_last_line_feed(b.drop_last(), i);
        if b.drop_last().contains(10u8) {
            let k = choose|k: int| 0 <= k < b.drop_last().len() && b.drop_last()[k] == 10u8;
            assert(b[k] == 10u8);
        }
        if b.contains(10u8) {
            let k = choose|k: int| 0 <= k < b.len() && b[k] == 10u8;
            assert(b.drop_last()[k] == 10u8);
        }
    } else if i > 0 {
        assert(b[i - 1] == 10u8);
    } else {
        assert(b.len() == 0);
    }
}

/// The bytes of a scan that hold complete lines: all of them when the scan
/// reached the end of the file, else those up to and including the last
/// line feed (`None` when there is none).
pub fn complete_line_prefix(bytes: &Vec<u8>, reached_eof: bool) -> (r: Option<Vec<u8>>)
    ensures
        match r {
            Some(w) => complete_lines(bytes@, reached_eof) == Some(w@),
            None => complete_lines(bytes@, reached_eof) is None,
        },
        !reached_eof ==> (r is None <==> !bytes@.contains(10u8)),
{
    if reached_eof {
        return Some(bytes.clone());
    }
    let mut i = bytes.len();
    while i > 0 && bytes[i - 1] != 10u8
        invariant
            i <= bytes@.len(),
            forall|j: int| i <= j < bytes@.len() ==> bytes@[j] != 10u8,
        decreases i,
    {
        i -= 1;
    }
    proof {
        lemma_last_line_feed(bytes@, i as int);
    }
    if i == 0 {
        return None;
    }
    let mut w: Vec<u8> = Vec::new();
    let mut k: usize = 0;
    while k < i
        invariant
            k <= i <= bytes@.len(),
            w@ == bytes@.take(k as int),
        decreases i - k,
    {
        w.push(bytes[k]);
        assert(bytes@.take(k + 1) == bytes@.take(k as int).push(bytes@[k as int]));
        k += 1;
    }
    Some(w)
}

/// The bytes of a scan to decode, or the error when a partial scan holds no
/// complete line.
pub fn scan_for_decode(bytes: &Vec<u8>, reached_eof: bool) -> (r: Result<
    Vec<u8>,
    FunctionCallError,
>)
    ensures
        !reached_eof && !bytes@.contains(10u8) ==> (r matches Err(e) && e.message_view()
            == msg_scan_without_line()),
        reached_eof || bytes@.contains(10u8) ==> (r matches Ok(w) && complete_lines(
            bytes@,
            reached_eof,
        ) == Some(w@)),
{
    match complete_line_prefix(bytes, reached_eof) {
        Some(w) => Ok(w),
        None => Err(
            FunctionCallError::respond(
                "read_file reached the 64 MiB scan limit before a complete requested line; use a specialized script for this file",
            ),
        ),
    }
}

/// The file is small enough to edit: the scan reached its end within the
/// editable limit.
pub open spec fn read_editable(reached_eof: bool, scanned_len: usize) -> bool {
    reached_eof && scanned_len <= MAX_FILE_BYTES
}

/// The receipt a read of `lines` leaves: the scanned content's fingerprint
/// and metadata, full coverage when every line was shown from the first,
/// and the range of lines shown.
pub open spec fn read_receipt_view(
    path: Seq<char>,
    lines: Seq<Seq<char>>,
    reached_eof: bool,
    editable: bool,
    fingerprint: Seq<u8>,
    metadata: FileMetadata,
    step_id: u64,
    offset: usize,
    limit: usize,
) -> ReceiptView {
    let start = read_start(offset);
    let shown = read_rendered_end(path, lines, reached_eof, editable, offset, limit);
    ReceiptView {
        fingerprint: fingerprint,
        file_size: metadata.size,
        modified_at_ms: metadata.modified_at_ms,
        full_coverage: reached_eof && start == 0 && shown == lines.len() && editable,
        write_eligible: editable,
        observed_ranges: if shown > start {
            seq![((start + 1) as usize, shown as usize)]
        } else {
            Seq::empty()
        },
        step_id: step_id,
        last_used: 0,
        accounted_bytes: 0,
    }
}

/// `read_file` once the file has been scanned and its complete lines
/// decoded to `text`: renders the requested lines for `path` and records
/// what was shown under `key`. `scanned_len` is the number of bytes
/// scanned and `fingerprint` their digest.
pub fn finish_read(
    state: &mut FileToolState,
    key: FileReceiptKey,
    path: &str,
    text: &str,
    reached_eof: bool,
    scanned_len: usize,
    fingerprint: [u8; 32],
    metadata: &FileMetadata,
    step_id: u64,
    offset: usize,
    limit: usize,
) -> (r: Result<String, FunctionCallError>)
    requires
        old(state).wf(),
    ensures
        final(state).wf(),
        match read_offset_error(text_lines(text@).len(), reached_eof, offset) {
            Some(m) => r matches Err(e) && e.message_view() == m && final(state)@ == old(state)@,
            None => {
                &&& record_read_effect(
                    old(state)@,
                    final(state)@,
                    key@,
                    read_receipt_view(
                        path@,
                        text_lines(text@),
                        reached_eof,
                        read_editable(reached_eof, scanned_len),
                        fingerprint@,
                        *metadata,
                        step_id,
                        offset,
                        limit,
                    ),
                )
                &&& match record_read_error(
                    old(state)@,
                    key@,
                    read_receipt_view(
                        path@,
                        text_lines(text@),
                        reached_eof,
                        read_editable(reached_eof, scanned_len),
                        fingerprint@,
                        *metadata,
                        step_id,
                        offset,
                        limit,
                    ),
                ) {
                    Some(m) => r matches Err(e) && e.message_view() == m,
                    None => r matches Ok(out) && out@ == read_output(
                        path@,
                        text_lines(text@),
                        reached_eof,
                        read_editable(reached_eof, scanned_len),
                        offset,
                        limit,
                    ),
                }
            },
        },
{
    let editable = reached_eof && scanned_len <= MAX_FILE_BYTES;
    let render = match render_read(path, text, reached_eof, editable, offset, limit) {
        Ok(render) => render,
        Err(e) => return Err(e),
    };
    let full_coverage = reached_eof && render.start == 0 && render.rendered_end == render.total_lines
        && editable;
    let mut observed: Vec<(usize, usize)> = Vec::new();
    if render.rendered_end > render.start {
        observed.push((render.start + 1, render.rendered_end));
    }
    let receipt = FileReceipt {
        fingerprint,
        file_size: metadata.size,
        modified_at_ms: metadata.modified_at_ms,
        full_coverage,
        write_eligible: editable,
        observed_ranges: observed,
        step_id,
        last_used: 0,
        accounted_bytes: 0,
    };
    assert(receipt@ == read_receipt_view(
        path@,
        text_lines(text@),
        reached_eof,
        editable,
        fingerprint@,
        *metadata,
        step_id,
        offset,
        limit,
    ));
    let recorded = state.record_read(key, receipt);
    match recorded {
        Ok(()) => Ok(render.output),
        Err(e) => Err(e),
    }
}

/// `a * b`, saturated at `usize::MAX`.
pub open spec fn sat_mul(a: usize, b: usize) -> usize {
    if a * b > usize::MAX {
        usize::MAX
    } else {
        (a * b) as usize
    }
}

fn sat_mul_exec(a: usize, b: usize) -> (r: usize)
    ensures
        r == sat_mul(a, b),
{
    match a.checked_mul(b) {
        Some(x) => x,
        None => usize::MAX,
    }
}

/// The byte length after replacing `m` matches of `olen` bytes by `nlen`
/// bytes each in `tlen` bytes would not fit, or exceeds the editable limit
/// (computed with saturating products and checked sums).
pub open spec fn edit_len_exceeds(tlen: usize, m: usize, olen: usize, nlen: usize) -> bool {
    sat_mul(m, olen) > tlen || tlen - sat_mul(m, olen) + sat_mul(m, nlen) > MAX_FILE_BYTES
}

pub open spec fn msg_match_count(m: nat) -> Seq<char> {
    "edit_file expected one match (or replace_all=true), found "@ + decimal(m)
}

pub open spec fn msg_edit_too_large() -> Seq<char> {
    "edit_file replacement exceeds the 8 MiB editable limit; use a specialized script"@
}

/// The text after the edit: every match replaced, or the first.
pub open spec fn edited_text(text: Seq<char>, old: Seq<char>, new: Seq<char>, replace_all: bool) -> Seq<
    char,
> {
    if replace_all {
        replace_all_from(text, old, new, 0)
    } else {
        replace_first(text, old, new)
    }
}

/// The match count does not fit the request: no match, or several without
/// `replace_all`.
pub open spec fn edit_match_rejected(m: nat, replace_all: bool) -> bool {
    m == 0 || (m > 1 && !replace_all)
}

/// `edit_file` once the file's current text has been decoded and its
/// receipt validated: checks the match count and the observed ranges, and
/// returns the edited text when it stays within the editable limit.
pub fn plan_edit(state: &mut FileToolState, key: &FileReceiptKey, text: &str, args: &EditFileArgs) -> (r:
    Result<String, FunctionCallError>)
    requires
        old(state).wf(),
        args.old_string@.len() > 0,
        text@.len() + args.old_string@.len() < usize::MAX,
    ensures
        final(state).wf(),
        edit_match_rejected(match_count(text@, args.old_string@), args.replace_all) ==> {
            &&& r matches Err(e) && e.message_view() == msg_match_count(
                match_count(text@, args.old_string@),
            )
            &&& final(state)@ == old(state)@
        },
        !edit_match_rejected(match_count(text@, args.old_string@), args.replace_all) ==> {
            &&& observed_ranges_effect(
                old(state)@,
                final(state)@,
                key@,
                text@,
                args.old_string@,
            )
            &&& match observed_ranges_error(old(state)@, key@, text@, args.old_string@) {
                Some(m) => r matches Err(e) && e.message_view() == m,
                None => if edit_len_exceeds(
                    str_len(text@),
                    match_count(text@, args.old_string@) as usize,
                    str_len(args.old_string@),
                    str_len(args.new_string@),
                ) {
                    r matches Err(e) && e.message_view() == msg_edit_too_large()
                } else {
                    r matches Ok(u) && u@ == edited_text(
                        text@,
                        args.old_string@,
                        args.new_string@,
                        args.replace_all,
                    )
                },
            }
        },
{
    let t = chars_of(text);
    let p = chars_of(args.old_string.as_str());
    let n = chars_of(args.new_string.as_str());
    let m = count_matches(&t, &p);
    if m == 0 || (m > 1 && !args.replace_all) {
        let mut msg = chars_of("edit_file expected one match (or replace_all=true), found ");
        push_decimal(&mut msg, m);
        return Err(FunctionCallError::RespondToModel(string_from_chars(msg.as_slice())));
    }
    match state.validate_observed_ranges(key, text, args.old_string.as_str()) {
        Ok(()) => {},
        Err(e) => return Err(e),
    }
    let tlen = text.len();
    let removed = sat_mul_exec(m, args.old_string.as_str().len());
    let added = sat_mul_exec(m, args.new_string.as_str().len());
    let updated_len = match tlen.checked_sub(removed) {
        Some(rest) => rest.checked_add(added),
        None => None,
    };
    let fits = match updated_len {
        Some(len) => len <= MAX_FILE_BYTES,
        None => false,
    };
    if !fits {
        return Err(
            FunctionCallError::respond(
                "edit_file replacement exceeds the 8 MiB editable limit; use a specialized script",
            ),
        );
    }
    let updated = if args.replace_all {
        replace_all_exec(&t, &p, &n)
    } else {
        replace_first_exec(&t, &p, &n)
    };
    Ok(string_from_chars(updated.as_slice()))
}

/// The receipt a committed mutation leaves: the file as read back, fully
/// covered and eligible for writing.
pub open spec fn committed_receipt_view(bytes: Seq<u8>, metadata: FileMetadata, step_id: u64) -> ReceiptView {
    ReceiptView {
        fingerprint: sha256_digest(bytes),
        file_size: metadata.size,
        modified_at_ms: metadata.modified_at_ms,
        full_coverage: true,
        write_eligible: true,
        observed_ranges: seq![(1usize, usize::MAX)],
        step_id: step_id,
        last_used: 0,
        accounted_bytes: 0,
    }
}

/// After a committed mutation, replaces the receipt for `key` with one for
/// the file as read back; drops it when the file could not be read back
/// (`None`).
pub fn refresh_receipt_after_commit(
    state: &mut FileToolState,
    key: FileReceiptKey,
    read_back: Option<(Vec<u8>, FileMetadata)>,
    step_id: u64,
)
    requires
        old(state).wf(),
    ensures
        final(state).wf(),
        match read_back {
            None => final(state)@.entries == remove_key(old(state)@.entries, key@)
                && final(state)@.next_access == old(state)@.next_access,
            Some((bytes, metadata)) => insert_effect(
                old(state)@,
                final(state)@,
                key@,
                committed_receipt_view(bytes@, metadata, step_id),
            ),
        },
{
    match read_back {
        None => {
            state.remove_receipt(&key);
        },
        Some((bytes, metadata)) => {
            let mut ranges: Vec<(usize, usize)> = Vec::new();
            ranges.push((1, usize::MAX));
            let receipt = FileReceipt {
                fingerprint: fingerprint(bytes.as_slice()),
                file_size: metadata.size,
                modified_at_ms: metadata.modified_at_ms,
                full_coverage: true,
                write_eligible: true,
                observed_ranges: ranges,
                step_id,
                last_used: 0,
                accounted_bytes: 0,
            };
            assert(receipt@ == committed_receipt_view(bytes@, metadata, step_id));
            let _ = state.insert_receipt(key, receipt);
        },
    }
}

/// The error for a failed filesystem operation, from its message.
pub fn file_io_error(message: &str) -> (r: FunctionCallError)
    ensures
        r.message_view() == "file operation failed: "@ + message@,
{
    let mut m = chars_of("file operation failed: ");
    push_str_chars(&mut m, message);
    FunctionCallError::RespondToModel(string_from_chars(m.as_slice()))
}

pub open spec fn msg_not_regular(tool_name: Seq<char>) -> Seq<char> {
    tool_name + " supports regular text files only"@
}

pub open spec fn msg_over_editable_limit(tool_name: Seq<char>) -> Seq<char> {
    tool_name + " supports files up to the 8 MiB editable limit; use a specialized script"@
}

pub open spec fn msg_edit_missing_file() -> Seq<char> {
    "edit_file cannot create a missing file; use write_file to create it"@
}

/// The error when looking up the file to mutate failed: a missing file
/// cannot be edited, any other failure is reported as it is.
pub fn editable_lookup_error(tool_name: &str, not_found: bool, message: &str) -> (r:
    FunctionCallError)
    ensures
        not_found && tool_name@ == "edit_file"@ ==> r.message_view() == msg_edit_missing_file(),
        !(not_found && tool_name@ == "edit_file"@) ==> r.message_view() == "file operation failed: "@
            + message@,
{
    if not_found && str_eq(tool_name, "edit_file") {
        FunctionCallError::respond("edit_file cannot create a missing file; use write_file to create it")
    } else {
        file_io_error(message)
    }
}

/// A file to mutate must be a regular file within the editable limit.
pub fn check_editable_metadata(tool_name: &str, metadata: &FileMetadata) -> (r: Result<
    (),
    FunctionCallError,
>)
    ensures
        metadata.is_directory || !metadata.is_file ==> (r matches Err(e) && e.message_view()
            == msg_not_regular(tool_name@)),
        !(metadata.is_directory || !metadata.is_file) && metadata.size > MAX_FILE_BYTES ==> (
        r matches Err(e) && e.message_view() == msg_over_editable_limit(tool_name@)),
        !(metadata.is_directory || !metadata.is_file) && metadata.size <= MAX_FILE_BYTES ==> r is Ok,
{
    if metadata.is_directory || !metadata.is_file {
        let mut m = chars_of(tool_name);
        push_str_chars(&mut m, " supports regular text files only");
        return Err(FunctionCallError::RespondToModel(string_from_chars(m.as_slice())));
    }
    if metadata.size > MAX_FILE_BYTES as u64 {
        return Err(over_editable_limit(tool_name));
    }
    Ok(())
}

/// The error for a file beyond the editable limit.
pub fn over_editable_limit(tool_name: &str) -> (r: FunctionCallError)
    ensures
        r.message_view() == msg_over_editable_limit(tool_name@),
{
    let mut m = chars_of(tool_name);
    push_str_chars(&mut m, " supports files up to the 8 MiB editable limit; use a specialized script");
    FunctionCallError::RespondToModel(string_from_chars(m.as_slice()))
}

/// The condition a mutation's write is made under.
pub enum WritePrecondition {
    /// The file must still hold content with this SHA-256 digest.
    MatchSha256([u8; 32]),
    /// The file must not exist.
    MustNotExist,
}

/// The condition for `write_file`: an existing file must carry a complete
/// receipt from an earlier completion matching its current bytes, and must
/// still hold them; a new file must still be missing.
pub fn write_precondition(
    state: &mut FileToolState,
    key: &FileReceiptKey,
    existing: Option<(&[u8], &FileMetadata)>,
    step_id: u64,
) -> (r: Result<WritePrecondition, FunctionCallError>)
    requires
        old(state).wf(),
    ensures
        final(state).wf(),
        match existing {
            None => r matches Ok(WritePrecondition::MustNotExist) && final(state)@ == old(state)@,
            Some((bytes, metadata)) => {
                &&& final(state)@.next_access == sat_inc(old(state)@.next_access)
                &&& match receipt_check(
                    lookup(old(state)@.entries, key@),
                    sha256_digest(bytes@),
                    metadata.size,
                    metadata.modified_at_ms,
                    step_id,
                    true,
                    final(state)@.next_access,
                ) {
                    Err(m) => r matches Err(e) && e.message_view() == m && final(state)@.entries
                        == old(state)@.entries,
                    Ok(v) => r matches Ok(WritePrecondition::MatchSha256(d)) && d@ == sha256_digest(
                        bytes@,
                    ) && final(state)@.entries == update_key(old(state)@.entries, key@, v),
                }
            },
        },
{
    match existing {
        None => Ok(WritePrecondition::MustNotExist),
        Some((bytes, metadata)) => {
            match state.validate_receipt(key, bytes, metadata, step_id, true) {
                Ok(()) => Ok(WritePrecondition::MatchSha256(fingerprint(bytes))),
                Err(e) => Err(e),
            }
        },
    }
}


/// How a mutation changes a file, as events show it.
#[derive(Debug)]
pub enum MutationChange {
    /// An edit, with its patch text.
    Update { unified_diff: String },
    /// A new file, with its (bounded) content.
    Add { content: String },
}

/// How a mutation changes a file, in full, for the change tracker.
#[derive(Debug)]
pub enum TrackedChange {
    Update { old_content: String, new_content: String },
    Add { content: String },
}

/// What a mutation of `path` reports: the change for events, its patch
/// text, and the full change for the tracker.
#[derive(Debug)]
pub struct MutationArtifacts {
    pub change: MutationChange,
    pub patch: String,
    pub full_change: TrackedChange,
}

/// The patch text of an edit of `path` from `old` to `new` (both bounded).
pub open spec fn edit_patch_text(path: Seq<char>, old: Seq<char>, new: Seq<char>) -> Seq<char> {
    "--- "@ + path + "\n+++ "@ + path + "\n@@\n-"@ + event_text(old) + "\n+"@ + event_text(new) + "\n"@
}

/// The patch text of a new file `path` with `content` (bounded).
pub open spec fn add_patch_text(path: Seq<char>, content: Seq<char>) -> Seq<char> {
    "*** Add File: "@ + path + "\n"@ + event_text(content)
}

/// What a mutation reports: an edit (when the file had `old_text`) as a
/// one-hunk patch of the bounded old and new texts; a new file as an add
/// patch of its bounded content; the tracker gets the full texts.
pub fn mutation_artifacts(path: &str, old_text: Option<&str>, new_text: &str) -> (r: MutationArtifacts)
    ensures
        match old_text {
            Some(old) => {
                &&& r.patch@ == edit_patch_text(path@, old@, new_text@)
                &&& r.change matches MutationChange::Update { unified_diff } && unified_diff@ == r.patch@
                &&& r.full_change matches TrackedChange::Update { old_content, new_content }
                    && old_content@ == old@ && new_content@ == new_text@
            },
            None => {
                &&& r.patch@ == add_patch_text(path@, new_text@)
                &&& r.change matches MutationChange::Add { content } && content@ == event_text(new_text@)
                &&& r.full_change matches TrackedChange::Add { content } && content@ == new_text@
            },
        },
{
    match old_text {
        Some(old) => {
            let bounded_old = bounded_event_text(old);
            let bounded_new = bounded_event_text(new_text);
            let mut m = chars_of("--- ");
            push_str_chars(&mut m, path);
            push_str_chars(&mut m, "\n+++ ");
            push_str_chars(&mut m, path);
            push_str_chars(&mut m, "\n@@\n-");
            push_str_chars(&mut m, bounded_old.as_str());
            push_str_chars(&mut m, "\n+");
            push_str_chars(&mut m, bounded_new.as_str());
            push_str_chars(&mut m, "\n");
            let patch = string_from_chars(m.as_slice());
            MutationArtifacts {
                change: MutationChange::Update { unified_diff: patch.clone() },
                patch,
                full_change: TrackedChange::Update {
                    old_content: old.to_string(),
                    new_content: new_text.to_string(),
                },
            }
        },
        None => {
            let content = bounded_event_text(new_text);
            let mut m = chars_of("*** Add File: ");
            push_str_chars(&mut m, path);
            push_str_chars(&mut m, "\n");
            push_str_chars(&mut m, content.as_str());
            MutationArtifacts {
                change: MutationChange::Add { content },
                patch: string_from_chars(m.as_slice()),
                full_change: TrackedChange::Add { content: new_text.to_string() },
            }
        },
    }
}

pub open spec fn msg_file_operation_failed(stderr: Seq<char>) -> Seq<char> {
    "file operation failed: "@ + stderr
}

/// The result of a committed mutation: a write that exited with a non-zero
/// code fails with its error output.
pub fn mutation_outcome(exit_code: i32, stderr: &str) -> (r: Result<(), FunctionCallError>)
    ensures
        exit_code == 0 ==> r is Ok,
        exit_code != 0 ==> (r matches Err(e) && e.message_view() == msg_file_operation_failed(stderr@)),
{
    if exit_code == 0 {
        return Ok(());
    }
    let mut m = chars_of("file operation failed: ");
    push_str_chars(&mut m, stderr);
    Err(FunctionCallError::RespondToModel(string_from_chars(m.as_slice())))
}


pub open spec fn msg_bad_file_path() -> Seq<char> {
    "file path must be non-empty and at most 4096 UTF-8 bytes"@
}

pub open spec fn msg_no_environment() -> Seq<char> {
    "no execution environment is available"@
}

pub open spec fn msg_environment_id_single() -> Seq<char> {
    "environment_id is only valid when multiple environments are selected"@
}

pub open spec fn msg_outside_workspace() -> Seq<char> {
    "file path must stay inside an allowed workspace root"@
}

/// A file tool's path must hold more than whitespace and fit in
/// [`MAX_PATH_BYTES`] bytes.
pub fn check_file_target_path(raw_path: &str) -> (r: Result<(), FunctionCallError>)
    ensures
        (blank(raw_path@) || str_len(raw_path@) > MAX_PATH_BYTES) ==> (r matches Err(e)
            && e.message_view() == msg_bad_file_path()),
        !(blank(raw_path@) || str_len(raw_path@) > MAX_PATH_BYTES) ==> r is Ok,
{
    if is_blank(raw_path) || raw_path.len() > MAX_PATH_BYTES {
        return Err(FunctionCallError::respond("file path must be non-empty and at most 4096 UTF-8 bytes"));
    }
    Ok(())
}

/// After resolving the environment: one must have been found, and an
/// explicit environment id is only accepted when several are selected.
pub fn check_environment_choice(
    environment_found: bool,
    environment_id_given: bool,
    multi_environment: bool,
) -> (r: Result<(), FunctionCallError>)
    ensures
        !environment_found ==> (r matches Err(e) && e.message_view() == msg_no_environment()),
        environment_found && !multi_environment && environment_id_given ==> (r matches Err(e)
            && e.message_view() == msg_environment_id_single()),
        environment_found && (multi_environment || !environment_id_given) ==> r is Ok,
{
    if !environment_found {
        return Err(FunctionCallError::respond("no execution environment is available"));
    }
    if !multi_environment && environment_id_given {
        return Err(
            FunctionCallError::respond(
                "environment_id is only valid when multiple environments are selected",
            ),
        );
    }
    Ok(())
}

/// A file target must lie under one of the workspace roots.
pub fn check_inside_workspace(inside_workspace: bool) -> (r: Result<(), FunctionCallError>)
    ensures
        inside_workspace ==> r is Ok,
        !inside_workspace ==> (r matches Err(e) && e.message_view() == msg_outside_workspace()),
{
    if !inside_workspace {
        return Err(FunctionCallError::respond("file path must stay inside an allowed workspace root"));
    }
    Ok(())
}

} // verus!
