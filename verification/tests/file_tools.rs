use codex_core_logic::file_tools::read_file_spec;
use codex_core_logic::file_tools::edit_file_spec;
use codex_core_logic::file_tools::write_file_spec;
use codex_core_logic::file_tools::SchemaKind;
use codex_core_logic::file_tools::file_schema;
use codex_core_logic::file_tools::SchemaProperty;
use codex_core_logic::file_ops::complete_line_prefix;
use codex_core_logic::file_receipts::fingerprint;
use codex_core_logic::file_receipts::FileMetadata;
use codex_core_logic::file_receipts::FileReceipt;
use codex_core_logic::file_receipts::FileReceiptKey;
use codex_core_logic::file_receipts::FileToolState;
use codex_core_logic::file_receipts::MAX_RECEIPTS;
use codex_core_logic::file_receipts::MAX_RECEIPT_BYTES;
use codex_core_logic::file_receipts::MAX_RECEIPT_RANGES;
use codex_core_logic::file_receipts::MAX_RECEIPT_RANGES_PER_ENTRY;
use codex_core_logic::file_tools::mutation_args;
use codex_core_logic::file_tools::ToolPayload;
use codex_core_logic::file_tools::MAX_MUTATION_ARGUMENT_BYTES;
use codex_core_logic::file_tools::MAX_MUTATION_TOKEN_BYTES;
use codex_core_logic::text_codec::has_utf8_bom;
use codex_core_logic::text_codec::normalize_decoded;
use codex_core_logic::text_codec::restore_line_endings;
use codex_core_logic::text_codec::with_utf8_bom;

fn key(environment_id: &str, path: &str) -> FileReceiptKey {
    FileReceiptKey {
        environment_id: environment_id.to_string(),
        path: path.to_string(),
    }
}

fn receipt(
    content: &[u8],
    file_size: u64,
    full_coverage: bool,
    observed_ranges: Vec<(usize, usize)>,
    step_id: u64,
) -> FileReceipt {
    FileReceipt {
        fingerprint: fingerprint(content),
        file_size,
        modified_at_ms: 1,
        full_coverage,
        write_eligible: true,
        observed_ranges,
        step_id,
        last_used: 0,
        accounted_bytes: 0,
    }
}

#[test]
fn fingerprint_is_stable_and_changes_with_content() {
    assert_eq!(fingerprint(b"hello"), fingerprint(b"hello"));
    assert_ne!(fingerprint(b"hello"), fingerprint(b"world"));
}

#[test]
fn fingerprint_is_the_sha256_digest() {
    let digest = fingerprint(b"abc");
    assert_eq!(digest[0], 0xba);
    assert_eq!(digest[1], 0x78);
    assert_eq!(digest[31], 0xad);
}

#[test]
fn text_decoder_strips_bom_and_normalizes_crlf() {
    let bytes = b"\xEF\xBB\xBFone\r\ntwo".to_vec();
    let utf8_bom = has_utf8_bom(&bytes);
    let contents = std::str::from_utf8(&bytes).expect("UTF-8 text");
    let decoded = normalize_decoded(contents, utf8_bom);
    assert!(decoded.utf8_bom);
    assert!(decoded.had_crlf);
    assert_eq!(decoded.text, "one\ntwo");
    let restored = restore_line_endings(&decoded.text, decoded.had_crlf);
    let encoded = with_utf8_bom(&restored.as_bytes().to_vec());
    assert_eq!(encoded, b"\xEF\xBB\xBFone\r\ntwo".to_vec());
}

#[test]
fn text_without_crlf_round_trips_unchanged() {
    let contents = "\u{feff}one\ntwo\n";
    let decoded = normalize_decoded(contents, true);
    assert!(!decoded.had_crlf);
    assert_eq!(decoded.text, "one\ntwo\n");
    let restored = restore_line_endings(&decoded.text, decoded.had_crlf);
    assert_eq!(format!("\u{feff}{restored}"), contents);
}

#[test]
fn crlf_text_round_trips_unchanged() {
    let contents = "a\r\n\r\nb\r\n";
    let decoded = normalize_decoded(contents, false);
    assert!(decoded.had_crlf);
    assert_eq!(decoded.text, "a\n\nb\n");
    assert_eq!(restore_line_endings(&decoded.text, decoded.had_crlf), contents);
}

#[test]
fn partial_scan_decodes_only_complete_lines() {
    let prefix = complete_line_prefix(&b"one\ntwo".to_vec(), false).expect("complete prefix line");
    assert_eq!(prefix, b"one\n".to_vec());
}

#[test]
fn partial_scan_without_a_line_feed_has_no_complete_line() {
    assert_eq!(complete_line_prefix(&b"one".to_vec(), false), None);
    assert_eq!(complete_line_prefix(&b"one".to_vec(), true), Some(b"one".to_vec()));
}

#[test]
fn mutation_arguments_obey_the_approximate_token_cap() {
    let payload = ToolPayload::Function {
        arguments: "x".repeat(MAX_MUTATION_TOKEN_BYTES + 1),
    };

    let error = mutation_args(&payload, "write_file")
        .expect_err("oversized arguments must fail before parsing");

    assert!(error.to_string().contains("10,000-token limit"));
}

#[test]
fn mutation_arguments_enforce_serialized_byte_boundaries_for_edit_and_write() {
    let write_prefix = r#"{"path":"file.txt","content":""#;
    let suffix = r#""}"#;
    let content_len = MAX_MUTATION_TOKEN_BYTES - write_prefix.len() - suffix.len();
    let at_limit = format!("{write_prefix}{}{suffix}", "x".repeat(content_len));
    let arguments = mutation_args(
        &ToolPayload::Function {
            arguments: at_limit,
        },
        "write_file",
    )
    .expect("serialized arguments at the effective cap should parse");
    let parsed: serde_json::Value = serde_json::from_str(&arguments).expect("valid JSON");
    assert_eq!(
        parsed["content"].as_str().expect("content string").len(),
        content_len
    );

    let mut edit_arguments = serde_json::Map::new();
    edit_arguments.insert("path".to_string(), serde_json::Value::from("file.txt"));
    edit_arguments.insert("old_string".to_string(), serde_json::Value::from("x"));
    edit_arguments.insert(
        "new_string".to_string(),
        serde_json::Value::from("界".repeat(MAX_MUTATION_ARGUMENT_BYTES)),
    );
    for (tool_name, arguments) in [
        (
            "write_file",
            format!(
                "{write_prefix}{}{suffix}",
                "界".repeat(MAX_MUTATION_ARGUMENT_BYTES)
            ),
        ),
        (
            "edit_file",
            serde_json::Value::Object(edit_arguments.clone()).to_string(),
        ),
    ] {
        let payload = ToolPayload::Function { arguments };
        let error = mutation_args(&payload, tool_name)
            .expect_err("multibyte arguments above both hard limits must be rejected");
        assert!(error.to_string().contains("64 KiB"));
    }
}

#[test]
fn mutation_arguments_reject_unsupported_payloads() {
    let error = mutation_args(&ToolPayload::Unsupported, "edit_file").expect_err("unsupported");
    assert_eq!(error.to_string(), "edit_file received an unsupported payload");
}

#[test]
fn receipt_keys_are_separated_by_environment() {
    let local = key("local", "file:///workspace/file.txt");
    let remote = key("remote", "file:///workspace/file.txt");

    assert!(!local.same_as(&remote));
    assert!(local.same_as(&local.duplicate()));
}

#[test]
fn observed_ranges_reject_unseen_replacements() {
    let mut state = FileToolState::new();
    let file = key("local", "file:///workspace/file.txt");
    state
        .insert_receipt(file.duplicate(), receipt(b"one\ntwo", 8, false, vec![(1, 1)], 1))
        .expect("receipt should fit");
    let error = state
        .validate_observed_ranges(&file, "one\ntwo", "two")
        .expect_err("line two was not observed");
    assert!(error.to_string().contains("observed read range"));
}

#[test]
fn observed_ranges_allow_trailing_newline_after_complete_read() {
    let file = key("local", "file:///workspace/file.txt");
    let text = "line1\n";
    let mut state = FileToolState::new();
    state
        .insert_receipt(
            file.duplicate(),
            receipt(text.as_bytes(), text.len() as u64, true, vec![(1, 1)], 1),
        )
        .expect("receipt should fit");
    state
        .validate_observed_ranges(&file, text, "line1\n")
        .expect("full-coverage trailing-newline edit must be allowed");

    let mut partial_state = FileToolState::new();
    partial_state
        .insert_receipt(
            file.duplicate(),
            receipt(text.as_bytes(), text.len() as u64, false, vec![(1, 1)], 1),
        )
        .expect("receipt should fit");
    partial_state
        .validate_observed_ranges(&file, text, "line1\n")
        .expect("EOF trailing newline must map onto the last lines() row");
}

#[test]
fn receipt_store_evicts_the_least_recently_used_entry() {
    let mut state = FileToolState::new();
    for index in 0..MAX_RECEIPTS {
        state
            .insert_receipt(
                key("local", &format!("file:///workspace/{index}.txt")),
                receipt(index.to_string().as_bytes(), 1, true, vec![(1, 1)], index as u64),
            )
            .expect("receipt should fit");
    }
    let oldest = key("local", "file:///workspace/0.txt");
    let newest = key("local", "file:///workspace/new.txt");
    state
        .insert_receipt(newest.duplicate(), receipt(b"new", 1, true, vec![(1, 1)], 999))
        .expect("new receipt should fit");
    assert!(!state.contains_key(&oldest));
    assert!(state.contains_key(&newest));
    assert_eq!(state.len(), MAX_RECEIPTS);
}

#[test]
fn reinserted_receipt_becomes_the_most_recently_used() {
    let mut state = FileToolState::new();
    for index in 0..MAX_RECEIPTS {
        state
            .insert_receipt(
                key("local", &format!("file:///workspace/{index}.txt")),
                receipt(index.to_string().as_bytes(), 1, true, vec![(1, 1)], index as u64),
            )
            .expect("receipt should fit");
    }
    let first = key("local", "file:///workspace/0.txt");
    let second = key("local", "file:///workspace/1.txt");
    state
        .insert_receipt(first.duplicate(), receipt(b"0", 1, true, vec![(1, 1)], 500))
        .expect("receipt should fit");
    state
        .insert_receipt(
            key("local", "file:///workspace/new.txt"),
            receipt(b"new", 1, true, vec![(1, 1)], 999),
        )
        .expect("new receipt should fit");
    assert!(state.contains_key(&first));
    assert!(!state.contains_key(&second));
    assert_eq!(state.len(), MAX_RECEIPTS);
}

#[test]
fn receipt_range_limits_invalidate_oversized_entries_and_bound_global_accounting() {
    let ranges_key = key("local", "file:///workspace/ranges.txt");
    let mut state = FileToolState::new();
    state
        .insert_receipt(ranges_key.duplicate(), receipt(b"content", 7, false, vec![(1, 1)], 1))
        .expect("initial receipt should fit");
    let error = state
        .insert_receipt(
            ranges_key.duplicate(),
            receipt(
                b"content",
                7,
                false,
                vec![(1, 1); MAX_RECEIPT_RANGES_PER_ENTRY + 1],
                1,
            ),
        )
        .expect_err("oversized range set must fail closed");
    assert!(error.to_string().contains("too many observed ranges"));
    assert!(!state.contains_key(&ranges_key));
    assert_eq!((state.total_ranges(), state.total_bytes()), (0, 0));

    let ranges = (0..MAX_RECEIPT_RANGES_PER_ENTRY)
        .map(|index| (index * 2 + 1, index * 2 + 1))
        .collect::<Vec<_>>();
    for index in 0..=MAX_RECEIPT_RANGES / MAX_RECEIPT_RANGES_PER_ENTRY {
        state
            .insert_receipt(
                key("local", &format!("file:///workspace/ranges-{index}.txt")),
                receipt(b"content", 7, false, ranges.clone(), 1),
            )
            .expect("receipt should fit");
    }
    assert_eq!(state.total_ranges(), MAX_RECEIPT_RANGES);
    assert_eq!(state.len(), MAX_RECEIPT_RANGES / MAX_RECEIPT_RANGES_PER_ENTRY);
}

#[test]
fn receipt_byte_accounting_never_exceeds_the_store_cap() {
    let mut state = FileToolState::new();
    for index in 0..MAX_RECEIPTS {
        state
            .insert_receipt(
                key(
                    "local",
                    &format!("file:///workspace/{index}-{}.txt", "x".repeat(3_000)),
                ),
                receipt(b"content", 7, true, vec![(1, 1)], index as u64),
            )
            .expect("bounded store should evict before exceeding its byte cap");
        assert!(state.total_bytes() <= MAX_RECEIPT_BYTES);
    }
    assert!(state.len() < MAX_RECEIPTS);
}

#[test]
fn receipt_provenance_rejects_same_step_and_stale_content() {
    let read_step: u64 = 7;
    let later_step: u64 = 8;
    let mut state = FileToolState::new();
    let stale_key = key("local", "file:///workspace/stale.txt");
    let metadata = FileMetadata {
        is_directory: false,
        is_file: true,
        is_symlink: false,
        size: 6,
        created_at_ms: 1,
        modified_at_ms: 2,
    };
    let mut before = receipt(b"before", metadata.size, true, vec![(1, 1)], read_step);
    before.modified_at_ms = metadata.modified_at_ms;
    state
        .insert_receipt(stale_key.duplicate(), before)
        .expect("receipt should fit");

    let same_step = state
        .validate_receipt(&stale_key, b"before", &metadata, read_step, true)
        .expect_err("same-step mutation must fail");
    assert!(same_step.to_string().contains("separate completions"));

    let same_mtime_changed_content = state
        .validate_receipt(&stale_key, b"change", &metadata, later_step, true)
        .expect_err("raw SHA-256 must reject same-mtime content changes");
    assert!(same_mtime_changed_content
        .to_string()
        .contains("file changed"));

    let stale_metadata = FileMetadata {
        size: 7,
        modified_at_ms: 3,
        ..metadata
    };
    let stale = state
        .validate_receipt(&stale_key, b"changed", &stale_metadata, later_step, true)
        .expect_err("stale mutation must fail");
    assert!(stale.to_string().contains("read it again"));

    let touched_metadata = FileMetadata {
        modified_at_ms: 99,
        ..metadata
    };
    state
        .validate_receipt(&stale_key, b"before", &touched_metadata, later_step, true)
        .expect("mtime-only changes must not invalidate matching raw bytes");
}

#[test]
fn file_tool_specs_describe_their_parameters() {
    let read = read_file_spec();
    assert_eq!(read.name, "read_file");
    assert!(!read.strict);
    let names: Vec<&str> = read.parameters.properties.iter().map(|p| p.name.as_str()).collect();
    assert_eq!(names, vec!["path", "offset", "limit", "environment_id"]);
    assert_eq!(read.parameters.properties[1].kind, SchemaKind::Integer);
    assert_eq!(read.parameters.required, vec!["path".to_string()]);
    assert!(!read.parameters.additional_properties);

    let edit = edit_file_spec();
    assert_eq!(edit.description, "Replace exact text in a previously read text file.");
    assert_eq!(edit.parameters.properties[3].kind, SchemaKind::Boolean);
    assert_eq!(
        edit.parameters.required,
        vec!["path".to_string(), "old_string".to_string(), "new_string".to_string()]
    );

    let write = write_file_spec();
    assert_eq!(write.name, "write_file");
    assert_eq!(write.parameters.required, vec!["path".to_string(), "content".to_string()]);
    assert_eq!(write.parameters.properties[1].description.as_deref(), Some("Complete UTF-8 file content."));
}

#[test]
fn file_schema_requires_only_declared_fields() {
    let schema = file_schema(
        vec![
            SchemaProperty { name: "path".to_string(), kind: SchemaKind::String, description: None },
            SchemaProperty { name: "limit".to_string(), kind: SchemaKind::Integer, description: None },
        ],
        vec!["path".to_string()],
    );
    assert_eq!(schema.required, vec!["path".to_string()]);
    assert!(!schema.additional_properties);
}
