use codex_core_logic::file_ops::check_environment_choice;
use codex_core_logic::file_ops::check_file_target_path;
use codex_core_logic::file_ops::check_inside_workspace;
use codex_core_logic::file_ops::mutation_artifacts;
use codex_core_logic::file_ops::mutation_outcome;
use codex_core_logic::file_ops::MutationChange;
use codex_core_logic::file_ops::TrackedChange;
use codex_core_logic::mutation_locks::lock_order;
use codex_core_logic::patch_runtime::approval_keys;
use codex_core_logic::patch_runtime::conditional_write_approval_keys;
use codex_core_logic::patch_runtime::patch_approval_step;
use codex_core_logic::patch_runtime::wants_no_sandbox_approval;
use codex_core_logic::patch_runtime::AppliedChange;
use codex_core_logic::patch_runtime::ApplyPatchRuntime;
use codex_core_logic::patch_runtime::ApprovalStep;
use codex_core_logic::patch_runtime::AskForApproval;
use codex_core_logic::patch_runtime::ConditionalWriteRequest;
use codex_core_logic::shell_exec::additional_permissions_allowed;
use codex_core_logic::shell_exec::check_escalation;
use codex_core_logic::shell_exec::file_change_call_id;
use codex_core_logic::shell_exec::shell_file_changes_to_report;
use codex_core_logic::shell_exec::should_snapshot_shell_files;
use codex_core_logic::shell_file_changes::ShellFileChange;
use codex_core_logic::shell_file_changes::ShellFileEntry;
use codex_core_logic::shell_file_changes::ShellFileSnapshot;
use codex_core_logic::text_editor::view_kind;
use codex_core_logic::text_editor::ViewKind;

#[test]
fn lock_order_sorts_and_dedupes_paths() {
    let paths = vec![
        "file:///b.txt".to_string(),
        "file:///a.txt".to_string(),
        "file:///b.txt".to_string(),
        "file:///a/z.txt".to_string(),
    ];
    assert_eq!(
        lock_order(&paths),
        vec!["file:///a.txt", "file:///a/z.txt", "file:///b.txt"]
    );
    assert!(lock_order(&Vec::new()).is_empty());
}

#[test]
fn two_calls_lock_shared_paths_in_the_same_order() {
    let first = lock_order(&vec!["y".to_string(), "x".to_string(), "w".to_string()]);
    let second = lock_order(&vec!["x".to_string(), "z".to_string(), "y".to_string()]);
    let pos = |order: &Vec<String>, p: &str| order.iter().position(|q| q == p).expect("present");
    assert!(pos(&first, "x") < pos(&first, "y"));
    assert!(pos(&second, "x") < pos(&second, "y"));
}

#[test]
fn edits_report_a_one_hunk_patch() {
    let artifacts = mutation_artifacts("file:///w/a.txt", Some("old"), "new");
    assert_eq!(
        artifacts.patch,
        "--- file:///w/a.txt\n+++ file:///w/a.txt\n@@\n-old\n+new\n"
    );
    match artifacts.change {
        MutationChange::Update { unified_diff } => assert_eq!(unified_diff, artifacts.patch),
        MutationChange::Add { .. } => panic!("an edit is an update"),
    }
    match artifacts.full_change {
        TrackedChange::Update {
            old_content,
            new_content,
        } => {
            assert_eq!(old_content, "old");
            assert_eq!(new_content, "new");
        }
        TrackedChange::Add { .. } => panic!("an edit is an update"),
    }
}

#[test]
fn new_files_report_an_add_patch_with_bounded_content() {
    let artifacts = mutation_artifacts("file:///w/n.txt", None, "hello");
    assert_eq!(artifacts.patch, "*** Add File: file:///w/n.txt\nhello");
    let big = "x".repeat(70 * 1024);
    let artifacts = mutation_artifacts("file:///w/big.txt", None, &big);
    match artifacts.change {
        MutationChange::Add { content } => {
            assert!(content.ends_with("\n[event content truncated]"));
            assert!(content.len() < big.len());
        }
        MutationChange::Update { .. } => panic!("a new file is an add"),
    }
    match artifacts.full_change {
        TrackedChange::Add { content } => assert_eq!(content.len(), big.len()),
        TrackedChange::Update { .. } => panic!("a new file is an add"),
    }
}

#[test]
fn failed_writes_report_their_error_output() {
    assert!(mutation_outcome(0, "").is_ok());
    assert_eq!(
        mutation_outcome(1, "disk full").expect_err("failure").to_string(),
        "file operation failed: disk full"
    );
}

#[test]
fn file_targets_are_checked_before_resolution() {
    assert!(check_file_target_path("src/lib.rs").is_ok());
    for bad in ["", "   ", &"a".repeat(4097)] {
        assert_eq!(
            check_file_target_path(bad).expect_err("bad path").to_string(),
            "file path must be non-empty and at most 4096 UTF-8 bytes"
        );
    }
    assert_eq!(
        check_environment_choice(false, false, false)
            .expect_err("none")
            .to_string(),
        "no execution environment is available"
    );
    assert_eq!(
        check_environment_choice(true, true, false)
            .expect_err("single")
            .to_string(),
        "environment_id is only valid when multiple environments are selected"
    );
    assert!(check_environment_choice(true, true, true).is_ok());
    assert!(check_inside_workspace(true).is_ok());
    assert_eq!(
        check_inside_workspace(false).expect_err("outside").to_string(),
        "file path must stay inside an allowed workspace root"
    );
}

#[test]
fn text_editor_views_directories_and_files_only() {
    assert!(matches!(view_kind(true, false), Ok(ViewKind::Listing)));
    assert!(matches!(view_kind(false, true), Ok(ViewKind::Lines)));
    assert_eq!(
        view_kind(false, false).expect_err("special file").to_string(),
        "Text editor can only view files or directories"
    );
}

#[test]
fn escalation_needs_an_on_request_policy_or_a_grant() {
    assert!(check_escalation(true, true, false, "Never").is_ok());
    assert!(check_escalation(true, false, true, "OnRequest").is_ok());
    assert!(check_escalation(false, false, false, "Never").is_ok());
    assert_eq!(
        check_escalation(true, false, false, "Never")
            .expect_err("refused")
            .to_string(),
        "approval policy is Never; reject command \u{2014} you should not ask for escalated permissions if the approval policy is Never"
    );
    assert!(additional_permissions_allowed(true, false, false));
    assert!(additional_permissions_allowed(false, true, true));
    assert!(!additional_permissions_allowed(false, true, false));
}

#[test]
fn shell_commands_report_only_real_file_changes() {
    assert!(should_snapshot_shell_files(false));
    assert!(!should_snapshot_shell_files(true));
    assert_eq!(file_change_call_id("call_7"), "call_7-file-change");
    let mut before = ShellFileSnapshot::new();
    before.insert(
        "a.txt".to_string(),
        ShellFileEntry {
            created_at_ms: 1,
            modified_at_ms: 1,
        },
    );
    let mut after = ShellFileSnapshot::new();
    after.insert(
        "a.txt".to_string(),
        ShellFileEntry {
            created_at_ms: 1,
            modified_at_ms: 1,
        },
    );
    assert!(shell_file_changes_to_report(Some(&before), Some(&after)).is_none());
    assert!(shell_file_changes_to_report(Some(&before), None).is_none());
    assert!(shell_file_changes_to_report(None, Some(&after)).is_none());
    after.insert(
        "b.txt".to_string(),
        ShellFileEntry {
            created_at_ms: 2,
            modified_at_ms: 2,
        },
    );
    let changes = shell_file_changes_to_report(Some(&before), Some(&after)).expect("changes");
    assert_eq!(changes, vec![("b.txt".to_string(), ShellFileChange::Add)]);
}

#[test]
fn sandbox_approval_follows_the_policy() {
    assert!(!wants_no_sandbox_approval(AskForApproval::Never));
    assert!(wants_no_sandbox_approval(AskForApproval::OnRequest));
    assert!(wants_no_sandbox_approval(AskForApproval::UnlessTrusted));
    assert!(wants_no_sandbox_approval(AskForApproval::Granular {
        allows_sandbox_approval: true
    }));
    assert!(!wants_no_sandbox_approval(AskForApproval::Granular {
        allows_sandbox_approval: false
    }));
}

#[test]
fn patch_approvals_are_cached_per_environment_and_file() {
    let keys = approval_keys("local", &vec!["a".to_string(), "b".to_string()]);
    let keys: Vec<(&str, &str)> = keys
        .iter()
        .map(|k| (k.environment_id.as_str(), k.path.as_str()))
        .collect();
    assert_eq!(keys, vec![("local", "a"), ("local", "b")]);
    assert!(matches!(patch_approval_step(true, None), ApprovalStep::Approved));
    assert!(matches!(patch_approval_step(false, None), ApprovalStep::AskCached));
    match patch_approval_step(true, Some("sandbox denied".to_string())) {
        ApprovalStep::AskWithReason { reason } => assert_eq!(reason, "sandbox denied"),
        _ => panic!("a retry asks again"),
    }
}

fn write_request() -> ConditionalWriteRequest {
    ConditionalWriteRequest {
        environment_id: "local".to_string(),
        path: "file:///w/a.txt".to_string(),
        canonical_path: "file:///real/a.txt".to_string(),
        contents: b"new".to_vec(),
        patch: "--- a\n+++ a\n".to_string(),
        delta: vec![AppliedChange {
            path: "/w/a.txt".to_string(),
            change: TrackedChange::Update {
                old_content: "old".to_string(),
                new_content: "new".to_string(),
            },
        }],
    }
}

#[test]
fn conditional_writes_commit_only_on_success() {
    let req = write_request();
    let keys = conditional_write_approval_keys(&req);
    assert_eq!(keys.len(), 1);
    assert_eq!(keys[0].path, "file:///real/a.txt");

    let mut runtime = ApplyPatchRuntime::new();
    assert!(runtime.committed_delta().is_empty());
    let failed = runtime.finish_conditional_write(&req, Some((true, "file changed".to_string())));
    assert_eq!(failed.exec_output.exit_code, 1);
    assert_eq!(
        failed.exec_output.stderr,
        "conditional write conflict: file changed"
    );
    assert_eq!(failed.exec_output.aggregated_output, failed.exec_output.stderr);
    assert!(failed.delta.is_empty());
    assert!(runtime.committed_delta().is_empty());

    let other = runtime.finish_conditional_write(&req, Some((false, "denied".to_string())));
    assert_eq!(other.exec_output.stderr, "denied");

    let ok = runtime.finish_conditional_write(&req, None);
    assert_eq!(ok.exec_output.exit_code, 0);
    assert_eq!(ok.delta.len(), 1);
    assert_eq!(runtime.committed_delta().len(), 1);

    let patched = runtime.finish_patch(false, "applied\n", "", &req.delta);
    assert_eq!(patched.exec_output.exit_code, 0);
    assert_eq!(patched.exec_output.aggregated_output, "applied\n");
    assert_eq!(patched.delta.len(), 2);
    let failed_patch = runtime.finish_patch(true, "", "bad hunk\n", &Vec::new());
    assert_eq!(failed_patch.exec_output.exit_code, 1);
    assert_eq!(failed_patch.exec_output.aggregated_output, "bad hunk\n");
    assert_eq!(failed_patch.delta.len(), 2);
}
