use codex_core_logic::shell_file_changes::diff_shell_snapshots;
use codex_core_logic::shell_file_changes::normalize_snapshot_path;
use codex_core_logic::shell_file_changes::should_skip_dir;
use codex_core_logic::shell_file_changes::sort_scan_entries;
use codex_core_logic::shell_file_changes::EntryStep;
use codex_core_logic::shell_file_changes::ScanEntry;
use codex_core_logic::shell_file_changes::ShellFileChange;
use codex_core_logic::shell_file_changes::ShellFileEntry;
use codex_core_logic::shell_file_changes::ShellFileSnapshot;
use codex_core_logic::shell_file_changes::ShellSnapshotScan;
use codex_core_logic::shell_file_changes::SnapshotLimit;
use codex_core_logic::shell_file_changes::MAX_DEPTH;

fn entry(created_at_ms: i64, modified_at_ms: i64) -> ShellFileEntry {
    ShellFileEntry {
        created_at_ms,
        modified_at_ms,
    }
}

fn change_of(changes: &[(String, ShellFileChange)], path: &str) -> Option<ShellFileChange> {
    changes
        .iter()
        .find(|(p, _)| p == path)
        .map(|(_, change)| *change)
}

#[test]
fn diff_shell_snapshots_detects_add_update_and_delete() {
    let mut before = ShellFileSnapshot::new();
    before.insert("deleted.txt".to_string(), entry(1, 1));
    before.insert("updated.txt".to_string(), entry(1, 1));
    let mut after = ShellFileSnapshot::new();
    after.insert("added.txt".to_string(), entry(2, 2));
    after.insert("updated.txt".to_string(), entry(1, 3));

    let changes = diff_shell_snapshots(&before, &after);

    assert!(matches!(
        change_of(&changes, "added.txt"),
        Some(ShellFileChange::Add)
    ));
    assert!(matches!(
        change_of(&changes, "updated.txt"),
        Some(ShellFileChange::Update)
    ));
    assert!(matches!(
        change_of(&changes, "deleted.txt"),
        Some(ShellFileChange::Delete)
    ));
    assert_eq!(changes.len(), 3);
}

#[test]
fn unchanged_snapshot_reports_no_changes() {
    let mut snapshot = ShellFileSnapshot::new();
    snapshot.insert("a.txt".to_string(), entry(1, 2));
    snapshot.insert("b/c.txt".to_string(), entry(3, 4));
    assert!(diff_shell_snapshots(&snapshot, &snapshot).is_empty());
}

#[test]
fn snapshot_insert_replaces_an_earlier_entry() {
    let mut snapshot = ShellFileSnapshot::new();
    snapshot.insert("a.txt".to_string(), entry(1, 2));
    snapshot.insert("a.txt".to_string(), entry(1, 5));
    assert_eq!(snapshot.file_count(), 1);
    assert_eq!(snapshot.get("a.txt"), Some(entry(1, 5)));
    assert_eq!(snapshot.get("b.txt"), None);
}

#[test]
fn skipped_directories_are_build_and_tool_state() {
    for name in [".git", "node_modules", "target", "__pycache__", ".venv", "dist"] {
        assert!(should_skip_dir(name), "{name} should be skipped");
    }
    for name in ["src", "git", "targets", ".github"] {
        assert!(!should_skip_dir(name), "{name} should be scanned");
    }
}

#[test]
fn snapshot_paths_are_normalized_by_component() {
    assert_eq!(normalize_snapshot_path("a//b"), "a/b");
    assert_eq!(normalize_snapshot_path("a/./b/"), "a/b");
    assert_eq!(normalize_snapshot_path("./a/b"), "./a/b");
    assert_eq!(normalize_snapshot_path("/a/b/."), "/a/b");
    assert_eq!(normalize_snapshot_path("."), ".");
    assert_eq!(normalize_snapshot_path("a/../b"), "a/../b");
    assert_eq!(normalize_snapshot_path(""), "");
}

#[test]
fn scan_visits_sorted_entries_and_records_files() {
    let mut scan = ShellSnapshotScan::new("/work".to_string());
    let root = scan
        .next_directory()
        .expect("root within limits")
        .expect("root queued");
    assert_eq!(root.abs_path, "/work");
    assert_eq!(root.rel_path, "");
    let entries = sort_scan_entries(vec![
        ScanEntry {
            file_name: "zeta.txt".to_string(),
            is_directory: false,
            is_file: true,
        },
        ScanEntry {
            file_name: "src".to_string(),
            is_directory: true,
            is_file: false,
        },
        ScanEntry {
            file_name: ".git".to_string(),
            is_directory: true,
            is_file: false,
        },
    ]);
    let names: Vec<&str> = entries.iter().map(|e| e.file_name.as_str()).collect();
    assert_eq!(names, vec![".git", "src", "zeta.txt"]);

    assert!(matches!(
        scan.classify_entry(&root, &entries[0]),
        Ok(EntryStep::Skip)
    ));
    match scan.classify_entry(&root, &entries[1]) {
        Ok(EntryStep::CheckDirectory { abs_path, rel_path }) => {
            assert_eq!(abs_path, "/work/src");
            assert_eq!(rel_path, "src");
            scan.enter_directory(&root, abs_path, rel_path, false);
        }
        _ => panic!("src should be entered"),
    }
    match scan.classify_entry(&root, &entries[2]) {
        Ok(EntryStep::CheckFile { rel_path, .. }) => {
            assert_eq!(rel_path, "zeta.txt");
            scan.record_file(&rel_path, true, false, 1, 2);
        }
        _ => panic!("zeta.txt should be recorded"),
    }
    let src = scan
        .next_directory()
        .expect("src within limits")
        .expect("src queued");
    assert_eq!(src.depth, 1);
    assert_eq!(src.rel_path, "src");
    match scan.classify_entry(
        &src,
        &ScanEntry {
            file_name: "lib.rs".to_string(),
            is_directory: false,
            is_file: true,
        },
    ) {
        Ok(EntryStep::CheckFile { abs_path, rel_path }) => {
            assert_eq!(abs_path, "/work/src/lib.rs");
            scan.record_file(&rel_path, true, true, 1, 2);
            scan.record_file(&rel_path, true, false, 3, 4);
        }
        _ => panic!("lib.rs should be recorded"),
    }
    assert!(matches!(scan.next_directory(), Ok(None)));
    let snapshot = scan.finish();
    assert_eq!(snapshot.file_count(), 2);
    assert_eq!(snapshot.get("src/lib.rs"), Some(entry(3, 4)));
    assert_eq!(snapshot.get("zeta.txt"), Some(entry(1, 2)));
}

#[test]
fn scan_gives_up_past_the_depth_limit() {
    let mut scan = ShellSnapshotScan::new("/work".to_string());
    let mut dir = scan.next_directory().expect("root").expect("queued");
    for _ in 0..MAX_DEPTH {
        let abs = format!("{}/d", dir.abs_path);
        let rel = format!("{}/d", dir.rel_path);
        scan.enter_directory(&dir, abs, rel, false);
        dir = scan.next_directory().expect("within depth").expect("queued");
    }
    scan.enter_directory(&dir, "/deep".to_string(), "deep".to_string(), false);
    assert!(matches!(scan.next_directory(), Err(SnapshotLimit::Depth)));
}

#[test]
fn scan_skips_dot_entries_and_symlinked_directories() {
    let mut scan = ShellSnapshotScan::new("/work".to_string());
    let root = scan.next_directory().expect("root").expect("queued");
    for name in [".", ".."] {
        let step = scan.classify_entry(
            &root,
            &ScanEntry {
                file_name: name.to_string(),
                is_directory: true,
                is_file: false,
            },
        );
        assert!(matches!(step, Ok(EntryStep::Skip)));
    }
    scan.enter_directory(&root, "/work/link".to_string(), "link".to_string(), true);
    assert!(matches!(scan.next_directory(), Ok(None)));
}
