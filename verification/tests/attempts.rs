use vibe_kanban::attempt_artifacts::{
    append_file_patch, file_max_bytes, file_read_len, file_read_truncated, group_requested_paths,
    patch_request_gate, path_escapes_workspace, requested_paths_for_repo,
    truncate_to_char_boundary, AttemptArtifactBlockedReason, PatchGate,
};
use vibe_kanban::attempt_state::{changed_file_path, latest_attempts, AttemptRef};
use vibe_kanban::attempt_state::{
    add_diff_summary, attempt_status, changed_file_list, changes_blocked_reason,
    empty_changes_blocked_reason, AttemptChangesBlockedReason, AttemptState, ChangedFile,
    DiffSummary, ProcessSummary,
};
use vibe_kanban::execution_plan::ExecutionProcessStatus;

fn process(id: u128, created_at: i64, status: ExecutionProcessStatus) -> ProcessSummary {
    ProcessSummary {
        id,
        created_at,
        updated_at: created_at + 5,
        completed_at: None,
        status,
        exit_code: None,
    }
}

#[test]
fn status_without_processes_is_idle_with_session_activity() {
    let s = attempt_status(&vec![], Some(42));
    assert_eq!(s.state, AttemptState::Idle);
    assert_eq!(s.latest_execution_process_id, None);
    assert_eq!(s.last_activity_at, Some(42));
    assert_eq!(s.failure_summary, None);
}

#[test]
fn status_takes_the_latest_created_process() {
    let a = process(1, 10, ExecutionProcessStatus::Completed);
    let b = process(2, 30, ExecutionProcessStatus::Running);
    let c = process(3, 20, ExecutionProcessStatus::Failed);
    let s = attempt_status(&vec![a, b, c], None);
    assert_eq!(s.latest_execution_process_id, Some(2));
    assert_eq!(s.state, AttemptState::Running);
    assert_eq!(s.last_activity_at, Some(35));
}

#[test]
fn status_tie_keeps_the_earlier_kind() {
    let a = process(1, 10, ExecutionProcessStatus::Completed);
    let b = process(2, 10, ExecutionProcessStatus::Killed);
    let s = attempt_status(&vec![a, b], None);
    assert_eq!(s.latest_execution_process_id, Some(1));
    assert_eq!(s.state, AttemptState::Completed);
}

#[test]
fn failed_status_reports_exit_code() {
    let mut p = process(7, 1, ExecutionProcessStatus::Failed);
    p.exit_code = Some(-3);
    p.completed_at = Some(100);
    let s = attempt_status(&vec![p], None);
    assert_eq!(s.state, AttemptState::Failed);
    assert_eq!(s.failure_summary.as_deref(), Some("failed (exit_code=-3)"));
    assert_eq!(s.last_activity_at, Some(100));

    let mut q = process(8, 1, ExecutionProcessStatus::Failed);
    q.exit_code = Some(137);
    let s = attempt_status(&vec![q], None);
    assert_eq!(s.failure_summary.as_deref(), Some("failed (exit_code=137)"));

    let r = process(9, 1, ExecutionProcessStatus::Failed);
    let s = attempt_status(&vec![r], None);
    assert_eq!(s.failure_summary.as_deref(), Some("failed"));
}

#[test]
fn killed_status_is_failed() {
    let mut p = process(7, 1, ExecutionProcessStatus::Killed);
    p.completed_at = Some(2);
    let s = attempt_status(&vec![p], Some(1000));
    assert_eq!(s.state, AttemptState::Failed);
    assert_eq!(s.failure_summary.as_deref(), Some("killed"));
    // The update time (6) is later than the completion (2).
    assert_eq!(s.last_activity_at, Some(6));
}

#[test]
fn diff_summaries_add_saturating() {
    let mut total = DiffSummary::default();
    add_diff_summary(
        &mut total,
        &DiffSummary { file_count: 2, added: 10, deleted: 3, total_bytes: 500 },
    );
    add_diff_summary(
        &mut total,
        &DiffSummary { file_count: 1, added: usize::MAX, deleted: 4, total_bytes: u64::MAX },
    );
    assert_eq!(total.file_count, 3);
    assert_eq!(total.added, usize::MAX);
    assert_eq!(total.deleted, 7);
    assert_eq!(total.total_bytes, u64::MAX);
}

#[test]
fn blocked_reasons() {
    assert_eq!(empty_changes_blocked_reason(0, 0), None);
    assert_eq!(empty_changes_blocked_reason(2, 1), None);
    assert_eq!(
        empty_changes_blocked_reason(2, 2),
        Some(AttemptChangesBlockedReason::SummaryFailed)
    );
    assert_eq!(changes_blocked_reason(true, true, true, true), None);
    assert_eq!(changes_blocked_reason(false, false, true, true), None);
    assert_eq!(changes_blocked_reason(false, true, false, false), None);
    assert_eq!(
        changes_blocked_reason(false, true, true, true),
        Some(AttemptChangesBlockedReason::SummaryFailed)
    );
    assert_eq!(
        changes_blocked_reason(false, true, false, true),
        Some(AttemptChangesBlockedReason::ThresholdExceeded)
    );
}

#[test]
fn changed_files_are_sorted_and_distinct() {
    let f = |repo: &str, new: Option<&str>, old: Option<&str>| ChangedFile {
        repo_name: repo.to_string(),
        new_path: new.map(|s| s.to_string()),
        old_path: old.map(|s| s.to_string()),
    };
    let files = vec![
        f("web", Some("src/b.rs"), None),
        f("api", None, Some("gone.txt")),
        f("web", Some("src/a.rs"), Some("src/old.rs")),
        f("web", Some("src/b.rs"), None),
        f("api", None, None),
    ];
    let listed = changed_file_list(&files);
    assert_eq!(
        listed,
        vec![
            "api/gone.txt".to_string(),
            "web/src/a.rs".to_string(),
            "web/src/b.rs".to_string()
        ]
    );
}

#[test]
fn patch_gate_limits() {
    assert_eq!(patch_request_gate(0, None), PatchGate::NoPaths);
    assert_eq!(
        patch_request_gate(101, Some(10)),
        PatchGate::Blocked(AttemptArtifactBlockedReason::TooManyPaths)
    );
    assert_eq!(patch_request_gate(100, None), PatchGate::Proceed(200 * 1024));
    assert_eq!(patch_request_gate(1, Some(2 * 1024 * 1024)), PatchGate::Proceed(2 * 1024 * 1024));
    assert_eq!(
        patch_request_gate(1, Some(2 * 1024 * 1024 + 1)),
        PatchGate::Blocked(AttemptArtifactBlockedReason::SizeExceeded)
    );
}

#[test]
fn escaping_paths() {
    assert!(path_escapes_workspace("/etc/passwd"));
    assert!(path_escapes_workspace("a/../b"));
    assert!(path_escapes_workspace(".."));
    assert!(!path_escapes_workspace("a/..b/c"));
    assert!(!path_escapes_workspace("./src/main.rs"));
    assert!(!path_escapes_workspace("src/.hidden"));
}

#[test]
fn requested_paths_are_grouped_by_repo() {
    let paths = vec![
        " web/src/a.rs ".to_string(),
        "   ".to_string(),
        "api/ lib.rs".to_string(),
        "web/".to_string(),
        "web/src/b.rs".to_string(),
    ];
    let entries = group_requested_paths(&paths).unwrap();
    assert_eq!(
        entries,
        vec![
            ("web".to_string(), "src/a.rs".to_string()),
            ("api".to_string(), "lib.rs".to_string()),
            ("web".to_string(), "src/b.rs".to_string()),
        ]
    );
    assert_eq!(
        requested_paths_for_repo(&entries, "web"),
        vec!["src/a.rs".to_string(), "src/b.rs".to_string()]
    );
    assert!(requested_paths_for_repo(&entries, "docs").is_empty());
}

#[test]
fn requested_paths_outside_workspace_are_refused() {
    for bad in ["no-slash", "web/../secret", "web//etc/passwd"] {
        let paths = vec!["web/ok.rs".to_string(), bad.to_string()];
        assert_eq!(
            group_requested_paths(&paths),
            Err(AttemptArtifactBlockedReason::PathOutsideWorkspace)
        );
    }
}

#[test]
fn patch_pieces_end_with_newline() {
    let mut patch = String::new();
    append_file_patch(&mut patch, "diff a");
    assert_eq!(patch, "diff a\n");
    append_file_patch(&mut patch, "diff b\n");
    assert_eq!(patch, "diff a\ndiff b\n");
    append_file_patch(&mut patch, "");
    assert_eq!(patch, "diff a\ndiff b\n");
    let mut empty = String::new();
    append_file_patch(&mut empty, "");
    assert_eq!(empty, "\n");
}

#[test]
fn truncation_respects_char_boundaries() {
    assert_eq!(truncate_to_char_boundary("hello", 10), ("hello".to_string(), false, 5));
    assert_eq!(truncate_to_char_boundary("hello", 3), ("hel".to_string(), true, 3));
    // "é" takes two bytes: a budget of 2 keeps only "a".
    assert_eq!(truncate_to_char_boundary("aé", 2), ("a".to_string(), true, 1));
    assert_eq!(truncate_to_char_boundary("aé", 3), ("aé".to_string(), false, 3));
    assert_eq!(truncate_to_char_boundary("日本", 5), ("日".to_string(), true, 3));
    assert_eq!(truncate_to_char_boundary("😀x", 3), (String::new(), true, 0));
    assert_eq!(truncate_to_char_boundary("", 0), (String::new(), false, 0));
}

#[test]
fn file_window() {
    assert_eq!(file_max_bytes(None), Some(64 * 1024));
    assert_eq!(file_max_bytes(Some(512 * 1024)), Some(512 * 1024));
    assert_eq!(file_max_bytes(Some(512 * 1024 + 1)), None);
    assert_eq!(file_read_len(10, 10, 100), None);
    assert_eq!(file_read_len(11, 10, 100), None);
    assert_eq!(file_read_len(0, 10, 4), Some(4));
    assert_eq!(file_read_len(8, 10, 4), Some(2));
    assert!(file_read_truncated(0, 4, 10));
    assert!(!file_read_truncated(8, 2, 10));
}

#[test]
fn changed_file_path_prefers_new_path() {
    let f = ChangedFile {
        repo_name: "web".to_string(),
        new_path: Some("b.rs".to_string()),
        old_path: Some("a.rs".to_string()),
    };
    assert_eq!(changed_file_path(&f), Some("web/b.rs".to_string()));
    let g = ChangedFile { repo_name: "web".to_string(), new_path: None, old_path: None };
    assert_eq!(changed_file_path(&g), None);
}

#[test]
fn latest_attempt_per_task() {
    let a = |task_id: u128, workspace_id: u128, created_at: i128| AttemptRef {
        task_id,
        workspace_id,
        created_at,
    };
    let workspaces = vec![a(1, 10, 5), a(1, 11, 7), a(2, 30, 7), a(2, 20, 7), a(1, 12, 6)];
    let r = latest_attempts(&vec![2, 1, 3, 2, 1], &workspaces);
    assert_eq!(r, vec![(2, Some(3)), (1, Some(1)), (3, None)]);
    assert!(latest_attempts(&vec![], &workspaces).is_empty());
}
