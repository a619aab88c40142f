use vibe_kanban::branch_ops::{rename_blocker, rollback_repos, RepoRenameState};
use vibe_kanban::branch_ops::{
    missing_branch_message, missing_target_branch_message, rebase_bases, any_open_pr, has_uncommitted_changes, latest_is_open_pr, merge_commit_message, rename_step,
    rename_target, MergeSummary, RenameBranchError, RenameStep,
};
use vibe_kanban::execution_plan::{
    completion_notice, completion_title, marks_task_in_progress, missing_executable_help,
    orphan_moves_task_to_review, start_failure_message, CompletionNotice,
    ExecutionProcessRunReason, ExecutionProcessStatus,
};
use vibe_kanban::graph::TaskStatus;

#[test]
fn rename_status_codes() {
    assert_eq!(RenameBranchError::EmptyBranchName.status_code(), 400);
    assert_eq!(RenameBranchError::InvalidBranchNameFormat.status_code(), 400);
    assert_eq!(RenameBranchError::OpenPullRequest.status_code(), 409);
    assert_eq!(
        RenameBranchError::BranchAlreadyExists { repo_name: "web".to_string() }.status_code(),
        409
    );
    assert_eq!(
        RenameBranchError::RebaseInProgress { repo_name: "web".to_string() }.status_code(),
        409
    );
    assert_eq!(
        RenameBranchError::RenameFailed { repo_name: "web".to_string(), message: "x".to_string() }
            .status_code(),
        500
    );
}

#[test]
fn rename_target_and_step() {
    assert_eq!(rename_target("  feature/x "), Ok("feature/x".to_string()));
    assert_eq!(rename_target(" \t "), Err(RenameBranchError::EmptyBranchName));
    assert_eq!(rename_step("feature/x", false, "main"), RenameStep::Invalid);
    assert_eq!(rename_step("main", true, "main"), RenameStep::Unchanged);
    assert_eq!(rename_step("feature/x", true, "main"), RenameStep::Proceed);
}

#[test]
fn open_pull_requests() {
    let direct = MergeSummary { is_pr: false, pr_open: false };
    let open = MergeSummary { is_pr: true, pr_open: true };
    let closed = MergeSummary { is_pr: true, pr_open: false };
    assert!(!any_open_pr(&vec![]));
    assert!(!any_open_pr(&vec![direct, closed]));
    assert!(any_open_pr(&vec![direct, open]));
    assert!(latest_is_open_pr(&vec![open, direct]));
    assert!(!latest_is_open_pr(&vec![direct, open]));
    assert_eq!(has_uncommitted_changes(Some(0)), Some(false));
    assert_eq!(has_uncommitted_changes(Some(3)), Some(true));
    assert_eq!(has_uncommitted_changes(None), None);
}

#[test]
fn merge_message() {
    let id = 0x1234abcd_0000_4000_8000_000000000001u128;
    assert_eq!(merge_commit_message("Fix bug", id, &None), "Fix bug (vibe-kanban 1234abcd)");
    assert_eq!(
        merge_commit_message("Fix bug", id, &Some("  ".to_string())),
        "Fix bug (vibe-kanban 1234abcd)"
    );
    assert_eq!(
        merge_commit_message("Fix bug", id, &Some("Details\nmore".to_string())),
        "Fix bug (vibe-kanban 1234abcd)\n\nDetails\nmore"
    );
}

#[test]
fn execution_start_decisions() {
    assert!(marks_task_in_progress(TaskStatus::Todo, ExecutionProcessRunReason::CodingAgent));
    assert!(!marks_task_in_progress(TaskStatus::InProgress, ExecutionProcessRunReason::SetupScript));
    assert!(!marks_task_in_progress(TaskStatus::Todo, ExecutionProcessRunReason::DevServer));
    assert_eq!(start_failure_message("boom"), "Failed to start execution: boom");
    assert_eq!(
        missing_executable_help("codex"),
        "The required executable `codex` is not installed."
    );
    assert!(orphan_moves_task_to_review(ExecutionProcessRunReason::CleanupScript));
    assert!(!orphan_moves_task_to_review(ExecutionProcessRunReason::DevServer));
}

#[test]
fn completion_notices() {
    assert_eq!(completion_notice(ExecutionProcessStatus::Completed), Some(CompletionNotice::Succeeded));
    assert_eq!(completion_notice(ExecutionProcessStatus::Failed), Some(CompletionNotice::Failed));
    assert_eq!(completion_notice(ExecutionProcessStatus::Killed), None);
    assert_eq!(completion_notice(ExecutionProcessStatus::Running), None);
    assert_eq!(completion_title("Add login"), "Task Complete: Add login");
}

#[test]
fn rebase_defaults_to_target_branch() {
    let target = "main".to_string();
    assert_eq!(rebase_bases(None, None, &target), ("main".to_string(), "main".to_string()));
    assert_eq!(
        rebase_bases(Some("old".to_string()), Some("dev".to_string()), &target),
        ("old".to_string(), "dev".to_string())
    );
    assert_eq!(
        missing_branch_message("dev"),
        "Branch 'dev' does not exist in the repository"
    );
}

#[test]
fn missing_target_branch() {
    assert_eq!(
        missing_target_branch_message("dev", "web"),
        "Branch 'dev' does not exist in repository 'web'"
    );
}

fn repo_state(name: &str, branch_exists: bool, rebase_in_progress: bool) -> RepoRenameState {
    RepoRenameState {
        repo_name: name.to_string(),
        branch_exists,
        rebase_in_progress,
    }
}

#[test]
fn rename_is_stopped_by_the_first_blocked_repository() {
    assert_eq!(rename_blocker(&vec![repo_state("a", false, false)]), None);
    assert_eq!(
        rename_blocker(&vec![
            repo_state("a", false, false),
            repo_state("b", false, true),
            repo_state("c", true, false),
        ]),
        Some(RenameBranchError::RebaseInProgress { repo_name: "b".to_string() })
    );
    assert_eq!(
        rename_blocker(&vec![repo_state("a", true, true)]),
        Some(RenameBranchError::BranchAlreadyExists { repo_name: "a".to_string() })
    );
    let names = vec!["a".to_string(), "b".to_string(), "c".to_string()];
    assert_eq!(rollback_repos(&names, 2), vec!["a".to_string(), "b".to_string()]);
    assert!(rollback_repos(&names, 0).is_empty());
}
