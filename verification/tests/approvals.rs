use vibe_kanban::approvals::{approval_final_status, resumes_task, time_until_timeout, ApprovalStatus};
use vibe_kanban::approvals::{check_response_target, ResponseTargetError};
use vibe_kanban::graph::TaskStatus;
use vibe_kanban::approvals::{find_matching_tool_use, find_tool_use_by_call_id, ToolUseEntry};

fn tool_use(index: usize, call_id: &str, created: bool) -> ToolUseEntry {
    ToolUseEntry {
        entry_index: index,
        is_tool_use: true,
        created,
        tool_call_id: Some(call_id.to_string()),
    }
}

#[test]
fn test_parallel_tool_call_approval_matching() {
    let mut history = vec![
        tool_use(0, "foo-id", true),
        tool_use(1, "bar-id", true),
        tool_use(2, "baz-id", true),
    ];

    let (idx_foo, _) = find_matching_tool_use(&history, "foo-id").expect("Should match foo.rs");
    let (idx_bar, _) = find_matching_tool_use(&history, "bar-id").expect("Should match bar.rs");
    let (idx_baz, _) = find_matching_tool_use(&history, "baz-id").expect("Should match baz.rs");

    assert_eq!(idx_foo, 0, "foo.rs should match first entry");
    assert_eq!(idx_bar, 1, "bar.rs should match second entry");
    assert_eq!(idx_baz, 2, "baz.rs should match third entry");

    history.push(tool_use(3, "pending-id", false));
    assert!(
        find_matching_tool_use(&history, "pending-id").is_none(),
        "Should not match tools in PendingApproval state"
    );

    assert!(
        find_matching_tool_use(&history, "wrong-id").is_none(),
        "Should not match different tool ids"
    );
}

#[test]
fn latest_entry_wins_and_status_is_ignored_by_call_id_lookup() {
    let history = vec![
        tool_use(0, "dup", true),
        ToolUseEntry {
            entry_index: 1,
            is_tool_use: false,
            created: true,
            tool_call_id: Some("dup".to_string()),
        },
        tool_use(2, "dup", true),
        tool_use(3, "pending", false),
    ];
    assert_eq!(find_matching_tool_use(&history, "dup"), Some((2, 2)));
    assert_eq!(find_tool_use_by_call_id(&history, "pending"), Some((3, 3)));
    assert_eq!(find_tool_use_by_call_id(&history, "none"), None);
}

#[test]
fn answering_an_approval_is_idempotent() {
    assert_eq!(
        approval_final_status(ApprovalStatus::Pending, ApprovalStatus::Approved),
        ApprovalStatus::Approved
    );
    assert_eq!(
        approval_final_status(ApprovalStatus::TimedOut, ApprovalStatus::Approved),
        ApprovalStatus::TimedOut
    );
    let denied = ApprovalStatus::Denied { reason: Some("no".to_string()) };
    assert_eq!(approval_final_status(denied.clone(), ApprovalStatus::Approved), denied);
}

#[test]
fn answered_approvals_resume_tasks_in_review() {
    assert!(resumes_task(&ApprovalStatus::Approved, TaskStatus::InReview));
    assert!(resumes_task(&ApprovalStatus::Denied { reason: None }, TaskStatus::InReview));
    assert!(!resumes_task(&ApprovalStatus::Approved, TaskStatus::InProgress));
    assert!(!resumes_task(&ApprovalStatus::TimedOut, TaskStatus::InReview));
    assert!(!resumes_task(&ApprovalStatus::Pending, TaskStatus::InReview));
}

#[test]
fn approval_timeout_wait() {
    assert_eq!(time_until_timeout(5_000, 1_000), 4_000);
    assert_eq!(time_until_timeout(1_000, 5_000), 0);
    assert_eq!(time_until_timeout(i64::MAX, i64::MIN), u64::MAX);
}

#[test]
fn answering_twice_keeps_first_answer() {
    let first = approval_final_status(ApprovalStatus::Pending, ApprovalStatus::Denied { reason: None });
    let second = approval_final_status(first.clone(), ApprovalStatus::Approved);
    assert_eq!(second, first);
}

#[test]
fn tool_use_assigned_to_an_approval_is_not_matched_again() {
    let history = vec![tool_use(3, "x", true), tool_use(3, "x", false)];
    assert_eq!(find_matching_tool_use(&history, "x"), None);

    let history = vec![tool_use(3, "x", false), tool_use(3, "x", true), tool_use(5, "x", false)];
    assert_eq!(find_matching_tool_use(&history, "x"), Some((3, 1)));
}

#[test]
fn answer_for_another_execution_process_is_refused() {
    assert_eq!(check_response_target(7, 7), Ok(()));
    let err = check_response_target(1, 2).unwrap_err();
    assert_eq!(err, ResponseTargetError::ExecutionProcessMismatch { expected: 1, got: 2 });
    assert_eq!(
        err.message(),
        "execution_process_id mismatch for approval: expected \
00000000-0000-0000-0000-000000000001, got 00000000-0000-0000-0000-000000000002"
    );
}
