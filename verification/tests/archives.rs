use vibe_kanban::archive_plan::{
    archive_selection, restore_selection, restore_statuses, rows_by_id, selected_milestone_ids,
    ArchiveSelectionError, ArchiveTaskRow, RestoreRequestError, RestoreSplitError,
};
use vibe_kanban::graph::TaskStatus;

fn row(id: i64, milestone_id: Option<i64>, archived_kanban_id: Option<i64>) -> ArchiveTaskRow {
    ArchiveTaskRow { id, milestone_id, archived_kanban_id }
}

fn ids(rows: &[ArchiveTaskRow]) -> Vec<i64> {
    rows.iter().map(|r| r.id).collect()
}

#[test]
fn milestone_ids_are_sorted_and_distinct() {
    let rows = vec![
        row(1, Some(9), None),
        row(2, None, None),
        row(3, Some(4), None),
        row(4, Some(9), None),
        row(5, Some(-2), None),
    ];
    assert_eq!(selected_milestone_ids(&rows), vec![-2, 4, 9]);
    assert!(selected_milestone_ids(&vec![row(1, None, None)]).is_empty());
}

#[test]
fn later_rows_win_and_ids_come_sorted() {
    let first = vec![row(5, None, None), row(2, Some(1), None)];
    let then = vec![row(2, Some(1), Some(7)), row(3, Some(1), None)];
    let merged = rows_by_id(&first, &then);
    assert_eq!(ids(&merged), vec![2, 3, 5]);
    assert_eq!(merged[0].archived_kanban_id, Some(7));
}

#[test]
fn archive_takes_whole_milestones() {
    let selected = vec![row(10, None, None), row(3, Some(1), None)];
    let milestone_tasks = vec![row(3, Some(1), None), row(4, Some(1), None), row(8, Some(1), None)];
    let taken = archive_selection(&selected, &milestone_tasks).unwrap();
    assert_eq!(ids(&taken), vec![3, 4, 8, 10]);
}

#[test]
fn archive_ignores_fetched_tasks_without_selected_milestones() {
    let selected = vec![row(10, None, None)];
    let stray = vec![row(4, Some(1), Some(2))];
    assert_eq!(ids(&archive_selection(&selected, &stray).unwrap()), vec![10]);
}

#[test]
fn archive_refusals() {
    assert_eq!(
        archive_selection(&vec![], &vec![]),
        Err(ArchiveSelectionError::NoMatchingTasks)
    );
    let selected = vec![row(3, Some(1), None)];
    let split = vec![row(3, Some(1), None), row(4, Some(1), Some(6))];
    assert_eq!(
        archive_selection(&selected, &split),
        Err(ArchiveSelectionError::MilestoneSplit)
    );
    let archived = vec![row(3, None, Some(6))];
    assert_eq!(
        archive_selection(&archived, &vec![]),
        Err(ArchiveSelectionError::AlreadyArchived)
    );
}

#[test]
fn restore_takes_whole_milestones_of_this_archive() {
    let selected = vec![row(7, None, Some(5)), row(3, Some(1), Some(5))];
    let milestone_tasks = vec![row(3, Some(1), Some(5)), row(4, Some(1), Some(5))];
    let restored = restore_selection(&selected, &milestone_tasks, 5).unwrap();
    assert_eq!(ids(&restored), vec![3, 4, 7]);
    let split = vec![row(3, Some(1), Some(5)), row(4, Some(1), None)];
    assert_eq!(restore_selection(&selected, &split, 5), Err(RestoreSplitError));
    assert!(restore_selection(&vec![], &vec![], 5).unwrap().is_empty());
}

#[test]
fn restore_request_statuses() {
    assert_eq!(restore_statuses(Some(true), None), Ok(None));
    assert_eq!(restore_statuses(Some(true), Some(vec![])), Ok(None));
    assert_eq!(
        restore_statuses(Some(true), Some(vec![TaskStatus::Done])),
        Err(RestoreRequestError::StatusesWithRestoreAll)
    );
    assert_eq!(restore_statuses(None, None), Err(RestoreRequestError::NoStatuses));
    assert_eq!(
        restore_statuses(Some(false), Some(vec![])),
        Err(RestoreRequestError::NoStatuses)
    );
    assert_eq!(
        restore_statuses(None, Some(vec![TaskStatus::Todo])),
        Ok(Some(vec![TaskStatus::Todo]))
    );
}

#[test]
fn archive_errors_have_their_messages() {
    assert_eq!(ArchiveSelectionError::NoMatchingTasks.message(), "No matching tasks to archive");
    assert_eq!(
        ArchiveSelectionError::MilestoneSplit.message(),
        "Milestone is already archived/split. Restore the milestone first before archiving again."
    );
    assert_eq!(
        ArchiveSelectionError::AlreadyArchived.message(),
        "Some selected tasks are already archived. Restore them first."
    );
    assert_eq!(
        RestoreRequestError::StatusesWithRestoreAll.message(),
        "Do not provide statuses when restore_all=true"
    );
    assert_eq!(RestoreRequestError::NoStatuses.message(), "At least one status is required");
    assert_eq!(
        RestoreSplitError.message(),
        "Milestone is split across archives/active. Restore the milestone consistently before continuing."
    );
}
