use vibe_kanban::milestone_apply::{
    check_linked_tasks, fallback_layout, fallback_position, resolve_node_task,
    task_creation_order, LayoutNode, LinkedTaskError, LinkedTaskRow, NodeTaskError,
};
use vibe_kanban::milestone_plan::{MilestonePlanCreateTaskV1, MilestonePlanNodeV1};

fn node(id: &str, task_id: Option<u128>, create: bool) -> MilestonePlanNodeV1 {
    MilestonePlanNodeV1 {
        id: id.to_string(),
        task_id,
        create_task: if create {
            Some(MilestonePlanCreateTaskV1 { title: format!("task {id}"), description: None })
        } else {
            None
        },
        instructions: None,
    }
}

fn linked(uuid: u128) -> LinkedTaskRow {
    LinkedTaskRow {
        uuid,
        project_row_id: 1,
        milestone_row_id: None,
        is_milestone_kind: false,
        archived: false,
    }
}

#[test]
fn linked_tasks_pass_when_they_fit() {
    let mut own = linked(2);
    own.milestone_row_id = Some(7);
    assert_eq!(check_linked_tasks(&vec![1, 2], &vec![linked(1), own], 1, 7), Ok(()));
    assert_eq!(check_linked_tasks(&vec![], &vec![], 1, 7), Ok(()));
}

#[test]
fn linked_task_errors_in_order() {
    assert_eq!(
        check_linked_tasks(&vec![1, 5], &vec![linked(1)], 1, 7),
        Err(LinkedTaskError::NotFound(5))
    );
    let mut other_project = linked(3);
    other_project.project_row_id = 2;
    let mut other_milestone = linked(4);
    other_milestone.milestone_row_id = Some(8);
    assert_eq!(
        check_linked_tasks(&vec![4, 3], &vec![other_project, other_milestone], 1, 7),
        Err(LinkedTaskError::OtherMilestone(4))
    );
    let mut kind = linked(6);
    kind.is_milestone_kind = true;
    assert_eq!(
        check_linked_tasks(&vec![6], &vec![kind], 1, 7),
        Err(LinkedTaskError::MilestoneKind(6))
    );
    let mut archived = linked(9);
    archived.archived = true;
    assert_eq!(
        check_linked_tasks(&vec![9], &vec![archived], 1, 7),
        Err(LinkedTaskError::Archived(9))
    );
    // The row fetched last for a task is the one that counts.
    let mut stale = linked(9);
    stale.archived = true;
    assert_eq!(check_linked_tasks(&vec![9], &vec![stale, linked(9)], 1, 7), Ok(()));
}

#[test]
fn linked_task_messages() {
    assert_eq!(
        LinkedTaskError::NotFound(0x0123456789abcdef0123456789abcdef).message(),
        "Task not found: 01234567-89ab-cdef-0123-456789abcdef"
    );
    assert_eq!(
        LinkedTaskError::Archived(1).message(),
        "Task is archived and cannot be linked into a milestone plan: 00000000-0000-0000-0000-000000000001"
    );
}

#[test]
fn tasks_are_created_in_node_id_order() {
    let nodes = vec![node("c", None, true), node("a", Some(1), false), node("b", None, true)];
    assert_eq!(task_creation_order(&nodes), vec!["b".to_string(), "c".to_string()]);
}

#[test]
fn node_tasks_resolve() {
    let created = vec![("b".to_string(), 20u128), ("c".to_string(), 30u128)];
    assert_eq!(resolve_node_task(&node("a", Some(1), false), &created), Ok(1));
    assert_eq!(resolve_node_task(&node("c", None, true), &created), Ok(30));
    assert_eq!(
        resolve_node_task(&node("z", None, true), &created),
        Err(NodeTaskError::MissingCreatedTask)
    );
    assert_eq!(
        resolve_node_task(&node("x", Some(1), true), &created),
        Err(NodeTaskError::TaskChoice("x".to_string()))
    );
    assert_eq!(
        resolve_node_task(&node("y", None, false), &created),
        Err(NodeTaskError::TaskChoice("y".to_string()))
    );
}

#[test]
fn fallback_layout_fills_rows_of_four_per_phase() {
    let mut nodes = Vec::new();
    for id in ["e", "d", "c", "b", "a"] {
        nodes.push(LayoutNode { phase: 0, id: id.to_string() });
    }
    nodes.push(LayoutNode { phase: 1, id: "z".to_string() });
    nodes.push(LayoutNode { phase: -1, id: "m".to_string() });
    let layout = fallback_layout(nodes);
    let cells: Vec<(String, i128, i128)> =
        layout.iter().map(|p| (p.id.clone(), p.x, p.y)).collect();
    assert_eq!(
        cells,
        vec![
            ("m".to_string(), 0, -220),
            ("a".to_string(), 0, 0),
            ("b".to_string(), 260, 0),
            ("c".to_string(), 520, 0),
            ("d".to_string(), 780, 0),
            ("e".to_string(), 0, 180),
            ("z".to_string(), 0, 220),
        ]
    );
    assert_eq!(fallback_position(&layout, "e"), Some((0, 180)));
    assert_eq!(fallback_position(&layout, "q"), None);
}

#[test]
fn node_task_errors_have_their_messages() {
    assert_eq!(NodeTaskError::MissingCreatedTask.message(), "Missing created task id");
    assert_eq!(
        NodeTaskError::TaskChoice("n1".to_string()).message(),
        "node n1 must specify exactly one of task_id or create_task"
    );
}
