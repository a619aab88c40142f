use vibe_kanban::graph::{ExecutorProfileId, GraphEdge, GraphNode};
use vibe_kanban::idempotency::edge_id_for_key;
use vibe_kanban::milestone_apply::plan_creations;
use vibe_kanban::milestone_plan::{
    normalize_optional_text, normalize_optional_text_keep_empty, normalize_plan,
    referenced_task_ids, validate_plan_dag, validate_plan_structure, MilestonePlanCreateTaskV1,
    MilestonePlanEdgeKeyV1, MilestonePlanEdgeV1, MilestonePlanMilestoneV1, MilestonePlanNodeV1,
    MilestonePlanV1, PlanError,
};
use vibe_kanban::milestone_preview::{
    compute_preview_response, edge_tuple, executor_profile_label, metadata_field_sort_key,
    normalized_optional_field, Milestone, MilestonePlanMetadataField,
};

fn create_node(id: &str, title: &str) -> MilestonePlanNodeV1 {
    MilestonePlanNodeV1 {
        id: id.to_string(),
        task_id: None,
        create_task: Some(MilestonePlanCreateTaskV1 {
            title: title.to_string(),
            description: None,
        }),
        instructions: None,
    }
}

fn link_node(id: &str, task_id: u128) -> MilestonePlanNodeV1 {
    MilestonePlanNodeV1 {
        id: id.to_string(),
        task_id: Some(task_id),
        create_task: None,
        instructions: None,
    }
}

fn plan_edge(from: &str, to: &str, data_flow: Option<&str>) -> MilestonePlanEdgeV1 {
    MilestonePlanEdgeV1 {
        from: from.to_string(),
        to: to.to_string(),
        data_flow: data_flow.map(str::to_string),
    }
}

fn key(from: &str, to: &str, data_flow: Option<&str>) -> MilestonePlanEdgeKeyV1 {
    MilestonePlanEdgeKeyV1 {
        from: from.to_string(),
        to: to.to_string(),
        data_flow: data_flow.map(str::to_string),
    }
}

fn empty_meta() -> MilestonePlanMilestoneV1 {
    MilestonePlanMilestoneV1 {
        objective: None,
        definition_of_done: None,
        default_executor_profile_id: None,
        automation_mode: None,
        baseline_ref: None,
    }
}

fn plan(nodes: Vec<MilestonePlanNodeV1>, edges: Vec<MilestonePlanEdgeV1>) -> MilestonePlanV1 {
    MilestonePlanV1 {
        schema_version: 1,
        milestone: empty_meta(),
        nodes,
        edges,
    }
}

#[test]
fn normalize_plan_trims_and_sorts_stably() {
    let mut meta = empty_meta();
    meta.objective = Some("  Ship v1  ".to_string());
    meta.baseline_ref = Some("   ".to_string());
    let p = MilestonePlanV1 {
        schema_version: 1,
        milestone: meta,
        nodes: vec![
            create_node(" node-b ", " Review "),
            MilestonePlanNodeV1 {
                id: "node-a".to_string(),
                task_id: None,
                create_task: Some(MilestonePlanCreateTaskV1 {
                    title: "Implement".to_string(),
                    description: Some("   ".to_string()),
                }),
                instructions: Some(" do it ".to_string()),
            },
        ],
        edges: vec![
            plan_edge("b", "c", Some(" x ")),
            plan_edge(" a ", "c", Some("")),
            plan_edge("a", "b", None),
            plan_edge("a", "c", None),
        ],
    };
    let n = normalize_plan(p);
    assert_eq!(n.milestone.objective.as_deref(), Some("Ship v1"));
    assert_eq!(n.milestone.baseline_ref.as_deref(), Some(""));
    assert_eq!(n.nodes[0].id, "node-a");
    assert_eq!(n.nodes[0].instructions.as_deref(), Some("do it"));
    assert!(n.nodes[0].create_task.as_ref().unwrap().description.is_none());
    assert_eq!(n.nodes[1].id, "node-b");
    assert_eq!(n.nodes[1].create_task.as_ref().unwrap().title, "Review");
    let edges: Vec<(String, String, Option<String>)> = n
        .edges
        .iter()
        .map(|e| (e.from.clone(), e.to.clone(), e.data_flow.clone()))
        .collect();
    assert_eq!(
        edges,
        vec![
            ("a".to_string(), "b".to_string(), None),
            ("a".to_string(), "c".to_string(), None),
            ("a".to_string(), "c".to_string(), None),
            ("b".to_string(), "c".to_string(), Some("x".to_string())),
        ]
    );
}

#[test]
fn preview_rejects_unsupported_schema_version() {
    let mut p = plan(vec![create_node("a", "A")], vec![]);
    p.schema_version = 999;
    assert!(matches!(
        validate_plan_structure(p, true),
        Err(PlanError::UnsupportedSchemaVersion(999))
    ));
}

#[test]
fn structure_errors_come_in_order() {
    assert!(matches!(
        validate_plan_structure(plan(vec![create_node("  ", "A")], vec![]), true),
        Err(PlanError::EmptyNodeId)
    ));
    assert!(matches!(
        validate_plan_structure(plan(vec![create_node("a", "A"), create_node(" a", "B")], vec![]), true),
        Err(PlanError::DuplicateNodeId(id)) if id == "a"
    ));
    let both = MilestonePlanNodeV1 {
        id: "x".to_string(),
        task_id: Some(1),
        create_task: Some(MilestonePlanCreateTaskV1 {
            title: "T".to_string(),
            description: None,
        }),
        instructions: None,
    };
    assert!(matches!(
        validate_plan_structure(plan(vec![both], vec![]), true),
        Err(PlanError::NodeTaskChoice(id)) if id == "x"
    ));
    assert!(matches!(
        validate_plan_structure(plan(vec![link_node("a", 5), link_node("b", 5)], vec![]), true),
        Err(PlanError::DuplicateTaskId(5))
    ));
    assert!(matches!(
        validate_plan_structure(plan(vec![create_node("a", "  ")], vec![]), true),
        Err(PlanError::EmptyCreateTaskTitle(id)) if id == "a"
    ));
    let nodes = || vec![create_node("a", "A"), create_node("b", "B")];
    assert!(matches!(
        validate_plan_structure(plan(nodes(), vec![plan_edge(" ", "b", None)]), true),
        Err(PlanError::EmptyEdgeEndpoint)
    ));
    assert!(matches!(
        validate_plan_structure(plan(nodes(), vec![plan_edge("z", "b", None)]), true),
        Err(PlanError::UnknownFromNode(id)) if id == "z"
    ));
    assert!(matches!(
        validate_plan_structure(plan(nodes(), vec![plan_edge("a", "z", None)]), true),
        Err(PlanError::UnknownToNode(id)) if id == "z"
    ));
    assert!(matches!(
        validate_plan_structure(plan(nodes(), vec![plan_edge("a", "a", None)]), true),
        Err(PlanError::SelfEdge)
    ));
    assert!(matches!(
        validate_plan_structure(plan(
            nodes(),
            vec![plan_edge("a", "b", None), plan_edge("b", "a", None)]
        ), true),
        Err(PlanError::Cycle)
    ));
    let mut p = plan(nodes(), vec![plan_edge("a", "b", None)]);
    p.milestone.baseline_ref = Some("  ".to_string());
    assert!(matches!(validate_plan_structure(p, true), Err(PlanError::EmptyBaselineRef)));
    let mut p = plan(nodes(), vec![plan_edge("a", "b", None)]);
    p.milestone.baseline_ref = Some(" feature..x ".to_string());
    assert!(matches!(validate_plan_structure(p, false), Err(PlanError::InvalidBaselineRef)));
    let mut p = plan(nodes(), vec![plan_edge("a", "b", None)]);
    p.milestone.baseline_ref = Some(" main ".to_string());
    assert!(validate_plan_structure(p, true).is_ok());
}

#[test]
fn valid_plan_is_returned_normalized() {
    let p = plan(
        vec![link_node("b", 7), create_node("a", "Implement")],
        vec![plan_edge(" a ", "b", Some(" out "))],
    );
    let ok = validate_plan_structure(p, true).ok().unwrap();
    assert_eq!(ok.nodes[0].id, "a");
    assert_eq!(ok.edges[0].from, "a");
    assert_eq!(ok.edges[0].data_flow.as_deref(), Some("out"));
    assert_eq!(referenced_task_ids(&ok), vec![7]);
}

#[test]
fn dag_check_reports_cycle_only_after_edges_pass() {
    let ids = vec!["a".to_string(), "b".to_string(), "c".to_string()];
    assert_eq!(
        validate_plan_dag(&ids, &vec![key("a", "b", None), key("b", "c", None)]),
        Ok(())
    );
    assert_eq!(
        validate_plan_dag(&ids, &vec![key("a", "b", None), key("b", "a", None), key("q", "a", None)]),
        Err(PlanError::UnknownFromNode("q".to_string()))
    );
}

#[test]
fn optional_text_helpers() {
    assert_eq!(normalize_optional_text(Some("  x ".to_string())), Some("x".to_string()));
    assert_eq!(normalize_optional_text(Some("   ".to_string())), None);
    assert_eq!(normalize_optional_text(None), None);
    assert_eq!(normalize_optional_text_keep_empty(Some("  ".to_string())), Some("".to_string()));
    assert_eq!(normalized_optional_field(&Some(" y".to_string())), Some("y".to_string()));
}

#[test]
fn edge_ids_hash_endpoints_and_data_flow() {
    let id = edge_id_for_key(&key("a", "b", None));
    assert!(id.starts_with("edge-"));
    assert_eq!(id.len(), 21);
    assert!(id[5..].chars().all(|c| c.is_ascii_hexdigit() && !c.is_ascii_uppercase()));
    assert_ne!(id, edge_id_for_key(&key("a", "b", Some("x"))));
    assert_eq!(id, edge_id_for_key(&key("a", "b", None)));
}

#[test]
fn edge_id_matches_sha256_prefix() {
    let id = edge_id_for_key(&key("a", "b", None));
    assert_eq!(id, "edge-911169ddaaf146af");
}

fn graph_node(id: &str) -> GraphNode {
    GraphNode {
        id: id.to_string(),
        task_id: 0,
        status: None,
        executor_profile_id: None,
    }
}

fn graph_edge(from: &str, to: &str, data_flow: Option<&str>) -> GraphEdge {
    GraphEdge {
        id: format!("edge-{from}-{to}"),
        from: from.to_string(),
        to: to.to_string(),
        data_flow: data_flow.map(str::to_string),
    }
}

#[test]
fn preview_lists_changes_tasks_and_diffs() {
    let milestone = Milestone {
        objective: Some("Old".to_string()),
        definition_of_done: None,
        default_executor_profile_id: None,
        automation_mode: "MANUAL".to_string(),
        baseline_ref: "main".to_string(),
        graph_nodes: vec![graph_node("b"), graph_node(" a "), graph_node("  ")],
        graph_edges: vec![graph_edge("a", "b", None), graph_edge("a", "b", Some(""))],
    };
    let mut meta = empty_meta();
    meta.objective = Some(" New ".to_string());
    meta.definition_of_done = Some("   ".to_string());
    meta.default_executor_profile_id = Some(Some(ExecutorProfileId {
        executor: "CODEX".to_string(),
        variant: None,
    }));
    meta.automation_mode = Some("MANUAL".to_string());
    meta.baseline_ref = Some(" release ".to_string());
    let p = MilestonePlanV1 {
        schema_version: 1,
        milestone: meta,
        nodes: vec![create_node("c", "Third"), link_node("a", 9), create_node("b", "Second")],
        edges: vec![plan_edge("b", "c", Some("art")), plan_edge("a", "b", None)],
    };
    let preview = compute_preview_response(&milestone, &p);

    let fields: Vec<u8> = preview
        .metadata_changes
        .iter()
        .map(|c| metadata_field_sort_key(&c.field))
        .collect();
    assert_eq!(fields, vec![0, 2, 4]);
    assert_eq!(preview.metadata_changes[0].from.as_deref(), Some("Old"));
    assert_eq!(preview.metadata_changes[0].to.as_deref(), Some("New"));
    assert_eq!(preview.metadata_changes[1].from, None);
    assert_eq!(preview.metadata_changes[1].to.as_deref(), Some("CODEX::"));
    assert_eq!(preview.metadata_changes[2].to.as_deref(), Some("release"));

    let creates: Vec<&str> = preview.tasks_to_create.iter().map(|t| t.node_id.as_str()).collect();
    assert_eq!(creates, vec!["b", "c"]);
    assert_eq!(preview.task_links.len(), 1);
    assert_eq!(preview.task_links[0].task_id, 9);

    assert_eq!(preview.node_diff.existing, vec!["a".to_string(), "b".to_string()]);
    assert_eq!(
        preview.node_diff.planned,
        vec!["a".to_string(), "b".to_string(), "c".to_string()]
    );
    assert_eq!(preview.node_diff.added, vec!["c".to_string()]);
    assert!(preview.node_diff.removed.is_empty());

    assert_eq!(preview.edge_diff.existing.len(), 2);
    let added: Vec<(String, String, Option<String>)> = preview
        .edge_diff
        .added
        .iter()
        .map(|e| (e.from.clone(), e.to.clone(), e.data_flow.clone()))
        .collect();
    assert_eq!(added, vec![("b".to_string(), "c".to_string(), Some("art".to_string()))]);
    assert!(preview.edge_diff.removed.is_empty());
}

#[test]
fn field_keys_labels_and_tuples() {
    assert_eq!(metadata_field_sort_key(&MilestonePlanMetadataField::AutomationMode), 3);
    assert_eq!(
        executor_profile_label(&ExecutorProfileId {
            executor: "CLAUDE_CODE".to_string(),
            variant: Some("PLAN".to_string())
        }),
        "CLAUDE_CODE::PLAN"
    );
    assert_eq!(
        edge_tuple(&key("a", "b", None)),
        ("a".to_string(), "b".to_string(), String::new())
    );
}

#[test]
fn normalized_plans_ignore_listing_order() {
    let edges_a = vec![
        plan_edge(" b", "c ", Some(" x ")),
        plan_edge("a", "b", None),
        plan_edge("a", "b", Some("  ")),
        plan_edge("a", "c", Some("y")),
    ];
    let edges_b = vec![
        plan_edge("a", "c", Some("y")),
        plan_edge("a", "b", Some("  ")),
        plan_edge(" b", "c ", Some(" x ")),
        plan_edge("a", "b", None),
    ];
    let nodes_a = vec![create_node(" c ", "C"), link_node("a", 1), create_node("b", "B")];
    let nodes_b = vec![create_node("b", "B"), create_node(" c ", "C"), link_node("a", 1)];
    let na = normalize_plan(plan(nodes_a, edges_a));
    let nb = normalize_plan(plan(nodes_b, edges_b));
    let edge_keys = |p: &MilestonePlanV1| -> Vec<(String, String, Option<String>)> {
        p.edges.iter().map(|e| (e.from.clone(), e.to.clone(), e.data_flow.clone())).collect()
    };
    assert_eq!(edge_keys(&na), edge_keys(&nb));
    let ids = |p: &MilestonePlanV1| -> Vec<String> { p.nodes.iter().map(|n| n.id.clone()).collect() };
    assert_eq!(ids(&na), vec!["a".to_string(), "b".to_string(), "c".to_string()]);
    assert_eq!(ids(&na), ids(&nb));
}

#[test]
fn normalizing_a_normalized_plan_changes_nothing() {
    let mut p = plan(
        vec![create_node(" b ", "  Second "), link_node("a", 3), create_node("c", " ")],
        vec![plan_edge(" b", "c ", Some("  ")), plan_edge("a ", " b", Some(" out "))],
    );
    p.milestone.objective = Some("  ship it ".to_string());
    p.milestone.baseline_ref = Some("   ".to_string());
    let once = normalize_plan(p);
    let twice = normalize_plan(once.clone());
    assert_eq!(format!("{:?}", once), format!("{:?}", twice));
    assert_eq!(once.nodes[0].id, "a");
    assert_eq!(once.milestone.baseline_ref.as_deref(), Some(""));
}

#[test]
fn plan_errors_have_their_messages() {
    assert_eq!(
        PlanError::Cycle.message(),
        "plan contains a cycle; edges must form a DAG"
    );
    assert_eq!(
        PlanError::UnsupportedSchemaVersion(999).message(),
        "Unsupported plan schema_version: 999"
    );
    assert_eq!(PlanError::EmptyNodeId.message(), "node id cannot be empty");
    assert_eq!(PlanError::DuplicateNodeId("a".to_string()).message(), "duplicate node id: a");
    assert_eq!(
        PlanError::NodeTaskChoice("x".to_string()).message(),
        "node x must specify exactly one of task_id or create_task"
    );
    assert_eq!(
        PlanError::DuplicateTaskId(5).message(),
        "duplicate task_id in nodes: 00000000-0000-0000-0000-000000000005"
    );
    assert_eq!(
        PlanError::EmptyCreateTaskTitle("a".to_string()).message(),
        "node a create_task.title cannot be empty"
    );
    assert_eq!(PlanError::EmptyEdgeEndpoint.message(), "edge endpoints cannot be empty");
    assert_eq!(
        PlanError::UnknownFromNode("z".to_string()).message(),
        "edge 'from' node does not exist: z"
    );
    assert_eq!(
        PlanError::UnknownToNode("z".to_string()).message(),
        "edge 'to' node does not exist: z"
    );
    assert_eq!(PlanError::SelfEdge.message(), "self edges are not allowed");
    assert_eq!(PlanError::EmptyBaselineRef.message(), "milestone.baseline_ref cannot be empty");
    assert_eq!(
        PlanError::InvalidBaselineRef.message(),
        "milestone.baseline_ref is not a valid git branch name"
    );
    let cyclic = plan(
        vec![create_node("a", "A"), create_node("b", "B"), create_node("c", "C")],
        vec![plan_edge("a", "b", None), plan_edge("b", "c", None), plan_edge("c", "a", None)],
    );
    assert_eq!(
        validate_plan_structure(cyclic, true).unwrap_err().message(),
        "plan contains a cycle; edges must form a DAG"
    );
}

#[test]
fn invalid_plan_creates_no_task() {
    let cyclic = plan(
        vec![create_node("a", "A"), create_node("b", "B")],
        vec![plan_edge("a", "b", None), plan_edge("b", "a", None)],
    );
    assert!(matches!(plan_creations(cyclic, true), Err(PlanError::Cycle)));
    let ok = plan(
        vec![create_node("c", "C"), link_node("b", 9), create_node(" a ", "A")],
        vec![plan_edge("a", "c", None)],
    );
    let (normalized, ids) = plan_creations(ok, true).unwrap();
    assert_eq!(ids, vec!["a".to_string(), "c".to_string()]);
    assert_eq!(normalized.nodes.len(), 3);
}
