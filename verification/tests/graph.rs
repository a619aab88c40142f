use vibe_kanban::graph::{
    attempt_target_branches, fallback_baseline, BaseStrategy, blocked_predecessors, find_task_group_node, resolve_executor_profile_id,
    select_latest_workspace, topo_sorted_task_ids, topology_predecessor_tasks, ExecutorProfileId, GraphEdge, GraphError,
    GraphNode, TaskGraph, TaskStatus,
};

fn node(id: &str, task_id: u128, status: TaskStatus) -> GraphNode {
    GraphNode {
        id: id.to_string(),
        task_id,
        status: Some(status),
        executor_profile_id: None,
    }
}

fn node_with_executor(id: &str, executor_profile_id: Option<ExecutorProfileId>) -> GraphNode {
    GraphNode {
        id: id.to_string(),
        task_id: 7,
        status: Some(TaskStatus::Todo),
        executor_profile_id,
    }
}

fn edge(id: &str, from: &str, to: &str) -> GraphEdge {
    GraphEdge {
        id: id.to_string(),
        from: from.to_string(),
        to: to.to_string(),
        data_flow: None,
    }
}

#[test]
fn blocked_predecessors_allows_ready_node() {
    let graph = TaskGraph {
        nodes: vec![node("a", 1, TaskStatus::Done), node("b", 2, TaskStatus::Todo)],
        edges: vec![edge("edge-a-b", "a", "b")],
    };

    let blocked = blocked_predecessors(&graph, "b").unwrap();
    assert!(blocked.is_empty());
}

#[test]
fn blocked_predecessors_reports_incomplete_nodes() {
    let graph = TaskGraph {
        nodes: vec![
            node("a", 1, TaskStatus::InProgress),
            node("b", 2, TaskStatus::Todo),
        ],
        edges: vec![edge("edge-a-b", "a", "b")],
    };

    let blocked = blocked_predecessors(&graph, "b").unwrap();
    assert_eq!(blocked, vec!["a".to_string()]);
}

#[test]
fn blocked_predecessors_requires_existing_node() {
    let graph = TaskGraph {
        nodes: vec![node("a", 1, TaskStatus::Done)],
        edges: Vec::new(),
    };

    let err = blocked_predecessors(&graph, "missing").unwrap_err();
    assert!(matches!(err, GraphError::NodeNotFound));
}

#[test]
fn blocked_predecessors_rejects_blank_id() {
    let graph = TaskGraph {
        nodes: vec![node("a", 1, TaskStatus::Done)],
        edges: Vec::new(),
    };
    assert!(matches!(
        blocked_predecessors(&graph, "  "),
        Err(GraphError::EmptyNodeId)
    ));
}

#[test]
fn resolve_executor_profile_id_prefers_node_override() {
    let fallback = ExecutorProfileId {
        executor: "CLAUDE_CODE".to_string(),
        variant: None,
    };
    let override_id = ExecutorProfileId {
        executor: "FAKE_AGENT".to_string(),
        variant: Some("TEST".to_string()),
    };
    let node = node_with_executor("override", Some(override_id.clone()));

    let resolved = resolve_executor_profile_id(&node, fallback);
    assert_eq!(resolved.executor, override_id.executor);
    assert_eq!(resolved.variant, override_id.variant);
}

#[test]
fn resolve_executor_profile_id_uses_fallback_when_empty() {
    let fallback = ExecutorProfileId {
        executor: "CODEX".to_string(),
        variant: None,
    };
    let node = node_with_executor("fallback", None);

    let resolved = resolve_executor_profile_id(&node, fallback.clone());
    assert_eq!(resolved.executor, fallback.executor);
    assert_eq!(resolved.variant, fallback.variant);
}

#[test]
fn topo_sorted_task_ids_respects_edges() {
    let task_id_a: u128 = 0xa;
    let task_id_b: u128 = 0xb;
    let graph = TaskGraph {
        nodes: vec![
            node("b", task_id_b, TaskStatus::Todo),
            node("a", task_id_a, TaskStatus::Todo),
        ],
        edges: vec![edge("edge-a-b", "a", "b")],
    };

    let order = topo_sorted_task_ids(&graph);
    let idx_a = order.iter().position(|id| *id == task_id_a).unwrap();
    let idx_b = order.iter().position(|id| *id == task_id_b).unwrap();
    assert!(idx_a < idx_b);
}

#[test]
fn topo_sorted_task_ids_keeps_node_order_on_cycle() {
    let graph = TaskGraph {
        nodes: vec![node("a", 1, TaskStatus::Todo), node("b", 2, TaskStatus::Todo)],
        edges: vec![edge("e1", "a", "b"), edge("e2", "b", "a")],
    };
    assert_eq!(topo_sorted_task_ids(&graph), vec![1, 2]);
}

#[test]
fn find_task_group_node_trims_and_reports_missing() {
    let graph = TaskGraph {
        nodes: vec![node("a", 1, TaskStatus::Todo)],
        edges: Vec::new(),
    };
    assert_eq!(find_task_group_node(&graph, " a ").unwrap().task_id, 1);
    assert!(matches!(find_task_group_node(&graph, "b"), Err(GraphError::NodeNotFound)));
    assert!(matches!(find_task_group_node(&graph, ""), Err(GraphError::EmptyNodeId)));
}

#[test]
fn latest_workspace_is_chosen() {
    assert_eq!(select_latest_workspace(&vec![(1, 10), (2, 30), (3, 20)]), Some(2));
    assert_eq!(select_latest_workspace(&vec![]), None);
}

#[test]
fn fallback_baseline_by_strategy() {
    assert_eq!(fallback_baseline(BaseStrategy::Baseline, true, " main "), Some("main".to_string()));
    assert_eq!(fallback_baseline(BaseStrategy::Baseline, false, "  "), None);
    assert_eq!(fallback_baseline(BaseStrategy::Topology, true, "main"), None);
    assert_eq!(fallback_baseline(BaseStrategy::Topology, false, "dev"), Some("dev".to_string()));
}

#[test]
fn attempt_branches_prefer_topology_then_baseline() {
    let requested = vec![(1u128, "req-1".to_string()), (2u128, "req-2".to_string())];
    let topology = vec![(2u128, "old".to_string()), (2u128, "pred-2".to_string())];
    assert_eq!(
        attempt_target_branches(&requested, &topology, &Some("base".to_string())),
        vec![(1u128, "base".to_string()), (2u128, "pred-2".to_string())]
    );
    assert_eq!(
        attempt_target_branches(&requested, &vec![], &None),
        requested.clone()
    );
}

#[test]
fn topology_predecessors_are_done_predecessor_tasks() {
    let graph = TaskGraph {
        nodes: vec![
            node("a", 1, TaskStatus::Done),
            node("b", 2, TaskStatus::InProgress),
            node("c", 3, TaskStatus::Todo),
            node("d", 4, TaskStatus::Done),
        ],
        edges: vec![
            edge("e1", "a", "c"),
            edge("e2", " b ", "c"),
            edge("e3", "d", " c"),
            edge("e4", "a", "b"),
        ],
    };
    assert_eq!(topology_predecessor_tasks(&graph, " c ").unwrap(), vec![1, 4]);
    assert_eq!(topology_predecessor_tasks(&graph, "b").unwrap(), vec![1]);
    assert_eq!(topology_predecessor_tasks(&graph, "a").unwrap(), Vec::<u128>::new());
    assert_eq!(topology_predecessor_tasks(&graph, "  "), Err(GraphError::EmptyNodeId));
}

#[test]
fn graph_errors_have_their_messages() {
    assert_eq!(GraphError::EmptyNodeId.message(), "Task group node id cannot be empty");
    assert_eq!(GraphError::NodeNotFound.message(), "Task group node not found in graph");
}
