//! Task graphs of milestones and task groups: dependency order, readiness of a node, and
//! the choice of the base for a node's attempt.
use vstd::prelude::*;

use crate::dag::{is_acyclic, is_topological_order, kahn_order};
use crate::text::{
    chars_eq, index_in, index_of_chars, lemma_index_in, opt_trim_nonempty, opt_view, trim, trimmed,
    trimmed_chars,
};

verus! {

/// Status of a task.
#[derive(Clone, Copy, Debug, PartialEq, Eq, Structural)]
pub enum TaskStatus {
    Todo,
    InProgress,
    InReview,
    Done,
    Cancelled,
}

/// A coding agent and an optional variant of its profile.
#[derive(Clone, Debug, PartialEq, Eq)]
pub struct ExecutorProfileId {
    pub executor: String,
    pub variant: Option<String>,
}

impl View for ExecutorProfileId {
    type V = (Seq<char>, Option<Seq<char>>);

    open spec fn view(&self) -> (Seq<char>, Option<Seq<char>>) {
        (
            self.executor@,
            match self.variant {
                Some(v) => Some(v@),
                None => None,
            },
        )
    }
}

impl ExecutorProfileId {
    /// A copy with the same agent and variant.
    pub fn duplicate(&self) -> (r: ExecutorProfileId)
        ensures
            r@ == self@,
    {
        ExecutorProfileId {
            executor: self.executor.clone(),
            variant: match &self.variant {
                Some(v) => Some(v.clone()),
                None => None,
            },
        }
    }
}

/// A node of a task graph.
#[derive(Clone, Debug)]
pub struct GraphNode {
    pub id: String,
    pub task_id: u128,
    pub status: Option<TaskStatus>,
    pub executor_profile_id: Option<ExecutorProfileId>,
}

/// A dependency: `from` must be finished before `to`.
#[derive(Clone, Debug)]
pub struct GraphEdge {
    pub id: String,
    pub from: String,
    pub to: String,
    pub data_flow: Option<String>,
}

/// Nodes and dependencies of a milestone or task group.
#[derive(Clone, Debug)]
pub struct TaskGraph {
    pub nodes: Vec<GraphNode>,
    pub edges: Vec<GraphEdge>,
}

/// Why a node could not be looked up.
#[derive(Clone, Copy, Debug, PartialEq, Eq, Structural)]
pub enum GraphError {
    /// "Task group node id cannot be empty".
    EmptyNodeId,
    /// "Task group node not found in graph".
    NodeNotFound,
}

impl GraphError {
    /// The message the API answers with.
    pub fn message(&self) -> (r: &'static str)
        ensures
            r@ == match *self {
                GraphError::EmptyNodeId => "Task group node id cannot be empty"@,
                GraphError::NodeNotFound => "Task group node not found in graph"@,
            },
    {
        match self {
            GraphError::EmptyNodeId => "Task group node id cannot be empty",
            GraphError::NodeNotFound => "Task group node not found in graph",
        }
    }
}

/// The distinct trimmed node ids, in order of first appearance.
pub open spec fn node_keys(nodes: Seq<GraphNode>) -> Seq<Seq<char>>
    decreases nodes.len(),
{
    if nodes.len() == 0 {
        seq![]
    } else {
        let k = node_keys(nodes.drop_last());
        let t = trim(nodes.last().id@);
        if k.contains(t) {
            k
        } else {
            k.push(t)
        }
    }
}

/// The task of the last node whose trimmed id is `key`.
pub open spec fn key_task(nodes: Seq<GraphNode>, key: Seq<char>) -> u128
    decreases nodes.len(),
{
    if nodes.len() == 0 {
        0
    } else if trim(nodes.last().id@) == key {
        nodes.last().task_id
    } else {
        key_task(nodes.drop_last(), key)
    }
}

/// The edges whose trimmed endpoints are both node ids, as pairs of key positions.
pub open spec fn key_edges(keys: Seq<Seq<char>>, edges: Seq<GraphEdge>) -> Seq<(usize, usize)>
    decreases edges.len(),
{
    if edges.len() == 0 {
        seq![]
    } else {
        let rest = key_edges(keys, edges.drop_last());
        let f = trim(edges.last().from@);
        let t = trim(edges.last().to@);
        if keys.contains(f) && keys.contains(t) {
            rest.push((index_in(keys, f) as usize, index_in(keys, t) as usize))
        } else {
            rest
        }
    }
}

/// Task ids in dependency order: when the graph is acyclic, each distinct node id once, in
/// an order every edge respects, standing for the task of its last node; otherwise the tasks
/// of all nodes in their listed order.
pub open spec fn spec_topo_sorted(graph: TaskGraph, res: Seq<u128>) -> bool {
    let keys = node_keys(graph.nodes@);
    let edges = key_edges(keys, graph.edges@);
    if is_acyclic(keys.len(), edges) {
        exists|order: Seq<usize>|
            is_topological_order(keys.len(), edges, order) && res == order.map_values(
                |x: usize| key_task(graph.nodes@, keys[x as int]),
            )
    } else {
        res == graph.nodes@.map_values(|n: GraphNode| n.task_id)
    }
}

/// The tasks of a graph in dependency order (see `spec_topo_sorted`).
pub fn topo_sorted_task_ids(graph: &TaskGraph) -> (res: Vec<u128>)
    ensures
        spec_topo_sorted(*graph, res@),
{
    let ghost nodes = graph.nodes@;
    let mut keys: Vec<Vec<char>> = Vec::new();
    let mut tasks: Vec<u128> = Vec::new();
    let mut i: usize = 0;
    while i < graph.nodes.len()
        invariant
            i <= graph.nodes.len(),
            nodes == graph.nodes@,
            keys@.map_values(|v: Vec<char>| v@) == node_keys(nodes.take(i as int)),
            keys@.map_values(|v: Vec<char>| v@).no_duplicates(),
            tasks.len() == keys.len(),
            forall|k: int|
                0 <= k < keys.len() ==> #[trigger] tasks@[k] == key_task(
                    nodes.take(i as int),
                    keys@[k]@,
                ),
        decreases graph.nodes.len() - i,
    {
        let t = trimmed_chars(graph.nodes[i].id.as_str());
        let idx = index_of_chars(&keys, &t);
        let ghost kv = keys@.map_values(|v: Vec<char>| v@);
        proof {
            assert(nodes.take(i + 1).drop_last() =~= nodes.take(i as int));
            assert(nodes.take(i + 1).last() == nodes[i as int]);
            lemma_index_in(kv, t@);
        }
        let ghost old_keys = keys@;
        let ghost old_tasks = tasks@;
        if idx == keys.len() {
            keys.push(t);
            tasks.push(graph.nodes[i].task_id);
            proof {
                assert(keys@.map_values(|v: Vec<char>| v@) =~= kv.push(t@));
                assert(kv.push(t@).no_duplicates()) by {
                    assert forall|a: int, b: int| 0 <= a < b < kv.len() + 1 implies kv.push(t@)[a] != kv.push(t@)[b] by {
                        if b == kv.len() {
                            assert(kv.push(t@)[a] == kv[a]);
                        }
                    }
                }
                assert forall|k: int| 0 <= k < keys.len() implies #[trigger] tasks@[k] == key_task(
                    nodes.take(i + 1),
                    keys@[k]@,
                ) by {
                    if k < keys.len() - 1 {
                        assert(keys@[k] == old_keys[k]);
                        assert(tasks@[k] == old_tasks[k]);
                        assert(old_tasks[k] == key_task(nodes.take(i as int), old_keys[k]@));
                        assert(kv[k] == keys@[k]@);
                        assert(keys@[k]@ != t@);
                        assert(trim(nodes.take(i + 1).last().id@) == t@);
                        assert(key_task(nodes.take(i + 1), keys@[k]@) == key_task(
                            nodes.take(i + 1).drop_last(),
                            keys@[k]@,
                        ));
                        assert(tasks@[k] == key_task(nodes.take(i + 1), keys@[k]@));
                    } else {
                        assert(keys@[k] == t);
                        assert(tasks@[k] == graph.nodes@[i as int].task_id);
                        assert(nodes.take(i + 1).last() == graph.nodes@[i as int]);
                        assert(key_task(nodes.take(i + 1), t@) == nodes.take(i + 1).last().task_id);
                        assert(tasks@[k] == key_task(nodes.take(i + 1), keys@[k]@));
                    }
                }
            }
        } else {
            tasks.set(idx, graph.nodes[i].task_id);
            proof {
                assert(trim(nodes.take(i + 1).last().id@) == t@);
                assert(kv[idx as int] == t@);
                assert forall|k: int| 0 <= k < keys.len() implies #[trigger] tasks@[k] == key_task(
                    nodes.take(i + 1),
                    keys@[k]@,
                ) by {
                    assert(kv[k] == keys@[k]@);
                    if k != idx {
                        assert(kv[k] != kv[idx as int]);
                        assert(tasks@[k] == old_tasks[k]);
                        assert(key_task(nodes.take(i + 1), keys@[k]@) == key_task(
                            nodes.take(i + 1).drop_last(),
                            keys@[k]@,
                        ));
                    } else {
                        assert(nodes.take(i + 1).last() == graph.nodes@[i as int]);
                    }
                }
            }
        }
        i = i + 1;
    }
    proof {
        assert(nodes.take(i as int) =~= nodes);
    }
    let ghost kv = keys@.map_values(|v: Vec<char>| v@);
    let n = keys.len();
    let mut positions: Vec<(usize, usize)> = Vec::new();
    let mut j: usize = 0;
    while j < graph.edges.len()
        invariant
            j <= graph.edges.len(),
            n == keys.len(),
            kv == keys@.map_values(|v: Vec<char>| v@),
            positions@ == key_edges(kv, graph.edges@.take(j as int)),
            forall|p: int| 0 <= p < positions.len() ==> (#[trigger] positions@[p]).0 < n && positions@[p].1 < n,
        decreases graph.edges.len() - j,
    {
        let f = trimmed_chars(graph.edges[j].from.as_str());
        let t = trimmed_chars(graph.edges[j].to.as_str());
        let fi = index_of_chars(&keys, &f);
        let ti = index_of_chars(&keys, &t);
        proof {
            assert(graph.edges@.take(j + 1).drop_last() =~= graph.edges@.take(j as int));
            assert(graph.edges@.take(j + 1).last() == graph.edges@[j as int]);
        }
        if fi < n && ti < n {
            positions.push((fi, ti));
        }
        j = j + 1;
    }
    proof {
        assert(graph.edges@.take(j as int) =~= graph.edges@);
        assert(crate::dag::edges_in_range(n as nat, positions@));
    }
    let order = kahn_order(n, &positions);
    let mut res: Vec<u128> = Vec::new();
    if order.len() != n {
        let mut k: usize = 0;
        while k < graph.nodes.len()
            invariant
                k <= graph.nodes.len(),
                res@ == graph.nodes@.take(k as int).map_values(|x: GraphNode| x.task_id),
            decreases graph.nodes.len() - k,
        {
            res.push(graph.nodes[k].task_id);
            proof {
                assert(graph.nodes@.take(k + 1).map_values(|x: GraphNode| x.task_id) =~= graph.nodes@.take(
                    k as int,
                ).map_values(|x: GraphNode| x.task_id).push(graph.nodes@[k as int].task_id));
            }
            k = k + 1;
        }
        proof {
            assert(graph.nodes@.take(k as int) =~= graph.nodes@);
        }
        return res;
    }
    let mut k: usize = 0;
    while k < order.len()
        invariant
            k <= order.len(),
            order.len() == n,
            tasks.len() == n,
            keys.len() == n,
            crate::dag::respects_edges(n as nat, positions@, order@),
            forall|q: int| 0 <= q < n ==> #[trigger] tasks@[q] == key_task(nodes, keys@[q]@),
            kv == keys@.map_values(|v: Vec<char>| v@),
            res@ == order@.take(k as int).map_values(|x: usize| key_task(nodes, kv[x as int])),
        decreases order.len() - k,
    {
        let x = order[k];
        res.push(tasks[x]);
        proof {
            assert(kv[x as int] == keys@[x as int]@);
            assert(order@.take(k + 1).map_values(|x: usize| key_task(nodes, kv[x as int])) =~= order@.take(
                k as int,
            ).map_values(|x: usize| key_task(nodes, kv[x as int])).push(
                key_task(nodes, kv[x as int]),
            ));
        }
        k = k + 1;
    }
    proof {
        assert(order@.take(k as int) =~= order@);
        assert(is_topological_order(n as nat, positions@, order@));
    }
    res
}

/// The status of the last node whose trimmed id is `key` (a node without one counts as to
/// do), or none when no node has that id.
pub open spec fn status_of(nodes: Seq<GraphNode>, key: Seq<char>) -> Option<TaskStatus>
    decreases nodes.len(),
{
    if nodes.len() == 0 {
        None
    } else if trim(nodes.last().id@) == key {
        match nodes.last().status {
            Some(s) => Some(s),
            None => Some(TaskStatus::Todo),
        }
    } else {
        status_of(nodes.drop_last(), key)
    }
}

/// Sources of the edges into `key` that are not done yet (unknown sources count as not done),
/// in edge order.
pub open spec fn blocked_list(nodes: Seq<GraphNode>, edges: Seq<GraphEdge>, key: Seq<char>) -> Seq<Seq<char>>
    decreases edges.len(),
{
    if edges.len() == 0 {
        seq![]
    } else {
        let rest = blocked_list(nodes, edges.drop_last(), key);
        let e = edges.last();
        let from = trim(e.from@);
        if trim(e.to@) == key && from.len() > 0 && status_of(nodes, from) != Some(TaskStatus::Done) {
            rest.push(from)
        } else {
            rest
        }
    }
}

/// Status lookup by trimmed id.
fn find_status(nodes: &Vec<GraphNode>, key: &Vec<char>) -> (r: Option<TaskStatus>)
    ensures
        r == status_of(nodes@, key@),
{
    let mut i = nodes.len();
    proof {
        assert(nodes@.take(i as int) =~= nodes@);
    }
    while i > 0
        invariant
            i <= nodes.len(),
            status_of(nodes@, key@) == status_of(nodes@.take(i as int), key@),
        decreases i,
    {
        let t = trimmed_chars(nodes[i - 1].id.as_str());
        proof {
            assert(nodes@.take(i as int).drop_last() =~= nodes@.take(i - 1));
            assert(nodes@.take(i as int).last() == nodes@[i - 1]);
        }
        if chars_eq(&t, key) {
            return match nodes[i - 1].status {
                Some(s) => Some(s),
                None => Some(TaskStatus::Todo),
            };
        }
        i = i - 1;
    }
    None
}

/// The predecessors of a node that are not done yet: the trimmed sources of the edges into
/// it whose node is missing or not done. The node id is trimmed; a blank one, or one that no
/// node has, is refused.
pub fn blocked_predecessors(graph: &TaskGraph, node_id: &str) -> (r: Result<Vec<String>, GraphError>)
    ensures
        trim(node_id@).len() == 0 ==> r == Err::<Vec<String>, GraphError>(GraphError::EmptyNodeId),
        trim(node_id@).len() > 0 && status_of(graph.nodes@, trim(node_id@)) is None ==> r == Err::<
            Vec<String>,
            GraphError,
        >(GraphError::NodeNotFound),
        trim(node_id@).len() > 0 && status_of(graph.nodes@, trim(node_id@)) is Some ==> (r matches Ok(
            list,
        ) && crate::text::views(list@) == blocked_list(graph.nodes@, graph.edges@, trim(node_id@))),
{
    let key = trimmed_chars(node_id);
    if key.len() == 0 {
        return Err(GraphError::EmptyNodeId);
    }
    if find_status(&graph.nodes, &key).is_none() {
        return Err(GraphError::NodeNotFound);
    }
    let mut blocked: Vec<String> = Vec::new();
    let mut j: usize = 0;
    while j < graph.edges.len()
        invariant
            j <= graph.edges.len(),
            key@ == trim(node_id@),
            crate::text::views(blocked@) == blocked_list(graph.nodes@, graph.edges@.take(j as int), key@),
        decreases graph.edges.len() - j,
    {
        let to = trimmed_chars(graph.edges[j].to.as_str());
        let from = trimmed_chars(graph.edges[j].from.as_str());
        let ghost before = blocked@;
        proof {
            assert(graph.edges@.take(j + 1).drop_last() =~= graph.edges@.take(j as int));
            assert(graph.edges@.take(j + 1).last() == graph.edges@[j as int]);
        }
        if chars_eq(&to, &key) && from.len() > 0 {
            let st = find_status(&graph.nodes, &from);
            let done = match st {
                Some(TaskStatus::Done) => true,
                _ => false,
            };
            if !done {
                blocked.push(crate::text::string_from_chars(&from));
                proof {
                    assert(crate::text::views(blocked@) =~= crate::text::views(before).push(from@));
                }
            }
        }
        j = j + 1;
    }
    proof {
        assert(graph.edges@.take(j as int) =~= graph.edges@);
    }
    Ok(blocked)
}

/// Index of the first node whose trimmed id is `key`, or the node count.
pub open spec fn first_node_with(nodes: Seq<GraphNode>, key: Seq<char>) -> int {
    index_in(nodes.map_values(|n: GraphNode| trim(n.id@)), key)
}

fn find_node_index(nodes: &Vec<GraphNode>, key: &Vec<char>) -> (r: usize)
    ensures
        r == first_node_with(nodes@, key@),
        r <= nodes.len(),
{
    let ghost tv = nodes@.map_values(|n: GraphNode| trim(n.id@));
    let mut i: usize = 0;
    while i < nodes.len()
        invariant
            i <= nodes.len(),
            tv == nodes@.map_values(|n: GraphNode| trim(n.id@)),
            forall|j: int| 0 <= j < i ==> tv[j] != key@,
        decreases nodes.len() - i,
    {
        let t = trimmed_chars(nodes[i].id.as_str());
        if chars_eq(&t, key) {
            proof {
                crate::text::lemma_index_in_is(tv, key@, i as int);
            }
            return i;
        }
        i = i + 1;
    }
    proof {
        crate::text::lemma_index_in_is(tv, key@, i as int);
    }
    i
}

/// The first node whose trimmed id is the trimmed `node_id`.
pub fn find_task_group_node<'a>(graph: &'a TaskGraph, node_id: &str) -> (r: Result<&'a GraphNode, GraphError>)
    ensures
        trim(node_id@).len() == 0 ==> r == Err::<&GraphNode, GraphError>(GraphError::EmptyNodeId),
        trim(node_id@).len() > 0 ==> {
            let k = first_node_with(graph.nodes@, trim(node_id@));
            if k < graph.nodes.len() {
                r == Ok::<&GraphNode, GraphError>(&graph.nodes@[k])
            } else {
                r == Err::<&GraphNode, GraphError>(GraphError::NodeNotFound)
            }
        },
{
    let key = trimmed_chars(node_id);
    if key.len() == 0 {
        return Err(GraphError::EmptyNodeId);
    }
    let k = find_node_index(&graph.nodes, &key);
    if k < graph.nodes.len() {
        Ok(&graph.nodes[k])
    } else {
        Err(GraphError::NodeNotFound)
    }
}

/// The node's own executor profile when it has one, else the fallback.
pub fn resolve_executor_profile_id(task_group_node: &GraphNode, fallback: ExecutorProfileId) -> (r: ExecutorProfileId)
    ensures
        r@ == match task_group_node.executor_profile_id {
            Some(p) => p@,
            None => fallback@,
        },
{
    match &task_group_node.executor_profile_id {
        Some(p) => p.duplicate(),
        None => fallback,
    }
}

/// Tasks of the finished predecessors of `key`, one per edge into it (in edge order): the
/// first node with the edge's trimmed source id, when that node is done.
pub open spec fn done_predecessor_tasks(nodes: Seq<GraphNode>, edges: Seq<GraphEdge>, key: Seq<char>) -> Seq<u128>
    decreases edges.len(),
{
    if edges.len() == 0 {
        seq![]
    } else {
        let rest = done_predecessor_tasks(nodes, edges.drop_last(), key);
        let e = edges.last();
        let from = trim(e.from@);
        let k = first_node_with(nodes, from);
        if trim(e.to@) == key && from.len() > 0 && k < nodes.len() && (match nodes[k].status {
            Some(s) => s,
            None => TaskStatus::Todo,
        }) == TaskStatus::Done {
            rest.push(nodes[k].task_id)
        } else {
            rest
        }
    }
}

/// The tasks whose latest work a topology-based attempt may start from (see
/// `done_predecessor_tasks`). A blank node id is refused.
pub fn topology_predecessor_tasks(graph: &TaskGraph, node_id: &str) -> (r: Result<Vec<u128>, GraphError>)
    ensures
        trim(node_id@).len() == 0 ==> r == Err::<Vec<u128>, GraphError>(GraphError::EmptyNodeId),
        trim(node_id@).len() > 0 ==> (r matches Ok(v) && v@ == done_predecessor_tasks(
            graph.nodes@,
            graph.edges@,
            trim(node_id@),
        )),
{
    let key = trimmed_chars(node_id);
    if key.len() == 0 {
        return Err(GraphError::EmptyNodeId);
    }
    let mut tasks: Vec<u128> = Vec::new();
    let mut j: usize = 0;
    while j < graph.edges.len()
        invariant
            j <= graph.edges.len(),
            key@ == trim(node_id@),
            tasks@ == done_predecessor_tasks(graph.nodes@, graph.edges@.take(j as int), key@),
        decreases graph.edges.len() - j,
    {
        let to = trimmed_chars(graph.edges[j].to.as_str());
        let from = trimmed_chars(graph.edges[j].from.as_str());
        proof {
            assert(graph.edges@.take(j + 1).drop_last() =~= graph.edges@.take(j as int));
            assert(graph.edges@.take(j + 1).last() == graph.edges@[j as int]);
        }
        if chars_eq(&to, &key) && from.len() > 0 {
            let k = find_node_index(&graph.nodes, &from);
            if k < graph.nodes.len() {
                let done = match graph.nodes[k].status {
                    Some(TaskStatus::Done) => true,
                    _ => false,
                };
                if done {
                    tasks.push(graph.nodes[k].task_id);
                }
            }
        }
        j = j + 1;
    }
    proof {
        assert(graph.edges@.take(j as int) =~= graph.edges@);
    }
    Ok(tasks)
}

/// `a` is preferred over `b`: created later, or at the same time with a smaller id.
pub open spec fn newer(a: (u128, i128), b: (u128, i128)) -> bool {
    a.1 > b.1 || (a.1 == b.1 && a.0 < b.0)
}

/// Picks the workspace to start from among `(id, created_at)` candidates: the most recently
/// created one, ties going to the smallest id.
pub fn select_latest_workspace(candidates: &Vec<(u128, i128)>) -> (r: Option<u128>)
    ensures
        candidates.len() == 0 <==> r is None,
        r matches Some(id) ==> exists|i: int|
            0 <= i < candidates.len() && candidates@[i].0 == id && forall|j: int|
                0 <= j < candidates.len() ==> !newer(#[trigger] candidates@[j], candidates@[i]),
{
    if candidates.len() == 0 {
        return None;
    }
    let mut best: usize = 0;
    let mut i: usize = 1;
    while i < candidates.len()
        invariant
            1 <= i <= candidates.len(),
            best < i,
            forall|j: int| 0 <= j < i ==> !newer(#[trigger] candidates@[j], candidates@[best as int]),
        decreases candidates.len() - i,
    {
        let (id, at) = candidates[i];
        let (best_id, best_at) = candidates[best];
        let replace = if at == best_at {
            id < best_id
        } else {
            at > best_at
        };
        if replace {
            best = i;
        }
        i = i + 1;
    }
    Some(candidates[best].0)
}

/// Where a node's attempt starts from: the milestone's baseline, or the branches that its
/// finished predecessors' latest attempt targeted.
#[derive(Clone, Copy, Debug, PartialEq, Eq, Structural)]
pub enum BaseStrategy {
    Baseline,
    Topology,
}

/// The baseline an attempt falls back on: the trimmed baseline ref, unless it is blank, for
/// a baseline node or for a topology node whose predecessors gave no branches.
pub open spec fn spec_fallback_baseline(strategy: BaseStrategy, topology_found: bool, baseline_ref: Seq<char>) -> Option<Seq<char>> {
    if strategy == BaseStrategy::Baseline || !topology_found {
        opt_trim_nonempty(Some(baseline_ref))
    } else {
        None
    }
}

/// Decides the baseline that an attempt's repositories fall back on.
pub fn fallback_baseline(strategy: BaseStrategy, topology_found: bool, baseline_ref: &str) -> (r: Option<String>)
    ensures
        opt_view(r) == spec_fallback_baseline(strategy, topology_found, baseline_ref@),
{
    if strategy == BaseStrategy::Baseline || !topology_found {
        let t = trimmed(baseline_ref);
        if t.as_str().is_empty() {
            None
        } else {
            Some(t)
        }
    } else {
        None
    }
}

/// The branch recorded last for a repository.
pub open spec fn branch_for(branches: Seq<(u128, Seq<char>)>, repo: u128) -> Option<Seq<char>>
    decreases branches.len(),
{
    if branches.len() == 0 {
        None
    } else if branches.last().0 == repo {
        Some(branches.last().1)
    } else {
        branch_for(branches.drop_last(), repo)
    }
}

pub open spec fn branch_views(v: Seq<(u128, String)>) -> Seq<(u128, Seq<char>)> {
    v.map_values(|b: (u128, String)| (b.0, b.1@))
}

/// The branch an attempt targets in a repository: the predecessors' branch for it, else the
/// baseline, else the branch the request named.
pub open spec fn target_branch(topology: Seq<(u128, Seq<char>)>, baseline: Option<Seq<char>>, requested: (u128, Seq<char>)) -> Seq<char> {
    match branch_for(topology, requested.0) {
        Some(b) => b,
        None => match baseline {
            Some(b) => b,
            None => requested.1,
        },
    }
}

fn find_branch(branches: &Vec<(u128, String)>, repo: u128) -> (r: Option<String>)
    ensures
        opt_view(r) == branch_for(branch_views(branches@), repo),
{
    let ghost bv = branch_views(branches@);
    let mut i: usize = branches.len();
    proof {
        assert(bv.take(i as int) =~= bv);
    }
    while i > 0
        invariant
            i <= branches.len(),
            bv == branch_views(branches@),
            branch_for(bv, repo) == branch_for(bv.take(i as int), repo),
        decreases i,
    {
        proof {
            assert(bv.take(i as int).drop_last() =~= bv.take(i - 1));
            assert(bv.take(i as int).last() == (branches@[i - 1].0, branches@[i - 1].1@));
        }
        if branches[i - 1].0 == repo {
            return Some(branches[i - 1].1.clone());
        }
        i = i - 1;
    }
    None
}

/// The branch each requested repository's attempt targets (see `target_branch`); an empty
/// `topology` means the predecessors gave none.
pub fn attempt_target_branches(
    requested: &Vec<(u128, String)>,
    topology: &Vec<(u128, String)>,
    baseline: &Option<String>,
) -> (r: Vec<(u128, String)>)
    ensures
        r.len() == requested.len(),
        forall|i: int|
            0 <= i < r.len() ==> (#[trigger] r@[i]).0 == requested@[i].0 && r@[i].1@ == target_branch(
                branch_views(topology@),
                opt_view(*baseline),
                (requested@[i].0, requested@[i].1@),
            ),
{
    let mut out: Vec<(u128, String)> = Vec::new();
    let mut i: usize = 0;
    while i < requested.len()
        invariant
            i <= requested.len(),
            out.len() == i,
            forall|j: int|
                0 <= j < i ==> (#[trigger] out@[j]).0 == requested@[j].0 && out@[j].1@ == target_branch(
                    branch_views(topology@),
                    opt_view(*baseline),
                    (requested@[j].0, requested@[j].1@),
                ),
        decreases requested.len() - i,
    {
        let repo = requested[i].0;
        let branch = match find_branch(topology, repo) {
            Some(b) => b,
            None => match baseline {
                Some(b) => b.clone(),
                None => requested[i].1.clone(),
            },
        };
        out.push((repo, branch));
        i = i + 1;
    }
    out
}

proof fn lemma_status_of_last(nodes: Seq<GraphNode>, x: Seq<char>, k: int)
    requires
        0 <= k < nodes.len(),
        trim(nodes[k].id@) == x,
        forall|j: int| k < j < nodes.len() ==> trim(#[trigger] nodes[j].id@) != x,
    ensures
        status_of(nodes, x) == Some(
            match nodes[k].status {
                Some(s) => s,
                None => TaskStatus::Todo,
            },
        ),
    decreases nodes.len(),
{
    if k < nodes.len() - 1 {
        assert(trim(nodes[nodes.len() - 1].id@) != x);
        let d = nodes.drop_last();
        assert forall|j: int| k < j < d.len() implies trim(#[trigger] d[j].id@) != x by {
            assert(d[j] == nodes[j]);
        }
        lemma_status_of_last(d, x, k);
        assert(d[k] == nodes[k]);
    }
}

proof fn lemma_status_of_absent(nodes: Seq<GraphNode>, x: Seq<char>)
    requires
        forall|j: int| 0 <= j < nodes.len() ==> trim(#[trigger] nodes[j].id@) != x,
    ensures
        status_of(nodes, x) is None,
    decreases nodes.len(),
{
    if nodes.len() > 0 {
        assert(trim(nodes[nodes.len() - 1].id@) != x);
        let d = nodes.drop_last();
        assert forall|j: int| 0 <= j < d.len() implies trim(#[trigger] d[j].id@) != x by {
            assert(d[j] == nodes[j]);
        }
        lemma_status_of_absent(d, x);
    }
}

proof fn lemma_blocked_contains(nodes: Seq<GraphNode>, edges: Seq<GraphEdge>, key: Seq<char>, i: int)
    requires
        0 <= i < edges.len(),
        trim(edges[i].to@) == key,
        trim(edges[i].from@).len() > 0,
        status_of(nodes, trim(edges[i].from@)) != Some(TaskStatus::Done),
    ensures
        blocked_list(nodes, edges, key).contains(trim(edges[i].from@)),
    decreases edges.len(),
{
    let x = trim(edges[i].from@);
    let rest = blocked_list(nodes, edges.drop_last(), key);
    if i == edges.len() - 1 {
        assert(blocked_list(nodes, edges, key) == rest.push(x));
        assert(rest.push(x)[rest.len() as int] == x);
    } else {
        assert(edges.drop_last()[i] == edges[i]);
        lemma_blocked_contains(nodes, edges.drop_last(), key, i);
        let j = choose|j: int| 0 <= j < rest.len() && rest[j] == x;
        let full = blocked_list(nodes, edges, key);
        if full != rest {
            assert(full[j] == x);
        }
    }
}

proof fn lemma_blocked_sources(nodes: Seq<GraphNode>, edges: Seq<GraphEdge>, key: Seq<char>, x: Seq<char>)
    requires
        blocked_list(nodes, edges, key).contains(x),
    ensures
        x.len() > 0,
        status_of(nodes, x) != Some(TaskStatus::Done),
        exists|i: int| 0 <= i < edges.len() && trim(edges[i].to@) == key && #[trigger] trim(edges[i].from@) == x,
    decreases edges.len(),
{
    let rest = blocked_list(nodes, edges.drop_last(), key);
    let e = edges.last();
    let n = edges.len() - 1;
    if rest.contains(x) {
        lemma_blocked_sources(nodes, edges.drop_last(), key, x);
        let i = choose|i: int| 0 <= i < edges.drop_last().len() && trim(edges.drop_last()[i].to@) == key
            && #[trigger] trim(edges.drop_last()[i].from@) == x;
        assert(edges.drop_last()[i] == edges[i]);
        assert(trim(edges[i].from@) == x);
    } else {
        let full = blocked_list(nodes, edges, key);
        let j = choose|j: int| 0 <= j < full.len() && full[j] == x;
        if full == rest {
            assert(rest[j] == x);
        } else {
            assert(full == rest.push(trim(e.from@)));
            if j < rest.len() {
                assert(rest[j] == x);
            }
            assert(x == trim(e.from@));
            assert(edges[n] == e);
            assert(trim(edges[n].from@) == x);
        }
    }
}

/// A node may start only when every predecessor is done. For an edge into the node whose
/// source (trimmed, not blank) is unfinished, the source is listed as blocking: when the last
/// node with that id has any status but `Done` (to do, in progress, in review, cancelled, or
/// none, which counts as to do), or when no node has that id.
pub proof fn law_unfinished_predecessors_block(nodes: Seq<GraphNode>, edges: Seq<GraphEdge>, key: Seq<char>, i: int)
    requires
        0 <= i < edges.len(),
        trim(edges[i].to@) == key,
        trim(edges[i].from@).len() > 0,
        (forall|j: int| 0 <= j < nodes.len() ==> trim(#[trigger] nodes[j].id@) != trim(edges[i].from@))
            || exists|k: int|
            0 <= k < nodes.len() && trim(nodes[k].id@) == trim(edges[i].from@) && nodes[k].status != Some(
                TaskStatus::Done,
            ) && (forall|j: int| k < j < nodes.len() ==> trim(#[trigger] nodes[j].id@) != trim(edges[i].from@)),
    ensures
        blocked_list(nodes, edges, key).contains(trim(edges[i].from@)),
{
    let x = trim(edges[i].from@);
    if forall|j: int| 0 <= j < nodes.len() ==> trim(#[trigger] nodes[j].id@) != x {
        lemma_status_of_absent(nodes, x);
    } else {
        let k = choose|k: int|
            0 <= k < nodes.len() && trim(nodes[k].id@) == x && nodes[k].status != Some(TaskStatus::Done) && (forall|
                j: int,
            | k < j < nodes.len() ==> trim(#[trigger] nodes[j].id@) != x);
        lemma_status_of_last(nodes, x, k);
    }
    lemma_blocked_contains(nodes, edges, key, i);
}

/// Only unfinished predecessors block: every listed id is the trimmed, non-blank source of an
/// edge into the node, and the last node with that id is not done.
pub proof fn law_blocking_sources_are_unfinished(nodes: Seq<GraphNode>, edges: Seq<GraphEdge>, key: Seq<char>, x: Seq<char>, k: int)
    requires
        blocked_list(nodes, edges, key).contains(x),
        0 <= k < nodes.len(),
        trim(nodes[k].id@) == x,
        forall|j: int| k < j < nodes.len() ==> trim(#[trigger] nodes[j].id@) != x,
    ensures
        x.len() > 0,
        nodes[k].status != Some(TaskStatus::Done),
        exists|i: int| 0 <= i < edges.len() && trim(edges[i].to@) == key && #[trigger] trim(edges[i].from@) == x,
{
    lemma_blocked_sources(nodes, edges, key, x);
    lemma_status_of_last(nodes, x, k);
}

proof fn lemma_first_node_is(nodes: Seq<GraphNode>, x: Seq<char>, k: int)
    requires
        0 <= k < nodes.len(),
        trim(nodes[k].id@) == x,
        forall|j: int| 0 <= j < k ==> trim(#[trigger] nodes[j].id@) != x,
    ensures
        first_node_with(nodes, x) == k,
{
    let ids = nodes.map_values(|n: GraphNode| trim(n.id@));
    assert forall|j: int| 0 <= j < k implies ids[j] != x by {
        assert(ids[j] == trim(nodes[j].id@));
    }
    assert(ids[k] == trim(nodes[k].id@));
    crate::text::lemma_index_in_is(ids, x, k);
}

/// A topology-based attempt starts from every finished predecessor: for an edge into the
/// node whose trimmed source is not blank, when the first node with that id is done, its
/// task is among the tasks returned.
pub proof fn law_done_predecessors_are_used(nodes: Seq<GraphNode>, edges: Seq<GraphEdge>, key: Seq<char>, i: int, k: int)
    requires
        0 <= i < edges.len(),
        trim(edges[i].to@) == key,
        trim(edges[i].from@).len() > 0,
        0 <= k < nodes.len(),
        trim(nodes[k].id@) == trim(edges[i].from@),
        forall|j: int| 0 <= j < k ==> trim(#[trigger] nodes[j].id@) != trim(edges[i].from@),
        nodes[k].status == Some(TaskStatus::Done),
    ensures
        done_predecessor_tasks(nodes, edges, key).contains(nodes[k].task_id),
    decreases edges.len(),
{
    lemma_first_node_is(nodes, trim(edges[i].from@), k);
    let rest = done_predecessor_tasks(nodes, edges.drop_last(), key);
    let full = done_predecessor_tasks(nodes, edges, key);
    if i == edges.len() - 1 {
        assert(full == rest.push(nodes[k].task_id));
        assert(full[rest.len() as int] == nodes[k].task_id);
    } else {
        assert(edges.drop_last()[i] == edges[i]);
        law_done_predecessors_are_used(nodes, edges.drop_last(), key, i, k);
        let j = choose|j: int| 0 <= j < rest.len() && rest[j] == nodes[k].task_id;
        if full != rest {
            assert(full[j] == nodes[k].task_id);
        }
    }
}

/// Only finished predecessors are used: every task returned is the task of a done node that
/// is the source of an edge into the node.
pub proof fn law_used_predecessors_are_done(nodes: Seq<GraphNode>, edges: Seq<GraphEdge>, key: Seq<char>, t: u128)
    requires
        done_predecessor_tasks(nodes, edges, key).contains(t),
    ensures
        exists|k: int| 0 <= k < nodes.len() && #[trigger] nodes[k].task_id == t && nodes[k].status == Some(TaskStatus::Done),
        exists|i: int| 0 <= i < edges.len() && #[trigger] trim(edges[i].to@) == key,
    decreases edges.len(),
{
    let rest = done_predecessor_tasks(nodes, edges.drop_last(), key);
    let full = done_predecessor_tasks(nodes, edges, key);
    let n = edges.len() - 1;
    if rest.contains(t) {
        law_used_predecessors_are_done(nodes, edges.drop_last(), key, t);
        let i = choose|i: int| 0 <= i < edges.drop_last().len() && #[trigger] trim(edges.drop_last()[i].to@) == key;
        assert(edges.drop_last()[i] == edges[i]);
        assert(trim(edges[i].to@) == key);
    } else {
        let j = choose|j: int| 0 <= j < full.len() && full[j] == t;
        if full == rest {
            assert(rest[j] == t);
        } else {
            if j < rest.len() {
                assert(full[j] == rest[j]);
            }
            let e = edges.last();
            let from = trim(e.from@);
            let k = first_node_with(nodes, from);
            crate::text::lemma_index_in(nodes.map_values(|n: GraphNode| trim(n.id@)), from);
            assert(0 <= k < nodes.len());
            assert(full == rest.push(nodes[k].task_id));
            assert(full[rest.len() as int] == nodes[k].task_id);
            assert(j == rest.len());
            assert(nodes[k].task_id == t);
            assert(nodes[k].status == Some(TaskStatus::Done));
            assert(edges[n] == e);
            assert(trim(edges[n].to@) == key);
        }
    }
}

proof fn lemma_branch_for_last(branches: Seq<(u128, Seq<char>)>, repo: u128, k: int)
    requires
        0 <= k < branches.len(),
        branches[k].0 == repo,
        forall|j: int| k < j < branches.len() ==> (#[trigger] branches[j]).0 != repo,
    ensures
        branch_for(branches, repo) == Some(branches[k].1),
    decreases branches.len(),
{
    if k < branches.len() - 1 {
        let d = branches.drop_last();
        assert(branches[branches.len() - 1].0 != repo);
        assert forall|j: int| k < j < d.len() implies (#[trigger] d[j]).0 != repo by {
            assert(d[j] == branches[j]);
        }
        lemma_branch_for_last(d, repo, k);
        assert(d[k] == branches[k]);
    }
}

proof fn lemma_branch_for_absent(branches: Seq<(u128, Seq<char>)>, repo: u128)
    requires
        forall|j: int| 0 <= j < branches.len() ==> (#[trigger] branches[j]).0 != repo,
    ensures
        branch_for(branches, repo) is None,
    decreases branches.len(),
{
    if branches.len() > 0 {
        let d = branches.drop_last();
        assert(branches[branches.len() - 1].0 != repo);
        assert forall|j: int| 0 <= j < d.len() implies (#[trigger] d[j]).0 != repo by {
            assert(d[j] == branches[j]);
        }
        lemma_branch_for_absent(d, repo);
    }
}

/// Where an attempt's repository starts: from the branch the predecessors last recorded for
/// that repository, when there is one; otherwise from the baseline, when there is one;
/// otherwise from the branch the request named.
pub proof fn law_target_branch_priority(topology: Seq<(u128, Seq<char>)>, baseline: Option<Seq<char>>, requested: (u128, Seq<char>))
    ensures
        (forall|k: int|
            0 <= k < topology.len() && topology[k].0 == requested.0 && (forall|j: int|
                k < j < topology.len() ==> (#[trigger] topology[j]).0 != requested.0) ==> target_branch(
                topology,
                baseline,
                requested,
            ) == #[trigger] topology[k].1),
        (forall|j: int| 0 <= j < topology.len() ==> (#[trigger] topology[j]).0 != requested.0) ==> target_branch(
            topology,
            baseline,
            requested,
        ) == match baseline {
            Some(b) => b,
            None => requested.1,
        },
{
    assert forall|k: int|
        0 <= k < topology.len() && topology[k].0 == requested.0 && (forall|j: int|
            k < j < topology.len() ==> (#[trigger] topology[j]).0 != requested.0) implies target_branch(
        topology,
        baseline,
        requested,
    ) == #[trigger] topology[k].1 by {
        lemma_branch_for_last(topology, requested.0, k);
    }
    if forall|j: int| 0 <= j < topology.len() ==> (#[trigger] topology[j]).0 != requested.0 {
        lemma_branch_for_absent(topology, requested.0);
    }
}

/// The baseline an attempt falls back on: for a baseline node, or a topology node whose
/// predecessors gave no branch, the trimmed baseline ref unless it is blank; for a topology
/// node whose predecessors gave branches, none.
pub proof fn law_fallback_baseline(strategy: BaseStrategy, topology_found: bool, baseline_ref: Seq<char>)
    ensures
        strategy == BaseStrategy::Topology && topology_found ==> spec_fallback_baseline(
            strategy,
            topology_found,
            baseline_ref,
        ) is None,
        (strategy == BaseStrategy::Baseline || !topology_found) && trim(baseline_ref).len() > 0
            ==> spec_fallback_baseline(strategy, topology_found, baseline_ref) == Some(trim(baseline_ref)),
        trim(baseline_ref).len() == 0 ==> spec_fallback_baseline(strategy, topology_found, baseline_ref) is None,
{
}

} // verus!
