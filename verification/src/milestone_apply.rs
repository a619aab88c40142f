//! Applying a checked milestone plan: which linked tasks may join the milestone, in which
//! order new tasks are created, which task each node gets, and where a node without a
//! layout is drawn.
use vstd::prelude::*;

use crate::ids::{uuid_string, uuid_text};
use crate::milestone_plan::{
    normalized_edges, normalized_nodes, normalized_plan_milestone, plan_structure_error,
    validate_plan_structure, MilestonePlanNodeV1, MilestonePlanV1, NodeView, PlanError,
};
use crate::sorting::{SortKey, chars_le, lemma_chars_total, lemma_chars_trans, seq_views, sort_by_key, sort_seq};
use crate::text::{chars_eq, chars_of, views};

verus! {

/// A task that a plan links, as the database holds it.
#[derive(Clone, Copy, Debug, PartialEq, Eq, Structural)]
pub struct LinkedTaskRow {
    pub uuid: u128,
    pub project_row_id: i64,
    pub milestone_row_id: Option<i64>,
    pub is_milestone_kind: bool,
    pub archived: bool,
}

/// Why a linked task cannot join the milestone.
#[derive(Clone, Copy, Debug, PartialEq, Eq, Structural)]
pub enum LinkedTaskError {
    NotFound(u128),
    OtherProject(u128),
    OtherMilestone(u128),
    MilestoneKind(u128),
    Archived(u128),
}

impl LinkedTaskError {
    /// The message the API answers with.
    pub fn message(&self) -> (r: String)
        ensures
            r@ == linked_task_message(*self),
    {
        let (text, id) = match *self {
            LinkedTaskError::NotFound(id) => ("Task not found: ", id),
            LinkedTaskError::OtherProject(id) => ("Task belongs to another project: ", id),
            LinkedTaskError::OtherMilestone(id) => ("Task already linked to another milestone: ", id),
            LinkedTaskError::MilestoneKind(id) => (
                "Task kind 'milestone' cannot be used for milestone nodes: ",
                id,
            ),
            LinkedTaskError::Archived(id) => (
                "Task is archived and cannot be linked into a milestone plan: ",
                id,
            ),
        };
        let mut out = text.to_owned();
        let u = uuid_string(id);
        crate::text::push_str(&mut out, u.as_str());
        out
    }
}

pub open spec fn linked_task_message(e: LinkedTaskError) -> Seq<char> {
    match e {
        LinkedTaskError::NotFound(id) => "Task not found: "@ + uuid_text(id),
        LinkedTaskError::OtherProject(id) => "Task belongs to another project: "@ + uuid_text(id),
        LinkedTaskError::OtherMilestone(id) => "Task already linked to another milestone: "@ + uuid_text(id),
        LinkedTaskError::MilestoneKind(id) => "Task kind 'milestone' cannot be used for milestone nodes: "@
            + uuid_text(id),
        LinkedTaskError::Archived(id) => "Task is archived and cannot be linked into a milestone plan: "@
            + uuid_text(id),
    }
}

/// The row fetched for a task (the last one, as a map keyed by task id keeps it).
pub open spec fn row_for(rows: Seq<LinkedTaskRow>, uuid: u128) -> Option<LinkedTaskRow>
    decreases rows.len(),
{
    if rows.len() == 0 {
        None
    } else if rows.last().uuid == uuid {
        Some(rows.last())
    } else {
        row_for(rows.drop_last(), uuid)
    }
}

/// What is wrong with linking one task into the milestone, if anything.
pub open spec fn linked_task_error(row: Option<LinkedTaskRow>, id: u128, project_row_id: i64, milestone_row_id: i64) -> Option<LinkedTaskError> {
    match row {
        None => Some(LinkedTaskError::NotFound(id)),
        Some(t) => if t.project_row_id != project_row_id {
            Some(LinkedTaskError::OtherProject(id))
        } else if t.milestone_row_id is Some && t.milestone_row_id != Some(milestone_row_id) {
            Some(LinkedTaskError::OtherMilestone(id))
        } else if t.is_milestone_kind {
            Some(LinkedTaskError::MilestoneKind(id))
        } else if t.archived {
            Some(LinkedTaskError::Archived(id))
        } else {
            None
        },
    }
}

/// The error of the first linked task that has one.
pub open spec fn first_linked_error(ids: Seq<u128>, rows: Seq<LinkedTaskRow>, project_row_id: i64, milestone_row_id: i64) -> Option<LinkedTaskError>
    decreases ids.len(),
{
    if ids.len() == 0 {
        None
    } else {
        match linked_task_error(row_for(rows, ids[0]), ids[0], project_row_id, milestone_row_id) {
            Some(e) => Some(e),
            None => first_linked_error(ids.drop_first(), rows, project_row_id, milestone_row_id),
        }
    }
}

fn find_row(rows: &Vec<LinkedTaskRow>, uuid: u128) -> (r: Option<LinkedTaskRow>)
    ensures
        r == row_for(rows@, uuid),
{
    let mut i: usize = rows.len();
    proof {
        assert(rows@.take(i as int) =~= rows@);
    }
    while i > 0
        invariant
            i <= rows.len(),
            row_for(rows@, uuid) == row_for(rows@.take(i as int), uuid),
        decreases i,
    {
        proof {
            assert(rows@.take(i as int).drop_last() =~= rows@.take(i - 1));
            assert(rows@.take(i as int).last() == rows@[i - 1]);
        }
        if rows[i - 1].uuid == uuid {
            return Some(rows[i - 1]);
        }
        i = i - 1;
    }
    None
}

/// Checks the tasks a plan links, in order, against their rows: each must exist, belong to
/// the milestone's project, not sit in another milestone, not be a milestone task itself,
/// and not be archived. The first failing task decides the error.
pub fn check_linked_tasks(ids: &Vec<u128>, rows: &Vec<LinkedTaskRow>, project_row_id: i64, milestone_row_id: i64) -> (r: Result<(), LinkedTaskError>)
    ensures
        r == match first_linked_error(ids@, rows@, project_row_id, milestone_row_id) {
            Some(e) => Err(e),
            None => Ok::<(), LinkedTaskError>(()),
        },
{
    let mut i: usize = 0;
    proof {
        assert(ids@.skip(0) =~= ids@);
    }
    while i < ids.len()
        invariant
            i <= ids.len(),
            first_linked_error(ids@, rows@, project_row_id, milestone_row_id) == first_linked_error(
                ids@.skip(i as int),
                rows@,
                project_row_id,
                milestone_row_id,
            ),
        decreases ids.len() - i,
    {
        let id = ids[i];
        proof {
            assert(ids@.skip(i as int)[0] == id);
            assert(ids@.skip(i as int).drop_first() =~= ids@.skip(i + 1));
        }
        match find_row(rows, id) {
            None => {
                return Err(LinkedTaskError::NotFound(id));
            },
            Some(t) => {
                if t.project_row_id != project_row_id {
                    return Err(LinkedTaskError::OtherProject(id));
                }
                if t.milestone_row_id.is_some() && t.milestone_row_id != Some(milestone_row_id) {
                    return Err(LinkedTaskError::OtherMilestone(id));
                }
                if t.is_milestone_kind {
                    return Err(LinkedTaskError::MilestoneKind(id));
                }
                if t.archived {
                    return Err(LinkedTaskError::Archived(id));
                }
            },
        }
        i = i + 1;
    }
    Ok(())
}

/// The ids of the nodes that create a task, in node order.
pub open spec fn creating_node_ids(nodes: Seq<NodeView>) -> Seq<Seq<char>>
    decreases nodes.len(),
{
    if nodes.len() == 0 {
        seq![]
    } else if nodes.last().2 is Some {
        creating_node_ids(nodes.drop_last()).push(nodes.last().0)
    } else {
        creating_node_ids(nodes.drop_last())
    }
}

/// The order in which the plan's new tasks are created: by node id (a stable sort).
pub fn task_creation_order(nodes: &Vec<MilestonePlanNodeV1>) -> (r: Vec<String>)
    ensures
        views(r@) == sort_seq::<String>(creating_node_ids(seq_views(nodes@))),
{
    let ghost nv = seq_views(nodes@);
    let mut ids: Vec<String> = Vec::new();
    let mut i: usize = 0;
    proof {
        assert(nv.take(0) =~= Seq::<NodeView>::empty());
        assert(seq_views(ids@) =~= Seq::<Seq<char>>::empty());
    }
    while i < nodes.len()
        invariant
            i <= nodes.len(),
            nv == seq_views(nodes@),
            seq_views(ids@) == creating_node_ids(nv.take(i as int)),
        decreases nodes.len() - i,
    {
        proof {
            assert(nv.take(i + 1).drop_last() =~= nv.take(i as int));
            assert(nv.take(i + 1).last() == nodes@[i as int]@);
        }
        if nodes[i].create_task.is_some() {
            let ghost before = seq_views(ids@);
            ids.push(nodes[i].id.clone());
            proof {
                assert(seq_views(ids@) =~= before.push(nodes@[i as int].id@));
            }
        }
        i = i + 1;
    }
    proof {
        assert(nv.take(i as int) =~= nv);
    }
    let r = sort_by_key(ids);
    proof {
        assert(views(r@) =~= seq_views(r@));
    }
    r
}

/// The task created for a node (the last one recorded under its id).
pub open spec fn created_for(created: Seq<(Seq<char>, u128)>, id: Seq<char>) -> Option<u128>
    decreases created.len(),
{
    if created.len() == 0 {
        None
    } else if created.last().0 == id {
        Some(created.last().1)
    } else {
        created_for(created.drop_last(), id)
    }
}

pub open spec fn created_views(created: Seq<(String, u128)>) -> Seq<(Seq<char>, u128)> {
    created.map_values(|c: (String, u128)| (c.0@, c.1))
}

/// Why a node got no task.
#[derive(Clone, Debug, PartialEq, Eq)]
pub enum NodeTaskError {
    /// "Missing created task id".
    MissingCreatedTask,
    /// "node {id} must specify exactly one of task_id or create_task".
    TaskChoice(String),
}

impl NodeTaskError {
    /// The message the API answers with.
    pub fn message(&self) -> (r: String)
        ensures
            r@ == match *self {
                NodeTaskError::MissingCreatedTask => "Missing created task id"@,
                NodeTaskError::TaskChoice(id) => "node "@ + id@ + " must specify exactly one of task_id or create_task"@,
            },
    {
        let mut out = String::new();
        match self {
            NodeTaskError::MissingCreatedTask => crate::text::push_str(&mut out, "Missing created task id"),
            NodeTaskError::TaskChoice(id) => {
                crate::text::push_str(&mut out, "node ");
                crate::text::push_str(&mut out, id.as_str());
                crate::text::push_str(&mut out, " must specify exactly one of task_id or create_task");
            },
        }
        out
    }
}

/// The task of a node: the one it links, or the one created for it.
pub fn resolve_node_task(node: &MilestonePlanNodeV1, created: &Vec<(String, u128)>) -> (r: Result<u128, NodeTaskError>)
    ensures
        match (node.task_id, node.create_task) {
            (Some(t), None) => r == Ok::<u128, NodeTaskError>(t),
            (None, Some(_)) => match created_for(created_views(created@), node.id@) {
                Some(t) => r == Ok::<u128, NodeTaskError>(t),
                None => r == Err::<u128, NodeTaskError>(NodeTaskError::MissingCreatedTask),
            },
            _ => r matches Err(NodeTaskError::TaskChoice(id)) && id@ == node.id@,
        },
{
    match (node.task_id, &node.create_task) {
        (Some(t), None) => Ok(t),
        (None, Some(_)) => {
            let key = chars_of(node.id.as_str());
            let ghost cv = created_views(created@);
            let mut i: usize = created.len();
            proof {
                assert(cv.take(i as int) =~= cv);
            }
            while i > 0
                invariant
                    i <= created.len(),
                    cv == created_views(created@),
                    key@ == node.id@,
                    node.task_id is None,
                    node.create_task is Some,
                    created_for(cv, key@) == created_for(cv.take(i as int), key@),
                decreases i,
            {
                proof {
                    assert(cv.take(i as int).drop_last() =~= cv.take(i - 1));
                    assert(cv.take(i as int).last() == (created@[i - 1].0@, created@[i - 1].1));
                }
                let name = chars_of(created[i - 1].0.as_str());
                if chars_eq(&name, &key) {
                    return Ok(created[i - 1].1);
                }
                i = i - 1;
            }
            Err(NodeTaskError::MissingCreatedTask)
        },
        _ => Err(NodeTaskError::TaskChoice(node.id.clone())),
    }
}

/// A node to lay out: its phase and its id.
#[derive(Clone, Debug)]
pub struct LayoutNode {
    pub phase: i32,
    pub id: String,
}

impl View for LayoutNode {
    type V = (int, Seq<char>);

    open spec fn view(&self) -> (int, Seq<char>) {
        (self.phase as int, self.id@)
    }
}

/// Nodes are laid out by phase, then by id.
impl SortKey for LayoutNode {
    open spec fn view_le(a: (int, Seq<char>), b: (int, Seq<char>)) -> bool {
        a.0 < b.0 || (a.0 == b.0 && chars_le(a.1, b.1))
    }

    proof fn lemma_view_total(a: (int, Seq<char>), b: (int, Seq<char>)) {
        lemma_chars_total(a.1, b.1);
    }

    proof fn lemma_view_trans(a: (int, Seq<char>), b: (int, Seq<char>), c: (int, Seq<char>)) {
        if a.0 == b.0 && b.0 == c.0 {
            lemma_chars_trans(a.1, b.1, c.1);
        }
    }

    fn le(&self, other: &Self) -> (r: bool) {
        self.phase < other.phase || (self.phase == other.phase && crate::sorting::str_le(
            self.id.as_str(),
            other.id.as_str(),
        ))
    }
}

/// How many of the first `k` laid-out nodes share the phase `phase`.
pub open spec fn count_in_phase(s: Seq<(int, Seq<char>)>, k: int, phase: int) -> nat
    decreases k,
{
    if k <= 0 {
        0
    } else {
        count_in_phase(s, k - 1, phase) + (if s[k - 1].0 == phase {
            1nat
        } else {
            0nat
        })
    }
}

/// Where a node goes when the plan gives no layout: four to a row, rows 180 apart, phases
/// 220 apart, columns 260 apart.
pub open spec fn grid_position(phase: int, rank: nat) -> (int, int) {
    (((rank % 4) as int) * 260, phase * 220 + ((rank / 4) as int) * 180)
}

/// A node's fallback position.
#[derive(Clone, Debug)]
pub struct NodePosition {
    pub id: String,
    pub x: i128,
    pub y: i128,
}

/// The fallback positions of the nodes, in the order of the layout (phase, then id): each
/// node takes the next cell of its phase.
pub open spec fn fallback_positions_ok(r: Seq<NodePosition>, nodes: Seq<(int, Seq<char>)>) -> bool {
    let s = sort_seq::<LayoutNode>(nodes);
    &&& r.len() == s.len()
    &&& forall|k: int|
        0 <= k < s.len() ==> (#[trigger] r[k]).id@ == s[k].1 && (r[k].x as int, r[k].y as int) == grid_position(
            s[k].0,
            count_in_phase(s, k, s[k].0),
        )
}

/// Lays out nodes that have no position of their own.
pub fn fallback_layout(nodes: Vec<LayoutNode>) -> (r: Vec<NodePosition>)
    ensures
        fallback_positions_ok(r@, seq_views(nodes@)),
{
    let ghost nv = seq_views(nodes@);
    let sorted = sort_by_key(nodes);
    let ghost s = seq_views(sorted@);
    proof {
        crate::sorting::lemma_sort_seq::<LayoutNode>(nv);
    }
    let mut out: Vec<NodePosition> = Vec::new();
    let mut k: usize = 0;
    while k < sorted.len()
        invariant
            k <= sorted.len(),
            s == seq_views(sorted@),
            s == sort_seq::<LayoutNode>(nv),
            out.len() == k,
            forall|q: int|
                0 <= q < k ==> (#[trigger] out@[q]).id@ == s[q].1 && (out@[q].x as int, out@[q].y as int)
                    == grid_position(s[q].0, count_in_phase(s, q, s[q].0)),
        decreases sorted.len() - k,
    {
        let phase = sorted[k].phase;
        let mut count: usize = 0;
        let mut j: usize = 0;
        while j < k
            invariant
                j <= k < sorted.len(),
                s == seq_views(sorted@),
                phase as int == s[k as int].0,
                count == count_in_phase(s, j as int, s[k as int].0),
                count <= j,
            decreases k - j,
        {
            if sorted[j].phase == phase {
                count = count + 1;
            }
            j = j + 1;
        }
        let x: i128 = ((count % 4) as i128) * 260;
        let y: i128 = (phase as i128) * 220 + ((count / 4) as i128) * 180;
        out.push(NodePosition { id: sorted[k].id.clone(), x, y });
        k = k + 1;
    }
    out
}

proof fn lemma_count_in_phase_grows(s: Seq<(int, Seq<char>)>, k1: int, k2: int, phase: int)
    requires
        0 <= k1 < k2 <= s.len(),
        s[k1].0 == phase,
    ensures
        count_in_phase(s, k2, phase) > count_in_phase(s, k1, phase),
    decreases k2 - k1,
{
    if k2 > k1 + 1 {
        lemma_count_in_phase_grows(s, k1, k2 - 1, phase);
    }
}

/// Nodes of one phase never share a cell of the fallback layout.
pub proof fn law_fallback_cells_distinct(r: Seq<NodePosition>, nodes: Seq<(int, Seq<char>)>)
    requires
        fallback_positions_ok(r, nodes),
    ensures
        forall|k1: int, k2: int|
            0 <= k1 < k2 < r.len() && sort_seq::<LayoutNode>(nodes)[k1].0 == sort_seq::<LayoutNode>(nodes)[k2].0
                ==> (#[trigger] r[k1].x, r[k1].y) != (#[trigger] r[k2].x, r[k2].y),
{
    let s = sort_seq::<LayoutNode>(nodes);
    assert forall|k1: int, k2: int|
        0 <= k1 < k2 < r.len() && s[k1].0 == s[k2].0 implies (#[trigger] r[k1].x, r[k1].y) != (
        #[trigger] r[k2].x,
        r[k2].y,
    ) by {
        let ph = s[k1].0;
        let a = count_in_phase(s, k1, ph);
        let b = count_in_phase(s, k2, ph);
        lemma_count_in_phase_grows(s, k1, k2, ph);
        assert(r[k1].x == (a % 4) * 260 && r[k2].x == (b % 4) * 260);
        assert(r[k1].y == ph * 220 + (a / 4) * 180 && r[k2].y == ph * 220 + (b / 4) * 180);
        assert(a == 4 * (a / 4) + a % 4) by (nonlinear_arith);
        assert(b == 4 * (b / 4) + b % 4) by (nonlinear_arith);
    }
}

/// The fallback position recorded last for a node id.
pub open spec fn position_for(r: Seq<NodePosition>, id: Seq<char>) -> Option<(int, int)>
    decreases r.len(),
{
    if r.len() == 0 {
        None
    } else if r.last().id@ == id {
        Some((r.last().x as int, r.last().y as int))
    } else {
        position_for(r.drop_last(), id)
    }
}

/// Looks up a node's fallback position.
pub fn fallback_position(layout: &Vec<NodePosition>, id: &str) -> (r: Option<(i128, i128)>)
    ensures
        match r {
            Some(p) => position_for(layout@, id@) == Some((p.0 as int, p.1 as int)),
            None => position_for(layout@, id@) is None,
        },
{
    let key = chars_of(id);
    let mut i: usize = layout.len();
    proof {
        assert(layout@.take(i as int) =~= layout@);
    }
    while i > 0
        invariant
            i <= layout.len(),
            key@ == id@,
            position_for(layout@, id@) == position_for(layout@.take(i as int), id@),
        decreases i,
    {
        proof {
            assert(layout@.take(i as int).drop_last() =~= layout@.take(i - 1));
            assert(layout@.take(i as int).last() == layout@[i - 1]);
        }
        let name = chars_of(layout[i - 1].id.as_str());
        if chars_eq(&name, &key) {
            return Some((layout[i - 1].x, layout[i - 1].y));
        }
        i = i - 1;
    }
    None
}

/// What applying a plan will create, decided before anything is written: the plan is first
/// checked (see `validate_plan_structure`), and a plan that is refused gives its error and
/// no task to create; an accepted one gives the normalized plan and the ids of its nodes
/// that create a task, in creation order.
pub fn plan_creations(plan: MilestonePlanV1, baseline_valid: bool) -> (r: Result<(MilestonePlanV1, Vec<String>), PlanError>)
    ensures
        ({
            let m = normalized_plan_milestone(plan.milestone@);
            let nodes = normalized_nodes(seq_views(plan.nodes@));
            let edges = normalized_edges(seq_views(plan.edges@));
            match r {
                Ok((p, ids)) => plan_structure_error(plan.schema_version, m, nodes, edges, baseline_valid) is None
                    && p.milestone@ == m && seq_views(p.nodes@) == nodes && seq_views(p.edges@) == edges
                    && views(ids@) == sort_seq::<String>(creating_node_ids(nodes)),
                Err(e) => plan_structure_error(plan.schema_version, m, nodes, edges, baseline_valid) == Some(
                    e@,
                ),
            }
        }),
{
    let p = match validate_plan_structure(plan, baseline_valid) {
        Ok(p) => p,
        Err(e) => {
            return Err(e);
        },
    };
    let ids = task_creation_order(&p.nodes);
    Ok((p, ids))
}

/// A task may join the milestone when it belongs to the milestone's project, sits in no
/// other milestone, is no milestone task itself, and is not archived.
pub open spec fn may_join(t: LinkedTaskRow, project_row_id: i64, milestone_row_id: i64) -> bool {
    &&& t.project_row_id == project_row_id
    &&& (t.milestone_row_id is None || t.milestone_row_id == Some(milestone_row_id))
    &&& !t.is_milestone_kind
    &&& !t.archived
}

proof fn lemma_row_for_found(rows: Seq<LinkedTaskRow>, uuid: u128)
    ensures
        match row_for(rows, uuid) {
            Some(t) => exists|k: int|
                0 <= k < rows.len() && rows[k] == t && t.uuid == uuid && (forall|j: int|
                    k < j < rows.len() ==> (#[trigger] rows[j]).uuid != uuid),
            None => forall|j: int| 0 <= j < rows.len() ==> (#[trigger] rows[j]).uuid != uuid,
        },
    decreases rows.len(),
{
    if rows.len() > 0 {
        let d = rows.drop_last();
        lemma_row_for_found(d, uuid);
        if rows.last().uuid == uuid {
            assert(rows[rows.len() - 1] == rows.last());
        } else {
            match row_for(d, uuid) {
                Some(t) => {
                    let k = choose|k: int|
                        0 <= k < d.len() && d[k] == t && t.uuid == uuid && (forall|j: int|
                            k < j < d.len() ==> (#[trigger] d[j]).uuid != uuid);
                    assert(rows[k] == d[k]);
                    assert forall|j: int| k < j < rows.len() implies (#[trigger] rows[j]).uuid != uuid by {
                        if j < d.len() {
                            assert(rows[j] == d[j]);
                        }
                    }
                },
                None => {
                    assert forall|j: int| 0 <= j < rows.len() implies (#[trigger] rows[j]).uuid != uuid by {
                        if j < d.len() {
                            assert(rows[j] == d[j]);
                        }
                    }
                },
            }
        }
    }
}

proof fn lemma_no_error_each(ids: Seq<u128>, rows: Seq<LinkedTaskRow>, project_row_id: i64, milestone_row_id: i64, i: int)
    requires
        first_linked_error(ids, rows, project_row_id, milestone_row_id) is None,
        0 <= i < ids.len(),
    ensures
        linked_task_error(row_for(rows, ids[i]), ids[i], project_row_id, milestone_row_id) is None,
    decreases ids.len(),
{
    if i > 0 {
        assert(ids.drop_first()[i - 1] == ids[i]);
        lemma_no_error_each(ids.drop_first(), rows, project_row_id, milestone_row_id, i - 1);
    }
}

/// Linking is accepted only for tasks that may join: when the check passes, every linked id
/// has a row, and the last row with that id belongs to the milestone's project, sits in no
/// other milestone, is no milestone task, and is not archived.
pub proof fn law_accepted_links_may_join(ids: Seq<u128>, rows: Seq<LinkedTaskRow>, project_row_id: i64, milestone_row_id: i64, i: int)
    requires
        first_linked_error(ids, rows, project_row_id, milestone_row_id) is None,
        0 <= i < ids.len(),
    ensures
        exists|k: int|
            0 <= k < rows.len() && rows[k].uuid == ids[i] && may_join(rows[k], project_row_id, milestone_row_id)
                && (forall|j: int| k < j < rows.len() ==> (#[trigger] rows[j]).uuid != ids[i]),
{
    lemma_no_error_each(ids, rows, project_row_id, milestone_row_id, i);
    lemma_row_for_found(rows, ids[i]);
}

/// A link to a task that may not join is refused: if some linked id's last row belongs to
/// another project, sits in another milestone, is a milestone task or is archived, or if no
/// row has that id, the check fails.
pub proof fn law_refused_links_fail(ids: Seq<u128>, rows: Seq<LinkedTaskRow>, project_row_id: i64, milestone_row_id: i64, i: int)
    requires
        0 <= i < ids.len(),
        (forall|j: int| 0 <= j < rows.len() ==> (#[trigger] rows[j]).uuid != ids[i]) || exists|k: int|
            0 <= k < rows.len() && rows[k].uuid == ids[i] && !may_join(rows[k], project_row_id, milestone_row_id)
                && (forall|j: int| k < j < rows.len() ==> (#[trigger] rows[j]).uuid != ids[i]),
    ensures
        first_linked_error(ids, rows, project_row_id, milestone_row_id) is Some,
{
    lemma_row_for_found(rows, ids[i]);
    if first_linked_error(ids, rows, project_row_id, milestone_row_id) is None {
        lemma_no_error_each(ids, rows, project_row_id, milestone_row_id, i);
        if exists|k: int|
            0 <= k < rows.len() && rows[k].uuid == ids[i] && !may_join(rows[k], project_row_id, milestone_row_id)
                && (forall|j: int| k < j < rows.len() ==> (#[trigger] rows[j]).uuid != ids[i]) {
            let k = choose|k: int|
                0 <= k < rows.len() && rows[k].uuid == ids[i] && !may_join(rows[k], project_row_id, milestone_row_id)
                    && (forall|j: int| k < j < rows.len() ==> (#[trigger] rows[j]).uuid != ids[i]);
            let t = row_for(rows, ids[i]).unwrap();
            let k2 = choose|k2: int|
                0 <= k2 < rows.len() && rows[k2] == t && t.uuid == ids[i] && (forall|j: int|
                    k2 < j < rows.len() ==> (#[trigger] rows[j]).uuid != ids[i]);
            if k < k2 {
                assert(rows[k2].uuid != ids[i]);
            } else if k2 < k {
                assert(rows[k].uuid != ids[i]);
            }
        }
    }
}

proof fn lemma_creating_ids(nodes: Seq<NodeView>, x: Seq<char>)
    ensures
        creating_node_ids(nodes).contains(x) <==> exists|k: int|
            0 <= k < nodes.len() && (#[trigger] nodes[k]).2 is Some && nodes[k].0 == x,
    decreases nodes.len(),
{
    if nodes.len() > 0 {
        let d = nodes.drop_last();
        lemma_creating_ids(d, x);
        let rest = creating_node_ids(d);
        let full = creating_node_ids(nodes);
        let last = nodes.len() - 1;
        assert(nodes[last] == nodes.last());
        if full.contains(x) {
            let j = choose|j: int| 0 <= j < full.len() && full[j] == x;
            if j < rest.len() {
                assert(rest[j] == x);
                let k = choose|k: int| 0 <= k < d.len() && (#[trigger] d[k]).2 is Some && d[k].0 == x;
                assert(d[k] == nodes[k]);
            }
        }
        if exists|k: int| 0 <= k < nodes.len() && (#[trigger] nodes[k]).2 is Some && nodes[k].0 == x {
            let k = choose|k: int| 0 <= k < nodes.len() && (#[trigger] nodes[k]).2 is Some && nodes[k].0 == x;
            if k < last {
                assert(d[k] == nodes[k]);
                let j = choose|j: int| 0 <= j < rest.len() && rest[j] == x;
                if full != rest {
                    assert(full[j] == x);
                }
            } else {
                assert(full == rest.push(x));
                assert(full[rest.len() as int] == x);
            }
        }
    }
}

/// New tasks are created for exactly the nodes that ask for one, in order of node id.
pub proof fn law_creation_order(nodes: Seq<NodeView>, x: Seq<char>)
    ensures
        sort_seq::<String>(creating_node_ids(nodes)).contains(x) <==> exists|k: int|
            0 <= k < nodes.len() && (#[trigger] nodes[k]).2 is Some && nodes[k].0 == x,
        forall|i: int, j: int|
            0 <= i < j < sort_seq::<String>(creating_node_ids(nodes)).len() ==> chars_le(
                #[trigger] sort_seq::<String>(creating_node_ids(nodes))[i],
                #[trigger] sort_seq::<String>(creating_node_ids(nodes))[j],
            ),
{
    broadcast use vstd::seq_lib::group_to_multiset_ensures;

    let c = creating_node_ids(nodes);
    crate::sorting::lemma_sort_seq::<String>(c);
    assert(sort_seq::<String>(c).to_multiset().count(x) == c.to_multiset().count(x));
    lemma_creating_ids(nodes, x);
}

/// A node that asks for a new task gets the task created last for its id.
pub proof fn law_created_task_for_node(created: Seq<(Seq<char>, u128)>, id: Seq<char>, k: int)
    requires
        0 <= k < created.len(),
        created[k].0 == id,
        forall|j: int| k < j < created.len() ==> (#[trigger] created[j]).0 != id,
    ensures
        created_for(created, id) == Some(created[k].1),
    decreases created.len(),
{
    if k < created.len() - 1 {
        let d = created.drop_last();
        assert(created[created.len() - 1].0 != id);
        assert forall|j: int| k < j < d.len() implies (#[trigger] d[j]).0 != id by {
            assert(d[j] == created[j]);
        }
        law_created_task_for_node(d, id, k);
        assert(d[k] == created[k]);
    }
}

} // verus!
