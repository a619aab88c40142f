//! Milestone plans proposed by planning agents: normalization and structural validation
//! before they are previewed or applied.
use vstd::prelude::*;

use crate::dag::{is_acyclic, kahn_order};
use crate::graph::ExecutorProfileId;
use crate::sorting::{
    SortKey, chars_le, lemma_chars_total, lemma_chars_trans, lemma_tuple_total, lemma_tuple_trans,
    seq_views, sort_by_key, sort_seq, tuple_le,
};
use crate::text::{
    chars_of, index_in, index_of_chars, lemma_index_in, opt_trim, opt_trim_nonempty, opt_view,
    or_empty, trim, trimmed, trimmed_chars, trimmed_nonempty_opt, trimmed_opt, views,
};

verus! {

/// An edge of a plan, by the ids of its endpoints.
#[derive(Clone, Debug, PartialEq, Eq)]
pub struct MilestonePlanEdgeKeyV1 {
    pub from: String,
    pub to: String,
    pub data_flow: Option<String>,
}

/// Why a plan was refused.
#[derive(Clone, Debug, PartialEq, Eq)]
pub enum PlanError {
    UnsupportedSchemaVersion(u32),
    EmptyNodeId,
    DuplicateNodeId(String),
    NodeTaskChoice(String),
    DuplicateTaskId(u128),
    EmptyCreateTaskTitle(String),
    EmptyEdgeEndpoint,
    UnknownFromNode(String),
    UnknownToNode(String),
    SelfEdge,
    Cycle,
    EmptyBaselineRef,
    /// The baseline branch is not a name git accepts for a branch.
    InvalidBaselineRef,
}

/// A plan error over character sequences.
pub enum PlanErrorView {
    UnsupportedSchemaVersion(u32),
    EmptyNodeId,
    DuplicateNodeId(Seq<char>),
    NodeTaskChoice(Seq<char>),
    DuplicateTaskId(u128),
    EmptyCreateTaskTitle(Seq<char>),
    EmptyEdgeEndpoint,
    UnknownFromNode(Seq<char>),
    UnknownToNode(Seq<char>),
    SelfEdge,
    Cycle,
    EmptyBaselineRef,
    /// The baseline branch is not a name git accepts for a branch.
    InvalidBaselineRef,
}

impl View for PlanError {
    type V = PlanErrorView;

    open spec fn view(&self) -> PlanErrorView {
        match self {
            PlanError::UnsupportedSchemaVersion(v) => PlanErrorView::UnsupportedSchemaVersion(*v),
            PlanError::EmptyNodeId => PlanErrorView::EmptyNodeId,
            PlanError::DuplicateNodeId(s) => PlanErrorView::DuplicateNodeId(s@),
            PlanError::NodeTaskChoice(s) => PlanErrorView::NodeTaskChoice(s@),
            PlanError::DuplicateTaskId(t) => PlanErrorView::DuplicateTaskId(*t),
            PlanError::EmptyCreateTaskTitle(s) => PlanErrorView::EmptyCreateTaskTitle(s@),
            PlanError::EmptyEdgeEndpoint => PlanErrorView::EmptyEdgeEndpoint,
            PlanError::UnknownFromNode(s) => PlanErrorView::UnknownFromNode(s@),
            PlanError::UnknownToNode(s) => PlanErrorView::UnknownToNode(s@),
            PlanError::SelfEdge => PlanErrorView::SelfEdge,
            PlanError::Cycle => PlanErrorView::Cycle,
            PlanError::EmptyBaselineRef => PlanErrorView::EmptyBaselineRef,
            PlanError::InvalidBaselineRef => PlanErrorView::InvalidBaselineRef,
        }
    }
}

/// The message the API answers a plan error with.
pub open spec fn plan_error_message(e: PlanErrorView) -> Seq<char> {
    match e {
        PlanErrorView::UnsupportedSchemaVersion(v) => "Unsupported plan schema_version: "@
            + crate::text::decimal(v as nat),
        PlanErrorView::EmptyNodeId => "node id cannot be empty"@,
        PlanErrorView::DuplicateNodeId(id) => "duplicate node id: "@ + id,
        PlanErrorView::NodeTaskChoice(id) => "node "@ + id + " must specify exactly one of task_id or create_task"@,
        PlanErrorView::DuplicateTaskId(t) => "duplicate task_id in nodes: "@ + crate::ids::uuid_text(t),
        PlanErrorView::EmptyCreateTaskTitle(id) => "node "@ + id + " create_task.title cannot be empty"@,
        PlanErrorView::EmptyEdgeEndpoint => "edge endpoints cannot be empty"@,
        PlanErrorView::UnknownFromNode(id) => "edge 'from' node does not exist: "@ + id,
        PlanErrorView::UnknownToNode(id) => "edge 'to' node does not exist: "@ + id,
        PlanErrorView::SelfEdge => "self edges are not allowed"@,
        PlanErrorView::Cycle => "plan contains a cycle; edges must form a DAG"@,
        PlanErrorView::EmptyBaselineRef => "milestone.baseline_ref cannot be empty"@,
        PlanErrorView::InvalidBaselineRef => "milestone.baseline_ref is not a valid git branch name"@,
    }
}

impl PlanError {
    /// The message the API answers with (see `plan_error_message`).
    pub fn message(&self) -> (r: String)
        ensures
            r@ == plan_error_message(self@),
    {
        let mut out = String::new();
        match self {
            PlanError::UnsupportedSchemaVersion(v) => {
                crate::text::push_str(&mut out, "Unsupported plan schema_version: ");
                crate::text::push_decimal(&mut out, *v as u64);
            },
            PlanError::EmptyNodeId => crate::text::push_str(&mut out, "node id cannot be empty"),
            PlanError::DuplicateNodeId(id) => {
                crate::text::push_str(&mut out, "duplicate node id: ");
                crate::text::push_str(&mut out, id.as_str());
            },
            PlanError::NodeTaskChoice(id) => {
                crate::text::push_str(&mut out, "node ");
                crate::text::push_str(&mut out, id.as_str());
                crate::text::push_str(&mut out, " must specify exactly one of task_id or create_task");
            },
            PlanError::DuplicateTaskId(t) => {
                crate::text::push_str(&mut out, "duplicate task_id in nodes: ");
                let u = crate::ids::uuid_string(*t);
                crate::text::push_str(&mut out, u.as_str());
            },
            PlanError::EmptyCreateTaskTitle(id) => {
                crate::text::push_str(&mut out, "node ");
                crate::text::push_str(&mut out, id.as_str());
                crate::text::push_str(&mut out, " create_task.title cannot be empty");
            },
            PlanError::EmptyEdgeEndpoint => crate::text::push_str(&mut out, "edge endpoints cannot be empty"),
            PlanError::UnknownFromNode(id) => {
                crate::text::push_str(&mut out, "edge 'from' node does not exist: ");
                crate::text::push_str(&mut out, id.as_str());
            },
            PlanError::UnknownToNode(id) => {
                crate::text::push_str(&mut out, "edge 'to' node does not exist: ");
                crate::text::push_str(&mut out, id.as_str());
            },
            PlanError::SelfEdge => crate::text::push_str(&mut out, "self edges are not allowed"),
            PlanError::Cycle => crate::text::push_str(&mut out, "plan contains a cycle; edges must form a DAG"),
            PlanError::EmptyBaselineRef => crate::text::push_str(&mut out, "milestone.baseline_ref cannot be empty"),
            PlanError::InvalidBaselineRef => crate::text::push_str(
                &mut out,
                "milestone.baseline_ref is not a valid git branch name",
            ),
        }
        out
    }
}

/// The error that one edge gives, if any: an endpoint that is blank, unknown, or equal to
/// the other one.
pub open spec fn edge_key_error(ids: Seq<Seq<char>>, from: Seq<char>, to: Seq<char>) -> Option<PlanErrorView> {
    let f = trim(from);
    let t = trim(to);
    if f.len() == 0 || t.len() == 0 {
        Some(PlanErrorView::EmptyEdgeEndpoint)
    } else if !ids.contains(f) {
        Some(PlanErrorView::UnknownFromNode(f))
    } else if !ids.contains(t) {
        Some(PlanErrorView::UnknownToNode(t))
    } else if f == t {
        Some(PlanErrorView::SelfEdge)
    } else {
        None
    }
}

/// The error of the first edge that has one.
pub open spec fn edges_error(ids: Seq<Seq<char>>, edges: Seq<EdgeView>) -> Option<PlanErrorView>
    decreases edges.len(),
{
    if edges.len() == 0 {
        None
    } else {
        match edge_key_error(ids, edges[0].0, edges[0].1) {
            Some(e) => Some(e),
            None => edges_error(ids, edges.drop_first()),
        }
    }
}

/// The edges as pairs of node positions (the first node with the endpoint's trimmed id).
pub open spec fn edge_positions(ids: Seq<Seq<char>>, edges: Seq<EdgeView>) -> Seq<(usize, usize)> {
    Seq::new(
        edges.len(),
        |i: int| (index_in(ids, trim(edges[i].0)) as usize, index_in(ids, trim(edges[i].1)) as usize),
    )
}

/// Checks that every edge joins two distinct known nodes and that the edges form no cycle.
/// The first bad edge decides the error; a cycle is reported only when all edges are good.
pub fn validate_plan_dag(node_ids: &Vec<String>, edges: &Vec<MilestonePlanEdgeKeyV1>) -> (res: Result<(), PlanError>)
    ensures
        match edges_error(views(node_ids@), seq_views(edges@)) {
            Some(e) => res matches Err(err) && err@ == e,
            None => match res {
                Ok(()) => is_acyclic(
                    node_ids.len() as nat,
                    edge_positions(views(node_ids@), seq_views(edges@)),
                ),
                Err(err) => err@ == PlanErrorView::Cycle && !is_acyclic(
                    node_ids.len() as nat,
                    edge_positions(views(node_ids@), seq_views(edges@)),
                ),
            },
        },
{
    let ghost ids = views(node_ids@);
    let mut id_chars: Vec<Vec<char>> = Vec::new();
    let mut k: usize = 0;
    while k < node_ids.len()
        invariant
            k <= node_ids.len(),
            ids == views(node_ids@),
            id_chars.len() == k,
            forall|j: int| 0 <= j < k ==> (#[trigger] id_chars@[j])@ == ids[j],
        decreases node_ids.len() - k,
    {
        let c = chars_of(node_ids[k].as_str());
        id_chars.push(c);
        k = k + 1;
    }
    proof {
        assert(id_chars@.map_values(|v: Vec<char>| v@) =~= ids);
        assert(seq_views(edges@).skip(0) =~= seq_views(edges@));
    }
    let ghost ev = seq_views(edges@);
    let n = node_ids.len();
    let mut positions: Vec<(usize, usize)> = Vec::new();
    let mut i: usize = 0;
    while i < edges.len()
        invariant
            i <= edges.len(),
            n == node_ids.len(),
            ids == views(node_ids@),
            id_chars@.map_values(|v: Vec<char>| v@) == ids,
            id_chars.len() == n,
            ev == seq_views(edges@),
            edges_error(ids, ev) == edges_error(ids, ev.skip(i as int)),
            positions.len() == i,
            forall|j: int|
                0 <= j < i ==> #[trigger] positions@[j] == edge_positions(ids, ev)[j],
            forall|j: int| 0 <= j < i ==> (#[trigger] positions@[j]).0 < n && positions@[j].1 < n,
        decreases edges.len() - i,
    {
        let f = trimmed_chars(edges[i].from.as_str());
        let t = trimmed_chars(edges[i].to.as_str());
        proof {
            assert(ev.skip(i as int)[0] == edges@[i as int]@);
            assert(ev.skip(i as int).drop_first() =~= ev.skip(i + 1));
        }
        if f.len() == 0 || t.len() == 0 {
            return Err(PlanError::EmptyEdgeEndpoint);
        }
        let fi = index_of_chars(&id_chars, &f);
        if fi == n {
            let name = crate::text::string_from_chars(&f);
            return Err(PlanError::UnknownFromNode(name));
        }
        let ti = index_of_chars(&id_chars, &t);
        if ti == n {
            let name = crate::text::string_from_chars(&t);
            return Err(PlanError::UnknownToNode(name));
        }
        if crate::text::chars_eq(&f, &t) {
            return Err(PlanError::SelfEdge);
        }
        positions.push((fi, ti));
        i = i + 1;
    }
    proof {
        assert(ev.skip(i as int).len() == 0);
        assert(positions@ =~= edge_positions(ids, ev));
        assert(crate::dag::edges_in_range(n as nat, positions@));
    }
    let order = kahn_order(n, &positions);
    if order.len() == n {
        Ok(())
    } else {
        Err(PlanError::Cycle)
    }
}


/// The schema version of plans that this server reads.
pub const MILESTONE_PLAN_SCHEMA_VERSION_V1: u32 = 1;

/// A task that a plan node asks to create.
#[derive(Clone, Debug)]
pub struct MilestonePlanCreateTaskV1 {
    pub title: String,
    pub description: Option<String>,
}

/// A node of a plan: an existing task (`task_id`) or one to create.
#[derive(Clone, Debug)]
pub struct MilestonePlanNodeV1 {
    pub id: String,
    pub task_id: Option<u128>,
    pub create_task: Option<MilestonePlanCreateTaskV1>,
    pub instructions: Option<String>,
}

/// An edge of a plan: `from` must finish before `to`.
#[derive(Clone, Debug)]
pub struct MilestonePlanEdgeV1 {
    pub from: String,
    pub to: String,
    pub data_flow: Option<String>,
}

/// What a plan says of the milestone itself; an absent field leaves it as it is.
#[derive(Clone, Debug)]
pub struct MilestonePlanMilestoneV1 {
    pub objective: Option<String>,
    pub definition_of_done: Option<String>,
    pub default_executor_profile_id: Option<Option<ExecutorProfileId>>,
    pub automation_mode: Option<String>,
    pub baseline_ref: Option<String>,
}

/// A plan for a milestone, as a planning agent proposes it.
#[derive(Clone, Debug)]
pub struct MilestonePlanV1 {
    pub schema_version: u32,
    pub milestone: MilestonePlanMilestoneV1,
    pub nodes: Vec<MilestonePlanNodeV1>,
    pub edges: Vec<MilestonePlanEdgeV1>,
}

pub type CreateTaskView = (Seq<char>, Option<Seq<char>>);

pub type NodeView = (Seq<char>, Option<u128>, Option<CreateTaskView>, Option<Seq<char>>);

pub type EdgeView = (Seq<char>, Seq<char>, Option<Seq<char>>);

pub type ProfilePatchView = Option<Option<(Seq<char>, Option<Seq<char>>)>>;

pub type PlanMilestoneView = (
    Option<Seq<char>>,
    Option<Seq<char>>,
    ProfilePatchView,
    Option<Seq<char>>,
    Option<Seq<char>>,
);

impl View for MilestonePlanCreateTaskV1 {
    type V = CreateTaskView;

    open spec fn view(&self) -> CreateTaskView {
        (self.title@, opt_view(self.description))
    }
}

impl View for MilestonePlanNodeV1 {
    type V = NodeView;

    open spec fn view(&self) -> NodeView {
        (
            self.id@,
            self.task_id,
            match self.create_task {
                Some(c) => Some(c@),
                None => None,
            },
            opt_view(self.instructions),
        )
    }
}

impl View for MilestonePlanEdgeV1 {
    type V = EdgeView;

    open spec fn view(&self) -> EdgeView {
        (self.from@, self.to@, opt_view(self.data_flow))
    }
}

impl View for MilestonePlanEdgeKeyV1 {
    type V = EdgeView;

    open spec fn view(&self) -> EdgeView {
        (self.from@, self.to@, opt_view(self.data_flow))
    }
}

pub open spec fn profile_patch_view(p: Option<Option<ExecutorProfileId>>) -> ProfilePatchView {
    match p {
        Some(Some(e)) => Some(Some(e@)),
        Some(None) => Some(None),
        None => None,
    }
}

impl View for MilestonePlanMilestoneV1 {
    type V = PlanMilestoneView;

    open spec fn view(&self) -> PlanMilestoneView {
        (
            opt_view(self.objective),
            opt_view(self.definition_of_done),
            profile_patch_view(self.default_executor_profile_id),
            opt_view(self.automation_mode),
            opt_view(self.baseline_ref),
        )
    }
}

/// The key by which edges are ordered: `(from, to, data_flow or "")`.
pub open spec fn edge_sort_key(e: EdgeView) -> Seq<Seq<char>> {
    seq![e.0, e.1, or_empty(e.2)]
}

/// Nodes sort by id.
impl SortKey for MilestonePlanNodeV1 {
    open spec fn view_le(a: NodeView, b: NodeView) -> bool {
        chars_le(a.0, b.0)
    }

    proof fn lemma_view_total(a: NodeView, b: NodeView) {
        lemma_chars_total(a.0, b.0);
    }

    proof fn lemma_view_trans(a: NodeView, b: NodeView, c: NodeView) {
        lemma_chars_trans(a.0, b.0, c.0);
    }

    fn le(&self, other: &Self) -> (r: bool) {
        crate::sorting::str_le(self.id.as_str(), other.id.as_str())
    }
}

/// Decides `tuple_le` on two edge keys.
fn edge_key_le(a: (&str, &str, &Option<String>), b: (&str, &str, &Option<String>)) -> (r: bool)
    ensures
        r == tuple_le(
            seq![a.0@, a.1@, or_empty(opt_view(*a.2))],
            seq![b.0@, b.1@, or_empty(opt_view(*b.2))],
        ),
{
    let ka = seq_key(a.0, a.1, a.2);
    let kb = seq_key(b.0, b.1, b.2);
    let ghost sa = seq![a.0@, a.1@, or_empty(opt_view(*a.2))];
    let ghost sb = seq![b.0@, b.1@, or_empty(opt_view(*b.2))];
    proof {
        assert(sa.drop_first() =~= seq![a.1@, or_empty(opt_view(*a.2))]);
        assert(sb.drop_first() =~= seq![b.1@, or_empty(opt_view(*b.2))]);
        assert(sa.drop_first().drop_first() =~= seq![or_empty(opt_view(*a.2))]);
        assert(sb.drop_first().drop_first() =~= seq![or_empty(opt_view(*b.2))]);
        assert(sa.drop_first().drop_first().drop_first().len() == 0);
        reveal_with_fuel(tuple_le, 4);
    }
    if !crate::text::chars_eq(&ka.0, &kb.0) {
        crate::sorting::chars_le_exec(&ka.0, &kb.0)
    } else if !crate::text::chars_eq(&ka.1, &kb.1) {
        crate::sorting::chars_le_exec(&ka.1, &kb.1)
    } else if !crate::text::chars_eq(&ka.2, &kb.2) {
        crate::sorting::chars_le_exec(&ka.2, &kb.2)
    } else {
        true
    }
}

fn seq_key(from: &str, to: &str, data_flow: &Option<String>) -> (r: (Vec<char>, Vec<char>, Vec<char>))
    ensures
        r.0@ == from@,
        r.1@ == to@,
        r.2@ == or_empty(opt_view(*data_flow)),
{
    let df = match data_flow {
        Some(d) => chars_of(d.as_str()),
        None => Vec::new(),
    };
    (chars_of(from), chars_of(to), df)
}

proof fn lemma_edge_key_total(a: EdgeView, b: EdgeView)
    ensures
        tuple_le(edge_sort_key(a), edge_sort_key(b)) || tuple_le(edge_sort_key(b), edge_sort_key(a)),
{
    lemma_tuple_total(edge_sort_key(a), edge_sort_key(b));
}

proof fn lemma_edge_key_trans(a: EdgeView, b: EdgeView, c: EdgeView)
    requires
        tuple_le(edge_sort_key(a), edge_sort_key(b)),
        tuple_le(edge_sort_key(b), edge_sort_key(c)),
    ensures
        tuple_le(edge_sort_key(a), edge_sort_key(c)),
{
    lemma_tuple_trans(edge_sort_key(a), edge_sort_key(b), edge_sort_key(c));
}

/// Plan edges sort by `(from, to, data_flow or "")`.
impl SortKey for MilestonePlanEdgeV1 {
    open spec fn view_le(a: EdgeView, b: EdgeView) -> bool {
        tuple_le(edge_sort_key(a), edge_sort_key(b))
    }

    proof fn lemma_view_total(a: EdgeView, b: EdgeView) {
        lemma_edge_key_total(a, b);
    }

    proof fn lemma_view_trans(a: EdgeView, b: EdgeView, c: EdgeView) {
        lemma_edge_key_trans(a, b, c);
    }

    fn le(&self, other: &Self) -> (r: bool) {
        edge_key_le(
            (self.from.as_str(), self.to.as_str(), &self.data_flow),
            (other.from.as_str(), other.to.as_str(), &other.data_flow),
        )
    }
}

/// Edge keys sort by `(from, to, data_flow or "")`, the order of `edge_tuple`.
impl SortKey for MilestonePlanEdgeKeyV1 {
    open spec fn view_le(a: EdgeView, b: EdgeView) -> bool {
        tuple_le(edge_sort_key(a), edge_sort_key(b))
    }

    proof fn lemma_view_total(a: EdgeView, b: EdgeView) {
        lemma_edge_key_total(a, b);
    }

    proof fn lemma_view_trans(a: EdgeView, b: EdgeView, c: EdgeView) {
        lemma_edge_key_trans(a, b, c);
    }

    fn le(&self, other: &Self) -> (r: bool) {
        edge_key_le(
            (self.from.as_str(), self.to.as_str(), &self.data_flow),
            (other.from.as_str(), other.to.as_str(), &other.data_flow),
        )
    }
}

/// Trims an optional text and drops it when blank.
pub fn normalize_optional_text(value: Option<String>) -> (r: Option<String>)
    ensures
        opt_view(r) == opt_trim_nonempty(opt_view(value)),
{
    trimmed_nonempty_opt(&value)
}

/// Trims an optional text, keeping it when blank.
pub fn normalize_optional_text_keep_empty(value: Option<String>) -> (r: Option<String>)
    ensures
        opt_view(r) == opt_trim(opt_view(value)),
{
    trimmed_opt(&value)
}

/// A node with its id, title, description and instructions trimmed, and blank optional texts
/// dropped.
pub open spec fn normalized_node(n: NodeView) -> NodeView {
    (
        trim(n.0),
        n.1,
        match n.2 {
            Some(c) => Some((trim(c.0), opt_trim_nonempty(c.1))),
            None => None,
        },
        opt_trim_nonempty(n.3),
    )
}

/// An edge with its endpoints trimmed and a blank data flow dropped.
pub open spec fn normalized_edge(e: EdgeView) -> EdgeView {
    (trim(e.0), trim(e.1), opt_trim_nonempty(e.2))
}

/// The milestone part with its texts trimmed (blank ones kept, so that they can clear).
pub open spec fn normalized_plan_milestone(m: PlanMilestoneView) -> PlanMilestoneView {
    (opt_trim(m.0), opt_trim(m.1), m.2, m.3, opt_trim(m.4))
}

fn normalize_node(n: &MilestonePlanNodeV1) -> (r: MilestonePlanNodeV1)
    ensures
        r@ == normalized_node(n@),
{
    let create_task = match &n.create_task {
        Some(c) => Some(
            MilestonePlanCreateTaskV1 {
                title: trimmed(c.title.as_str()),
                description: trimmed_nonempty_opt(&c.description),
            },
        ),
        None => None,
    };
    MilestonePlanNodeV1 {
        id: trimmed(n.id.as_str()),
        task_id: n.task_id,
        create_task,
        instructions: trimmed_nonempty_opt(&n.instructions),
    }
}

fn normalize_edge(e: &MilestonePlanEdgeV1) -> (r: MilestonePlanEdgeV1)
    ensures
        r@ == normalized_edge(e@),
{
    MilestonePlanEdgeV1 {
        from: trimmed(e.from.as_str()),
        to: trimmed(e.to.as_str()),
        data_flow: trimmed_nonempty_opt(&e.data_flow),
    }
}

/// Trims the texts of a plan and puts its nodes in order of id and its edges in order of
/// `(from, to, data_flow)`, so that previews and applies do not depend on the order in which
/// an agent listed them. Equal keys keep their order.
pub fn normalize_plan(plan: MilestonePlanV1) -> (r: MilestonePlanV1)
    ensures
        r.schema_version == plan.schema_version,
        r.milestone@ == normalized_plan_milestone(plan.milestone@),
        seq_views(r.nodes@) == normalized_nodes(seq_views(plan.nodes@)),
        seq_views(r.edges@) == normalized_edges(seq_views(plan.edges@)),
{
    let MilestonePlanV1 { schema_version, milestone, nodes, edges } = plan;
    let MilestonePlanMilestoneV1 {
        objective,
        definition_of_done,
        default_executor_profile_id,
        automation_mode,
        baseline_ref,
    } = milestone;
    let milestone = MilestonePlanMilestoneV1 {
        objective: normalize_optional_text_keep_empty(objective),
        definition_of_done: normalize_optional_text_keep_empty(definition_of_done),
        default_executor_profile_id,
        automation_mode,
        baseline_ref: normalize_optional_text_keep_empty(baseline_ref),
    };
    let ghost nv = seq_views(nodes@).map_values(|n: NodeView| normalized_node(n));
    let mut new_nodes: Vec<MilestonePlanNodeV1> = Vec::new();
    let mut i: usize = 0;
    while i < nodes.len()
        invariant
            i <= nodes.len(),
            nv == seq_views(nodes@).map_values(|n: NodeView| normalized_node(n)),
            seq_views(new_nodes@) == nv.take(i as int),
        decreases nodes.len() - i,
    {
        let n = normalize_node(&nodes[i]);
        let ghost prev = seq_views(new_nodes@);
        new_nodes.push(n);
        proof {
            assert(seq_views(new_nodes@) =~= prev.push(n@));
            assert(nv.take(i + 1) =~= nv.take(i as int).push(nv[i as int]));
        }
        i = i + 1;
    }
    proof {
        assert(nv.take(i as int) =~= nv);
    }
    let ghost ev = seq_views(edges@).map_values(|e: EdgeView| normalized_edge(e));
    let mut new_edges: Vec<MilestonePlanEdgeV1> = Vec::new();
    let mut j: usize = 0;
    while j < edges.len()
        invariant
            j <= edges.len(),
            ev == seq_views(edges@).map_values(|e: EdgeView| normalized_edge(e)),
            seq_views(new_edges@) == ev.take(j as int),
        decreases edges.len() - j,
    {
        let e = normalize_edge(&edges[j]);
        let ghost prev = seq_views(new_edges@);
        new_edges.push(e);
        proof {
            assert(seq_views(new_edges@) =~= prev.push(e@));
            assert(ev.take(j + 1) =~= ev.take(j as int).push(ev[j as int]));
        }
        j = j + 1;
    }
    proof {
        assert(ev.take(j as int) =~= ev);
    }
    let sorted_nodes = sort_by_key(new_nodes);
    let sorted_edges = sort_by_key(new_edges);
    MilestonePlanV1 { schema_version, milestone, nodes: sorted_nodes, edges: sorted_edges }
}


/// The nodes of a plan once normalized: trimmed, then in order of id.
pub open spec fn normalized_nodes(nodes: Seq<NodeView>) -> Seq<NodeView> {
    sort_seq::<MilestonePlanNodeV1>(nodes.map_values(|n: NodeView| normalized_node(n)))
}

/// The edges of a plan once normalized: trimmed, then in order of `(from, to, data_flow)`.
pub open spec fn normalized_edges(edges: Seq<EdgeView>) -> Seq<EdgeView> {
    sort_seq::<MilestonePlanEdgeV1>(edges.map_values(|e: EdgeView| normalized_edge(e)))
}

/// The error of node `i`, given that the nodes before it were accepted: a blank id, an id
/// seen before, not exactly one of `task_id` and `create_task`, a task seen before, or a
/// blank title for the task to create.
pub open spec fn node_error(nodes: Seq<NodeView>, i: int) -> Option<PlanErrorView> {
    let n = nodes[i];
    let id = trim(n.0);
    if id.len() == 0 {
        Some(PlanErrorView::EmptyNodeId)
    } else if exists|j: int| 0 <= j < i && #[trigger] trim(nodes[j].0) == id {
        Some(PlanErrorView::DuplicateNodeId(id))
    } else if n.1.is_some() == n.2.is_some() {
        Some(PlanErrorView::NodeTaskChoice(id))
    } else if n.1.is_some() && exists|j: int| 0 <= j < i && #[trigger] nodes[j].1 == n.1 {
        Some(PlanErrorView::DuplicateTaskId(n.1.unwrap()))
    } else if n.2.is_some() && trim(n.2.unwrap().0).len() == 0 {
        Some(PlanErrorView::EmptyCreateTaskTitle(id))
    } else {
        None
    }
}

/// The error of the first node that has one.
pub open spec fn nodes_error(nodes: Seq<NodeView>) -> Option<PlanErrorView>
    decreases nodes.len(),
{
    if nodes.len() == 0 {
        None
    } else {
        match nodes_error(nodes.drop_last()) {
            Some(e) => Some(e),
            None => node_error(nodes, nodes.len() - 1),
        }
    }
}

/// What is wrong with a normalized plan, checked in this order: the schema version, the
/// nodes, the edges, a cycle, a blank baseline branch, a baseline branch that git does not
/// accept as a branch name (`baseline_valid` is git's verdict on the trimmed name).
pub open spec fn plan_structure_error(
    schema: u32,
    m: PlanMilestoneView,
    nodes: Seq<NodeView>,
    edges: Seq<EdgeView>,
    baseline_valid: bool,
) -> Option<PlanErrorView> {
    if schema != MILESTONE_PLAN_SCHEMA_VERSION_V1 {
        Some(PlanErrorView::UnsupportedSchemaVersion(schema))
    } else {
        match nodes_error(nodes) {
            Some(e) => Some(e),
            None => {
                let ids = nodes.map_values(|n: NodeView| trim(n.0));
                let keys = edges.map_values(|e: EdgeView| normalized_edge(e));
                match edges_error(ids, keys) {
                    Some(e) => Some(e),
                    None => if !is_acyclic(ids.len() as nat, edge_positions(ids, keys)) {
                        Some(PlanErrorView::Cycle)
                    } else {
                        match m.4 {
                            Some(b) => if trim(b).len() == 0 {
                                Some(PlanErrorView::EmptyBaselineRef)
                            } else if !baseline_valid {
                                Some(PlanErrorView::InvalidBaselineRef)
                            } else {
                                None
                            },
                            None => None,
                        }
                    },
                }
            },
        }
    }
}

proof fn lemma_nodes_error_prefix(s: Seq<NodeView>, k: int)
    requires
        0 <= k <= s.len(),
    ensures
        nodes_error(s.take(k)) is Some ==> nodes_error(s) == nodes_error(s.take(k)),
    decreases s.len(),
{
    if k < s.len() {
        assert(s.drop_last().take(k) =~= s.take(k));
        lemma_nodes_error_prefix(s.drop_last(), k);
    } else {
        assert(s.take(k) =~= s);
    }
}

proof fn lemma_node_error_prefix(nodes: Seq<NodeView>, k: int, i: int)
    requires
        0 <= i < k <= nodes.len(),
    ensures
        node_error(nodes.take(k), i) == node_error(nodes, i),
{
    let t = nodes.take(k);
    assert forall|j: int| 0 <= j <= i implies t[j] == nodes[j] by {}
    assert((exists|j: int| 0 <= j < i && #[trigger] trim(t[j].0) == trim(nodes[i].0)) == (exists|j: int|
        0 <= j < i && #[trigger] trim(nodes[j].0) == trim(nodes[i].0))) by {
        if exists|j: int| 0 <= j < i && #[trigger] trim(nodes[j].0) == trim(nodes[i].0) {
            let j = choose|j: int| 0 <= j < i && #[trigger] trim(nodes[j].0) == trim(nodes[i].0);
            assert(trim(t[j].0) == trim(nodes[i].0));
        }
    }
    assert((exists|j: int| 0 <= j < i && #[trigger] t[j].1 == nodes[i].1) == (exists|j: int|
        0 <= j < i && #[trigger] nodes[j].1 == nodes[i].1)) by {
        if exists|j: int| 0 <= j < i && #[trigger] nodes[j].1 == nodes[i].1 {
            let j = choose|j: int| 0 <= j < i && #[trigger] nodes[j].1 == nodes[i].1;
            assert(t[j].1 == nodes[i].1);
        }
    }
}

/// Checks the nodes one by one and gives their trimmed ids.
#[verifier::loop_isolation(false)]
fn check_nodes(nodes: &Vec<MilestonePlanNodeV1>) -> (r: Result<Vec<String>, PlanError>)
    ensures
        match nodes_error(seq_views(nodes@)) {
            Some(e) => r matches Err(x) && x@ == e,
            None => r matches Ok(ids) && views(ids@) == seq_views(nodes@).map_values(
                |n: NodeView| trim(n.0),
            ),
        },
{
    let ghost nv = seq_views(nodes@);
    let ghost tv = nv.map_values(|n: NodeView| trim(n.0));
    let mut ids: Vec<String> = Vec::new();
    let mut id_chars: Vec<Vec<char>> = Vec::new();
    let mut tasks: Vec<u128> = Vec::new();
    let mut i: usize = 0;
    proof {
        assert(nv.take(0) =~= Seq::<NodeView>::empty());
        assert(views(ids@) =~= tv.take(0));
    }
    while i < nodes.len()
        invariant
            i <= nodes.len(),
            nv == seq_views(nodes@),
            tv == nv.map_values(|n: NodeView| trim(n.0)),
            nodes_error(nv.take(i as int)) is None,
            views(ids@) == tv.take(i as int),
            id_chars@.map_values(|v: Vec<char>| v@) == tv.take(i as int),
            forall|t: u128|
                tasks@.contains(t) <==> exists|j: int| 0 <= j < i && #[trigger] nv[j].1 == Some(t),
        decreases nodes.len() - i,
    {
        let node = &nodes[i];
        let ghost n = nv[i as int];
        let ghost pre = nv.take(i + 1);
        proof {
            assert(pre.drop_last() =~= nv.take(i as int));
            assert(nodes_error(pre) == node_error(pre, i as int));
            lemma_node_error_prefix(nv, i + 1, i as int);
            lemma_nodes_error_prefix(nv, i + 1);
            assert(n == node@);
        }
        let id = trimmed_chars(node.id.as_str());
        if id.len() == 0 {
            return Err(PlanError::EmptyNodeId);
        }
        let pos = index_of_chars(&id_chars, &id);
        if pos < id_chars.len() {
            proof {
                lemma_index_in(id_chars@.map_values(|v: Vec<char>| v@), id@);
                assert(tv.take(i as int)[pos as int] == id@);
                assert(trim(nv[pos as int].0) == id@);
            }
            return Err(PlanError::DuplicateNodeId(crate::text::string_from_chars(&id)));
        }
        proof {
            assert forall|j: int| 0 <= j < i implies #[trigger] trim(nv[j].0) != id@ by {
                assert(tv.take(i as int)[j] == trim(nv[j].0));
                assert(tv.take(i as int).contains(trim(nv[j].0)));
            }
        }
        let has_task = node.task_id.is_some();
        let has_create = node.create_task.is_some();
        if has_task == has_create {
            return Err(PlanError::NodeTaskChoice(crate::text::string_from_chars(&id)));
        }
        match node.task_id {
            Some(t) => {
                let mut k: usize = 0;
                while k < tasks.len()
                    invariant
                        k <= tasks.len(),
                        forall|q: int| 0 <= q < k ==> tasks@[q] != t,
                    decreases tasks.len() - k,
                {
                    if tasks[k] == t {
                        proof {
                            assert(tasks@.contains(t));
                            let j = choose|j: int| 0 <= j < i && #[trigger] nv[j].1 == Some(t);
                            assert(nv[j].1 == n.1);
                        }
                        return Err(PlanError::DuplicateTaskId(t));
                    }
                    k = k + 1;
                }
                proof {
                    assert(!tasks@.contains(t));
                    assert forall|j: int| 0 <= j < i implies #[trigger] nv[j].1 != n.1 by {
                        if nv[j].1 == n.1 {
                            assert(nv[j].1 == Some(t));
                        }
                    }
                }
                let ghost old_tasks = tasks@;
                tasks.push(t);
                proof {
                    assert forall|x: u128|
                        tasks@.contains(x) <==> exists|j: int|
                            0 <= j < i + 1 && #[trigger] nv[j].1 == Some(x) by {
                        if tasks@.contains(x) {
                            let q = choose|q: int| 0 <= q < tasks@.len() && tasks@[q] == x;
                            if q < old_tasks.len() {
                                assert(old_tasks.contains(x));
                                let j = choose|j: int| 0 <= j < i && #[trigger] nv[j].1 == Some(x);
                                assert(0 <= j < i + 1 && nv[j].1 == Some(x));
                            } else {
                                assert(nv[i as int].1 == Some(x));
                            }
                        }
                        if exists|j: int| 0 <= j < i + 1 && #[trigger] nv[j].1 == Some(x) {
                            let j = choose|j: int| 0 <= j < i + 1 && #[trigger] nv[j].1 == Some(x);
                            if j < i {
                                assert(old_tasks.contains(x));
                                let q = choose|q: int| 0 <= q < old_tasks.len() && old_tasks[q] == x;
                                assert(tasks@[q] == x);
                            } else {
                                assert(tasks@[old_tasks.len() as int] == x);
                            }
                        }
                    }
                }
            },
            None => {
                proof {
                    assert forall|x: u128|
                        tasks@.contains(x) <==> exists|j: int|
                            0 <= j < i + 1 && #[trigger] nv[j].1 == Some(x) by {
                        if exists|j: int| 0 <= j < i + 1 && #[trigger] nv[j].1 == Some(x) {
                            let j = choose|j: int| 0 <= j < i + 1 && #[trigger] nv[j].1 == Some(x);
                            assert(j < i);
                        }
                    }
                }
            },
        }
        match &node.create_task {
            Some(c) => {
                if crate::text::blank(c.title.as_str()) {
                    return Err(PlanError::EmptyCreateTaskTitle(crate::text::string_from_chars(&id)));
                }
            },
            None => {},
        }
        proof {
            assert(node_error(pre, i as int) is None);
            assert(tv.take(i + 1) =~= tv.take(i as int).push(id@));
        }
        let ghost prev_ids = views(ids@);
        let ghost prev_chars = id_chars@.map_values(|v: Vec<char>| v@);
        ids.push(crate::text::string_from_chars(&id));
        id_chars.push(id);
        proof {
            assert(views(ids@) =~= prev_ids.push(trim(n.0)));
            assert(id_chars@.map_values(|v: Vec<char>| v@) =~= prev_chars.push(trim(n.0)));
        }
        i = i + 1;
    }
    proof {
        assert(nv.take(i as int) =~= nv);
        assert(tv.take(i as int) =~= tv);
    }
    Ok(ids)
}

/// The keys of the edges: endpoints trimmed, a blank data flow dropped.
fn plan_edge_keys(edges: &Vec<MilestonePlanEdgeV1>) -> (r: Vec<MilestonePlanEdgeKeyV1>)
    ensures
        seq_views(r@) == seq_views(edges@).map_values(|e: EdgeView| normalized_edge(e)),
{
    let ghost ev = seq_views(edges@).map_values(|e: EdgeView| normalized_edge(e));
    let mut keys: Vec<MilestonePlanEdgeKeyV1> = Vec::new();
    let mut i: usize = 0;
    while i < edges.len()
        invariant
            i <= edges.len(),
            ev == seq_views(edges@).map_values(|e: EdgeView| normalized_edge(e)),
            seq_views(keys@) == ev.take(i as int),
        decreases edges.len() - i,
    {
        let e = &edges[i];
        let k = MilestonePlanEdgeKeyV1 {
            from: trimmed(e.from.as_str()),
            to: trimmed(e.to.as_str()),
            data_flow: trimmed_nonempty_opt(&e.data_flow),
        };
        let ghost prev = seq_views(keys@);
        keys.push(k);
        proof {
            assert(seq_views(keys@) =~= prev.push(k@));
            assert(ev.take(i + 1) =~= ev.take(i as int).push(ev[i as int]));
        }
        i = i + 1;
    }
    proof {
        assert(ev.take(i as int) =~= ev);
    }
    keys
}

/// Normalizes a plan and checks what can be checked without the repository or the database:
/// the schema version, the nodes, the edges (known, distinct endpoints, no cycle) and a
/// baseline branch that is not blank and that git accepts as a branch name
/// (`baseline_valid`: git's verdict on the trimmed baseline name; unread when there is no
/// baseline or it is blank). Gives the normalized plan, or the first error.
pub fn validate_plan_structure(plan: MilestonePlanV1, baseline_valid: bool) -> (r: Result<MilestonePlanV1, PlanError>)
    ensures
        ({
            let m = normalized_plan_milestone(plan.milestone@);
            let nodes = normalized_nodes(seq_views(plan.nodes@));
            let edges = normalized_edges(seq_views(plan.edges@));
            match r {
                Ok(p) => plan_structure_error(plan.schema_version, m, nodes, edges, baseline_valid) is None
                    && p.schema_version == plan.schema_version && p.milestone@ == m && seq_views(
                    p.nodes@,
                ) == nodes && seq_views(p.edges@) == edges,
                Err(e) => plan_structure_error(plan.schema_version, m, nodes, edges, baseline_valid) == Some(e@),
            }
        }),
{
    let plan = normalize_plan(plan);
    if plan.schema_version != MILESTONE_PLAN_SCHEMA_VERSION_V1 {
        return Err(PlanError::UnsupportedSchemaVersion(plan.schema_version));
    }
    let ids = match check_nodes(&plan.nodes) {
        Ok(ids) => ids,
        Err(e) => {
            return Err(e);
        },
    };
    let keys = plan_edge_keys(&plan.edges);
    match validate_plan_dag(&ids, &keys) {
        Ok(()) => {},
        Err(e) => {
            return Err(e);
        },
    }
    match &plan.milestone.baseline_ref {
        Some(b) => {
            if crate::text::blank(b.as_str()) {
                return Err(PlanError::EmptyBaselineRef);
            }
            if !baseline_valid {
                return Err(PlanError::InvalidBaselineRef);
            }
        },
        None => {},
    }
    Ok(plan)
}

/// The tasks that a plan's nodes link, in node order.
pub open spec fn linked_task_ids(nodes: Seq<NodeView>) -> Seq<u128>
    decreases nodes.len(),
{
    if nodes.len() == 0 {
        Seq::empty()
    } else {
        let rest = linked_task_ids(nodes.drop_last());
        match nodes.last().1 {
            Some(t) => rest.push(t),
            None => rest,
        }
    }
}

/// The tasks that a plan's nodes link, in node order.
pub fn referenced_task_ids(plan: &MilestonePlanV1) -> (r: Vec<u128>)
    ensures
        r@ == linked_task_ids(seq_views(plan.nodes@)),
{
    let ghost nv = seq_views(plan.nodes@);
    let mut out: Vec<u128> = Vec::new();
    let mut i: usize = 0;
    proof {
        assert(nv.take(0) =~= Seq::<NodeView>::empty());
    }
    while i < plan.nodes.len()
        invariant
            i <= plan.nodes.len(),
            nv == seq_views(plan.nodes@),
            out@ == linked_task_ids(nv.take(i as int)),
        decreases plan.nodes.len() - i,
    {
        proof {
            assert(nv.take(i + 1).drop_last() =~= nv.take(i as int));
            assert(nv.take(i + 1).last() == plan.nodes@[i as int]@);
        }
        match plan.nodes[i].task_id {
            Some(t) => out.push(t),
            None => {},
        }
        i = i + 1;
    }
    proof {
        assert(nv.take(i as int) =~= nv);
    }
    out
}
/// Normalizing puts a plan's edges in an order that does not depend on how the planner
/// listed them: two listings of the same edges normalize alike.
pub proof fn law_normalized_edges_ignore_order(e1: Seq<EdgeView>, e2: Seq<EdgeView>)
    requires
        e1.to_multiset() == e2.to_multiset(),
    ensures
        normalized_edges(e1) == normalized_edges(e2),
{
    let f = |e: EdgeView| normalized_edge(e);
    let m1 = e1.map_values(f);
    let m2 = e2.map_values(f);
    assert(normalized_edges(e1) == sort_seq::<MilestonePlanEdgeV1>(m1)) by {
        assert(e1.map_values(|e: EdgeView| normalized_edge(e)) =~= m1);
    }
    assert(normalized_edges(e2) == sort_seq::<MilestonePlanEdgeV1>(m2)) by {
        assert(e2.map_values(|e: EdgeView| normalized_edge(e)) =~= m2);
    }
    crate::reorder::lemma_map_multiset(e1, e2, f);
    let s1 = sort_seq::<MilestonePlanEdgeV1>(m1);
    let s2 = sort_seq::<MilestonePlanEdgeV1>(m2);
    crate::sorting::lemma_sort_seq::<MilestonePlanEdgeV1>(m1);
    crate::sorting::lemma_sort_seq::<MilestonePlanEdgeV1>(m2);
    assert forall|x: EdgeView, y: EdgeView|
        s1.contains(x) && s1.contains(y) && MilestonePlanEdgeV1::view_le(x, y)
            && MilestonePlanEdgeV1::view_le(y, x) implies x == y by {
        lemma_normalized_edge_in(m1, e1, s1, x);
        lemma_normalized_edge_in(m1, e1, s1, y);
        crate::reorder::lemma_tuple_antisym(edge_sort_key(x), edge_sort_key(y));
        assert(edge_sort_key(x)[0] == x.0 && edge_sort_key(y)[0] == y.0);
        assert(edge_sort_key(x)[1] == x.1 && edge_sort_key(y)[1] == y.1);
        assert(edge_sort_key(x)[2] == or_empty(x.2) && edge_sort_key(y)[2] == or_empty(y.2));
    }
    crate::reorder::lemma_sorted_eq::<MilestonePlanEdgeV1>(s1, s2);
}

/// An edge of the sorted normalized edges is a normalized edge: a data flow it has is not
/// empty.
proof fn lemma_normalized_edge_in(m: Seq<EdgeView>, e: Seq<EdgeView>, s: Seq<EdgeView>, x: EdgeView)
    requires
        m == e.map_values(|e: EdgeView| normalized_edge(e)),
        s.to_multiset() == m.to_multiset(),
        s.contains(x),
    ensures
        x.2 matches Some(d) ==> d.len() > 0,
{
    broadcast use vstd::seq_lib::group_to_multiset_ensures;

    assert(s.to_multiset().count(x) > 0);
    assert(m.contains(x));
    let i = choose|i: int| 0 <= i < m.len() && m[i] == x;
    assert(x == normalized_edge(e[i]));
}

/// Likewise for nodes, when no two of them share an id once trimmed.
pub proof fn law_normalized_nodes_ignore_order(n1: Seq<NodeView>, n2: Seq<NodeView>)
    requires
        n1.to_multiset() == n2.to_multiset(),
        forall|i: int, j: int| 0 <= i < j < n1.len() ==> trim(n1[i].0) != trim(n1[j].0),
    ensures
        normalized_nodes(n1) == normalized_nodes(n2),
{
    broadcast use vstd::seq_lib::group_to_multiset_ensures;

    let f = |n: NodeView| normalized_node(n);
    let m1 = n1.map_values(f);
    let m2 = n2.map_values(f);
    assert(normalized_nodes(n1) == sort_seq::<MilestonePlanNodeV1>(m1)) by {
        assert(n1.map_values(|n: NodeView| normalized_node(n)) =~= m1);
    }
    assert(normalized_nodes(n2) == sort_seq::<MilestonePlanNodeV1>(m2)) by {
        assert(n2.map_values(|n: NodeView| normalized_node(n)) =~= m2);
    }
    crate::reorder::lemma_map_multiset(n1, n2, f);
    let s1 = sort_seq::<MilestonePlanNodeV1>(m1);
    let s2 = sort_seq::<MilestonePlanNodeV1>(m2);
    crate::sorting::lemma_sort_seq::<MilestonePlanNodeV1>(m1);
    crate::sorting::lemma_sort_seq::<MilestonePlanNodeV1>(m2);
    assert forall|x: NodeView, y: NodeView|
        s1.contains(x) && s1.contains(y) && MilestonePlanNodeV1::view_le(x, y)
            && MilestonePlanNodeV1::view_le(y, x) implies x == y by {
        assert(s1.to_multiset().count(x) > 0);
        assert(s1.to_multiset().count(y) > 0);
        assert(m1.contains(x) && m1.contains(y));
        let i = choose|i: int| 0 <= i < m1.len() && m1[i] == x;
        let j = choose|j: int| 0 <= j < m1.len() && m1[j] == y;
        crate::sorting::lemma_chars_antisym(x.0, y.0);
        assert(x.0 == trim(n1[i].0) && y.0 == trim(n1[j].0));
        if i < j {
            assert(trim(n1[i].0) != trim(n1[j].0));
        } else if j < i {
            assert(trim(n1[j].0) != trim(n1[i].0));
        }
    }
    crate::reorder::lemma_sorted_eq::<MilestonePlanNodeV1>(s1, s2);
}

proof fn lemma_opt_trim_idempotent(o: Option<Seq<char>>)
    ensures
        opt_trim(opt_trim(o)) == opt_trim(o),
        opt_trim_nonempty(opt_trim_nonempty(o)) == opt_trim_nonempty(o),
{
    if let Some(x) = o {
        crate::text::lemma_trim_idempotent(x);
    }
}

proof fn lemma_normalized_node_idempotent(n: NodeView)
    ensures
        normalized_node(normalized_node(n)) == normalized_node(n),
{
    crate::text::lemma_trim_idempotent(n.0);
    lemma_opt_trim_idempotent(n.3);
    if let Some(c) = n.2 {
        crate::text::lemma_trim_idempotent(c.0);
        lemma_opt_trim_idempotent(c.1);
    }
}

proof fn lemma_normalized_edge_idempotent(e: EdgeView)
    ensures
        normalized_edge(normalized_edge(e)) == normalized_edge(e),
{
    crate::text::lemma_trim_idempotent(e.0);
    crate::text::lemma_trim_idempotent(e.1);
    lemma_opt_trim_idempotent(e.2);
}

proof fn lemma_normalized_nodes_idempotent(nodes: Seq<NodeView>)
    ensures
        normalized_nodes(normalized_nodes(nodes)) == normalized_nodes(nodes),
{
    broadcast use vstd::seq_lib::group_to_multiset_ensures;

    let m = nodes.map_values(|n: NodeView| normalized_node(n));
    let s = sort_seq::<MilestonePlanNodeV1>(m);
    crate::sorting::lemma_sort_seq::<MilestonePlanNodeV1>(m);
    assert forall|i: int| 0 <= i < s.len() implies normalized_node(#[trigger] s[i]) == s[i] by {
        assert(s.to_multiset().count(s[i]) > 0);
        assert(m.contains(s[i]));
        let k = choose|k: int| 0 <= k < m.len() && m[k] == s[i];
        lemma_normalized_node_idempotent(nodes[k]);
    }
    assert(s.map_values(|n: NodeView| normalized_node(n)) =~= s);
    crate::reorder::lemma_sort_sorted::<MilestonePlanNodeV1>(s);
}

proof fn lemma_normalized_edges_idempotent(edges: Seq<EdgeView>)
    ensures
        normalized_edges(normalized_edges(edges)) == normalized_edges(edges),
{
    broadcast use vstd::seq_lib::group_to_multiset_ensures;

    let m = edges.map_values(|e: EdgeView| normalized_edge(e));
    let s = sort_seq::<MilestonePlanEdgeV1>(m);
    crate::sorting::lemma_sort_seq::<MilestonePlanEdgeV1>(m);
    assert forall|i: int| 0 <= i < s.len() implies normalized_edge(#[trigger] s[i]) == s[i] by {
        assert(s.to_multiset().count(s[i]) > 0);
        assert(m.contains(s[i]));
        let k = choose|k: int| 0 <= k < m.len() && m[k] == s[i];
        lemma_normalized_edge_idempotent(edges[k]);
    }
    assert(s.map_values(|e: EdgeView| normalized_edge(e)) =~= s);
    crate::reorder::lemma_sort_sorted::<MilestonePlanEdgeV1>(s);
}

/// Normalizing a normalized plan changes nothing: its milestone texts, its nodes and its
/// edges come out as they went in (see `normalize_plan`).
pub proof fn law_normalize_plan_idempotent(m: PlanMilestoneView, nodes: Seq<NodeView>, edges: Seq<EdgeView>)
    ensures
        normalized_plan_milestone(normalized_plan_milestone(m)) == normalized_plan_milestone(m),
        normalized_nodes(normalized_nodes(nodes)) == normalized_nodes(nodes),
        normalized_edges(normalized_edges(edges)) == normalized_edges(edges),
{
    lemma_opt_trim_idempotent(m.0);
    lemma_opt_trim_idempotent(m.1);
    lemma_opt_trim_idempotent(m.4);
    lemma_normalized_nodes_idempotent(nodes);
    lemma_normalized_edges_idempotent(edges);
}

} // verus!
