//! What applying a milestone plan would change: metadata, tasks to create or link, and the
//! differences between the milestone's graph and the plan's.
use vstd::prelude::*;

use crate::graph::{ExecutorProfileId, GraphEdge, GraphNode};
use crate::milestone_plan::{
    EdgeView, MilestonePlanEdgeKeyV1, MilestonePlanNodeV1, MilestonePlanV1, NodeView,
    PlanMilestoneView, edge_sort_key, normalize_optional_text, normalized_edge,
};
use crate::sorting::{SortKey, chars_le, lemma_chars_total, lemma_chars_trans, seq_views, sort_by_key, sort_seq};
use crate::text::{
    chars_of, chars_eq, opt_trim_nonempty, opt_view, or_empty, push_str, trim, trimmed,
    trimmed_chars, trimmed_nonempty_opt,
};

verus! {

/// The milestone as stored: what a plan preview compares against.
#[derive(Clone, Debug)]
pub struct Milestone {
    pub objective: Option<String>,
    pub definition_of_done: Option<String>,
    pub default_executor_profile_id: Option<ExecutorProfileId>,
    /// The automation mode, by the name it is shown with.
    pub automation_mode: String,
    pub baseline_ref: String,
    pub graph_nodes: Vec<GraphNode>,
    pub graph_edges: Vec<GraphEdge>,
}

/// A field of the milestone that a plan can change.
#[derive(Clone, Copy, Debug, PartialEq, Eq, Structural)]
pub enum MilestonePlanMetadataField {
    Objective,
    DefinitionOfDone,
    DefaultExecutorProfile,
    AutomationMode,
    BaselineRef,
}

/// A change of one milestone field.
#[derive(Clone, Debug)]
pub struct MilestonePlanPreviewMetadataChange {
    pub field: MilestonePlanMetadataField,
    pub from: Option<String>,
    pub to: Option<String>,
}

/// A task that applying the plan would create for a node.
#[derive(Clone, Debug)]
pub struct MilestonePlanPreviewTaskToCreate {
    pub node_id: String,
    pub title: String,
    pub description: Option<String>,
}

/// An existing task that applying the plan would link to a node.
#[derive(Clone, Debug)]
pub struct MilestonePlanPreviewTaskLink {
    pub node_id: String,
    pub task_id: u128,
}

/// Node ids before and after, and which come and go.
#[derive(Clone, Debug)]
pub struct MilestonePlanPreviewNodeDiff {
    pub existing: Vec<String>,
    pub planned: Vec<String>,
    pub added: Vec<String>,
    pub removed: Vec<String>,
}

/// Edges before and after, and which come and go.
#[derive(Clone, Debug)]
pub struct MilestonePlanPreviewEdgeDiff {
    pub existing: Vec<MilestonePlanEdgeKeyV1>,
    pub planned: Vec<MilestonePlanEdgeKeyV1>,
    pub added: Vec<MilestonePlanEdgeKeyV1>,
    pub removed: Vec<MilestonePlanEdgeKeyV1>,
}

/// Everything a preview shows.
#[derive(Clone, Debug)]
pub struct MilestonePlanPreviewResponse {
    pub metadata_changes: Vec<MilestonePlanPreviewMetadataChange>,
    pub tasks_to_create: Vec<MilestonePlanPreviewTaskToCreate>,
    pub task_links: Vec<MilestonePlanPreviewTaskLink>,
    pub node_diff: MilestonePlanPreviewNodeDiff,
    pub edge_diff: MilestonePlanPreviewEdgeDiff,
}

pub type ChangeView = (MilestonePlanMetadataField, Option<Seq<char>>, Option<Seq<char>>);

pub type TaskToCreateView = (Seq<char>, Seq<char>, Option<Seq<char>>);

pub type TaskLinkView = (Seq<char>, u128);

impl View for MilestonePlanPreviewMetadataChange {
    type V = ChangeView;

    open spec fn view(&self) -> ChangeView {
        (self.field, opt_view(self.from), opt_view(self.to))
    }
}

impl View for MilestonePlanPreviewTaskToCreate {
    type V = TaskToCreateView;

    open spec fn view(&self) -> TaskToCreateView {
        (self.node_id@, self.title@, opt_view(self.description))
    }
}

impl View for MilestonePlanPreviewTaskLink {
    type V = TaskLinkView;

    open spec fn view(&self) -> TaskLinkView {
        (self.node_id@, self.task_id)
    }
}

/// Tasks to create sort by node id.
impl SortKey for MilestonePlanPreviewTaskToCreate {
    open spec fn view_le(a: TaskToCreateView, b: TaskToCreateView) -> bool {
        chars_le(a.0, b.0)
    }

    proof fn lemma_view_total(a: TaskToCreateView, b: TaskToCreateView) {
        lemma_chars_total(a.0, b.0);
    }

    proof fn lemma_view_trans(a: TaskToCreateView, b: TaskToCreateView, c: TaskToCreateView) {
        lemma_chars_trans(a.0, b.0, c.0);
    }

    fn le(&self, other: &Self) -> (r: bool) {
        crate::sorting::str_le(self.node_id.as_str(), other.node_id.as_str())
    }
}

/// Task links sort by node id.
impl SortKey for MilestonePlanPreviewTaskLink {
    open spec fn view_le(a: TaskLinkView, b: TaskLinkView) -> bool {
        chars_le(a.0, b.0)
    }

    proof fn lemma_view_total(a: TaskLinkView, b: TaskLinkView) {
        lemma_chars_total(a.0, b.0);
    }

    proof fn lemma_view_trans(a: TaskLinkView, b: TaskLinkView, c: TaskLinkView) {
        lemma_chars_trans(a.0, b.0, c.0);
    }

    fn le(&self, other: &Self) -> (r: bool) {
        crate::sorting::str_le(self.node_id.as_str(), other.node_id.as_str())
    }
}

/// The position of a field in the order in which changes are listed.
pub open spec fn field_rank(field: MilestonePlanMetadataField) -> u8 {
    match field {
        MilestonePlanMetadataField::Objective => 0,
        MilestonePlanMetadataField::DefinitionOfDone => 1,
        MilestonePlanMetadataField::DefaultExecutorProfile => 2,
        MilestonePlanMetadataField::AutomationMode => 3,
        MilestonePlanMetadataField::BaselineRef => 4,
    }
}

/// The position of a field in the order in which changes are listed.
pub fn metadata_field_sort_key(field: &MilestonePlanMetadataField) -> (r: u8)
    ensures
        r == field_rank(*field),
{
    match field {
        MilestonePlanMetadataField::Objective => 0,
        MilestonePlanMetadataField::DefinitionOfDone => 1,
        MilestonePlanMetadataField::DefaultExecutorProfile => 2,
        MilestonePlanMetadataField::AutomationMode => 3,
        MilestonePlanMetadataField::BaselineRef => 4,
    }
}

/// How an executor profile is shown: `EXECUTOR::variant`, with an empty variant when there
/// is none.
pub open spec fn profile_label(p: (Seq<char>, Option<Seq<char>>)) -> Seq<char> {
    p.0 + "::"@ + or_empty(p.1)
}

/// How an executor profile is shown: `EXECUTOR::variant`.
pub fn executor_profile_label(profile: &ExecutorProfileId) -> (r: String)
    ensures
        r@ == profile_label(profile@),
{
    let mut out = String::new();
    push_str(&mut out, profile.executor.as_str());
    push_str(&mut out, "::");
    match &profile.variant {
        Some(v) => push_str(&mut out, v.as_str()),
        None => {},
    }
    proof {
        reveal_strlit("::");
    }
    out
}

/// The label of an optional profile.
pub open spec fn opt_label(p: Option<(Seq<char>, Option<Seq<char>>)>) -> Option<Seq<char>> {
    match p {
        Some(e) => Some(profile_label(e)),
        None => None,
    }
}

/// The view of the stored profile.
pub open spec fn profile_view(p: Option<ExecutorProfileId>) -> Option<(Seq<char>, Option<Seq<char>>)> {
    match p {
        Some(e) => Some(e@),
        None => None,
    }
}

/// The stored milestone, as far as metadata changes read it: objective, definition of done,
/// default profile, automation mode, baseline branch.
pub type MilestoneMetaView = (
    Option<Seq<char>>,
    Option<Seq<char>>,
    Option<(Seq<char>, Option<Seq<char>>)>,
    Seq<char>,
    Seq<char>,
);

pub open spec fn milestone_meta(m: Milestone) -> MilestoneMetaView {
    (
        opt_view(m.objective),
        opt_view(m.definition_of_done),
        profile_view(m.default_executor_profile_id),
        m.automation_mode@,
        m.baseline_ref@,
    )
}

/// A change of the objective or the definition of done: the plan gives the field, and its
/// trimmed value (blank counting as none) differs from the stored one.
pub open spec fn text_change(
    field: MilestonePlanMetadataField,
    stored: Option<Seq<char>>,
    patch: Option<Seq<char>>,
) -> Seq<ChangeView> {
    match patch {
        Some(_) => {
            let planned = opt_trim_nonempty(patch);
            if planned != stored {
                seq![(field, stored, planned)]
            } else {
                seq![]
            }
        },
        None => seq![],
    }
}

pub open spec fn profile_change(m: MilestoneMetaView, p: PlanMilestoneView) -> Seq<ChangeView> {
    match p.2 {
        Some(patch) => if patch != m.2 {
            seq![(MilestonePlanMetadataField::DefaultExecutorProfile, opt_label(m.2), opt_label(patch))]
        } else {
            seq![]
        },
        None => seq![],
    }
}

pub open spec fn mode_change(m: MilestoneMetaView, p: PlanMilestoneView) -> Seq<ChangeView> {
    match p.3 {
        Some(mode) => if mode != m.3 {
            seq![(MilestonePlanMetadataField::AutomationMode, Some(m.3), Some(mode))]
        } else {
            seq![]
        },
        None => seq![],
    }
}

pub open spec fn baseline_change(m: MilestoneMetaView, p: PlanMilestoneView) -> Seq<ChangeView> {
    match p.4 {
        Some(b) => if trim(b) != m.4 {
            seq![(MilestonePlanMetadataField::BaselineRef, Some(m.4), Some(trim(b)))]
        } else {
            seq![]
        },
        None => seq![],
    }
}

/// The changes a plan makes to the milestone's fields, in field order. A field that the plan
/// leaves out, or sets to what it already is, gives no change.
pub open spec fn metadata_changes(m: MilestoneMetaView, p: PlanMilestoneView) -> Seq<ChangeView> {
    text_change(MilestonePlanMetadataField::Objective, m.0, p.0) + text_change(
        MilestonePlanMetadataField::DefinitionOfDone,
        m.1,
        p.1,
    ) + profile_change(m, p) + mode_change(m, p) + baseline_change(m, p)
}

fn opt_profile_eq(a: &Option<ExecutorProfileId>, b: &Option<ExecutorProfileId>) -> (r: bool)
    ensures
        r == (profile_view(*a) == profile_view(*b)),
{
    match (a, b) {
        (Some(x), Some(y)) => {
            let same_variant = match (&x.variant, &y.variant) {
                (Some(u), Some(v)) => *u == *v,
                (None, None) => true,
                _ => false,
            };
            x.executor == y.executor && same_variant
        },
        (None, None) => true,
        _ => false,
    }
}

fn opt_string_eq(a: &Option<String>, b: &Option<String>) -> (r: bool)
    ensures
        r == (opt_view(*a) == opt_view(*b)),
{
    match (a, b) {
        (Some(x), Some(y)) => *x == *y,
        (None, None) => true,
        _ => false,
    }
}

fn clone_opt(a: &Option<String>) -> (r: Option<String>)
    ensures
        opt_view(r) == opt_view(*a),
{
    match a {
        Some(x) => Some(x.clone()),
        None => None,
    }
}

fn opt_profile_label(p: &Option<ExecutorProfileId>) -> (r: Option<String>)
    ensures
        opt_view(r) == opt_label(profile_view(*p)),
{
    match p {
        Some(e) => Some(executor_profile_label(e)),
        None => None,
    }
}

fn push_text_change(
    out: &mut Vec<MilestonePlanPreviewMetadataChange>,
    field: MilestonePlanMetadataField,
    stored: &Option<String>,
    patch: &Option<String>,
)
    ensures
        seq_views(final(out)@) == seq_views(old(out)@) + text_change(field, opt_view(*stored), opt_view(*patch)),
{
    let ghost before = seq_views(out@);
    if patch.is_some() {
        let planned = trimmed_nonempty_opt(patch);
        if !opt_string_eq(&planned, stored) {
            out.push(MilestonePlanPreviewMetadataChange { field, from: clone_opt(stored), to: planned });
        }
    }
    proof {
        assert(seq_views(out@) =~= before + text_change(field, opt_view(*stored), opt_view(*patch)));
    }
}

fn push_profile_change(
    out: &mut Vec<MilestonePlanPreviewMetadataChange>,
    milestone: &Milestone,
    plan: &MilestonePlanV1,
)
    ensures
        seq_views(final(out)@) == seq_views(old(out)@) + profile_change(milestone_meta(*milestone), plan.milestone@),
{
    let ghost before = seq_views(out@);
    match &plan.milestone.default_executor_profile_id {
        Some(patch) => {
            if !opt_profile_eq(patch, &milestone.default_executor_profile_id) {
                out.push(
                    MilestonePlanPreviewMetadataChange {
                        field: MilestonePlanMetadataField::DefaultExecutorProfile,
                        from: opt_profile_label(&milestone.default_executor_profile_id),
                        to: opt_profile_label(patch),
                    },
                );
            }
        },
        None => {},
    }
    proof {
        assert(seq_views(out@) =~= before + profile_change(milestone_meta(*milestone), plan.milestone@));
    }
}

fn push_mode_change(
    out: &mut Vec<MilestonePlanPreviewMetadataChange>,
    milestone: &Milestone,
    plan: &MilestonePlanV1,
)
    ensures
        seq_views(final(out)@) == seq_views(old(out)@) + mode_change(milestone_meta(*milestone), plan.milestone@),
{
    let ghost before = seq_views(out@);
    match &plan.milestone.automation_mode {
        Some(mode) => {
            if *mode != milestone.automation_mode {
                out.push(
                    MilestonePlanPreviewMetadataChange {
                        field: MilestonePlanMetadataField::AutomationMode,
                        from: Some(milestone.automation_mode.clone()),
                        to: Some(mode.clone()),
                    },
                );
            }
        },
        None => {},
    }
    proof {
        assert(seq_views(out@) =~= before + mode_change(milestone_meta(*milestone), plan.milestone@));
    }
}

fn push_baseline_change(
    out: &mut Vec<MilestonePlanPreviewMetadataChange>,
    milestone: &Milestone,
    plan: &MilestonePlanV1,
)
    ensures
        seq_views(final(out)@) == seq_views(old(out)@) + baseline_change(milestone_meta(*milestone), plan.milestone@),
{
    let ghost before = seq_views(out@);
    match &plan.milestone.baseline_ref {
        Some(b) => {
            let t = trimmed(b.as_str());
            if t != milestone.baseline_ref {
                out.push(
                    MilestonePlanPreviewMetadataChange {
                        field: MilestonePlanMetadataField::BaselineRef,
                        from: Some(milestone.baseline_ref.clone()),
                        to: Some(t),
                    },
                );
            }
        },
        None => {},
    }
    proof {
        assert(seq_views(out@) =~= before + baseline_change(milestone_meta(*milestone), plan.milestone@));
    }
}

/// The metadata changes of a plan, in field order.
fn compute_metadata_changes(
    milestone: &Milestone,
    plan: &MilestonePlanV1,
) -> (r: Vec<MilestonePlanPreviewMetadataChange>)
    ensures
        seq_views(r@) == metadata_changes(milestone_meta(*milestone), plan.milestone@),
{
    let mut out: Vec<MilestonePlanPreviewMetadataChange> = Vec::new();
    push_text_change(
        &mut out,
        MilestonePlanMetadataField::Objective,
        &milestone.objective,
        &plan.milestone.objective,
    );
    push_text_change(
        &mut out,
        MilestonePlanMetadataField::DefinitionOfDone,
        &milestone.definition_of_done,
        &plan.milestone.definition_of_done,
    );
    push_profile_change(&mut out, milestone, plan);
    push_mode_change(&mut out, milestone, plan);
    push_baseline_change(&mut out, milestone, plan);
    proof {
        assert(seq_views(out@) =~= metadata_changes(milestone_meta(*milestone), plan.milestone@));
    }
    out
}

/// The tasks to create, for the nodes that ask for one, in node order.
pub open spec fn creations(nodes: Seq<NodeView>) -> Seq<TaskToCreateView>
    decreases nodes.len(),
{
    if nodes.len() == 0 {
        seq![]
    } else {
        let rest = creations(nodes.drop_last());
        let n = nodes.last();
        match (n.1, n.2) {
            (None, Some(c)) => rest.push((n.0, c.0, c.1)),
            _ => rest,
        }
    }
}

/// The task links, for the nodes that name a task, in node order.
pub open spec fn links(nodes: Seq<NodeView>) -> Seq<TaskLinkView>
    decreases nodes.len(),
{
    if nodes.len() == 0 {
        seq![]
    } else {
        let rest = links(nodes.drop_last());
        let n = nodes.last();
        match n.1 {
            Some(t) => rest.push((n.0, t)),
            None => rest,
        }
    }
}

/// The trimmed ids that are not blank, in order.
pub open spec fn nonblank_ids(ids: Seq<Seq<char>>) -> Seq<Seq<char>>
    decreases ids.len(),
{
    if ids.len() == 0 {
        seq![]
    } else {
        let rest = nonblank_ids(ids.drop_last());
        let t = trim(ids.last());
        if t.len() == 0 {
            rest
        } else {
            rest.push(t)
        }
    }
}

/// The elements of `s` that `other` lacks, each once, in order of first appearance.
pub open spec fn fresh_distinct<V>(s: Seq<V>, other: Seq<V>) -> Seq<V>
    decreases s.len(),
{
    if s.len() == 0 {
        seq![]
    } else {
        let rest = fresh_distinct(s.drop_last(), other);
        let x = s.last();
        if other.contains(x) || rest.contains(x) {
            rest
        } else {
            rest.push(x)
        }
    }
}

/// An edge as the tuple `(from, to, data_flow or "")`.
pub open spec fn edge_tuple_view(e: EdgeView) -> (Seq<char>, Seq<char>, Seq<char>) {
    (e.0, e.1, or_empty(e.2))
}

/// The edge a tuple stands for: an empty data flow is none.
pub open spec fn tuple_edge(t: (Seq<char>, Seq<char>, Seq<char>)) -> EdgeView {
    (t.0, t.1, if t.2.len() == 0 { None } else { Some(t.2) })
}

pub open spec fn graph_edge_view(e: GraphEdge) -> EdgeView {
    (e.from@, e.to@, opt_view(e.data_flow))
}

pub open spec fn graph_node_ids(nodes: Seq<GraphNode>) -> Seq<Seq<char>> {
    nodes.map_values(|n: GraphNode| n.id@)
}

/// An edge as the tuple `(from, to, data_flow or "")`.
pub fn edge_tuple(edge: &MilestonePlanEdgeKeyV1) -> (r: (String, String, String))
    ensures
        r@ == edge_tuple_view(edge@),
{
    let df = match &edge.data_flow {
        Some(d) => d.clone(),
        None => String::new(),
    };
    (edge.from.clone(), edge.to.clone(), df)
}

/// An optional text, trimmed, and dropped when blank.
pub fn normalized_optional_field(value: &Option<String>) -> (r: Option<String>)
    ensures
        opt_view(r) == opt_trim_nonempty(opt_view(*value)),
{
    trimmed_nonempty_opt(value)
}

fn task_entries(nodes: &Vec<MilestonePlanNodeV1>) -> (r: (
    Vec<MilestonePlanPreviewTaskToCreate>,
    Vec<MilestonePlanPreviewTaskLink>,
))
    ensures
        seq_views(r.0@) == creations(seq_views(nodes@)),
        seq_views(r.1@) == links(seq_views(nodes@)),
{
    let ghost nv = seq_views(nodes@);
    let mut creates: Vec<MilestonePlanPreviewTaskToCreate> = Vec::new();
    let mut task_links: Vec<MilestonePlanPreviewTaskLink> = Vec::new();
    let mut i: usize = 0;
    proof {
        assert(nv.take(0) =~= Seq::<NodeView>::empty());
        assert(seq_views(creates@) =~= Seq::<TaskToCreateView>::empty());
        assert(seq_views(task_links@) =~= Seq::<TaskLinkView>::empty());
    }
    while i < nodes.len()
        invariant
            i <= nodes.len(),
            nv == seq_views(nodes@),
            seq_views(creates@) == creations(nv.take(i as int)),
            seq_views(task_links@) == links(nv.take(i as int)),
        decreases nodes.len() - i,
    {
        let node = &nodes[i];
        proof {
            assert(nv.take(i + 1).drop_last() =~= nv.take(i as int));
            assert(nv.take(i + 1).last() == node@);
        }
        let ghost c0 = seq_views(creates@);
        let ghost l0 = seq_views(task_links@);
        match node.task_id {
            Some(t) => {
                task_links.push(MilestonePlanPreviewTaskLink { node_id: node.id.clone(), task_id: t });
                proof {
                    assert(seq_views(task_links@) =~= l0.push((node.id@, t)));
                }
            },
            None => {
                match &node.create_task {
                    Some(c) => {
                        creates.push(
                            MilestonePlanPreviewTaskToCreate {
                                node_id: node.id.clone(),
                                title: c.title.clone(),
                                description: clone_opt(&c.description),
                            },
                        );
                        proof {
                            assert(seq_views(creates@) =~= c0.push((node.id@, c.title@, opt_view(c.description))));
                        }
                    },
                    None => {},
                }
            },
        }
        i = i + 1;
    }
    proof {
        assert(nv.take(i as int) =~= nv);
    }
    (creates, task_links)
}

fn nonblank_id_list(ids: &Vec<String>) -> (r: Vec<String>)
    ensures
        crate::text::views(r@) == nonblank_ids(crate::text::views(ids@)),
{
    let ghost iv = crate::text::views(ids@);
    let mut out: Vec<String> = Vec::new();
    let mut i: usize = 0;
    proof {
        assert(iv.take(0) =~= Seq::<Seq<char>>::empty());
        assert(crate::text::views(out@) =~= Seq::<Seq<char>>::empty());
    }
    while i < ids.len()
        invariant
            i <= ids.len(),
            iv == crate::text::views(ids@),
            crate::text::views(out@) == nonblank_ids(iv.take(i as int)),
        decreases ids.len() - i,
    {
        proof {
            assert(iv.take(i + 1).drop_last() =~= iv.take(i as int));
            assert(iv.take(i + 1).last() == ids@[i as int]@);
        }
        let t = trimmed(ids[i].as_str());
        if !t.as_str().is_empty() {
            let ghost o = crate::text::views(out@);
            out.push(t);
            proof {
                assert(crate::text::views(out@) =~= o.push(t@));
            }
        }
        i = i + 1;
    }
    proof {
        assert(iv.take(i as int) =~= iv);
    }
    out
}

pub(crate) fn contains_string(v: &Vec<String>, x: &String) -> (r: bool)
    ensures
        r == crate::text::views(v@).contains(x@),
{
    let mut i: usize = 0;
    while i < v.len()
        invariant
            i <= v.len(),
            forall|j: int| 0 <= j < i ==> v@[j]@ != x@,
        decreases v.len() - i,
    {
        if v[i] == *x {
            proof {
                assert(crate::text::views(v@)[i as int] == x@);
            }
            return true;
        }
        i = i + 1;
    }
    proof {
        if crate::text::views(v@).contains(x@) {
            let j = choose|j: int| 0 <= j < v@.len() && crate::text::views(v@)[j] == x@;
            assert(v@[j]@ == x@);
        }
    }
    false
}

fn fresh_distinct_strings(s: &Vec<String>, other: &Vec<String>) -> (r: Vec<String>)
    ensures
        crate::text::views(r@) == fresh_distinct(crate::text::views(s@), crate::text::views(other@)),
{
    let ghost sv = crate::text::views(s@);
    let ghost ov = crate::text::views(other@);
    let mut out: Vec<String> = Vec::new();
    let mut i: usize = 0;
    proof {
        assert(sv.take(0) =~= Seq::<Seq<char>>::empty());
        assert(crate::text::views(out@) =~= Seq::<Seq<char>>::empty());
    }
    while i < s.len()
        invariant
            i <= s.len(),
            sv == crate::text::views(s@),
            ov == crate::text::views(other@),
            crate::text::views(out@) == fresh_distinct(sv.take(i as int), ov),
        decreases s.len() - i,
    {
        proof {
            assert(sv.take(i + 1).drop_last() =~= sv.take(i as int));
            assert(sv.take(i + 1).last() == s@[i as int]@);
        }
        let x = &s[i];
        if !contains_string(other, x) && !contains_string(&out, x) {
            let ghost o = crate::text::views(out@);
            out.push(x.clone());
            proof {
                assert(crate::text::views(out@) =~= o.push(x@));
            }
        }
        i = i + 1;
    }
    proof {
        assert(sv.take(i as int) =~= sv);
    }
    out
}

pub open spec fn tuple_views(v: Seq<(String, String, String)>) -> Seq<(Seq<char>, Seq<char>, Seq<char>)> {
    v.map_values(|t: (String, String, String)| (t.0@, t.1@, t.2@))
}

fn contains_tuple(v: &Vec<(String, String, String)>, x: &(String, String, String)) -> (r: bool)
    ensures
        r == tuple_views(v@).contains((x.0@, x.1@, x.2@)),
{
    let ghost xv = (x.0@, x.1@, x.2@);
    let mut i: usize = 0;
    while i < v.len()
        invariant
            i <= v.len(),
            xv == (x.0@, x.1@, x.2@),
            forall|j: int| 0 <= j < i ==> tuple_views(v@)[j] != xv,
        decreases v.len() - i,
    {
        let t = &v[i];
        if t.0 == x.0 && t.1 == x.1 && t.2 == x.2 {
            proof {
                assert(tuple_views(v@)[i as int] == xv);
            }
            return true;
        }
        i = i + 1;
    }
    false
}

fn edge_tuples(edges: &Vec<MilestonePlanEdgeKeyV1>) -> (r: Vec<(String, String, String)>)
    ensures
        tuple_views(r@) == seq_views(edges@).map_values(|e: EdgeView| edge_tuple_view(e)),
{
    let ghost ev = seq_views(edges@).map_values(|e: EdgeView| edge_tuple_view(e));
    let mut out: Vec<(String, String, String)> = Vec::new();
    let mut i: usize = 0;
    while i < edges.len()
        invariant
            i <= edges.len(),
            ev == seq_views(edges@).map_values(|e: EdgeView| edge_tuple_view(e)),
            tuple_views(out@) == ev.take(i as int),
        decreases edges.len() - i,
    {
        let t = edge_tuple(&edges[i]);
        let ghost o = tuple_views(out@);
        out.push(t);
        proof {
            assert(tuple_views(out@) =~= o.push((t.0@, t.1@, t.2@)));
            assert(ev.take(i + 1) =~= ev.take(i as int).push(ev[i as int]));
        }
        i = i + 1;
    }
    proof {
        assert(ev.take(i as int) =~= ev);
    }
    out
}

/// The edges whose tuples appear in `s` and not in `other`, each once, in order.
fn fresh_distinct_edges(
    s: &Vec<(String, String, String)>,
    other: &Vec<(String, String, String)>,
) -> (r: Vec<MilestonePlanEdgeKeyV1>)
    ensures
        seq_views(r@) == fresh_distinct(tuple_views(s@), tuple_views(other@)).map_values(
            |t: (Seq<char>, Seq<char>, Seq<char>)| tuple_edge(t),
        ),
{
    let ghost sv = tuple_views(s@);
    let ghost ov = tuple_views(other@);
    let mut kept: Vec<(String, String, String)> = Vec::new();
    let mut out: Vec<MilestonePlanEdgeKeyV1> = Vec::new();
    let mut i: usize = 0;
    proof {
        assert(sv.take(0) =~= Seq::<(Seq<char>, Seq<char>, Seq<char>)>::empty());
        assert(tuple_views(kept@) =~= Seq::<(Seq<char>, Seq<char>, Seq<char>)>::empty());
        assert(seq_views(out@) =~= Seq::<EdgeView>::empty());
    }
    while i < s.len()
        invariant
            i <= s.len(),
            sv == tuple_views(s@),
            ov == tuple_views(other@),
            tuple_views(kept@) == fresh_distinct(sv.take(i as int), ov),
            seq_views(out@) == tuple_views(kept@).map_values(
                |t: (Seq<char>, Seq<char>, Seq<char>)| tuple_edge(t),
            ),
        decreases s.len() - i,
    {
        proof {
            assert(sv.take(i + 1).drop_last() =~= sv.take(i as int));
            assert(sv.take(i + 1).last() == sv[i as int]);
        }
        let x = &s[i];
        if !contains_tuple(other, x) && !contains_tuple(&kept, x) {
            let ghost k0 = tuple_views(kept@);
            let ghost o0 = seq_views(out@);
            let df = if x.2.as_str().is_empty() {
                None
            } else {
                Some(x.2.clone())
            };
            let e = MilestonePlanEdgeKeyV1 { from: x.0.clone(), to: x.1.clone(), data_flow: df };
            kept.push((x.0.clone(), x.1.clone(), x.2.clone()));
            out.push(e);
            proof {
                assert(tuple_views(kept@) =~= k0.push((x.0@, x.1@, x.2@)));
                assert(seq_views(out@) =~= o0.push(tuple_edge((x.0@, x.1@, x.2@))));
                assert(seq_views(out@) =~= tuple_views(kept@).map_values(
                    |t: (Seq<char>, Seq<char>, Seq<char>)| tuple_edge(t),
                ));
            }
        }
        i = i + 1;
    }
    proof {
        assert(sv.take(i as int) =~= sv);
    }
    out
}

fn graph_edge_keys(edges: &Vec<GraphEdge>) -> (r: Vec<MilestonePlanEdgeKeyV1>)
    ensures
        seq_views(r@) == edges@.map_values(|e: GraphEdge| normalized_edge(graph_edge_view(e))),
{
    let ghost ev = edges@.map_values(|e: GraphEdge| normalized_edge(graph_edge_view(e)));
    let mut out: Vec<MilestonePlanEdgeKeyV1> = Vec::new();
    let mut i: usize = 0;
    while i < edges.len()
        invariant
            i <= edges.len(),
            ev == edges@.map_values(|e: GraphEdge| normalized_edge(graph_edge_view(e))),
            seq_views(out@) == ev.take(i as int),
        decreases edges.len() - i,
    {
        let e = &edges[i];
        let k = MilestonePlanEdgeKeyV1 {
            from: trimmed(e.from.as_str()),
            to: trimmed(e.to.as_str()),
            data_flow: trimmed_nonempty_opt(&e.data_flow),
        };
        let ghost o = seq_views(out@);
        out.push(k);
        proof {
            assert(seq_views(out@) =~= o.push(k@));
            assert(ev.take(i + 1) =~= ev.take(i as int).push(ev[i as int]));
        }
        i = i + 1;
    }
    proof {
        assert(ev.take(i as int) =~= ev);
    }
    out
}

fn plan_edge_keys_of(plan: &MilestonePlanV1) -> (r: Vec<MilestonePlanEdgeKeyV1>)
    ensures
        seq_views(r@) == seq_views(plan.edges@).map_values(|e: EdgeView| normalized_edge(e)),
{
    let ghost ev = seq_views(plan.edges@).map_values(|e: EdgeView| normalized_edge(e));
    let mut out: Vec<MilestonePlanEdgeKeyV1> = Vec::new();
    let mut i: usize = 0;
    while i < plan.edges.len()
        invariant
            i <= plan.edges.len(),
            ev == seq_views(plan.edges@).map_values(|e: EdgeView| normalized_edge(e)),
            seq_views(out@) == ev.take(i as int),
        decreases plan.edges.len() - i,
    {
        let e = &plan.edges[i];
        let k = MilestonePlanEdgeKeyV1 {
            from: trimmed(e.from.as_str()),
            to: trimmed(e.to.as_str()),
            data_flow: trimmed_nonempty_opt(&e.data_flow),
        };
        let ghost o = seq_views(out@);
        out.push(k);
        proof {
            assert(seq_views(out@) =~= o.push(k@));
            assert(ev.take(i + 1) =~= ev.take(i as int).push(ev[i as int]));
        }
        i = i + 1;
    }
    proof {
        assert(ev.take(i as int) =~= ev);
    }
    out
}

fn node_id_strings(nodes: &Vec<MilestonePlanNodeV1>) -> (r: Vec<String>)
    ensures
        crate::text::views(r@) == seq_views(nodes@).map_values(|n: NodeView| n.0),
{
    let ghost nv = seq_views(nodes@).map_values(|n: NodeView| n.0);
    let mut out: Vec<String> = Vec::new();
    let mut i: usize = 0;
    while i < nodes.len()
        invariant
            i <= nodes.len(),
            nv == seq_views(nodes@).map_values(|n: NodeView| n.0),
            crate::text::views(out@) == nv.take(i as int),
        decreases nodes.len() - i,
    {
        let ghost o = crate::text::views(out@);
        out.push(nodes[i].id.clone());
        proof {
            assert(crate::text::views(out@) =~= o.push(nodes@[i as int].id@));
            assert(nv.take(i + 1) =~= nv.take(i as int).push(nv[i as int]));
        }
        i = i + 1;
    }
    proof {
        assert(nv.take(i as int) =~= nv);
    }
    out
}

fn graph_node_id_strings(nodes: &Vec<GraphNode>) -> (r: Vec<String>)
    ensures
        crate::text::views(r@) == graph_node_ids(nodes@),
{
    let ghost nv = graph_node_ids(nodes@);
    let mut out: Vec<String> = Vec::new();
    let mut i: usize = 0;
    while i < nodes.len()
        invariant
            i <= nodes.len(),
            nv == graph_node_ids(nodes@),
            crate::text::views(out@) == nv.take(i as int),
        decreases nodes.len() - i,
    {
        let ghost o = crate::text::views(out@);
        out.push(nodes[i].id.clone());
        proof {
            assert(crate::text::views(out@) =~= o.push(nodes@[i as int].id@));
            assert(nv.take(i + 1) =~= nv.take(i as int).push(nv[i as int]));
        }
        i = i + 1;
    }
    proof {
        assert(nv.take(i as int) =~= nv);
    }
    out
}

/// The existing and planned node ids (trimmed, blank ones left out, sorted) and which the
/// plan adds and removes (each once, sorted).
pub open spec fn node_diff_view(m: Milestone, nodes: Seq<NodeView>) -> (
    Seq<Seq<char>>,
    Seq<Seq<char>>,
    Seq<Seq<char>>,
    Seq<Seq<char>>,
) {
    let existing = sort_seq::<String>(nonblank_ids(graph_node_ids(m.graph_nodes@)));
    let planned = sort_seq::<String>(nonblank_ids(nodes.map_values(|n: NodeView| n.0)));
    (
        existing,
        planned,
        sort_seq::<String>(fresh_distinct(planned, existing)),
        sort_seq::<String>(fresh_distinct(existing, planned)),
    )
}

/// The existing and planned edges (trimmed, sorted by `(from, to, data_flow)`) and which the
/// plan adds and removes (each once, sorted), edges being equal when their tuples are.
pub open spec fn edge_diff_view(m: Milestone, edges: Seq<EdgeView>) -> (
    Seq<EdgeView>,
    Seq<EdgeView>,
    Seq<EdgeView>,
    Seq<EdgeView>,
) {
    let existing = sort_seq::<MilestonePlanEdgeKeyV1>(
        m.graph_edges@.map_values(|e: GraphEdge| normalized_edge(graph_edge_view(e))),
    );
    let planned = sort_seq::<MilestonePlanEdgeKeyV1>(edges.map_values(|e: EdgeView| normalized_edge(e)));
    let et = existing.map_values(|e: EdgeView| edge_tuple_view(e));
    let pt = planned.map_values(|e: EdgeView| edge_tuple_view(e));
    (
        existing,
        planned,
        sort_seq::<MilestonePlanEdgeKeyV1>(
            fresh_distinct(pt, et).map_values(|t: (Seq<char>, Seq<char>, Seq<char>)| tuple_edge(t)),
        ),
        sort_seq::<MilestonePlanEdgeKeyV1>(
            fresh_distinct(et, pt).map_values(|t: (Seq<char>, Seq<char>, Seq<char>)| tuple_edge(t)),
        ),
    )
}

fn compute_node_diff(milestone: &Milestone, plan: &MilestonePlanV1) -> (r: MilestonePlanPreviewNodeDiff)
    ensures
        ({
            let d = node_diff_view(*milestone, seq_views(plan.nodes@));
            &&& crate::text::views(r.existing@) == d.0
            &&& crate::text::views(r.planned@) == d.1
            &&& crate::text::views(r.added@) == d.2
            &&& crate::text::views(r.removed@) == d.3
        }),
{
    let existing = sort_by_key(nonblank_id_list(&graph_node_id_strings(&milestone.graph_nodes)));
    let planned = sort_by_key(nonblank_id_list(&node_id_strings(&plan.nodes)));
    let added = sort_by_key(fresh_distinct_strings(&planned, &existing));
    let removed = sort_by_key(fresh_distinct_strings(&existing, &planned));
    MilestonePlanPreviewNodeDiff { existing, planned, added, removed }
}

fn compute_edge_diff(milestone: &Milestone, plan: &MilestonePlanV1) -> (r: MilestonePlanPreviewEdgeDiff)
    ensures
        ({
            let d = edge_diff_view(*milestone, seq_views(plan.edges@));
            &&& seq_views(r.existing@) == d.0
            &&& seq_views(r.planned@) == d.1
            &&& seq_views(r.added@) == d.2
            &&& seq_views(r.removed@) == d.3
        }),
{
    let existing = sort_by_key(graph_edge_keys(&milestone.graph_edges));
    let planned = sort_by_key(plan_edge_keys_of(plan));
    let et = edge_tuples(&existing);
    let pt = edge_tuples(&planned);
    let added = sort_by_key(fresh_distinct_edges(&pt, &et));
    let removed = sort_by_key(fresh_distinct_edges(&et, &pt));
    MilestonePlanPreviewEdgeDiff { existing, planned, added, removed }
}

/// What applying `plan` to `milestone` would change: the metadata changes in field order,
/// the tasks to create and to link sorted by node id, and the node and edge differences.
pub fn compute_preview_response(milestone: &Milestone, plan: &MilestonePlanV1) -> (r: MilestonePlanPreviewResponse)
    ensures
        seq_views(r.metadata_changes@) == metadata_changes(milestone_meta(*milestone), plan.milestone@),
        seq_views(r.tasks_to_create@) == sort_seq::<MilestonePlanPreviewTaskToCreate>(
            creations(seq_views(plan.nodes@)),
        ),
        seq_views(r.task_links@) == sort_seq::<MilestonePlanPreviewTaskLink>(links(seq_views(plan.nodes@))),
        ({
            let d = node_diff_view(*milestone, seq_views(plan.nodes@));
            &&& crate::text::views(r.node_diff.existing@) == d.0
            &&& crate::text::views(r.node_diff.planned@) == d.1
            &&& crate::text::views(r.node_diff.added@) == d.2
            &&& crate::text::views(r.node_diff.removed@) == d.3
        }),
        ({
            let d = edge_diff_view(*milestone, seq_views(plan.edges@));
            &&& seq_views(r.edge_diff.existing@) == d.0
            &&& seq_views(r.edge_diff.planned@) == d.1
            &&& seq_views(r.edge_diff.added@) == d.2
            &&& seq_views(r.edge_diff.removed@) == d.3
        }),
{
    let metadata_changes = compute_metadata_changes(milestone, plan);
    let (creates, task_links) = task_entries(&plan.nodes);
    let tasks_to_create = sort_by_key(creates);
    let task_links = sort_by_key(task_links);
    let node_diff = compute_node_diff(milestone, plan);
    let edge_diff = compute_edge_diff(milestone, plan);
    MilestonePlanPreviewResponse { metadata_changes, tasks_to_create, task_links, node_diff, edge_diff }
}

/// What a preview lists as added (or removed) holds each element of the one side that the
/// other side lacks, and each of them once.
pub proof fn law_fresh_distinct<V>(s: Seq<V>, other: Seq<V>)
    ensures
        forall|x: V| #[trigger] fresh_distinct(s, other).contains(x) <==> (s.contains(x) && !other.contains(x)),
        fresh_distinct(s, other).no_duplicates(),
    decreases s.len(),
{
    if s.len() > 0 {
        let p = s.drop_last();
        law_fresh_distinct(p, other);
        let r = fresh_distinct(p, other);
        let x = s.last();
        if other.contains(x) || r.contains(x) {
            assert(fresh_distinct(s, other) == r);
        } else {
            assert(fresh_distinct(s, other) == r.push(x));
            assert(r.push(x)[r.len() as int] == x);
        }
        assert forall|y: V| #[trigger] fresh_distinct(s, other).contains(y) <==> (s.contains(y) && !other.contains(y)) by {
            if s.contains(y) && !other.contains(y) {
                let k = choose|k: int| 0 <= k < s.len() && s[k] == y;
                if k < s.len() - 1 {
                    assert(p[k] == y);
                    assert(r.contains(y));
                    if !(other.contains(x) || r.contains(x)) {
                        let q = choose|q: int| 0 <= q < r.len() && r[q] == y;
                        assert(r.push(x)[q] == y);
                    }
                } else {
                    assert(y == x);
                }
            }
            if r.contains(y) {
                let k = choose|k: int| 0 <= k < p.len() && p[k] == y;
                assert(s[k] == y);
            }
            if fresh_distinct(s, other).contains(y) && !r.contains(y) {
                let k = choose|k: int| 0 <= k < r.len() + 1 && r.push(x)[k] == y;
                assert(y == x);
                assert(s[s.len() - 1] == y);
            }
        }
    }
}

/// Metadata changes come in the order of their fields, each field at most once.
pub proof fn law_metadata_changes_in_field_order(m: MilestoneMetaView, p: PlanMilestoneView)
    ensures
        forall|i: int, j: int|
            0 <= i < j < metadata_changes(m, p).len() ==> field_rank(
                (#[trigger] metadata_changes(m, p)[i]).0,
            ) < field_rank((#[trigger] metadata_changes(m, p)[j]).0),
{
    let a = text_change(MilestonePlanMetadataField::Objective, m.0, p.0);
    let b = text_change(MilestonePlanMetadataField::DefinitionOfDone, m.1, p.1);
    let c = profile_change(m, p);
    let d = mode_change(m, p);
    let e = baseline_change(m, p);
    let all = metadata_changes(m, p);
    assert(all == a + b + c + d + e);
    assert forall|k: int| 0 <= k < all.len() implies {
        let f = field_rank((#[trigger] all[k]).0);
        (k < a.len() ==> f == 0) && (a.len() <= k < a.len() + b.len() ==> f == 1) && (a.len()
            + b.len() <= k < a.len() + b.len() + c.len() ==> f == 2) && (a.len() + b.len()
            + c.len() <= k < a.len() + b.len() + c.len() + d.len() ==> f == 3) && (a.len()
            + b.len() + c.len() + d.len() <= k ==> f == 4)
    } by {}
}

/// The changes list exactly one entry for `field`, equal to `expected`, when `expected` is
/// given, and none for it otherwise.
pub open spec fn changes_for_field_are(
    all: Seq<ChangeView>,
    field: MilestonePlanMetadataField,
    expected: Option<ChangeView>,
) -> bool {
    match expected {
        Some(c) => exists|i: int|
            0 <= i < all.len() && all[i] == c && (forall|j: int|
                0 <= j < all.len() && (#[trigger] all[j]).0 == field ==> j == i),
        None => forall|j: int| 0 <= j < all.len() ==> (#[trigger] all[j]).0 != field,
    }
}

proof fn lemma_one_part_per_field(
    pre: Seq<ChangeView>,
    x: Seq<ChangeView>,
    post: Seq<ChangeView>,
    field: MilestonePlanMetadataField,
)
    requires
        forall|k: int| 0 <= k < pre.len() ==> (#[trigger] pre[k]).0 != field,
        forall|k: int| 0 <= k < post.len() ==> (#[trigger] post[k]).0 != field,
        x.len() <= 1,
        forall|k: int| 0 <= k < x.len() ==> (#[trigger] x[k]).0 == field,
    ensures
        changes_for_field_are(
            pre + x + post,
            field,
            if x.len() == 1 {
                Some(x[0])
            } else {
                None
            },
        ),
{
    let all = pre + x + post;
    if x.len() == 1 {
        let i = pre.len() as int;
        assert(all[i] == x[0]);
        assert forall|j: int| 0 <= j < all.len() && (#[trigger] all[j]).0 == field implies j == i by {
            if j < pre.len() {
                assert(all[j] == pre[j]);
            } else if j > i {
                assert(all[j] == post[j - i - 1]);
            }
        }
    } else {
        assert forall|j: int| 0 <= j < all.len() implies (#[trigger] all[j]).0 != field by {
            if j < pre.len() {
                assert(all[j] == pre[j]);
            } else {
                assert(all[j] == post[j - pre.len()]);
            }
        }
    }
}

proof fn lemma_change_parts(m: MilestoneMetaView, p: PlanMilestoneView)
    ensures
        ({
            let a = text_change(MilestonePlanMetadataField::Objective, m.0, p.0);
            let b = text_change(MilestonePlanMetadataField::DefinitionOfDone, m.1, p.1);
            let c = profile_change(m, p);
            let d = mode_change(m, p);
            let e = baseline_change(m, p);
            &&& metadata_changes(m, p) == a + b + c + d + e
            &&& a.len() <= 1 && (forall|k: int| 0 <= k < a.len() ==> (#[trigger] a[k]).0 == MilestonePlanMetadataField::Objective)
            &&& b.len() <= 1 && (forall|k: int| 0 <= k < b.len() ==> (#[trigger] b[k]).0 == MilestonePlanMetadataField::DefinitionOfDone)
            &&& c.len() <= 1 && (forall|k: int| 0 <= k < c.len() ==> (#[trigger] c[k]).0 == MilestonePlanMetadataField::DefaultExecutorProfile)
            &&& d.len() <= 1 && (forall|k: int| 0 <= k < d.len() ==> (#[trigger] d[k]).0 == MilestonePlanMetadataField::AutomationMode)
            &&& e.len() <= 1 && (forall|k: int| 0 <= k < e.len() ==> (#[trigger] e[k]).0 == MilestonePlanMetadataField::BaselineRef)
        }),
{
}

proof fn lemma_no_field(s: Seq<ChangeView>, field: MilestonePlanMetadataField, f: MilestonePlanMetadataField)
    requires
        f != field,
        forall|k: int| 0 <= k < s.len() ==> (#[trigger] s[k]).0 == f,
    ensures
        forall|k: int| 0 <= k < s.len() ==> (#[trigger] s[k]).0 != field,
{
}

proof fn lemma_no_field_concat(x: Seq<ChangeView>, y: Seq<ChangeView>, field: MilestonePlanMetadataField)
    requires
        forall|k: int| 0 <= k < x.len() ==> (#[trigger] x[k]).0 != field,
        forall|k: int| 0 <= k < y.len() ==> (#[trigger] y[k]).0 != field,
    ensures
        forall|k: int| 0 <= k < (x + y).len() ==> (#[trigger] (x + y)[k]).0 != field,
{
    assert forall|k: int| 0 <= k < (x + y).len() implies (#[trigger] (x + y)[k]).0 != field by {
        if k < x.len() {
            assert((x + y)[k] == x[k]);
        } else {
            assert((x + y)[k] == y[k - x.len()]);
        }
    }
}

/// A plan that changes the objective (its trimmed planned text, blank counting as none, against the stored one) lists that change exactly once, from the stored value to
/// the planned one; a plan that leaves it out or sets it to its current value lists no change
/// of it.
pub proof fn law_objective_change_listed_once(m: MilestoneMetaView, p: PlanMilestoneView)
    ensures
        changes_for_field_are(
            metadata_changes(m, p),
            MilestonePlanMetadataField::Objective,
            if p.0 is Some && opt_trim_nonempty(p.0) != m.0 {
                Some((MilestonePlanMetadataField::Objective, m.0, opt_trim_nonempty(p.0)))
            } else {
                None
            },
        ),
{
    let a = text_change(MilestonePlanMetadataField::Objective, m.0, p.0);
    let b = text_change(MilestonePlanMetadataField::DefinitionOfDone, m.1, p.1);
    let c = profile_change(m, p);
    let d = mode_change(m, p);
    let e = baseline_change(m, p);
    lemma_change_parts(m, p);
    lemma_no_field(b, MilestonePlanMetadataField::Objective, MilestonePlanMetadataField::DefinitionOfDone);
    lemma_no_field(c, MilestonePlanMetadataField::Objective, MilestonePlanMetadataField::DefaultExecutorProfile);
    lemma_no_field(d, MilestonePlanMetadataField::Objective, MilestonePlanMetadataField::AutomationMode);
    lemma_no_field(e, MilestonePlanMetadataField::Objective, MilestonePlanMetadataField::BaselineRef);
    lemma_no_field_concat(b, c, MilestonePlanMetadataField::Objective);
    lemma_no_field_concat(b + c, d, MilestonePlanMetadataField::Objective);
    lemma_no_field_concat(b + c + d, e, MilestonePlanMetadataField::Objective);
    assert(metadata_changes(m, p) =~= (Seq::<ChangeView>::empty()) + a + (b + c + d + e));
    lemma_one_part_per_field(Seq::<ChangeView>::empty(), a, b + c + d + e, MilestonePlanMetadataField::Objective);
}

/// A plan that changes the definition of done (its trimmed planned text, blank counting as none, against the stored one) lists that change exactly once, from the stored value to
/// the planned one; a plan that leaves it out or sets it to its current value lists no change
/// of it.
pub proof fn law_definition_of_done_change_listed_once(m: MilestoneMetaView, p: PlanMilestoneView)
    ensures
        changes_for_field_are(
            metadata_changes(m, p),
            MilestonePlanMetadataField::DefinitionOfDone,
            if p.1 is Some && opt_trim_nonempty(p.1) != m.1 {
                Some((MilestonePlanMetadataField::DefinitionOfDone, m.1, opt_trim_nonempty(p.1)))
            } else {
                None
            },
        ),
{
    let a = text_change(MilestonePlanMetadataField::Objective, m.0, p.0);
    let b = text_change(MilestonePlanMetadataField::DefinitionOfDone, m.1, p.1);
    let c = profile_change(m, p);
    let d = mode_change(m, p);
    let e = baseline_change(m, p);
    lemma_change_parts(m, p);
    lemma_no_field(a, MilestonePlanMetadataField::DefinitionOfDone, MilestonePlanMetadataField::Objective);
    lemma_no_field(c, MilestonePlanMetadataField::DefinitionOfDone, MilestonePlanMetadataField::DefaultExecutorProfile);
    lemma_no_field(d, MilestonePlanMetadataField::DefinitionOfDone, MilestonePlanMetadataField::AutomationMode);
    lemma_no_field(e, MilestonePlanMetadataField::DefinitionOfDone, MilestonePlanMetadataField::BaselineRef);
    lemma_no_field_concat(c, d, MilestonePlanMetadataField::DefinitionOfDone);
    lemma_no_field_concat(c + d, e, MilestonePlanMetadataField::DefinitionOfDone);
    assert(metadata_changes(m, p) =~= (a) + b + (c + d + e));
    lemma_one_part_per_field(a, b, c + d + e, MilestonePlanMetadataField::DefinitionOfDone);
}

/// A plan that changes the default executor profile (executor and variant, shown as `EXECUTOR::variant`) lists that change exactly once, from the stored value to
/// the planned one; a plan that leaves it out or sets it to its current value lists no change
/// of it.
pub proof fn law_executor_profile_change_listed_once(m: MilestoneMetaView, p: PlanMilestoneView)
    ensures
        changes_for_field_are(
            metadata_changes(m, p),
            MilestonePlanMetadataField::DefaultExecutorProfile,
            match p.2 {
                Some(patch) => if patch != m.2 {
                    Some((MilestonePlanMetadataField::DefaultExecutorProfile, opt_label(m.2), opt_label(patch)))
                } else {
                    None
                },
                None => None,
            },
        ),
{
    let a = text_change(MilestonePlanMetadataField::Objective, m.0, p.0);
    let b = text_change(MilestonePlanMetadataField::DefinitionOfDone, m.1, p.1);
    let c = profile_change(m, p);
    let d = mode_change(m, p);
    let e = baseline_change(m, p);
    lemma_change_parts(m, p);
    lemma_no_field(a, MilestonePlanMetadataField::DefaultExecutorProfile, MilestonePlanMetadataField::Objective);
    lemma_no_field(b, MilestonePlanMetadataField::DefaultExecutorProfile, MilestonePlanMetadataField::DefinitionOfDone);
    lemma_no_field(d, MilestonePlanMetadataField::DefaultExecutorProfile, MilestonePlanMetadataField::AutomationMode);
    lemma_no_field(e, MilestonePlanMetadataField::DefaultExecutorProfile, MilestonePlanMetadataField::BaselineRef);
    lemma_no_field_concat(a, b, MilestonePlanMetadataField::DefaultExecutorProfile);
    lemma_no_field_concat(d, e, MilestonePlanMetadataField::DefaultExecutorProfile);
    assert(metadata_changes(m, p) =~= (a + b) + c + (d + e));
    lemma_one_part_per_field(a + b, c, d + e, MilestonePlanMetadataField::DefaultExecutorProfile);
}

/// A plan that changes the automation mode lists that change exactly once, from the stored value to
/// the planned one; a plan that leaves it out or sets it to its current value lists no change
/// of it.
pub proof fn law_automation_mode_change_listed_once(m: MilestoneMetaView, p: PlanMilestoneView)
    ensures
        changes_for_field_are(
            metadata_changes(m, p),
            MilestonePlanMetadataField::AutomationMode,
            match p.3 {
                Some(mode) => if mode != m.3 {
                    Some((MilestonePlanMetadataField::AutomationMode, Some(m.3), Some(mode)))
                } else {
                    None
                },
                None => None,
            },
        ),
{
    let a = text_change(MilestonePlanMetadataField::Objective, m.0, p.0);
    let b = text_change(MilestonePlanMetadataField::DefinitionOfDone, m.1, p.1);
    let c = profile_change(m, p);
    let d = mode_change(m, p);
    let e = baseline_change(m, p);
    lemma_change_parts(m, p);
    lemma_no_field(a, MilestonePlanMetadataField::AutomationMode, MilestonePlanMetadataField::Objective);
    lemma_no_field(b, MilestonePlanMetadataField::AutomationMode, MilestonePlanMetadataField::DefinitionOfDone);
    lemma_no_field(c, MilestonePlanMetadataField::AutomationMode, MilestonePlanMetadataField::DefaultExecutorProfile);
    lemma_no_field(e, MilestonePlanMetadataField::AutomationMode, MilestonePlanMetadataField::BaselineRef);
    lemma_no_field_concat(a, b, MilestonePlanMetadataField::AutomationMode);
    lemma_no_field_concat(a + b, c, MilestonePlanMetadataField::AutomationMode);
    assert(metadata_changes(m, p) =~= (a + b + c) + d + (e));
    lemma_one_part_per_field(a + b + c, d, e, MilestonePlanMetadataField::AutomationMode);
}

/// A plan that changes the baseline branch (its trimmed planned name) lists that change exactly once, from the stored value to
/// the planned one; a plan that leaves it out or sets it to its current value lists no change
/// of it.
pub proof fn law_baseline_ref_change_listed_once(m: MilestoneMetaView, p: PlanMilestoneView)
    ensures
        changes_for_field_are(
            metadata_changes(m, p),
            MilestonePlanMetadataField::BaselineRef,
            match p.4 {
                Some(b) => if trim(b) != m.4 {
                    Some((MilestonePlanMetadataField::BaselineRef, Some(m.4), Some(trim(b))))
                } else {
                    None
                },
                None => None,
            },
        ),
{
    let a = text_change(MilestonePlanMetadataField::Objective, m.0, p.0);
    let b = text_change(MilestonePlanMetadataField::DefinitionOfDone, m.1, p.1);
    let c = profile_change(m, p);
    let d = mode_change(m, p);
    let e = baseline_change(m, p);
    lemma_change_parts(m, p);
    lemma_no_field(a, MilestonePlanMetadataField::BaselineRef, MilestonePlanMetadataField::Objective);
    lemma_no_field(b, MilestonePlanMetadataField::BaselineRef, MilestonePlanMetadataField::DefinitionOfDone);
    lemma_no_field(c, MilestonePlanMetadataField::BaselineRef, MilestonePlanMetadataField::DefaultExecutorProfile);
    lemma_no_field(d, MilestonePlanMetadataField::BaselineRef, MilestonePlanMetadataField::AutomationMode);
    lemma_no_field_concat(a, b, MilestonePlanMetadataField::BaselineRef);
    lemma_no_field_concat(a + b, c, MilestonePlanMetadataField::BaselineRef);
    lemma_no_field_concat(a + b + c, d, MilestonePlanMetadataField::BaselineRef);
    assert(metadata_changes(m, p) =~= (a + b + c + d) + e + (Seq::<ChangeView>::empty()));
    lemma_one_part_per_field(a + b + c + d, e, Seq::<ChangeView>::empty(), MilestonePlanMetadataField::BaselineRef);
}

proof fn lemma_sorted_contains<T: SortKey>(s: Seq<T::V>, x: T::V)
    ensures
        sort_seq::<T>(s).contains(x) <==> s.contains(x),
{
    broadcast use vstd::seq_lib::group_to_multiset_ensures;

    crate::sorting::lemma_sort_seq::<T>(s);
    assert(sort_seq::<T>(s).to_multiset().count(x) == s.to_multiset().count(x));
}

proof fn lemma_creations(nodes: Seq<NodeView>, x: TaskToCreateView)
    ensures
        creations(nodes).contains(x) <==> exists|k: int|
            0 <= k < nodes.len() && (#[trigger] nodes[k]).1 is None && nodes[k].2 is Some && x == (
                nodes[k].0,
                nodes[k].2.unwrap().0,
                nodes[k].2.unwrap().1,
            ),
    decreases nodes.len(),
{
    if nodes.len() > 0 {
        let d = nodes.drop_last();
        lemma_creations(d, x);
        let rest = creations(d);
        let n = nodes.last();
        let full = creations(nodes);
        let last = nodes.len() - 1;
        assert(nodes[last] == n);
        if full.contains(x) {
            let j = choose|j: int| 0 <= j < full.len() && full[j] == x;
            if j < rest.len() {
                assert(rest[j] == x);
                let k = choose|k: int|
                    0 <= k < d.len() && (#[trigger] d[k]).1 is None && d[k].2 is Some && x == (
                        d[k].0,
                        d[k].2.unwrap().0,
                        d[k].2.unwrap().1,
                    );
                assert(d[k] == nodes[k]);
            }
        }
        if exists|k: int|
            0 <= k < nodes.len() && (#[trigger] nodes[k]).1 is None && nodes[k].2 is Some && x == (
                nodes[k].0,
                nodes[k].2.unwrap().0,
                nodes[k].2.unwrap().1,
            ) {
            let k = choose|k: int|
                0 <= k < nodes.len() && (#[trigger] nodes[k]).1 is None && nodes[k].2 is Some && x == (
                    nodes[k].0,
                    nodes[k].2.unwrap().0,
                    nodes[k].2.unwrap().1,
                );
            if k < last {
                assert(d[k] == nodes[k]);
                let j = choose|j: int| 0 <= j < rest.len() && rest[j] == x;
                if full != rest {
                    assert(full[j] == x);
                }
            } else {
                assert(full == rest.push(x));
                assert(full[rest.len() as int] == x);
            }
        }
    }
}

proof fn lemma_links(nodes: Seq<NodeView>, x: TaskLinkView)
    ensures
        links(nodes).contains(x) <==> exists|k: int|
            0 <= k < nodes.len() && (#[trigger] nodes[k]).1 == Some(x.1) && nodes[k].0 == x.0,
    decreases nodes.len(),
{
    if nodes.len() > 0 {
        let d = nodes.drop_last();
        lemma_links(d, x);
        let rest = links(d);
        let n = nodes.last();
        let full = links(nodes);
        let last = nodes.len() - 1;
        assert(nodes[last] == n);
        if full.contains(x) {
            let j = choose|j: int| 0 <= j < full.len() && full[j] == x;
            if j < rest.len() {
                assert(rest[j] == x);
                let k = choose|k: int| 0 <= k < d.len() && (#[trigger] d[k]).1 == Some(x.1) && d[k].0 == x.0;
                assert(d[k] == nodes[k]);
            }
        }
        if exists|k: int| 0 <= k < nodes.len() && (#[trigger] nodes[k]).1 == Some(x.1) && nodes[k].0 == x.0 {
            let k = choose|k: int| 0 <= k < nodes.len() && (#[trigger] nodes[k]).1 == Some(x.1) && nodes[k].0 == x.0;
            if k < last {
                assert(d[k] == nodes[k]);
                let j = choose|j: int| 0 <= j < rest.len() && rest[j] == x;
                if full != rest {
                    assert(full[j] == x);
                }
            } else {
                assert(full == rest.push(x));
                assert(full[rest.len() as int] == x);
            }
        }
    }
}

/// The preview lists a task to create for exactly the nodes that create one and name no
/// existing task: each with the node id, the title and the description.
pub proof fn law_preview_tasks_to_create(nodes: Seq<NodeView>, x: TaskToCreateView)
    ensures
        sort_seq::<MilestonePlanPreviewTaskToCreate>(creations(nodes)).contains(x) <==> exists|k: int|
            0 <= k < nodes.len() && (#[trigger] nodes[k]).1 is None && nodes[k].2 is Some && x == (
                nodes[k].0,
                nodes[k].2.unwrap().0,
                nodes[k].2.unwrap().1,
            ),
{
    lemma_sorted_contains::<MilestonePlanPreviewTaskToCreate>(creations(nodes), x);
    lemma_creations(nodes, x);
}

/// The preview lists a link for exactly the nodes that name an existing task: the node id
/// with that task.
pub proof fn law_preview_task_links(nodes: Seq<NodeView>, x: TaskLinkView)
    ensures
        sort_seq::<MilestonePlanPreviewTaskLink>(links(nodes)).contains(x) <==> exists|k: int|
            0 <= k < nodes.len() && (#[trigger] nodes[k]).1 == Some(x.1) && nodes[k].0 == x.0,
{
    lemma_sorted_contains::<MilestonePlanPreviewTaskLink>(links(nodes), x);
    lemma_links(nodes, x);
}

/// The node diff: a node id is added exactly when it is planned and does not exist yet, and
/// removed exactly when it exists and is not planned; each is listed once.
pub proof fn law_preview_node_diff(m: Milestone, nodes: Seq<NodeView>, x: Seq<char>)
    ensures
        ({
            let d = node_diff_view(m, nodes);
            &&& d.2.contains(x) <==> (d.1.contains(x) && !d.0.contains(x))
            &&& d.3.contains(x) <==> (d.0.contains(x) && !d.1.contains(x))
        }),
{
    let d = node_diff_view(m, nodes);
    law_fresh_distinct(d.1, d.0);
    law_fresh_distinct(d.0, d.1);
    lemma_sorted_contains::<String>(fresh_distinct(d.1, d.0), x);
    lemma_sorted_contains::<String>(fresh_distinct(d.0, d.1), x);
}

} // verus!
