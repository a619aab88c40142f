//! Task lifecycle decisions: titles of archived kanbans, the statuses an archive takes, which
//! start failures block a task, and the order in which a milestone's tasks are deleted.
use vstd::prelude::*;

use std::fmt::Write;

use crate::graph::TaskStatus;
use crate::text::{codes, codes_of, contains_seq, lower_codes, opt_trim_nonempty, opt_view, trimmed_nonempty_opt};

verus! {

/// How a task is deleted: a milestone task takes its whole milestone with it.
#[derive(Clone, Copy, Debug, PartialEq, Eq, Structural)]
pub enum DeleteTaskMode {
    CascadeMilestone,
}

/// How many tasks a restore brought back.
#[derive(Clone, Copy, Debug, PartialEq, Eq, Structural)]
pub struct RestoreArchivedKanbanResponse {
    pub restored_task_count: u64,
}

/// How many tasks deleting an archive removed.
#[derive(Clone, Copy, Debug, PartialEq, Eq, Structural)]
pub struct DeleteArchivedKanbanResponse {
    pub deleted_task_count: u64,
}

/// A UTC time, given in seconds since the epoch, written by chrono with the `strftime`
/// pattern `pattern`; none for a time chrono cannot represent or a pattern it cannot write.
pub uninterp spec fn utc_formatted_text(secs: i64, pattern: Seq<char>) -> Option<Seq<char>>;

/// Calls `chrono::DateTime::from_timestamp` and writes the result with `format(pattern)`.
/// Claimed: the result depends on the seconds and the pattern alone (named
/// `utc_formatted_text`); the writing reports an error, rather than panicking, when chrono
/// cannot write the pattern.
#[verifier::external_body]
fn utc_formatted(secs: i64, pattern: &str) -> (r: Option<String>)
    ensures
        opt_view(r) == utc_formatted_text(secs, pattern@),
{
    match chrono::DateTime::from_timestamp(secs, 0) {
        Some(t) => {
            let mut out = String::new();
            match write!(out, "{}", t.format(pattern)) {
                Ok(()) => Some(out),
                Err(_) => None,
            }
        },
        None => None,
    }
}

/// How the default title of an archive writes the minute it was made.
pub const ARCHIVE_TITLE_TIME_FORMAT: &'static str = "%Y-%m-%d %H:%M";

/// The word that starts the default title of an archive ("archive").
pub const ARCHIVE_TITLE_PREFIX: &'static str = "\u{5f52}\u{6863} ";

/// The title an archive gets when none is given: the word for "archive" and the minute it
/// was made, in UTC, written `%Y-%m-%d %H:%M` (`ARCHIVE_TITLE_TIME_FORMAT`).
pub fn default_archive_title(now_secs: i64) -> (r: Option<String>)
    ensures
        match utc_formatted_text(now_secs, ARCHIVE_TITLE_TIME_FORMAT@) {
            Some(t) => opt_view(r) == Some(ARCHIVE_TITLE_PREFIX@ + t),
            None => r is None,
        },
{
    match utc_formatted(now_secs, ARCHIVE_TITLE_TIME_FORMAT) {
        Some(t) => {
            let mut title = ARCHIVE_TITLE_PREFIX.to_owned();
            crate::text::push_str(&mut title, t.as_str());
            Some(title)
        },
        None => None,
    }
}

/// A title as given: trimmed, and none when blank.
pub fn normalize_title(input: Option<String>) -> (r: Option<String>)
    ensures
        opt_view(r) == opt_trim_nonempty(opt_view(input)),
{
    trimmed_nonempty_opt(&input)
}

/// "At least one status is required".
#[derive(Clone, Copy, Debug, PartialEq, Eq, Structural)]
pub struct NoStatusesError;

/// An archive must name at least one status.
pub fn ensure_statuses_non_empty(statuses: &Vec<TaskStatus>) -> (r: Result<(), NoStatusesError>)
    ensures
        r is Err <==> statuses@.len() == 0,
{
    if statuses.len() == 0 {
        Err(NoStatusesError)
    } else {
        Ok(())
    }
}

/// The message that marks a workspace hook failure after preparation, which blocks the task.
pub const AFTER_PREPARE_HOOK_FAILURE: &'static str = "workspace lifecycle hook failed during after_prepare";

/// Whether a start error says that the after-prepare hook failed (in any ASCII case).
pub fn is_blocking_after_prepare_hook_error(message: &str) -> (r: bool)
    ensures
        r == contains_seq(lower_codes(message@), codes(AFTER_PREPARE_HOOK_FAILURE@)),
{
    let chars = crate::text::chars_of(message);
    let mut lower: Vec<u32> = Vec::new();
    let mut i: usize = 0;
    while i < chars.len()
        invariant
            i <= chars.len(),
            chars@ == message@,
            lower@ == lower_codes(chars@).take(i as int),
        decreases chars.len() - i,
    {
        let c = chars[i];
        let code = if 'A' <= c && c <= 'Z' {
            c as u32 + 32
        } else {
            c as u32
        };
        lower.push(code);
        proof {
            assert(lower_codes(chars@).take(i + 1) =~= lower_codes(chars@).take(i as int).push(
                crate::text::lower_code(chars@[i as int]),
            ));
        }
        i = i + 1;
    }
    proof {
        assert(lower_codes(chars@).take(i as int) =~= lower_codes(message@));
    }
    crate::redaction::contains_codes(&lower, &codes_of(AFTER_PREPARE_HOOK_FAILURE))
}

/// The tasks of a milestone: each with whether it is the milestone's own (entry) task.
pub type MilestoneTaskKinds = Seq<(u128, bool)>;

/// The node tasks, in order.
pub open spec fn node_task_ids(tasks: MilestoneTaskKinds) -> Seq<u128>
    decreases tasks.len(),
{
    if tasks.len() == 0 {
        seq![]
    } else {
        let rest = node_task_ids(tasks.drop_last());
        if tasks.last().1 {
            rest
        } else {
            rest.push(tasks.last().0)
        }
    }
}

/// The first entry task, if any.
pub open spec fn first_entry_task(tasks: MilestoneTaskKinds) -> Option<u128>
    decreases tasks.len(),
{
    if tasks.len() == 0 {
        None
    } else {
        match first_entry_task(tasks.drop_last()) {
            Some(t) => Some(t),
            None => if tasks.last().1 {
                Some(tasks.last().0)
            } else {
                None
            },
        }
    }
}

/// The node tasks taken in the order of `order`, each once.
pub open spec fn ordered_present(order: Seq<u128>, nodes: Seq<u128>) -> Seq<u128>
    decreases order.len(),
{
    if order.len() == 0 {
        seq![]
    } else {
        let rest = ordered_present(order.drop_last(), nodes);
        let x = order.last();
        if nodes.contains(x) && !rest.contains(x) {
            rest.push(x)
        } else {
            rest
        }
    }
}

/// The node tasks not yet in `done`, each once, in order.
pub open spec fn remaining(nodes: Seq<u128>, done: Seq<u128>) -> Seq<u128>
    decreases nodes.len(),
{
    if nodes.len() == 0 {
        seq![]
    } else {
        let rest = remaining(nodes.drop_last(), done);
        let x = nodes.last();
        if done.contains(x) || rest.contains(x) {
            rest
        } else {
            rest.push(x)
        }
    }
}

/// How a milestone is deleted: which tasks must have nothing running, and the order in which
/// tasks are deleted.
#[derive(Clone, Debug)]
pub struct MilestoneDeletionPlan {
    pub running_checks: Vec<u128>,
    pub delete_order: Vec<u128>,
}

/// The entry task: the one given, or else the first task of milestone kind.
pub open spec fn entry_task(tasks: MilestoneTaskKinds, entry_override: Option<u128>) -> Option<u128> {
    match entry_override {
        Some(t) => Some(t),
        None => first_entry_task(tasks),
    }
}

pub open spec fn with_entry(s: Seq<u128>, entry: Option<u128>) -> Seq<u128> {
    match entry {
        Some(t) => s.push(t),
        None => s,
    }
}

fn seq_contains(v: &Vec<u128>, x: u128) -> (r: bool)
    ensures
        r == v@.contains(x),
{
    let mut i: usize = 0;
    while i < v.len()
        invariant
            i <= v.len(),
            forall|k: int| 0 <= k < i ==> v@[k] != x,
        decreases v.len() - i,
    {
        if v[i] == x {
            return true;
        }
        i = i + 1;
    }
    false
}

/// Plans the deletion of a milestone: every node task and the entry task must have nothing
/// running; node tasks are deleted dependents first (the reverse of `topo_order`), then the
/// node tasks that order leaves out, then the entry task.
pub fn plan_milestone_deletion(
    tasks: &Vec<(u128, bool)>,
    entry_override: Option<u128>,
    topo_order: &Vec<u128>,
) -> (r: MilestoneDeletionPlan)
    ensures
        ({
            let nodes = node_task_ids(tasks@);
            let entry = entry_task(tasks@, entry_override);
            let first = ordered_present(topo_order@.reverse(), nodes);
            &&& r.running_checks@ == with_entry(nodes, entry)
            &&& r.delete_order@ == with_entry(first + remaining(nodes, first), entry)
        }),
{
    let mut nodes: Vec<u128> = Vec::new();
    let mut entry: Option<u128> = entry_override;
    let mut i: usize = 0;
    proof {
        assert(tasks@.take(0) =~= Seq::<(u128, bool)>::empty());
    }
    while i < tasks.len()
        invariant
            i <= tasks.len(),
            nodes@ == node_task_ids(tasks@.take(i as int)),
            entry == match entry_override {
                Some(t) => Some(t),
                None => first_entry_task(tasks@.take(i as int)),
            },
        decreases tasks.len() - i,
    {
        let (id, is_entry) = tasks[i];
        proof {
            assert(tasks@.take(i + 1).drop_last() =~= tasks@.take(i as int));
            assert(tasks@.take(i + 1).last() == (id, is_entry));
        }
        if is_entry {
            if entry.is_none() {
                entry = Some(id);
            }
        } else {
            nodes.push(id);
        }
        i = i + 1;
    }
    proof {
        assert(tasks@.take(i as int) =~= tasks@);
    }
    let mut checks = nodes.clone();
    match entry {
        Some(t) => checks.push(t),
        None => {},
    }
    let ghost rev = topo_order@.reverse();
    let mut first: Vec<u128> = Vec::new();
    let mut j: usize = topo_order.len();
    proof {
        assert(rev.take(0) =~= Seq::<u128>::empty());
    }
    while j > 0
        invariant
            j <= topo_order.len(),
            rev == topo_order@.reverse(),
            first@ == ordered_present(rev.take(topo_order.len() - j), nodes@),
        decreases j,
    {
        let x = topo_order[j - 1];
        let k = topo_order.len() - j;
        proof {
            assert(rev.take(k + 1).drop_last() =~= rev.take(k as int));
            assert(rev.take(k + 1).last() == x);
        }
        if seq_contains(&nodes, x) && !seq_contains(&first, x) {
            first.push(x);
        }
        j = j - 1;
    }
    proof {
        assert(rev.take(topo_order.len() as int) =~= rev);
    }
    let mut order = first.clone();
    let ghost fv = first@;
    let mut rest: Vec<u128> = Vec::new();
    let mut q: usize = 0;
    proof {
        assert(nodes@.take(0) =~= Seq::<u128>::empty());
    }
    while q < nodes.len()
        invariant
            q <= nodes.len(),
            fv == first@,
            rest@ == remaining(nodes@.take(q as int), fv),
        decreases nodes.len() - q,
    {
        let x = nodes[q];
        proof {
            assert(nodes@.take(q + 1).drop_last() =~= nodes@.take(q as int));
            assert(nodes@.take(q + 1).last() == x);
        }
        if !seq_contains(&first, x) && !seq_contains(&rest, x) {
            rest.push(x);
        }
        q = q + 1;
    }
    proof {
        assert(nodes@.take(q as int) =~= nodes@);
    }
    let mut k: usize = 0;
    let ghost order0 = order@;
    while k < rest.len()
        invariant
            k <= rest.len(),
            order@ == order0 + rest@.take(k as int),
        decreases rest.len() - k,
    {
        order.push(rest[k]);
        proof {
            assert(rest@.take(k + 1) =~= rest@.take(k as int).push(rest@[k as int]));
        }
        k = k + 1;
    }
    proof {
        assert(rest@.take(k as int) =~= rest@);
    }
    match entry {
        Some(t) => order.push(t),
        None => {},
    }
    MilestoneDeletionPlan { running_checks: checks, delete_order: order }
}

/// After a failed start, the task's status may go back to what it was: only when it has
/// changed since, to in progress or in review.
pub fn status_may_restore(original: TaskStatus, current: TaskStatus) -> (r: bool)
    ensures
        r == (current != original && (current == TaskStatus::InProgress || current
            == TaskStatus::InReview)),
{
    current != original && (current == TaskStatus::InProgress || current == TaskStatus::InReview)
}

/// Whether it then goes back: when no attempt of the task runs (`None`: the check failed)
/// and the failed attempt is its latest one or it has none (`None`: the lookup failed).
pub fn restores_after_failed_start(
    has_running_attempts: Option<bool>,
    latest_attempt: Option<Option<u128>>,
    workspace_id: u128,
) -> (r: bool)
    ensures
        r == (has_running_attempts == Some(false) && match latest_attempt {
            Some(Some(w)) => w == workspace_id,
            Some(None) => true,
            None => false,
        }),
{
    match has_running_attempts {
        Some(false) => match latest_attempt {
            Some(Some(w)) => w == workspace_id,
            Some(None) => true,
            None => false,
        },
        _ => false,
    }
}

/// Why a task cannot be created and started at once.
#[derive(Clone, Copy, Debug, PartialEq, Eq, Structural)]
pub enum StartRequestError {
    /// "Task group entry tasks cannot be started".
    GroupEntryTask,
    /// "At least one repository is required".
    NoRepositories,
}

impl StartRequestError {
    /// The message the API answers with.
    pub fn message(&self) -> (r: &'static str)
        ensures
            r@ == match *self {
                StartRequestError::GroupEntryTask => "Task group entry tasks cannot be started"@,
                StartRequestError::NoRepositories => "At least one repository is required"@,
            },
    {
        match self {
            StartRequestError::GroupEntryTask => "Task group entry tasks cannot be started",
            StartRequestError::NoRepositories => "At least one repository is required",
        }
    }
}

/// Checks a request to create and start a task.
pub fn check_start_request(is_group_entry: bool, repo_count: usize) -> (r: Result<(), StartRequestError>)
    ensures
        r == (if is_group_entry {
            Err(StartRequestError::GroupEntryTask)
        } else if repo_count == 0 {
            Err(StartRequestError::NoRepositories)
        } else {
            Ok::<(), StartRequestError>(())
        }),
{
    if is_group_entry {
        Err(StartRequestError::GroupEntryTask)
    } else if repo_count == 0 {
        Err(StartRequestError::NoRepositories)
    } else {
        Ok(())
    }
}

/// The directory an agent starts in: the project's default, unless it is empty.
pub fn agent_working_dir(project_default: &Option<String>) -> (r: Option<String>)
    ensures
        opt_view(r) == (match opt_view(*project_default) {
            Some(d) => if d.len() > 0 {
                Some(d)
            } else {
                None::<Seq<char>>
            },
            None => None,
        }),
{
    match project_default {
        Some(d) => if d.as_str().is_empty() {
            None
        } else {
            Some(d.clone())
        },
        None => None,
    }
}

proof fn lemma_ordered_present(order: Seq<u128>, nodes: Seq<u128>)
    ensures
        forall|i: int| 0 <= i < ordered_present(order, nodes).len() ==> nodes.contains(
            #[trigger] ordered_present(order, nodes)[i],
        ),
        forall|i: int, j: int|
            0 <= i < j < ordered_present(order, nodes).len() ==> #[trigger] ordered_present(order, nodes)[i]
                != #[trigger] ordered_present(order, nodes)[j],
    decreases order.len(),
{
    if order.len() > 0 {
        let d = order.drop_last();
        lemma_ordered_present(d, nodes);
        let rest = ordered_present(d, nodes);
        let x = order.last();
        let r = ordered_present(order, nodes);
        if nodes.contains(x) && !rest.contains(x) {
            assert(r == rest.push(x));
            assert forall|i: int| 0 <= i < r.len() implies nodes.contains(#[trigger] r[i]) by {
                if i < rest.len() {
                    assert(r[i] == rest[i]);
                }
            }
            assert forall|i: int, j: int| 0 <= i < j < r.len() implies #[trigger] r[i] != #[trigger] r[j] by {
                if j < rest.len() {
                    assert(r[i] == rest[i] && r[j] == rest[j]);
                } else {
                    assert(r[i] == rest[i] && r[j] == x);
                    assert(rest.contains(rest[i]));
                }
            }
        } else {
            assert(r == rest);
        }
    }
}

proof fn lemma_remaining(nodes: Seq<u128>, done: Seq<u128>)
    ensures
        forall|t: u128| nodes.contains(t) && !done.contains(t) ==> #[trigger] remaining(nodes, done).contains(t),
        forall|i: int| 0 <= i < remaining(nodes, done).len() ==> nodes.contains(#[trigger] remaining(nodes, done)[i])
            && !done.contains(remaining(nodes, done)[i]),
        forall|i: int, j: int|
            0 <= i < j < remaining(nodes, done).len() ==> #[trigger] remaining(nodes, done)[i]
                != #[trigger] remaining(nodes, done)[j],
    decreases nodes.len(),
{
    if nodes.len() > 0 {
        let d = nodes.drop_last();
        lemma_remaining(d, done);
        let rest = remaining(d, done);
        assert forall|t: u128| nodes.contains(t) && !done.contains(t) implies #[trigger] remaining(nodes, done).contains(t) by {
            let k = choose|k: int| 0 <= k < nodes.len() && nodes[k] == t;
            if k < nodes.len() - 1 {
                assert(d[k] == t);
                assert(d.contains(t));
                assert(rest.contains(t));
                let q = choose|q: int| 0 <= q < rest.len() && rest[q] == t;
                assert(remaining(nodes, done)[q] == t);
            } else if rest.contains(t) {
                let q = choose|q: int| 0 <= q < rest.len() && rest[q] == t;
                assert(remaining(nodes, done)[q] == t);
            } else {
                assert(remaining(nodes, done) == rest.push(t));
                assert(remaining(nodes, done)[rest.len() as int] == t);
            }
        }
        assert forall|i: int| 0 <= i < remaining(nodes, done).len() implies nodes.contains(#[trigger] remaining(nodes, done)[i])
            && !done.contains(remaining(nodes, done)[i]) by {
            if i < rest.len() {
                assert(remaining(nodes, done)[i] == rest[i]);
                let k = choose|k: int| 0 <= k < d.len() && d[k] == rest[i];
                assert(nodes[k] == rest[i]);
            } else {
                assert(remaining(nodes, done)[i] == nodes.last());
            }
        }
    }
}

/// Deleting a milestone deletes each of its node tasks exactly once, and nothing else
/// before the entry task.
pub proof fn law_deletion_covers_each_node_once(nodes: Seq<u128>, topo_order: Seq<u128>)
    ensures
        ({
            let first = ordered_present(topo_order.reverse(), nodes);
            let order = first + remaining(nodes, first);
            &&& forall|t: u128| nodes.contains(t) ==> #[trigger] order.contains(t)
            &&& forall|i: int| 0 <= i < order.len() ==> nodes.contains(#[trigger] order[i])
            &&& forall|i: int, j: int| 0 <= i < j < order.len() ==> #[trigger] order[i] != #[trigger] order[j]
        }),
{
    let first = ordered_present(topo_order.reverse(), nodes);
    let rest = remaining(nodes, first);
    let order = first + rest;
    lemma_ordered_present(topo_order.reverse(), nodes);
    lemma_remaining(nodes, first);
    assert forall|t: u128| nodes.contains(t) implies #[trigger] order.contains(t) by {
        if first.contains(t) {
            let k = choose|k: int| 0 <= k < first.len() && first[k] == t;
            assert(order[k] == t);
        } else {
            assert(rest.contains(t));
            let k = choose|k: int| 0 <= k < rest.len() && rest[k] == t;
            assert(order[first.len() + k] == t);
        }
    }
    assert forall|i: int| 0 <= i < order.len() implies nodes.contains(#[trigger] order[i]) by {
        if i < first.len() {
            assert(order[i] == first[i]);
        } else {
            assert(order[i] == rest[i - first.len()]);
        }
    }
    assert forall|i: int, j: int| 0 <= i < j < order.len() implies #[trigger] order[i] != #[trigger] order[j] by {
        if j < first.len() {
            assert(order[i] == first[i] && order[j] == first[j]);
        } else if i >= first.len() {
            assert(order[i] == rest[i - first.len()] && order[j] == rest[j - first.len()]);
        } else {
            assert(order[i] == first[i] && order[j] == rest[j - first.len()]);
            assert(first.contains(first[i]));
        }
    }
}

} // verus!
