//! What the API reports of a task attempt: its state from its latest execution, and the
//! summary of its changes with whether showing them is blocked.
use vstd::prelude::*;

use crate::execution_plan::ExecutionProcessStatus;
use crate::graph::newer;
use crate::milestone_preview::fresh_distinct;
use crate::sorting::{seq_views, sort_by_key, sort_seq};
use crate::text::{decimal, opt_view, push_decimal, views};

verus! {

/// The state of an attempt.
#[derive(Clone, Copy, Debug, PartialEq, Eq, Structural)]
pub enum AttemptState {
    Idle,
    Running,
    Completed,
    Failed,
}

/// The latest execution of one kind (coding agent, setup or cleanup script) of an attempt.
#[derive(Clone, Copy, Debug, PartialEq, Eq, Structural)]
pub struct ProcessSummary {
    pub id: u128,
    pub created_at: i64,
    pub updated_at: i64,
    pub completed_at: Option<i64>,
    pub status: ExecutionProcessStatus,
    pub exit_code: Option<i64>,
}

/// What the status endpoint reports, besides the attempt's own fields.
#[derive(Clone, Debug)]
pub struct AttemptStatus {
    pub latest_execution_process_id: Option<u128>,
    pub state: AttemptState,
    pub last_activity_at: Option<i64>,
    pub failure_summary: Option<String>,
}

/// The latest of the candidates: one replaces the current choice only when created strictly
/// later, so the earlier-listed wins a tie.
pub open spec fn latest_process(c: Seq<ProcessSummary>) -> Option<ProcessSummary>
    decreases c.len(),
{
    if c.len() == 0 {
        None
    } else {
        match latest_process(c.drop_last()) {
            Some(p) => if c.last().created_at > p.created_at {
                Some(c.last())
            } else {
                Some(p)
            },
            None => Some(c.last()),
        }
    }
}

/// A signed integer in decimal.
pub open spec fn signed_decimal(n: i64) -> Seq<char> {
    if n < 0 {
        seq!['-'] + decimal((-(n as int)) as nat)
    } else {
        decimal(n as nat)
    }
}

/// State and failure summary from the latest execution: idle without one; failed with
/// `failed (exit_code=N)` (or `failed` without an exit code) or `killed`.
pub open spec fn state_of(p: Option<ProcessSummary>) -> (AttemptState, Option<Seq<char>>) {
    match p {
        None => (AttemptState::Idle, None),
        Some(p) => match p.status {
            ExecutionProcessStatus::Running => (AttemptState::Running, None),
            ExecutionProcessStatus::Completed => (AttemptState::Completed, None),
            ExecutionProcessStatus::Failed => (
                AttemptState::Failed,
                Some(
                    match p.exit_code {
                        Some(code) => "failed (exit_code="@ + signed_decimal(code) + ")"@,
                        None => "failed"@,
                    },
                ),
            ),
            ExecutionProcessStatus::Killed => (AttemptState::Failed, Some("killed"@)),
        },
    }
}

/// When the attempt was last active: the latest execution's update (or its completion when
/// later), else the latest session's update.
pub open spec fn last_activity(p: Option<ProcessSummary>, session_updated_at: Option<i64>) -> Option<i64> {
    match p {
        Some(p) => Some(
            match p.completed_at {
                Some(c) => if c > p.updated_at {
                    c
                } else {
                    p.updated_at
                },
                None => p.updated_at,
            },
        ),
        None => session_updated_at,
    }
}

fn push_signed_decimal(out: &mut String, n: i64)
    ensures
        final(out)@ == old(out)@ + signed_decimal(n),
{
    if n < 0 {
        out.push('-');
        let magnitude: u64 = (0i128 - n as i128) as u64;
        push_decimal(out, magnitude);
    } else {
        push_decimal(out, n as u64);
    }
}

/// The status of an attempt from the latest execution of each kind (in the order coding
/// agent, setup script, cleanup script) and the latest session's update time.
pub fn attempt_status(candidates: &Vec<ProcessSummary>, session_updated_at: Option<i64>) -> (r: AttemptStatus)
    ensures
        r.latest_execution_process_id == match latest_process(candidates@) {
            Some(p) => Some(p.id),
            None => None,
        },
        r.state == state_of(latest_process(candidates@)).0,
        opt_view(r.failure_summary) == state_of(latest_process(candidates@)).1,
        r.last_activity_at == last_activity(latest_process(candidates@), session_updated_at),
{
    let mut latest: Option<ProcessSummary> = None;
    let mut i: usize = 0;
    proof {
        assert(candidates@.take(0) =~= Seq::<ProcessSummary>::empty());
    }
    while i < candidates.len()
        invariant
            i <= candidates.len(),
            latest == latest_process(candidates@.take(i as int)),
        decreases candidates.len() - i,
    {
        let p = candidates[i];
        proof {
            assert(candidates@.take(i + 1).drop_last() =~= candidates@.take(i as int));
            assert(candidates@.take(i + 1).last() == p);
        }
        latest = match latest {
            Some(q) => if p.created_at > q.created_at {
                Some(p)
            } else {
                Some(q)
            },
            None => Some(p),
        };
        i = i + 1;
    }
    proof {
        assert(candidates@.take(i as int) =~= candidates@);
    }
    let (state, failure_summary) = match latest {
        None => (AttemptState::Idle, None),
        Some(p) => match p.status {
            ExecutionProcessStatus::Running => (AttemptState::Running, None),
            ExecutionProcessStatus::Completed => (AttemptState::Completed, None),
            ExecutionProcessStatus::Failed => {
                let mut msg = "failed".to_owned();
                match p.exit_code {
                    Some(code) => {
                        crate::text::push_str(&mut msg, " (exit_code=");
                        push_signed_decimal(&mut msg, code);
                        msg.push(')');
                        proof {
                            reveal_strlit("failed");
                            reveal_strlit(" (exit_code=");
                            reveal_strlit("failed (exit_code=");
                            reveal_strlit(")");
                            assert(msg@ =~= "failed (exit_code="@ + signed_decimal(code) + ")"@);
                        }
                    },
                    None => {},
                }
                (AttemptState::Failed, Some(msg))
            },
            ExecutionProcessStatus::Killed => (AttemptState::Failed, Some("killed".to_owned())),
        },
    };
    let last_activity_at = match latest {
        Some(p) => Some(
            match p.completed_at {
                Some(c) => if c > p.updated_at {
                    c
                } else {
                    p.updated_at
                },
                None => p.updated_at,
            },
        ),
        None => session_updated_at,
    };
    AttemptStatus {
        latest_execution_process_id: match latest {
            Some(p) => Some(p.id),
            None => None,
        },
        state,
        last_activity_at,
        failure_summary,
    }
}

/// Size of a diff.
#[derive(Clone, Copy, Debug, PartialEq, Eq, Structural, Default)]
pub struct DiffSummary {
    pub file_count: usize,
    pub added: usize,
    pub deleted: usize,
    pub total_bytes: u64,
}

pub open spec fn sat_add(a: usize, b: usize) -> usize {
    if a + b > usize::MAX {
        usize::MAX
    } else {
        (a + b) as usize
    }
}

/// Adds one repository's diff size to the total, each count saturating.
pub fn add_diff_summary(total: &mut DiffSummary, repo: &DiffSummary)
    ensures
        final(total).file_count == sat_add(old(total).file_count, repo.file_count),
        final(total).added == sat_add(old(total).added, repo.added),
        final(total).deleted == sat_add(old(total).deleted, repo.deleted),
        final(total).total_bytes == (if old(total).total_bytes + repo.total_bytes > u64::MAX {
            u64::MAX
        } else {
            (old(total).total_bytes + repo.total_bytes) as u64
        }),
{
    total.file_count = total.file_count.saturating_add(repo.file_count);
    total.added = total.added.saturating_add(repo.added);
    total.deleted = total.deleted.saturating_add(repo.deleted);
    total.total_bytes = total.total_bytes.saturating_add(repo.total_bytes);
}

/// Why the changes of an attempt are not listed.
#[derive(Clone, Copy, Debug, PartialEq, Eq, Structural)]
pub enum AttemptChangesBlockedReason {
    SummaryFailed,
    ThresholdExceeded,
}

/// Why nothing is listed when no repository could be compared: every repository was
/// skipped (and there was at least one).
pub fn empty_changes_blocked_reason(total_repos: usize, skipped_repos: usize) -> (r: Option<AttemptChangesBlockedReason>)
    ensures
        r == (if total_repos > 0 && skipped_repos == total_repos {
            Some(AttemptChangesBlockedReason::SummaryFailed)
        } else {
            None
        }),
{
    if total_repos > 0 && skipped_repos == total_repos {
        Some(AttemptChangesBlockedReason::SummaryFailed)
    } else {
        None
    }
}

/// Whether the changes are withheld: unless forced, when the preview guard is on and the
/// summary failed or exceeds the guard; a failed summary is the reason given first.
pub fn changes_blocked_reason(
    force: bool,
    guard_enabled: bool,
    summary_failed: bool,
    guard_exceeded: bool,
) -> (r: Option<AttemptChangesBlockedReason>)
    ensures
        r == (if !force && guard_enabled && (summary_failed || guard_exceeded) {
            if summary_failed {
                Some(AttemptChangesBlockedReason::SummaryFailed)
            } else {
                Some(AttemptChangesBlockedReason::ThresholdExceeded)
            }
        } else {
            None
        }),
{
    if !force && guard_enabled && (summary_failed || guard_exceeded) {
        if summary_failed {
            Some(AttemptChangesBlockedReason::SummaryFailed)
        } else {
            Some(AttemptChangesBlockedReason::ThresholdExceeded)
        }
    } else {
        None
    }
}

/// A changed file of a repository: its new path, or its old one when it was deleted.
#[derive(Clone, Debug)]
pub struct ChangedFile {
    pub repo_name: String,
    pub new_path: Option<String>,
    pub old_path: Option<String>,
}

/// The listed path of a changed file, `repo/path`, if it has a path.
pub open spec fn listed_path(f: ChangedFile) -> Option<Seq<char>> {
    match f.new_path {
        Some(p) => Some(f.repo_name@ + seq!['/'] + p@),
        None => match f.old_path {
            Some(p) => Some(f.repo_name@ + seq!['/'] + p@),
            None => None,
        },
    }
}

/// The listed paths in order, files without a path left out.
pub open spec fn listed_paths(files: Seq<ChangedFile>) -> Seq<Seq<char>>
    decreases files.len(),
{
    if files.len() == 0 {
        seq![]
    } else {
        let rest = listed_paths(files.drop_last());
        match listed_path(files.last()) {
            Some(p) => rest.push(p),
            None => rest,
        }
    }
}

/// The path a changed file is listed under, `repo/path`, if it has one.
pub fn changed_file_path(f: &ChangedFile) -> (r: Option<String>)
    ensures
        opt_view(r) == listed_path(*f),
{
    let path = match &f.new_path {
        Some(p) => p,
        None => match &f.old_path {
            Some(p) => p,
            None => {
                return None;
            },
        },
    };
    let mut full = f.repo_name.clone();
    full.push('/');
    crate::text::push_str(&mut full, path.as_str());
    proof {
        assert(full@ =~= f.repo_name@ + seq!['/'] + path@);
    }
    Some(full)
}

/// The changed files as `repo/path`, each once, in order (as a `BTreeSet` collects them).
pub fn changed_file_list(files: &Vec<ChangedFile>) -> (r: Vec<String>)
    ensures
        views(r@) == sort_seq::<String>(fresh_distinct(listed_paths(files@), seq![])),
{
    let mut paths: Vec<String> = Vec::new();
    let mut i: usize = 0;
    proof {
        assert(files@.take(0) =~= Seq::<ChangedFile>::empty());
        assert(views(paths@) =~= Seq::<Seq<char>>::empty());
    }
    while i < files.len()
        invariant
            i <= files.len(),
            views(paths@) == fresh_distinct(listed_paths(files@.take(i as int)), seq![]),
        decreases files.len() - i,
    {
        let f = &files[i];
        proof {
            assert(files@.take(i + 1).drop_last() =~= files@.take(i as int));
            assert(files@.take(i + 1).last() == *f);
        }
        match changed_file_path(f) {
            Some(full) => {
                let ghost l = listed_paths(files@.take(i as int)).push(full@);
                proof {
                    assert(listed_paths(files@.take(i + 1)) == l);
                    assert(l.drop_last() =~= listed_paths(files@.take(i as int)));
                    assert(l.last() == full@);
                }
                let found = crate::milestone_preview::contains_string(&paths, &full);
                if !found {
                    let ghost before = views(paths@);
                    paths.push(full);
                    proof {
                        assert(views(paths@) =~= before.push(l.last()));
                    }
                }
                proof {
                    assert(fresh_distinct(l, seq![]) == views(paths@));
                }
            },
            None => {
                proof {
                    assert(listed_path(*f) is None);
                    assert(listed_paths(files@.take(i + 1)) == listed_paths(files@.take(i as int)));
                }
            },
        }
        i = i + 1;
    }
    proof {
        assert(files@.take(i as int) =~= files@);
    }
    sort_by_key(paths)
}

/// An attempt (workspace) of a task, as the latest-attempt lookup sees it.
#[derive(Clone, Copy, Debug, PartialEq, Eq, Structural)]
pub struct AttemptRef {
    pub task_id: u128,
    pub workspace_id: u128,
    pub created_at: i128,
}

pub open spec fn attempt_key(a: AttemptRef) -> (u128, i128) {
    (a.workspace_id, a.created_at)
}

/// `ws[i]` is the task's latest attempt: created last, ties going to the smaller id, and
/// the first of its kind when the same attempt is listed twice.
pub open spec fn is_latest_attempt(ws: Seq<AttemptRef>, t: u128, i: int) -> bool {
    &&& 0 <= i < ws.len()
    &&& ws[i].task_id == t
    &&& forall|j: int|
        0 <= j < ws.len() && (#[trigger] ws[j]).task_id == t ==> !newer(attempt_key(ws[j]), attempt_key(ws[i]))
    &&& forall|j: int| 0 <= j < i && (#[trigger] ws[j]).task_id == t ==> attempt_key(ws[j]) != attempt_key(ws[i])
}

pub open spec fn has_attempt(ws: Seq<AttemptRef>, t: u128) -> bool {
    exists|i: int| 0 <= i < ws.len() && (#[trigger] ws[i]).task_id == t
}

fn latest_attempt_of(workspaces: &Vec<AttemptRef>, t: u128) -> (r: Option<usize>)
    ensures
        match r {
            Some(i) => is_latest_attempt(workspaces@, t, i as int),
            None => !has_attempt(workspaces@, t),
        },
{
    let ghost ws = workspaces@;
    let mut best: Option<usize> = None;
    let mut k: usize = 0;
    while k < workspaces.len()
        invariant
            k <= workspaces.len(),
            ws == workspaces@,
            match best {
                Some(i) => i < k && ws[i as int].task_id == t && (forall|j: int|
                    0 <= j < k && (#[trigger] ws[j]).task_id == t ==> !newer(attempt_key(ws[j]), attempt_key(ws[i as int])))
                    && (forall|j: int|
                    0 <= j < i && (#[trigger] ws[j]).task_id == t ==> attempt_key(ws[j]) != attempt_key(ws[i as int])),
                None => forall|j: int| 0 <= j < k ==> (#[trigger] ws[j]).task_id != t,
            },
        decreases workspaces.len() - k,
    {
        let w = workspaces[k];
        if w.task_id == t {
            let replace = match best {
                None => true,
                Some(i) => {
                    let b = workspaces[i];
                    if w.created_at == b.created_at {
                        w.workspace_id < b.workspace_id
                    } else {
                        w.created_at > b.created_at
                    }
                },
            };
            if replace {
                best = Some(k);
            }
        }
        k = k + 1;
    }
    proof {
        if best is None && has_attempt(ws, t) {
            let j = choose|j: int| 0 <= j < ws.len() && (#[trigger] ws[j]).task_id == t;
            assert(ws[j].task_id != t);
        }
    }
    best
}

/// The distinct task ids in order of first appearance, each with its latest attempt (an
/// index into `workspaces`), if it has one.
pub fn latest_attempts(task_ids: &Vec<u128>, workspaces: &Vec<AttemptRef>) -> (r: Vec<(u128, Option<usize>)>)
    ensures
        r.len() == fresh_distinct(task_ids@, seq![]).len(),
        forall|k: int|
            0 <= k < r.len() ==> (#[trigger] r@[k]).0 == fresh_distinct(task_ids@, seq![])[k] && match r@[k].1 {
                Some(i) => is_latest_attempt(workspaces@, r@[k].0, i as int),
                None => !has_attempt(workspaces@, r@[k].0),
            },
{
    let mut ids: Vec<u128> = Vec::new();
    let mut i: usize = 0;
    proof {
        assert(task_ids@.take(0) =~= Seq::<u128>::empty());
    }
    while i < task_ids.len()
        invariant
            i <= task_ids.len(),
            ids@ == fresh_distinct(task_ids@.take(i as int), seq![]),
        decreases task_ids.len() - i,
    {
        let t = task_ids[i];
        proof {
            assert(task_ids@.take(i + 1).drop_last() =~= task_ids@.take(i as int));
            assert(task_ids@.take(i + 1).last() == t);
        }
        let mut seen = false;
        let mut j: usize = 0;
        while j < ids.len()
            invariant
                j <= ids.len(),
                seen == exists|q: int| 0 <= q < j && ids@[q] == t,
            decreases ids.len() - j,
        {
            if ids[j] == t {
                seen = true;
            }
            j = j + 1;
        }
        proof {
            if ids@.contains(t) {
                let q = choose|q: int| 0 <= q < ids@.len() && ids@[q] == t;
                assert(ids@[q] == t);
            }
        }
        if !seen {
            ids.push(t);
        }
        i = i + 1;
    }
    proof {
        assert(task_ids@.take(i as int) =~= task_ids@);
    }
    let mut out: Vec<(u128, Option<usize>)> = Vec::new();
    let mut k: usize = 0;
    while k < ids.len()
        invariant
            k <= ids.len(),
            ids@ == fresh_distinct(task_ids@, seq![]),
            out.len() == k,
            forall|q: int|
                0 <= q < k ==> (#[trigger] out@[q]).0 == ids@[q] && match out@[q].1 {
                    Some(i) => is_latest_attempt(workspaces@, out@[q].0, i as int),
                    None => !has_attempt(workspaces@, out@[q].0),
                },
        decreases ids.len() - k,
    {
        let best = latest_attempt_of(workspaces, ids[k]);
        out.push((ids[k], best));
        k = k + 1;
    }
    out
}

} // verus!
