//! Execution decisions: which finished executions close their task, the chains of setup and
//! cleanup scripts run in a workspace's repositories, and how stored log entries are merged.
use vstd::prelude::*;

use crate::number::parse_i64_str;
use crate::redaction::JsonValue;
use crate::text::opt_view;

verus! {

/// Why an execution ran.
#[derive(Clone, Copy, Debug, PartialEq, Eq, Structural)]
pub enum ExecutionProcessRunReason {
    SetupScript,
    CleanupScript,
    CodingAgent,
    DevServer,
}

/// How an execution ended, or that it still runs.
#[derive(Clone, Copy, Debug, PartialEq, Eq, Structural)]
pub enum ExecutionProcessStatus {
    Running,
    Completed,
    Failed,
    Killed,
}

/// Whether a finished execution closes its task: never for a dev server, nor for a setup
/// script with nothing after it (one of several run side by side); always when its action
/// cannot be read, or when it failed or was killed; otherwise when nothing follows it.
/// `next_action` is none when the action could not be read, else whether one follows.
pub open spec fn finalizes(
    run_reason: ExecutionProcessRunReason,
    next_action: Option<bool>,
    status: ExecutionProcessStatus,
) -> bool {
    if run_reason == ExecutionProcessRunReason::DevServer {
        false
    } else {
        match next_action {
            None => true,
            Some(has_next) => if run_reason == ExecutionProcessRunReason::SetupScript && !has_next {
                false
            } else if status == ExecutionProcessStatus::Failed || status == ExecutionProcessStatus::Killed {
                true
            } else {
                !has_next
            },
        }
    }
}

/// Whether a finished execution closes its task (see `finalizes`).
pub fn should_finalize(
    run_reason: ExecutionProcessRunReason,
    next_action: Option<bool>,
    status: ExecutionProcessStatus,
) -> (r: bool)
    ensures
        r == finalizes(run_reason, next_action, status),
{
    if run_reason == ExecutionProcessRunReason::DevServer {
        return false;
    }
    let has_next = match next_action {
        Some(h) => h,
        None => return true,
    };
    if run_reason == ExecutionProcessRunReason::SetupScript && !has_next {
        return false;
    }
    if status == ExecutionProcessStatus::Failed || status == ExecutionProcessStatus::Killed {
        return true;
    }
    !has_next
}

/// What finishing an execution does to its task: a failed or killed execution always closes
/// it, whatever follows (but a dev server, or a setup script run side by side with nothing
/// after it, never closes it); an execution whose action cannot be read closes it; a
/// successful execution closes it exactly when nothing follows.
pub proof fn law_finalization(
    run_reason: ExecutionProcessRunReason,
    next_action: Option<bool>,
    status: ExecutionProcessStatus,
)
    ensures
        run_reason == ExecutionProcessRunReason::DevServer ==> !finalizes(run_reason, next_action, status),
        run_reason != ExecutionProcessRunReason::DevServer && next_action is None ==> finalizes(
            run_reason,
            next_action,
            status,
        ),
        run_reason == ExecutionProcessRunReason::SetupScript && next_action == Some(false) ==> !finalizes(
            run_reason,
            next_action,
            status,
        ),
        run_reason != ExecutionProcessRunReason::DevServer && next_action is Some && !(run_reason
            == ExecutionProcessRunReason::SetupScript && next_action == Some(false)) && (status
            == ExecutionProcessStatus::Failed || status == ExecutionProcessStatus::Killed) ==> finalizes(
            run_reason,
            next_action,
            status,
        ),
        run_reason != ExecutionProcessRunReason::DevServer && status != ExecutionProcessStatus::Failed
            && status != ExecutionProcessStatus::Killed && next_action == Some(true) ==> !finalizes(
            run_reason,
            next_action,
            status,
        ),
        run_reason != ExecutionProcessRunReason::DevServer && run_reason != ExecutionProcessRunReason::SetupScript
            && next_action == Some(false) ==> finalizes(run_reason, next_action, status),
{
}

/// Starting an execution moves its task to in progress, unless it is there already or the
/// execution is a dev server.
pub fn marks_task_in_progress(status: crate::graph::TaskStatus, run_reason: ExecutionProcessRunReason) -> (r: bool)
    ensures
        r == (status != crate::graph::TaskStatus::InProgress && run_reason
            != ExecutionProcessRunReason::DevServer),
{
    status != crate::graph::TaskStatus::InProgress && run_reason != ExecutionProcessRunReason::DevServer
}

/// The line written to an execution's error output when it could not start.
pub fn start_failure_message(error: &str) -> (r: String)
    ensures
        r@ == "Failed to start execution: "@ + error@,
{
    let mut out = "Failed to start execution: ".to_owned();
    crate::text::push_str(&mut out, error);
    out
}

/// The help shown when the agent's program is not installed.
pub fn missing_executable_help(program: &str) -> (r: String)
    ensures
        r@ == "The required executable `"@ + program@ + "` is not installed."@,
{
    let mut out = "The required executable `".to_owned();
    crate::text::push_str(&mut out, program);
    crate::text::push_str(&mut out, "` is not installed.");
    out
}

/// An execution left running by a previous server is marked failed; its task goes to review
/// when it was a coding agent or a setup or cleanup script.
pub fn orphan_moves_task_to_review(run_reason: ExecutionProcessRunReason) -> (r: bool)
    ensures
        r == (run_reason != ExecutionProcessRunReason::DevServer),
{
    match run_reason {
        ExecutionProcessRunReason::CodingAgent => true,
        ExecutionProcessRunReason::SetupScript => true,
        ExecutionProcessRunReason::CleanupScript => true,
        ExecutionProcessRunReason::DevServer => false,
    }
}

/// Which notice a finished task gets: none when its execution was killed (or still runs).
#[derive(Clone, Copy, Debug, PartialEq, Eq, Structural)]
pub enum CompletionNotice {
    Succeeded,
    Failed,
}

/// The notice for a task whose execution ended with `status`.
pub fn completion_notice(status: ExecutionProcessStatus) -> (r: Option<CompletionNotice>)
    ensures
        r == (match status {
            ExecutionProcessStatus::Completed => Some(CompletionNotice::Succeeded),
            ExecutionProcessStatus::Failed => Some(CompletionNotice::Failed),
            _ => None::<CompletionNotice>,
        }),
{
    match status {
        ExecutionProcessStatus::Completed => Some(CompletionNotice::Succeeded),
        ExecutionProcessStatus::Failed => Some(CompletionNotice::Failed),
        _ => None,
    }
}

/// The title of a task's completion notice.
pub fn completion_title(task_title: &str) -> (r: String)
    ensures
        r@ == "Task Complete: "@ + task_title@,
{
    let mut out = "Task Complete: ".to_owned();
    crate::text::push_str(&mut out, task_title);
    out
}

/// Whether every repository with a setup script runs it in parallel (true when none has
/// one): then each setup starts on its own and the coding agent right away; otherwise all
/// setups run in a chain that ends with the coding agent.
pub fn all_setups_parallel(repos: &Vec<ProjectRepoWithName>) -> (r: bool)
    ensures
        r == forall|i: int|
            0 <= i < repos.len() ==> ((#[trigger] repos@[i]).setup_script is Some ==> repos@[i].parallel_setup_script),
{
    let mut i: usize = 0;
    while i < repos.len()
        invariant
            i <= repos.len(),
            forall|j: int|
                0 <= j < i ==> ((#[trigger] repos@[j]).setup_script is Some ==> repos@[j].parallel_setup_script),
        decreases repos.len() - i,
    {
        if repos[i].setup_script.is_some() && !repos[i].parallel_setup_script {
            return false;
        }
        i = i + 1;
    }
    true
}

/// The key under which a finished backfill of one channel of an execution is remembered:
/// the execution's id, a colon, and the channel's name.
pub fn backfill_cache_key(execution_id: u128, channel: crate::log_entries::LogEntryChannel) -> (r: String)
    ensures
        r@ == crate::ids::uuid_text(execution_id) + ":"@ + crate::log_entries::channel_name(channel),
{
    let mut out = crate::ids::uuid_string(execution_id);
    out.push(':');
    crate::text::push_str(&mut out, channel.as_str());
    proof {
        reveal_strlit(":");
        assert(out@ =~= crate::ids::uuid_text(execution_id) + ":"@ + crate::log_entries::channel_name(
            channel,
        ));
    }
    out
}

/// Whether the stored entries of a channel must be rebuilt from the legacy log: when none
/// are stored, or their count or index range differs from the legacy log's
/// (`(count, min, max)`, see `entry_stats`).
pub fn needs_backfill(existing: Option<(i64, i64, i64)>, expected: (i64, i64, i64)) -> (r: bool)
    ensures
        r == (match existing {
            None => true,
            Some(s) => s != expected,
        }),
{
    match existing {
        None => true,
        Some(s) => s.0 != expected.0 || s.1 != expected.1 || s.2 != expected.2,
    }
}

/// The kind of an executor action.
#[derive(Clone, Copy, Debug, PartialEq, Eq, Structural)]
pub enum ActionKind {
    Script,
    CodingAgentInitial,
    CodingAgentFollowUp,
}

/// Why the action that follows another runs: a script after a script is a setup script, a
/// script after a coding agent is a cleanup script, and a coding agent runs as itself.
pub fn next_run_reason(current: ActionKind, next: ActionKind) -> (r: ExecutionProcessRunReason)
    ensures
        r == (if next != ActionKind::Script {
            ExecutionProcessRunReason::CodingAgent
        } else if current == ActionKind::Script {
            ExecutionProcessRunReason::SetupScript
        } else {
            ExecutionProcessRunReason::CleanupScript
        }),
{
    match (current, next) {
        (ActionKind::Script, ActionKind::Script) => ExecutionProcessRunReason::SetupScript,
        (_, ActionKind::Script) => ExecutionProcessRunReason::CleanupScript,
        _ => ExecutionProcessRunReason::CodingAgent,
    }
}

/// What a script is run for.
#[derive(Clone, Copy, Debug, PartialEq, Eq, Structural)]
pub enum ScriptContext {
    SetupScript,
    CleanupScript,
}

/// A bash script run in one repository of a workspace.
#[derive(Clone, Debug)]
pub struct ScriptStep {
    pub script: String,
    pub context: ScriptContext,
    pub working_dir: Option<String>,
}

/// A repository of a project, with its scripts.
#[derive(Clone, Debug)]
pub struct ProjectRepoWithName {
    pub repo_name: String,
    pub setup_script: Option<String>,
    pub cleanup_script: Option<String>,
    /// Its setup script may run beside the others and the coding agent.
    pub parallel_setup_script: bool,
}

pub type StepView = (Seq<char>, ScriptContext, Option<Seq<char>>);

impl View for ScriptStep {
    type V = StepView;

    open spec fn view(&self) -> StepView {
        (self.script@, self.context, opt_view(self.working_dir))
    }
}

/// The scripts of one kind that the repositories have, in order, each run in its repository.
pub open spec fn script_steps(repos: Seq<ProjectRepoWithName>, context: ScriptContext) -> Seq<StepView>
    decreases repos.len(),
{
    if repos.len() == 0 {
        seq![]
    } else {
        let rest = script_steps(repos.drop_last(), context);
        let r = repos.last();
        let script = match context {
            ScriptContext::SetupScript => r.setup_script,
            ScriptContext::CleanupScript => r.cleanup_script,
        };
        match script {
            Some(s) => rest.push((s@, context, Some(r.repo_name@))),
            None => rest,
        }
    }
}

pub open spec fn step_views(s: Seq<ScriptStep>) -> Seq<StepView> {
    s.map_values(|x: ScriptStep| x@)
}

fn collect_steps(repos: &Vec<ProjectRepoWithName>, context: ScriptContext) -> (r: Vec<ScriptStep>)
    ensures
        step_views(r@) == script_steps(repos@, context),
{
    let mut out: Vec<ScriptStep> = Vec::new();
    let mut i: usize = 0;
    proof {
        assert(repos@.take(0) =~= Seq::<ProjectRepoWithName>::empty());
        assert(step_views(out@) =~= Seq::<StepView>::empty());
    }
    while i < repos.len()
        invariant
            i <= repos.len(),
            step_views(out@) == script_steps(repos@.take(i as int), context),
        decreases repos.len() - i,
    {
        let r = &repos[i];
        proof {
            assert(repos@.take(i + 1).drop_last() =~= repos@.take(i as int));
            assert(repos@.take(i + 1).last() == *r);
        }
        let script = match context {
            ScriptContext::SetupScript => &r.setup_script,
            ScriptContext::CleanupScript => &r.cleanup_script,
        };
        match script {
            Some(s) => {
                let ghost before = step_views(out@);
                let step = ScriptStep {
                    script: s.clone(),
                    context,
                    working_dir: Some(r.repo_name.clone()),
                };
                out.push(step);
                proof {
                    assert(step_views(out@) =~= before.push(step@));
                }
            },
            None => {},
        }
        i = i + 1;
    }
    proof {
        assert(repos@.take(i as int) =~= repos@);
    }
    out
}

/// The chain of cleanup scripts of the repositories that have one, run one after another;
/// none when no repository has one.
pub fn cleanup_actions_for_repos(repos: &Vec<ProjectRepoWithName>) -> (r: Option<Vec<ScriptStep>>)
    ensures
        match r {
            Some(steps) => step_views(steps@) == script_steps(repos@, ScriptContext::CleanupScript)
                && steps@.len() > 0,
            None => script_steps(repos@, ScriptContext::CleanupScript).len() == 0,
        },
{
    let steps = collect_steps(repos, ScriptContext::CleanupScript);
    if steps.len() == 0 {
        None
    } else {
        Some(steps)
    }
}

/// The chain of setup scripts of the repositories that have one, run one after another;
/// none when no repository has one.
pub fn setup_actions_for_repos(repos: &Vec<ProjectRepoWithName>) -> (r: Option<Vec<ScriptStep>>)
    ensures
        match r {
            Some(steps) => step_views(steps@) == script_steps(repos@, ScriptContext::SetupScript)
                && steps@.len() > 0,
            None => script_steps(repos@, ScriptContext::SetupScript).len() == 0,
        },
{
    let steps = collect_steps(repos, ScriptContext::SetupScript);
    if steps.len() == 0 {
        None
    } else {
        Some(steps)
    }
}

/// The setup script of one repository, run in it.
pub fn setup_action_for_repo(repo: &ProjectRepoWithName) -> (r: Option<ScriptStep>)
    ensures
        match repo.setup_script {
            Some(s) => r matches Some(step) && step@ == (s@, ScriptContext::SetupScript, Some(
                repo.repo_name@,
            )),
            None => r is None,
        },
{
    match &repo.setup_script {
        Some(s) => Some(
            ScriptStep {
                script: s.clone(),
                context: ScriptContext::SetupScript,
                working_dir: Some(repo.repo_name.clone()),
            },
        ),
        None => None,
    }
}

/// Setup scripts run one after another before an action.
#[derive(Clone, Debug)]
pub struct SetupChain<A> {
    pub setup: Vec<ScriptStep>,
    pub next: A,
}

/// The setup scripts of the repositories, in order, and then `next_action`.
pub fn build_sequential_setup_chain<A>(repos: &Vec<ProjectRepoWithName>, next_action: A) -> (r: SetupChain<A>)
    ensures
        step_views(r.setup@) == script_steps(repos@, ScriptContext::SetupScript),
        r.next == next_action,
{
    SetupChain { setup: collect_steps(repos, ScriptContext::SetupScript), next: next_action }
}

/// A log entry as stored: its index and its JSON text.
#[derive(Clone, Debug)]
pub struct LogEntryRow {
    pub entry_index: i64,
    pub entry_json: String,
}

pub open spec fn row_views(s: Seq<LogEntryRow>) -> Seq<(i64, Seq<char>)> {
    s.map_values(|r: LogEntryRow| (r.entry_index, r.entry_json@))
}

/// The entries keyed by index, a later entry replacing an earlier one with the same index.
pub open spec fn last_by_index(s: Seq<(i64, Seq<char>)>) -> Map<i64, Seq<char>>
    decreases s.len(),
{
    if s.len() == 0 {
        Map::empty()
    } else {
        last_by_index(s.drop_last()).insert(s.last().0, s.last().1)
    }
}

pub open spec fn strictly_increasing(s: Seq<(i64, Seq<char>)>) -> bool {
    forall|i: int, j: int| 0 <= i < j < s.len() ==> (#[trigger] s[i]).0 < (#[trigger] s[j]).0
}

/// The map that a strictly increasing list of entries holds.
pub open spec fn as_map(s: Seq<(i64, Seq<char>)>) -> Map<i64, Seq<char>>
    decreases s.len(),
{
    if s.len() == 0 {
        Map::empty()
    } else {
        as_map(s.drop_last()).insert(s.last().0, s.last().1)
    }
}

proof fn lemma_as_map_index(s: Seq<(i64, Seq<char>)>, i: int)
    requires
        strictly_increasing(s),
        0 <= i < s.len(),
    ensures
        as_map(s).contains_key(s[i].0),
        as_map(s)[s[i].0] == s[i].1,
    decreases s.len(),
{
    if i < s.len() - 1 {
        lemma_as_map_index(s.drop_last(), i);
        assert(s.drop_last()[i] == s[i]);
    }
}

proof fn lemma_as_map_keys(s: Seq<(i64, Seq<char>)>, k: i64)
    ensures
        as_map(s).contains_key(k) <==> exists|i: int| 0 <= i < s.len() && #[trigger] s[i].0 == k,
    decreases s.len(),
{
    if s.len() > 0 {
        lemma_as_map_keys(s.drop_last(), k);
        if exists|i: int| 0 <= i < s.len() - 1 && #[trigger] s.drop_last()[i].0 == k {
            let i = choose|i: int| 0 <= i < s.len() - 1 && #[trigger] s.drop_last()[i].0 == k;
            assert(s[i].0 == k);
        }
        if exists|i: int| 0 <= i < s.len() && #[trigger] s[i].0 == k {
            let i = choose|i: int| 0 <= i < s.len() && #[trigger] s[i].0 == k;
            if i < s.len() - 1 {
                assert(s.drop_last()[i].0 == k);
            }
        }
    }
}

/// Merges entries by index: for each index the last entry given with it, in order of index
/// (as collecting them into a `BTreeMap` and back does).
pub fn dedupe_entries_by_index(entries: Vec<LogEntryRow>) -> (r: Vec<LogEntryRow>)
    ensures
        strictly_increasing(row_views(r@)),
        as_map(row_views(r@)) == last_by_index(row_views(entries@)),
{
    let ghost orig = row_views(entries@);
    let mut rest = entries;
    let mut out: Vec<LogEntryRow> = Vec::new();
    let mut i: usize = 0;
    let n = rest.len();
    proof {
        assert(orig.take(0) =~= Seq::<(i64, Seq<char>)>::empty());
        assert(row_views(out@) =~= Seq::<(i64, Seq<char>)>::empty());
        assert(as_map(row_views(out@)) =~= Map::<i64, Seq<char>>::empty());
    }
    while rest.len() > 0
        invariant
            n == orig.len(),
            i <= n,
            row_views(rest@) == orig.skip(i as int),
            strictly_increasing(row_views(out@)),
            as_map(row_views(out@)) == last_by_index(orig.take(i as int)),
        decreases rest.len(),
    {
        let e = rest.remove(0);
        let ghost ov = row_views(out@);
        proof {
            assert(row_views(rest@) =~= orig.skip(i as int).drop_first());
            assert(orig.skip(i as int)[0] == (e.entry_index, e.entry_json@));
            assert(orig.skip(i as int).drop_first() =~= orig.skip(i + 1));
            assert(orig.take(i + 1).drop_last() =~= orig.take(i as int));
            assert(orig.take(i + 1).last() == (e.entry_index, e.entry_json@));
        }
        let mut p: usize = 0;
        while p < out.len() && out[p].entry_index < e.entry_index
            invariant
                p <= out.len(),
                ov == row_views(out@),
                forall|k: int| 0 <= k < p ==> (#[trigger] ov[k]).0 < e.entry_index,
            decreases out.len() - p,
        {
            p = p + 1;
        }
        let key = e.entry_index;
        let ghost ev = (e.entry_index, e.entry_json@);
        if p < out.len() && out[p].entry_index == key {
            out.set(p, e);
            proof {
                let nv = row_views(out@);
                assert(nv =~= ov.update(p as int, ev));
                assert forall|a: int, b: int| 0 <= a < b < nv.len() implies (#[trigger] nv[a]).0 < (#[trigger] nv[b]).0 by {
                    assert(ov[a].0 < ov[b].0);
                }
                assert forall|k: i64| #[trigger] as_map(nv).contains_key(k) == ov_map_insert(ov, ev).contains_key(k)
                    && (as_map(nv).contains_key(k) ==> as_map(nv)[k] == ov_map_insert(ov, ev)[k]) by {
                    lemma_as_map_keys(nv, k);
                    lemma_as_map_keys(ov, k);
                    if k == key {
                        assert(nv[p as int].0 == key);
                    }
                    if as_map(nv).contains_key(k) {
                        let q = choose|q: int| 0 <= q < nv.len() && #[trigger] nv[q].0 == k;
                        lemma_as_map_index(nv, q);
                        if q != p {
                            lemma_as_map_index(ov, q);
                        }
                    }
                    if as_map(ov).contains_key(k) {
                        let q = choose|q: int| 0 <= q < ov.len() && #[trigger] ov[q].0 == k;
                        assert(nv[q].0 == k);
                    }
                }
                assert(as_map(nv) =~= ov_map_insert(ov, ev));
            }
        } else {
            out.insert(p, e);
            proof {
                let nv = row_views(out@);
                assert(nv =~= ov.insert(p as int, ev));
                assert forall|a: int, b: int| 0 <= a < b < nv.len() implies (#[trigger] nv[a]).0 < (#[trigger] nv[b]).0 by {
                    if b < p {
                        assert(nv[a] == ov[a] && nv[b] == ov[b]);
                    } else if b == p {
                        assert(nv[a] == ov[a]);
                    } else if a < p {
                        assert(nv[a] == ov[a] && nv[b] == ov[b - 1]);
                        assert(ov[p as int].0 > key);
                        if b - 1 > p {
                            assert(ov[p as int].0 < ov[b - 1].0);
                        }
                    } else if a == p {
                        assert(nv[b] == ov[b - 1]);
                        assert(ov[p as int].0 > key);
                        if b - 1 > p {
                            assert(ov[p as int].0 < ov[b - 1].0);
                        }
                    } else {
                        assert(nv[a] == ov[a - 1] && nv[b] == ov[b - 1]);
                    }
                }
                assert forall|k: i64| #[trigger] as_map(nv).contains_key(k) == ov_map_insert(ov, ev).contains_key(k)
                    && (as_map(nv).contains_key(k) ==> as_map(nv)[k] == ov_map_insert(ov, ev)[k]) by {
                    lemma_as_map_keys(nv, k);
                    lemma_as_map_keys(ov, k);
                    if k == key {
                        assert(nv[p as int].0 == key);
                    }
                    if as_map(nv).contains_key(k) {
                        let q = choose|q: int| 0 <= q < nv.len() && #[trigger] nv[q].0 == k;
                        lemma_as_map_index(nv, q);
                        if q < p {
                            lemma_as_map_index(ov, q);
                        } else if q > p {
                            lemma_as_map_index(ov, q - 1);
                        }
                    }
                    if as_map(ov).contains_key(k) {
                        let q = choose|q: int| 0 <= q < ov.len() && #[trigger] ov[q].0 == k;
                        if q < p {
                            assert(nv[q].0 == k);
                        } else {
                            assert(nv[q + 1].0 == k);
                        }
                    }
                }
                assert(as_map(nv) =~= ov_map_insert(ov, ev));
            }
        }
        i = i + 1;
    }
    proof {
        assert(orig.take(i as int) =~= orig);
    }
    out
}

pub open spec fn ov_map_insert(s: Seq<(i64, Seq<char>)>, e: (i64, Seq<char>)) -> Map<i64, Seq<char>> {
    as_map(s).insert(e.0, e.1)
}

/// How many entries there are, and their smallest and largest index; none for no entries.
pub fn entry_stats(entries: &Vec<LogEntryRow>) -> (r: Option<(i64, i64, i64)>)
    requires
        entries@.len() <= i64::MAX,
    ensures
        match r {
            None => entries@.len() == 0,
            Some((count, min, max)) => count == entries@.len() && (exists|i: int|
                0 <= i < entries@.len() && #[trigger] entries@[i].entry_index == min) && (exists|i: int|
                0 <= i < entries@.len() && #[trigger] entries@[i].entry_index == max) && forall|i: int|
                0 <= i < entries@.len() ==> min <= #[trigger] entries@[i].entry_index <= max,
        },
{
    if entries.len() == 0 {
        return None;
    }
    let mut min = entries[0].entry_index;
    let mut max = entries[0].entry_index;
    let mut i: usize = 1;
    while i < entries.len()
        invariant
            1 <= i <= entries.len(),
            exists|k: int| 0 <= k < i && #[trigger] entries@[k].entry_index == min,
            exists|k: int| 0 <= k < i && #[trigger] entries@[k].entry_index == max,
            forall|k: int| 0 <= k < i ==> min <= #[trigger] entries@[k].entry_index <= max,
        decreases entries.len() - i,
    {
        let v = entries[i].entry_index;
        if v < min {
            min = v;
        }
        if v > max {
            max = v;
        }
        i = i + 1;
    }
    Some((entries.len() as i64, min, max))
}

/// The index of a JSON patch operation at `path` that adds or replaces a normalized log
/// entry: the path is `/entries/<index>` and the value an object whose `type` is
/// `NORMALIZED_ENTRY`.
pub open spec fn normalized_patch_index(path: Seq<char>, value: crate::redaction::JsonView) -> Option<int> {
    let prefix = "/entries/"@;
    if !crate::text::starts_with(path, prefix) {
        None
    } else {
        match crate::number::parse_i64(path.skip(prefix.len() as int)) {
            None => None,
            Some(index) => match value {
                crate::redaction::JsonView::Object(es) => match object_field(es, "type"@) {
                    Some(crate::redaction::JsonView::Str(t)) => if t == "NORMALIZED_ENTRY"@ {
                        Some(index)
                    } else {
                        None
                    },
                    _ => None,
                },
                _ => None,
            },
        }
    }
}

/// The value of the first field called `key`.
pub open spec fn object_field(
    es: Seq<(Seq<char>, crate::redaction::JsonView)>,
    key: Seq<char>,
) -> Option<crate::redaction::JsonView>
    decreases es.len(),
{
    if es.len() == 0 {
        None
    } else if es[0].0 == key {
        Some(es[0].1)
    } else {
        object_field(es.drop_first(), key)
    }
}

/// The entry index of a patch operation that writes a normalized log entry (see
/// `normalized_patch_index`).
#[verifier::loop_isolation(false)]
pub fn normalized_entry_index(path: &str, value: &JsonValue) -> (r: Option<i64>)
    ensures
        match normalized_patch_index(path@, value@) {
            Some(n) => r == Some(n as i64),
            None => r is None,
        },
{
    let v = crate::text::chars_of(path);
    let prefix = crate::text::chars_of("/entries/");
    if prefix.len() > v.len() || !crate::text::range_eq(&v, 0, prefix.len(), &prefix) {
        proof {
            if prefix.len() <= v.len() {
                assert(v@.subrange(0, prefix@.len() as int) =~= v@.take(prefix@.len() as int));
            }
        }
        return None;
    }
    proof {
        assert(v@.subrange(0, prefix@.len() as int) =~= v@.take(prefix@.len() as int));
    }
    let rest = crate::text::string_from_range(&v, prefix.len(), v.len());
    proof {
        assert(v@.subrange(prefix@.len() as int, v@.len() as int) =~= path@.skip("/entries/"@.len() as int));
    }
    let index = match parse_i64_str(rest.as_str()) {
        Some(n) => n,
        None => return None,
    };
    match value {
        JsonValue::Object(entries) => {
            let ghost es = value@->Object_0;
            let mut i: usize = 0;
            proof {
                assert(es.skip(0) =~= es);
            }
            while i < entries.len()
                invariant
                    i <= entries.len(),
                    es == value@->Object_0,
                    *value == JsonValue::Object(*entries),
                    es.len() == entries@.len(),
                    forall|k: int| 0 <= k < es.len() ==> #[trigger] es[k] == (entries@[k].0@, entries@[k].1@),
                    object_field(es, "type"@) == object_field(es.skip(i as int), "type"@),
                decreases entries.len() - i,
            {
                proof {
                    assert(es.skip(i as int)[0] == es[i as int]);
                    assert(es.skip(i as int).drop_first() =~= es.skip(i + 1));
                }
                if entries[i].0 == "type".to_owned() {
                    return match &entries[i].1 {
                        JsonValue::Str(t) => if *t == "NORMALIZED_ENTRY".to_owned() {
                            Some(index)
                        } else {
                            None
                        },
                        _ => None,
                    };
                }
                i = i + 1;
            }
            None
        },
        _ => None,
    }
}

/// The kind of a JSON patch operation, as far as log entries go.
#[derive(Clone, Copy, Debug, PartialEq, Eq, Structural)]
pub enum PatchOpKind {
    Add,
    Replace,
    Other,
}

/// One operation of a JSON patch: its kind, path and value.
#[derive(Debug)]
pub struct PatchOp {
    pub kind: PatchOpKind,
    pub path: String,
    pub value: JsonValue,
}

/// The operations of a patch that add or replace a normalized entry, as (position in the
/// patch, entry index), in order.
pub open spec fn normalized_patch_ops(ops: Seq<PatchOp>) -> Seq<(int, int)>
    decreases ops.len(),
{
    if ops.len() == 0 {
        seq![]
    } else {
        let rest = normalized_patch_ops(ops.drop_last());
        let o = ops.last();
        if o.kind == PatchOpKind::Other {
            rest
        } else {
            match normalized_patch_index(o.path@, o.value@) {
                Some(n) => rest.push((ops.len() - 1, n)),
                None => rest,
            }
        }
    }
}

/// Picks the normalized entries out of a patch (see `normalized_patch_ops`).
pub fn normalized_patch_entries(ops: &Vec<PatchOp>) -> (r: Vec<(usize, i64)>)
    ensures
        r@.map_values(|e: (usize, i64)| (e.0 as int, e.1 as int)) == normalized_patch_ops(ops@),
{
    let mut out: Vec<(usize, i64)> = Vec::new();
    let mut i: usize = 0;
    proof {
        assert(ops@.take(0) =~= Seq::<PatchOp>::empty());
        assert(out@.map_values(|e: (usize, i64)| (e.0 as int, e.1 as int)) =~= Seq::<(int, int)>::empty());
    }
    while i < ops.len()
        invariant
            i <= ops.len(),
            out@.map_values(|e: (usize, i64)| (e.0 as int, e.1 as int)) == normalized_patch_ops(
                ops@.take(i as int),
            ),
        decreases ops.len() - i,
    {
        proof {
            assert(ops@.take(i + 1).drop_last() =~= ops@.take(i as int));
            assert(ops@.take(i + 1).last() == ops@[i as int]);
        }
        let o = &ops[i];
        if o.kind != PatchOpKind::Other {
            match normalized_entry_index(o.path.as_str(), &o.value) {
                Some(n) => {
                    let ghost before = out@.map_values(|e: (usize, i64)| (e.0 as int, e.1 as int));
                    out.push((i, n));
                    proof {
                        assert(out@.map_values(|e: (usize, i64)| (e.0 as int, e.1 as int)) =~= before.push(
                            (i as int, n as int),
                        ));
                    }
                },
                None => {},
            }
        }
        i = i + 1;
    }
    proof {
        assert(ops@.take(i as int) =~= ops@);
    }
    out
}

} // verus!
