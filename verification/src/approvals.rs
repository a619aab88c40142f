//! Matching an approval request to the tool call it is about, in an execution's log history.
use vstd::prelude::*;

use crate::graph::TaskStatus;

use crate::text::opt_view;

verus! {

/// A normalized log entry that a history message adds or replaces, as far as approvals read
/// it: its index, whether it is a tool use, whether that tool use is still `Created` (not yet
/// waiting for an approval), and the tool call id in its metadata, if it has one.
#[derive(Clone, Debug)]
pub struct ToolUseEntry {
    pub entry_index: usize,
    pub is_tool_use: bool,
    pub created: bool,
    pub tool_call_id: Option<String>,
}

pub type ToolUseView = (usize, bool, bool, Option<Seq<char>>);

impl View for ToolUseEntry {
    type V = ToolUseView;

    open spec fn view(&self) -> ToolUseView {
        (self.entry_index, self.is_tool_use, self.created, opt_view(self.tool_call_id))
    }
}

/// The latest entry (the last in the history) that `accept` takes, as (entry index, position).
pub open spec fn latest_match(history: Seq<ToolUseView>, call_id: Seq<char>, need_created: bool) -> Option<(usize, int)>
    decreases history.len(),
{
    if history.len() == 0 {
        None
    } else {
        let e = history.last();
        if e.1 && (!need_created || e.2) && e.3 == Some(call_id) {
            Some((e.0, history.len() - 1))
        } else {
            latest_match(history.drop_last(), call_id, need_created)
        }
    }
}

fn latest(history: &Vec<ToolUseEntry>, call_id: &str, need_created: bool) -> (r: Option<(usize, usize)>)
    ensures
        match latest_match(history@.map_values(|e: ToolUseEntry| e@), call_id@, need_created) {
            Some((idx, pos)) => r == Some((idx, pos as usize)),
            None => r is None,
        },
{
    let ghost hv = history@.map_values(|e: ToolUseEntry| e@);
    let key = call_id.to_owned();
    let mut i: usize = history.len();
    proof {
        assert(hv.take(i as int) =~= hv);
    }
    while i > 0
        invariant
            i <= history.len(),
            hv == history@.map_values(|e: ToolUseEntry| e@),
            key@ == call_id@,
            latest_match(hv, call_id@, need_created) == latest_match(hv.take(i as int), call_id@, need_created),
        decreases i,
    {
        let e = &history[i - 1];
        proof {
            assert(hv.take(i as int).last() == e@);
            assert(hv.take(i as int).drop_last() =~= hv.take(i - 1));
        }
        let id_matches = match &e.tool_call_id {
            Some(id) => *id == key,
            None => false,
        };
        if e.is_tool_use && (!need_created || e.created) && id_matches {
            return Some((e.entry_index, i - 1));
        }
        i = i - 1;
    }
    None
}

/// The entry an approval for `call_id` is about, searching from the latest message back:
/// only the latest message about each entry tells its state, so an entry is matched when
/// its latest message (the first met) shows a tool use that is still `Created` and carries
/// that call id. `seen` holds the entries whose latest message was already met. Gives the
/// entry index and the position of that message.
pub open spec fn unassigned_match(history: Seq<ToolUseView>, call_id: Seq<char>, seen: Set<usize>) -> Option<(usize, int)>
    decreases history.len(),
{
    if history.len() == 0 {
        None
    } else {
        let e = history.last();
        if !seen.contains(e.0) && e.1 && e.2 && e.3 == Some(call_id) {
            Some((e.0, history.len() - 1))
        } else {
            unassigned_match(history.drop_last(), call_id, seen.insert(e.0))
        }
    }
}

fn contains_index(v: &Vec<usize>, x: usize) -> (r: bool)
    ensures
        r == v@.contains(x),
{
    let mut i: usize = 0;
    while i < v.len()
        invariant
            i <= v.len(),
            forall|j: int| 0 <= j < i ==> v@[j] != x,
        decreases v.len() - i,
    {
        if v[i] == x {
            return true;
        }
        i = i + 1;
    }
    false
}

/// The tool use that an approval for `tool_call_id` is about: a tool use with that call id
/// that has not been assigned to an approval yet, judged by the latest message about each
/// entry (see `unassigned_match`). Gives its entry index and its position in the history.
pub fn find_matching_tool_use(history: &Vec<ToolUseEntry>, tool_call_id: &str) -> (r: Option<(usize, usize)>)
    ensures
        match unassigned_match(history@.map_values(|e: ToolUseEntry| e@), tool_call_id@, Set::empty()) {
            Some((idx, pos)) => r == Some((idx, pos as usize)),
            None => r is None,
        },
{
    let ghost hv = history@.map_values(|e: ToolUseEntry| e@);
    let key = tool_call_id.to_owned();
    let mut seen: Vec<usize> = Vec::new();
    let ghost mut s: Set<usize> = Set::empty();
    let mut i: usize = history.len();
    proof {
        assert(hv.take(i as int) =~= hv);
    }
    while i > 0
        invariant
            i <= history.len(),
            hv == history@.map_values(|e: ToolUseEntry| e@),
            key@ == tool_call_id@,
            forall|x: usize| seen@.contains(x) <==> s.contains(x),
            unassigned_match(hv, tool_call_id@, Set::empty()) == unassigned_match(
                hv.take(i as int),
                tool_call_id@,
                s,
            ),
        decreases i,
    {
        let e = &history[i - 1];
        proof {
            assert(hv.take(i as int).last() == e@);
            assert(hv.take(i as int).drop_last() =~= hv.take(i - 1));
        }
        let already = contains_index(&seen, e.entry_index);
        let id_matches = match &e.tool_call_id {
            Some(id) => *id == key,
            None => false,
        };
        if !already && e.is_tool_use && e.created && id_matches {
            return Some((e.entry_index, i - 1));
        }
        let ghost old_seen = seen@;
        seen.push(e.entry_index);
        proof {
            s = s.insert(e.entry_index);
            assert forall|x: usize| seen@.contains(x) <==> s.contains(x) by {
                if seen@.contains(x) {
                    let j = choose|j: int| 0 <= j < seen@.len() && seen@[j] == x;
                    if j < old_seen.len() {
                        assert(old_seen[j] == x);
                    }
                }
                if old_seen.contains(x) {
                    let j = choose|j: int| 0 <= j < old_seen.len() && old_seen[j] == x;
                    assert(seen@[j] == x);
                }
                assert(seen@[seen@.len() - 1] == e.entry_index);
            }
        }
        i = i - 1;
    }
    None
}

/// The latest tool use with call id `tool_call_id`, whatever its status.
pub fn find_tool_use_by_call_id(history: &Vec<ToolUseEntry>, tool_call_id: &str) -> (r: Option<(usize, usize)>)
    ensures
        match latest_match(history@.map_values(|e: ToolUseEntry| e@), tool_call_id@, false) {
            Some((idx, pos)) => r == Some((idx, pos as usize)),
            None => r is None,
        },
{
    latest(history, tool_call_id, false)
}

/// Why an answer cannot be applied to an approval.
#[derive(Clone, Copy, Debug, PartialEq, Eq, Structural)]
pub enum ResponseTargetError {
    /// The answer names another execution process than the approval's.
    ExecutionProcessMismatch { expected: u128, got: u128 },
}

/// Message of an answer that names the wrong execution process.
pub open spec fn mismatch_message(expected: u128, got: u128) -> Seq<char> {
    "execution_process_id mismatch for approval: expected "@ + crate::ids::uuid_text(expected)
        + ", got "@ + crate::ids::uuid_text(got)
}

impl ResponseTargetError {
    /// The message reported for the error.
    pub fn message(&self) -> (r: String)
        ensures
            r@ == match *self {
                ResponseTargetError::ExecutionProcessMismatch { expected, got } => mismatch_message(expected, got),
            },
    {
        match self {
            ResponseTargetError::ExecutionProcessMismatch { expected, got } => {
                let mut m = "execution_process_id mismatch for approval: expected ".to_owned();
                let e = crate::ids::uuid_string(*expected);
                crate::text::push_str(&mut m, e.as_str());
                crate::text::push_str(&mut m, ", got ");
                let g = crate::ids::uuid_string(*got);
                crate::text::push_str(&mut m, g.as_str());
                m
            },
        }
    }
}

/// Checks that an answer is for the execution process the stored approval belongs to.
pub fn check_response_target(stored_execution_process_id: u128, requested_execution_process_id: u128) -> (r: Result<(), ResponseTargetError>)
    ensures
        stored_execution_process_id == requested_execution_process_id ==> r is Ok,
        stored_execution_process_id != requested_execution_process_id ==> r == Err::<(), ResponseTargetError>(
            ResponseTargetError::ExecutionProcessMismatch {
                expected: stored_execution_process_id,
                got: requested_execution_process_id,
            },
        ),
{
    if stored_execution_process_id == requested_execution_process_id {
        Ok(())
    } else {
        Err(ResponseTargetError::ExecutionProcessMismatch {
            expected: stored_execution_process_id,
            got: requested_execution_process_id,
        })
    }
}

/// Where an approval stands.
#[derive(Clone, Debug, PartialEq, Eq)]
pub enum ApprovalStatus {
    Pending,
    Approved,
    Denied { reason: Option<String> },
    TimedOut,
}

/// The status an approval ends with when answered: the answer while it is pending, else
/// the status it already has.
pub open spec fn answered_status(current: ApprovalStatus, answer: ApprovalStatus) -> ApprovalStatus {
    if current is Pending {
        answer
    } else {
        current
    }
}

/// Answers an approval (see `answered_status`).
pub fn approval_final_status(current: ApprovalStatus, answer: ApprovalStatus) -> (r: ApprovalStatus)
    ensures
        r == answered_status(current, answer),
{
    match current {
        ApprovalStatus::Pending => answer,
        _ => current,
    }
}

/// Answering is idempotent: once an approval has been answered with something other than
/// `Pending`, a later answer leaves its status as it is.
pub proof fn law_answer_is_final(current: ApprovalStatus, first: ApprovalStatus, second: ApprovalStatus)
    requires
        !(first is Pending),
    ensures
        answered_status(answered_status(current, first), second) == answered_status(current, first),
{
}

/// An answered approval (approved or denied) moves a task waiting in review back to in
/// progress.
pub fn resumes_task(status: &ApprovalStatus, task_status: TaskStatus) -> (r: bool)
    ensures
        r == ((*status is Approved || *status is Denied) && task_status == TaskStatus::InReview),
{
    let answered = match status {
        ApprovalStatus::Approved => true,
        ApprovalStatus::Denied { .. } => true,
        _ => false,
    };
    answered && task_status == TaskStatus::InReview
}

/// How long to wait for an answer before the approval times out: the time left until the
/// deadline, or nothing when it has passed (times in milliseconds).
pub fn time_until_timeout(timeout_at_ms: i64, now_ms: i64) -> (r: u64)
    ensures
        r == (if timeout_at_ms > now_ms {
            (timeout_at_ms - now_ms) as u64
        } else {
            0u64
        }),
{
    if timeout_at_ms > now_ms {
        let d: i128 = timeout_at_ms as i128 - now_ms as i128;
        d as u64
    } else {
        0
    }
}

} // verus!
