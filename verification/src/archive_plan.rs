//! Which tasks an archive takes or gives back: a milestone moves as a whole, never split
//! between the board and an archive (or between two archives).
use vstd::prelude::*;

use crate::graph::TaskStatus;

verus! {

/// A task row as archiving sees it: its row id, its milestone and the archive it sits in.
#[derive(Clone, Copy, Debug, PartialEq, Eq, Structural)]
pub struct ArchiveTaskRow {
    pub id: i64,
    pub milestone_id: Option<i64>,
    pub archived_kanban_id: Option<i64>,
}

pub open spec fn strictly_increasing(s: Seq<i64>) -> bool {
    forall|i: int, j: int| 0 <= i < j < s.len() ==> s[i] < s[j]
}

/// Some row belongs to milestone `m`.
pub open spec fn has_milestone(rows: Seq<ArchiveTaskRow>, m: i64) -> bool {
    exists|i: int| 0 <= i < rows.len() && rows[i].milestone_id == Some(m)
}

/// Where `x` goes in the increasing `s`: the first position whose element is not below it.
fn lower_bound(s: &Vec<i64>, x: i64) -> (p: usize)
    requires
        strictly_increasing(s@),
    ensures
        p <= s.len(),
        forall|j: int| 0 <= j < p ==> s@[j] < x,
        p < s.len() ==> x <= s@[p as int],
{
    let mut p: usize = 0;
    while p < s.len() && s[p] < x
        invariant
            p <= s.len(),
            forall|j: int| 0 <= j < p ==> s@[j] < x,
        decreases s.len() - p,
    {
        p = p + 1;
    }
    p
}

/// The milestones of the rows, each once, in increasing order (`sort_unstable` then
/// `dedup`).
pub fn selected_milestone_ids(rows: &Vec<ArchiveTaskRow>) -> (r: Vec<i64>)
    ensures
        strictly_increasing(r@),
        forall|m: i64| r@.contains(m) <==> has_milestone(rows@, m),
{
    let mut r: Vec<i64> = Vec::new();
    let mut k: usize = 0;
    while k < rows.len()
        invariant
            k <= rows.len(),
            strictly_increasing(r@),
            forall|m: i64| r@.contains(m) <==> has_milestone(rows@.take(k as int), m),
        decreases rows.len() - k,
    {
        let ghost before = r@;
        let ghost t0 = rows@.take(k as int);
        let ghost t1 = rows@.take(k + 1);
        proof {
            assert forall|m: i64| has_milestone(t1, m) <==> (has_milestone(t0, m)
                || rows@[k as int].milestone_id == Some(m)) by {
                if has_milestone(t1, m) {
                    let i = choose|i: int| 0 <= i < t1.len() && t1[i].milestone_id == Some(m);
                    if i < k {
                        assert(t0[i] == t1[i]);
                    }
                }
                if has_milestone(t0, m) {
                    let i = choose|i: int| 0 <= i < t0.len() && t0[i].milestone_id == Some(m);
                    assert(t1[i] == t0[i]);
                }
                if rows@[k as int].milestone_id == Some(m) {
                    assert(t1[k as int] == rows@[k as int]);
                }
            }
        }
        match rows[k].milestone_id {
            Some(m) => {
                let p = lower_bound(&r, m);
                if p < r.len() && r[p] == m {
                    proof {
                        assert(r@[p as int] == m);
                        assert(r@.contains(m));
                    }
                } else {
                    r.insert(p, m);
                    proof {
                        assert forall|i: int, j: int| 0 <= i < j < r@.len() implies r@[i] < r@[j] by {
                            if j < p {
                                assert(r@[i] == before[i] && r@[j] == before[j]);
                            } else if j == p {
                                assert(r@[i] == before[i]);
                            } else if i < p {
                                assert(r@[i] == before[i] && r@[j] == before[j - 1]);
                            } else if i == p {
                                assert(r@[j] == before[j - 1]);
                                assert(before[p as int] <= before[j - 1]);
                            } else {
                                assert(r@[i] == before[i - 1] && r@[j] == before[j - 1]);
                            }
                        }
                        assert forall|x: i64| r@.contains(x) <==> (before.contains(x) || x == m) by {
                            if r@.contains(x) {
                                let i = choose|i: int| 0 <= i < r@.len() && r@[i] == x;
                                if i < p {
                                    assert(before[i] == x);
                                } else if i > p {
                                    assert(before[i - 1] == x);
                                }
                            }
                            if before.contains(x) {
                                let i = choose|i: int| 0 <= i < before.len() && before[i] == x;
                                if i < p {
                                    assert(r@[i] == x);
                                } else {
                                    assert(r@[i + 1] == x);
                                }
                            }
                            if x == m {
                                assert(r@[p as int] == m);
                            }
                        }
                    }
                }
            },
            None => {},
        }
        proof {
            assert forall|x: i64| r@.contains(x) <==> has_milestone(t1, x) by {
                assert(before.contains(x) <==> has_milestone(t0, x));
                assert(has_milestone(t1, x) <==> (has_milestone(t0, x) || rows@[k as int].milestone_id == Some(x)));
            }
        }
        k = k + 1;
    }
    proof {
        assert(rows@.take(k as int) =~= rows@);
    }
    r
}

/// A milestone named in `ids` has a task outside the expected archive (`None`: on the
/// board).
pub open spec fn milestone_split(ids: Seq<i64>, tasks: Seq<ArchiveTaskRow>, expected: Option<i64>) -> bool {
    exists|i: int|
        0 <= i < tasks.len() && (#[trigger] tasks[i]).archived_kanban_id != expected && match tasks[i].milestone_id {
            Some(m) => ids.contains(m),
            None => false,
        }
}

/// Whether one of the milestones has a task outside the expected archive.
#[verifier::loop_isolation(false)]
pub fn is_milestone_split(ids: &Vec<i64>, tasks: &Vec<ArchiveTaskRow>, expected: Option<i64>) -> (r: bool)
    ensures
        r == milestone_split(ids@, tasks@, expected),
{
    let mut i: usize = 0;
    while i < tasks.len()
        invariant
            i <= tasks.len(),
            forall|j: int|
                0 <= j < i ==> !((#[trigger] tasks@[j]).archived_kanban_id != expected && match tasks@[j].milestone_id {
                    Some(m) => ids@.contains(m),
                    None => false,
                }),
        decreases tasks.len() - i,
    {
        let t = tasks[i];
        if t.archived_kanban_id != expected {
            match t.milestone_id {
                Some(m) => {
                    let mut k: usize = 0;
                    while k < ids.len()
                        invariant
                            k <= ids.len(),
                            forall|q: int| 0 <= q < k ==> ids@[q] != m,
                        decreases ids.len() - k,
                    {
                        if ids[k] == m {
                            proof {
                                assert(ids@.contains(m));
                                assert(tasks@[i as int] == t);
                            }
                            return true;
                        }
                        k = k + 1;
                    }
                },
                None => {},
            }
        }
        i = i + 1;
    }
    false
}

/// The last row of `rows` with this id.
pub open spec fn last_with_id(rows: Seq<ArchiveTaskRow>, id: i64) -> Option<ArchiveTaskRow>
    decreases rows.len(),
{
    if rows.len() == 0 {
        None
    } else if rows.last().id == id {
        Some(rows.last())
    } else {
        last_with_id(rows.drop_last(), id)
    }
}

pub open spec fn row_ids(rows: Seq<ArchiveTaskRow>) -> Seq<i64> {
    rows.map_values(|r: ArchiveTaskRow| r.id)
}

/// `r` holds, in increasing order of id, one row per id of `all`: the last one with it
/// (a map keyed by id, read in key order).
pub open spec fn keyed_by_id(r: Seq<ArchiveTaskRow>, all: Seq<ArchiveTaskRow>) -> bool {
    &&& strictly_increasing(row_ids(r))
    &&& forall|i: int| 0 <= i < r.len() ==> last_with_id(all, #[trigger] r[i].id) == Some(r[i])
    &&& forall|id: i64| (#[trigger] last_with_id(all, id)) is Some ==> row_ids(r).contains(id)
}

proof fn lemma_last_with_id_push(rows: Seq<ArchiveTaskRow>, x: ArchiveTaskRow, id: i64)
    ensures
        last_with_id(rows.push(x), id) == (if x.id == id {
            Some(x)
        } else {
            last_with_id(rows, id)
        }),
{
    assert(rows.push(x).drop_last() =~= rows);
}

proof fn lemma_last_with_id_is(rows: Seq<ArchiveTaskRow>, id: i64)
    ensures
        last_with_id(rows, id) matches Some(x) ==> x.id == id,
    decreases rows.len(),
{
    if rows.len() > 0 && rows.last().id != id {
        lemma_last_with_id_is(rows.drop_last(), id);
    }
}

fn concat_rows(first: &Vec<ArchiveTaskRow>, then: &Vec<ArchiveTaskRow>) -> (r: Vec<ArchiveTaskRow>)
    ensures
        r@ == first@ + then@,
{
    let mut r: Vec<ArchiveTaskRow> = Vec::new();
    let mut i: usize = 0;
    while i < first.len()
        invariant
            i <= first.len(),
            r@ == first@.take(i as int),
        decreases first.len() - i,
    {
        r.push(first[i]);
        proof {
            assert(first@.take(i + 1) =~= first@.take(i as int).push(first@[i as int]));
        }
        i = i + 1;
    }
    let mut j: usize = 0;
    proof {
        assert(first@.take(i as int) =~= first@);
    }
    while j < then.len()
        invariant
            j <= then.len(),
            r@ == first@ + then@.take(j as int),
        decreases then.len() - j,
    {
        r.push(then[j]);
        proof {
            assert(then@.take(j + 1) =~= then@.take(j as int).push(then@[j as int]));
            assert(first@ + then@.take(j + 1) =~= (first@ + then@.take(j as int)).push(then@[j as int]));
        }
        j = j + 1;
    }
    proof {
        assert(then@.take(j as int) =~= then@);
    }
    r
}

/// The rows of `first` and then `then`, one per id, the later one winning, in increasing
/// order of id.
#[verifier::spinoff_prover]
pub fn rows_by_id(first: &Vec<ArchiveTaskRow>, then: &Vec<ArchiveTaskRow>) -> (r: Vec<ArchiveTaskRow>)
    ensures
        keyed_by_id(r@, first@ + then@),
{
    let rows = concat_rows(first, then);
    let ghost all = first@ + then@;
    let mut r: Vec<ArchiveTaskRow> = Vec::new();
    let mut k: usize = 0;
    proof {
        assert(all.take(0) =~= Seq::<ArchiveTaskRow>::empty());
        assert(row_ids(r@) =~= Seq::<i64>::empty());
    }
    while k < rows.len()
        invariant
            rows@ == all,
            all == first@ + then@,
            k <= rows.len(),
            keyed_by_id(r@, all.take(k as int)),
        decreases rows.len() - k,
    {
        let x = rows[k];
        let ghost before = r@;
        let ghost pre = all.take(k as int);
        proof {
            assert(x == all[k as int]);
            assert(all.take(k + 1) =~= pre.push(x));
        }
        let mut p: usize = 0;
        while p < r.len() && r[p].id < x.id
            invariant
                p <= r.len(),
                r@ == before,
                forall|j: int| 0 <= j < p ==> r@[j].id < x.id,
            decreases r.len() - p,
        {
            p = p + 1;
        }
        proof {
            assert forall|j: int| 0 <= j < before.len() implies row_ids(before)[j] == before[j].id by {}
        }
        if p < r.len() && r[p].id == x.id {
            r.set(p, x);
            proof {
                assert(r@ == before.update(p as int, x));
                assert forall|i: int| 0 <= i < r@.len() implies last_with_id(all.take(k + 1), #[trigger] r@[i].id) == Some(r@[i]) by {
                    lemma_last_with_id_push(pre, x, r@[i].id);
                    if i != p {
                        assert(r@[i] == before[i]);
                        assert(row_ids(before)[i] != row_ids(before)[p as int]);
                        assert(last_with_id(pre, before[i].id) == Some(before[i]));
                    }
                }
                assert forall|id: i64| (#[trigger] last_with_id(all.take(k + 1), id)) is Some implies row_ids(r@).contains(id) by {
                    lemma_last_with_id_push(pre, x, id);
                    if id == x.id {
                        assert(row_ids(r@)[p as int] == id);
                    } else {
                        let j = choose|j: int| 0 <= j < row_ids(before).len() && row_ids(before)[j] == id;
                        assert(row_ids(r@)[j] == id);
                    }
                }
                assert(row_ids(r@) =~= row_ids(before));
            }
        } else {
            r.insert(p, x);
            proof {
                assert(r@ == before.insert(p as int, x));
                assert forall|i: int, j: int| 0 <= i < j < row_ids(r@).len() implies row_ids(r@)[i] < row_ids(r@)[j] by {
                    if j < p {
                        assert(r@[i] == before[i] && r@[j] == before[j]);
                        assert(row_ids(before)[i] < row_ids(before)[j]);
                    } else if j == p {
                        assert(r@[i] == before[i]);
                    } else if i < p {
                        assert(r@[i] == before[i] && r@[j] == before[j - 1]);
                        assert(row_ids(before)[i] < row_ids(before)[j - 1]);
                    } else if i == p {
                        assert(r@[j] == before[j - 1]);
                        if j - 1 > p {
                            assert(row_ids(before)[p as int] < row_ids(before)[j - 1]);
                        }
                    } else {
                        assert(r@[i] == before[i - 1] && r@[j] == before[j - 1]);
                        assert(row_ids(before)[i - 1] < row_ids(before)[j - 1]);
                    }
                }
                assert forall|i: int| 0 <= i < r@.len() implies last_with_id(all.take(k + 1), #[trigger] r@[i].id) == Some(r@[i]) by {
                    lemma_last_with_id_push(pre, x, r@[i].id);
                    if i < p {
                        assert(r@[i] == before[i]);
                    } else if i > p {
                        assert(r@[i] == before[i - 1]);
                    }
                }
                assert forall|id: i64| (#[trigger] last_with_id(all.take(k + 1), id)) is Some implies row_ids(r@).contains(id) by {
                    lemma_last_with_id_push(pre, x, id);
                    if id == x.id {
                        assert(row_ids(r@)[p as int] == id);
                    } else {
                        let j = choose|j: int| 0 <= j < row_ids(before).len() && row_ids(before)[j] == id;
                        if j < p {
                            assert(row_ids(r@)[j] == id);
                        } else {
                            assert(row_ids(r@)[j + 1] == id);
                        }
                    }
                }
            }
        }
        k = k + 1;
    }
    proof {
        assert(all.take(k as int) =~= all);
    }
    r
}

/// Why an archive cannot be made.
#[derive(Clone, Copy, Debug, PartialEq, Eq, Structural)]
pub enum ArchiveSelectionError {
    /// "No matching tasks to archive".
    NoMatchingTasks,
    /// "Milestone is already archived/split. Restore the milestone first before archiving
    /// again."
    MilestoneSplit,
    /// "Some selected tasks are already archived. Restore them first."
    AlreadyArchived,
}

/// Some row belongs to a milestone.
pub open spec fn any_milestone(rows: Seq<ArchiveTaskRow>) -> bool {
    exists|i: int| 0 <= i < rows.len() && (#[trigger] rows[i]).milestone_id is Some
}

/// The milestone tasks that join the selection: those fetched for the selected rows'
/// milestones, or none when no selected row has a milestone (nothing is fetched then).
pub open spec fn expanded_tasks(selected: Seq<ArchiveTaskRow>, milestone_tasks: Seq<ArchiveTaskRow>) -> Seq<ArchiveTaskRow> {
    if any_milestone(selected) {
        milestone_tasks
    } else {
        seq![]
    }
}

/// A task of a selected row's milestone sits outside the expected archive (`None`: on the
/// board).
pub open spec fn split_from(selected: Seq<ArchiveTaskRow>, tasks: Seq<ArchiveTaskRow>, expected: Option<i64>) -> bool {
    exists|i: int|
        0 <= i < tasks.len() && (#[trigger] tasks[i]).archived_kanban_id != expected && match tasks[i].milestone_id {
            Some(m) => has_milestone(selected, m),
            None => false,
        }
}

/// Some id's row (the last one with it) is already in an archive.
pub open spec fn archived_in(all: Seq<ArchiveTaskRow>) -> bool {
    exists|id: i64| #[trigger] last_with_id(all, id) matches Some(x) && x.archived_kanban_id is Some
}

proof fn lemma_split_by_ids(ids: Seq<i64>, selected: Seq<ArchiveTaskRow>, tasks: Seq<ArchiveTaskRow>, expected: Option<i64>)
    requires
        forall|m: i64| ids.contains(m) <==> has_milestone(selected, m),
    ensures
        milestone_split(ids, tasks, expected) == split_from(selected, tasks, expected),
{
    if milestone_split(ids, tasks, expected) {
        let i = choose|i: int|
            0 <= i < tasks.len() && (#[trigger] tasks[i]).archived_kanban_id != expected && match tasks[i].milestone_id {
                Some(m) => ids.contains(m),
                None => false,
            };
        assert(tasks[i].archived_kanban_id != expected);
    }
    if split_from(selected, tasks, expected) {
        let i = choose|i: int|
            0 <= i < tasks.len() && (#[trigger] tasks[i]).archived_kanban_id != expected && match tasks[i].milestone_id {
                Some(m) => has_milestone(selected, m),
                None => false,
            };
        assert(tasks[i].archived_kanban_id != expected);
    }
}

proof fn lemma_any_milestone_ids(ids: Seq<i64>, selected: Seq<ArchiveTaskRow>)
    requires
        forall|m: i64| ids.contains(m) <==> has_milestone(selected, m),
    ensures
        (ids.len() > 0) == any_milestone(selected),
{
    if ids.len() > 0 {
        assert(ids.contains(ids[0]));
        assert(has_milestone(selected, ids[0]));
        let i = choose|i: int| 0 <= i < selected.len() && selected[i].milestone_id == Some(ids[0]);
        assert(selected[i].milestone_id is Some);
    }
    if any_milestone(selected) {
        let i = choose|i: int| 0 <= i < selected.len() && (#[trigger] selected[i]).milestone_id is Some;
        let m = selected[i].milestone_id->0;
        assert(has_milestone(selected, m));
        assert(ids.contains(m));
    }
}

/// Whether one of the rows is in an archive; on rows keyed by id, whether one id's row is.
fn find_archived(merged: &Vec<ArchiveTaskRow>, Ghost(all): Ghost<Seq<ArchiveTaskRow>>) -> (r: bool)
    requires
        keyed_by_id(merged@, all),
    ensures
        r == archived_in(all),
{
    let mut i: usize = 0;
    while i < merged.len()
        invariant
            i <= merged.len(),
            keyed_by_id(merged@, all),
            forall|j: int| 0 <= j < i ==> (#[trigger] merged@[j]).archived_kanban_id is None,
        decreases merged.len() - i,
    {
        if merged[i].archived_kanban_id.is_some() {
            proof {
                assert(last_with_id(all, merged@[i as int].id) == Some(merged@[i as int]));
            }
            return true;
        }
        i = i + 1;
    }
    proof {
        if archived_in(all) {
            let id = choose|id: i64| #[trigger] last_with_id(all, id) matches Some(x) && x.archived_kanban_id is Some;
            let j = choose|j: int| 0 <= j < row_ids(merged@).len() && row_ids(merged@)[j] == id;
            assert(merged@[j].id == id);
            assert(last_with_id(all, merged@[j].id) == Some(merged@[j]));
        }
    }
    false
}

/// Decides which tasks an archive takes, or why it cannot be made: every selected task and
/// every task of a selected task's milestone (`milestone_tasks`, the tasks of those
/// milestones), one row per id in increasing order of id; refused when nothing is selected,
/// when such a milestone is already partly archived, or when one of the tasks is.
pub fn archive_selection(selected: &Vec<ArchiveTaskRow>, milestone_tasks: &Vec<ArchiveTaskRow>) -> (r: Result<Vec<ArchiveTaskRow>, ArchiveSelectionError>)
    ensures
        ({
            let expanded = expanded_tasks(selected@, milestone_tasks@);
            let all = selected@ + expanded;
            match r {
                Ok(v) => selected@.len() > 0 && !split_from(selected@, expanded, None) && !archived_in(all)
                    && keyed_by_id(v@, all),
                Err(ArchiveSelectionError::NoMatchingTasks) => selected@.len() == 0,
                Err(ArchiveSelectionError::MilestoneSplit) => selected@.len() > 0 && split_from(
                    selected@,
                    expanded,
                    None,
                ),
                Err(ArchiveSelectionError::AlreadyArchived) => selected@.len() > 0 && !split_from(
                    selected@,
                    expanded,
                    None,
                ) && archived_in(all),
            }
        }),
{
    if selected.len() == 0 {
        return Err(ArchiveSelectionError::NoMatchingTasks);
    }
    let ids = selected_milestone_ids(selected);
    proof {
        lemma_any_milestone_ids(ids@, selected@);
    }
    let empty: Vec<ArchiveTaskRow> = Vec::new();
    let expanded = if ids.len() == 0 {
        &empty
    } else {
        milestone_tasks
    };
    proof {
        assert(expanded@ == expanded_tasks(selected@, milestone_tasks@));
        lemma_split_by_ids(ids@, selected@, expanded@, None);
    }
    if is_milestone_split(&ids, expanded, None) {
        return Err(ArchiveSelectionError::MilestoneSplit);
    }
    let merged = rows_by_id(selected, expanded);
    if find_archived(&merged, Ghost(selected@ + expanded@)) {
        return Err(ArchiveSelectionError::AlreadyArchived);
    }
    Ok(merged)
}

/// The rows outside any milestone, in order.
pub open spec fn standalone_rows(rows: Seq<ArchiveTaskRow>) -> Seq<ArchiveTaskRow>
    decreases rows.len(),
{
    if rows.len() == 0 {
        seq![]
    } else if rows.last().milestone_id is None {
        standalone_rows(rows.drop_last()).push(rows.last())
    } else {
        standalone_rows(rows.drop_last())
    }
}

fn standalone(rows: &Vec<ArchiveTaskRow>) -> (r: Vec<ArchiveTaskRow>)
    ensures
        r@ == standalone_rows(rows@),
{
    let mut out: Vec<ArchiveTaskRow> = Vec::new();
    let mut i: usize = 0;
    proof {
        assert(rows@.take(0) =~= Seq::<ArchiveTaskRow>::empty());
    }
    while i < rows.len()
        invariant
            i <= rows.len(),
            out@ == standalone_rows(rows@.take(i as int)),
        decreases rows.len() - i,
    {
        proof {
            assert(rows@.take(i + 1).drop_last() =~= rows@.take(i as int));
        }
        if rows[i].milestone_id.is_none() {
            out.push(rows[i]);
        }
        i = i + 1;
    }
    proof {
        assert(rows@.take(i as int) =~= rows@);
    }
    out
}

/// "Milestone is split across archives/active. Restore the milestone consistently before
/// continuing."
#[derive(Clone, Copy, Debug, PartialEq, Eq, Structural)]
pub struct RestoreSplitError;

/// Decides which tasks a restore brings back from archive `archive_row_id`: the selected
/// tasks outside milestones and every task of a selected task's milestone
/// (`milestone_tasks`), one row per id in increasing order of id; refused when such a
/// milestone has a task outside this archive.
pub fn restore_selection(selected: &Vec<ArchiveTaskRow>, milestone_tasks: &Vec<ArchiveTaskRow>, archive_row_id: i64) -> (r: Result<Vec<ArchiveTaskRow>, RestoreSplitError>)
    ensures
        ({
            let expanded = expanded_tasks(selected@, milestone_tasks@);
            match r {
                Ok(v) => !split_from(selected@, expanded, Some(archive_row_id)) && keyed_by_id(
                    v@,
                    standalone_rows(selected@) + expanded,
                ),
                Err(_) => split_from(selected@, expanded, Some(archive_row_id)),
            }
        }),
{
    let base = standalone(selected);
    let ids = selected_milestone_ids(selected);
    proof {
        lemma_any_milestone_ids(ids@, selected@);
    }
    let empty: Vec<ArchiveTaskRow> = Vec::new();
    let expanded = if ids.len() == 0 {
        &empty
    } else {
        milestone_tasks
    };
    proof {
        assert(expanded@ == expanded_tasks(selected@, milestone_tasks@));
        lemma_split_by_ids(ids@, selected@, expanded@, Some(archive_row_id));
    }
    if is_milestone_split(&ids, expanded, Some(archive_row_id)) {
        return Err(RestoreSplitError);
    }
    Ok(rows_by_id(&base, expanded))
}

/// The task belongs to the milestone of a selected task.
pub open spec fn in_selected_milestone(selected: Seq<ArchiveTaskRow>, t: ArchiveTaskRow) -> bool {
    match t.milestone_id {
        Some(m) => has_milestone(selected, m),
        None => false,
    }
}

proof fn lemma_last_with_id_some(rows: Seq<ArchiveTaskRow>, i: int)
    requires
        0 <= i < rows.len(),
    ensures
        last_with_id(rows, rows[i].id) is Some,
    decreases rows.len(),
{
    if rows.last().id != rows[i].id {
        assert(i < rows.len() - 1);
        assert(rows.drop_last()[i] == rows[i]);
        lemma_last_with_id_some(rows.drop_last(), i);
    }
}

/// Every row of `all` has its id among the keyed rows, and each id comes once.
proof fn lemma_keyed_covers(r: Seq<ArchiveTaskRow>, all: Seq<ArchiveTaskRow>)
    requires
        keyed_by_id(r, all),
    ensures
        forall|i: int| 0 <= i < all.len() ==> row_ids(r).contains(#[trigger] all[i].id),
        forall|i: int, j: int| 0 <= i < j < r.len() ==> r[i].id != r[j].id,
{
    assert forall|i: int| 0 <= i < all.len() implies row_ids(r).contains(#[trigger] all[i].id) by {
        lemma_last_with_id_some(all, i);
    }
    assert forall|i: int, j: int| 0 <= i < j < r.len() implies r[i].id != r[j].id by {
        assert(row_ids(r)[i] < row_ids(r)[j]);
    }
}

/// An archive takes each of its tasks once, every selected task, and every task of a
/// selected task's milestone: no milestone is left partly on the board.
pub proof fn law_archive_keeps_milestones_whole(
    selected: Seq<ArchiveTaskRow>,
    milestone_tasks: Seq<ArchiveTaskRow>,
    taken: Seq<ArchiveTaskRow>,
)
    requires
        keyed_by_id(taken, selected + expanded_tasks(selected, milestone_tasks)),
    ensures
        forall|i: int| 0 <= i < selected.len() ==> row_ids(taken).contains(#[trigger] selected[i].id),
        forall|i: int|
            0 <= i < milestone_tasks.len() && in_selected_milestone(selected, #[trigger] milestone_tasks[i]) ==> row_ids(taken).contains(milestone_tasks[i].id),
        forall|i: int, j: int| 0 <= i < j < taken.len() ==> taken[i].id != taken[j].id,
{
    let all = selected + expanded_tasks(selected, milestone_tasks);
    lemma_keyed_covers(taken, all);
    assert forall|i: int| 0 <= i < selected.len() implies row_ids(taken).contains(#[trigger] selected[i].id) by {
        assert(all[i] == selected[i]);
    }
    assert forall|i: int|
        0 <= i < milestone_tasks.len() && in_selected_milestone(selected, #[trigger] milestone_tasks[i]) implies row_ids(taken).contains(milestone_tasks[i].id) by {
        let m = milestone_tasks[i].milestone_id->0;
        let j = choose|j: int| 0 <= j < selected.len() && selected[j].milestone_id == Some(m);
        assert(selected[j].milestone_id is Some);
        assert(any_milestone(selected));
        assert(all[selected.len() + i] == milestone_tasks[i]);
    }
}

/// A restore brings back each of its tasks once, every selected task outside a milestone,
/// and every task of a selected task's milestone.
pub proof fn law_restore_keeps_milestones_whole(
    selected: Seq<ArchiveTaskRow>,
    milestone_tasks: Seq<ArchiveTaskRow>,
    restored: Seq<ArchiveTaskRow>,
)
    requires
        keyed_by_id(restored, standalone_rows(selected) + expanded_tasks(selected, milestone_tasks)),
    ensures
        forall|i: int|
            0 <= i < selected.len() && (#[trigger] selected[i]).milestone_id is None ==> row_ids(
                restored,
            ).contains(selected[i].id),
        forall|i: int|
            0 <= i < milestone_tasks.len() && in_selected_milestone(selected, #[trigger] milestone_tasks[i]) ==> row_ids(restored).contains(milestone_tasks[i].id),
        forall|i: int, j: int| 0 <= i < j < restored.len() ==> restored[i].id != restored[j].id,
{
    let base = standalone_rows(selected);
    let all = base + expanded_tasks(selected, milestone_tasks);
    lemma_keyed_covers(restored, all);
    assert forall|i: int|
        0 <= i < selected.len() && (#[trigger] selected[i]).milestone_id is None implies row_ids(
            restored,
        ).contains(selected[i].id) by {
        let k = lemma_standalone_has(selected, i);
        assert(all[k] == base[k]);
    }
    assert forall|i: int|
        0 <= i < milestone_tasks.len() && in_selected_milestone(selected, #[trigger] milestone_tasks[i]) implies row_ids(restored).contains(milestone_tasks[i].id) by {
        let m = milestone_tasks[i].milestone_id->0;
        let j = choose|j: int| 0 <= j < selected.len() && selected[j].milestone_id == Some(m);
        assert(selected[j].milestone_id is Some);
        assert(any_milestone(selected));
        assert(all[base.len() + i] == milestone_tasks[i]);
    }
}

proof fn lemma_standalone_has(rows: Seq<ArchiveTaskRow>, i: int) -> (k: int)
    requires
        0 <= i < rows.len(),
        rows[i].milestone_id is None,
    ensures
        0 <= k < standalone_rows(rows).len(),
        standalone_rows(rows)[k] == rows[i],
    decreases rows.len(),
{
    if i == rows.len() - 1 {
        standalone_rows(rows.drop_last()).len() as int
    } else {
        assert(rows.drop_last()[i] == rows[i]);
        lemma_standalone_has(rows.drop_last(), i)
    }
}

/// Why a restore request is refused.
#[derive(Clone, Copy, Debug, PartialEq, Eq, Structural)]
pub enum RestoreRequestError {
    /// "Do not provide statuses when restore_all=true".
    StatusesWithRestoreAll,
    /// "At least one status is required".
    NoStatuses,
}

/// Which statuses a restore takes: `None` for all of them.
pub fn restore_statuses(restore_all: Option<bool>, statuses: Option<Vec<TaskStatus>>) -> (r: Result<Option<Vec<TaskStatus>>, RestoreRequestError>)
    ensures
        ({
            let all = restore_all == Some(true);
            let n = match statuses {
                Some(s) => s@.len(),
                None => 0,
            };
            match r {
                Ok(None) => all && n == 0,
                Ok(Some(s)) => !all && n > 0 && statuses == Some(s),
                Err(RestoreRequestError::StatusesWithRestoreAll) => all && n > 0,
                Err(RestoreRequestError::NoStatuses) => !all && n == 0,
            }
        }),
{
    let all = match restore_all {
        Some(b) => b,
        None => false,
    };
    let list = match statuses {
        Some(s) => s,
        None => Vec::new(),
    };
    if all && list.len() > 0 {
        return Err(RestoreRequestError::StatusesWithRestoreAll);
    }
    if all {
        return Ok(None);
    }
    if list.len() == 0 {
        return Err(RestoreRequestError::NoStatuses);
    }
    Ok(Some(list))
}

impl ArchiveSelectionError {
    /// The message the API answers with.
    pub fn message(&self) -> (r: &'static str)
        ensures
            r@ == match *self {
                ArchiveSelectionError::NoMatchingTasks => "No matching tasks to archive"@,
                ArchiveSelectionError::MilestoneSplit => "Milestone is already archived/split. Restore the milestone first before archiving again."@,
                ArchiveSelectionError::AlreadyArchived => "Some selected tasks are already archived. Restore them first."@,
            },
    {
        match self {
            ArchiveSelectionError::NoMatchingTasks => "No matching tasks to archive",
            ArchiveSelectionError::MilestoneSplit => "Milestone is already archived/split. Restore the milestone first before archiving again.",
            ArchiveSelectionError::AlreadyArchived => "Some selected tasks are already archived. Restore them first.",
        }
    }
}

impl RestoreRequestError {
    /// The message the API answers with.
    pub fn message(&self) -> (r: &'static str)
        ensures
            r@ == match *self {
                RestoreRequestError::StatusesWithRestoreAll => "Do not provide statuses when restore_all=true"@,
                RestoreRequestError::NoStatuses => "At least one status is required"@,
            },
    {
        match self {
            RestoreRequestError::StatusesWithRestoreAll => "Do not provide statuses when restore_all=true",
            RestoreRequestError::NoStatuses => "At least one status is required",
        }
    }
}

impl RestoreSplitError {
    /// The message the API answers with.
    pub fn message(&self) -> (r: &'static str)
        ensures
            r@ == "Milestone is split across archives/active. Restore the milestone consistently before continuing."@,
    {
        "Milestone is split across archives/active. Restore the milestone consistently before continuing."
    }
}

} // verus!
