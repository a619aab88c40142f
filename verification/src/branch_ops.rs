//! Branch operations of an attempt: renaming its branch, what its pull requests say of it,
//! and the message of a direct merge.
use vstd::prelude::*;

use crate::ids::{uuid_string, uuid_text};
use crate::text::{opt_view, trim, trimmed};

verus! {

/// Why a branch rename was refused or failed.
#[derive(Clone, Debug, PartialEq, Eq)]
pub enum RenameBranchError {
    EmptyBranchName,
    InvalidBranchNameFormat,
    OpenPullRequest,
    BranchAlreadyExists { repo_name: String },
    RebaseInProgress { repo_name: String },
    RenameFailed { repo_name: String, message: String },
}

impl RenameBranchError {
    /// The HTTP status the error is answered with: a bad request for the name, a conflict
    /// for the state of the repositories, a server error when git failed.
    pub fn status_code(&self) -> (r: u16)
        ensures
            r == match *self {
                RenameBranchError::EmptyBranchName => 400u16,
                RenameBranchError::InvalidBranchNameFormat => 400u16,
                RenameBranchError::OpenPullRequest => 409u16,
                RenameBranchError::BranchAlreadyExists { .. } => 409u16,
                RenameBranchError::RebaseInProgress { .. } => 409u16,
                RenameBranchError::RenameFailed { .. } => 500u16,
            },
    {
        match self {
            RenameBranchError::EmptyBranchName => 400,
            RenameBranchError::InvalidBranchNameFormat => 400,
            RenameBranchError::OpenPullRequest => 409,
            RenameBranchError::BranchAlreadyExists { .. } => 409,
            RenameBranchError::RebaseInProgress { .. } => 409,
            RenameBranchError::RenameFailed { .. } => 500,
        }
    }
}

/// The branch name a rename asks for: trimmed, refused when blank.
pub fn rename_target(requested: &str) -> (r: Result<String, RenameBranchError>)
    ensures
        match r {
            Ok(name) => name@ == trim(requested@) && name@.len() > 0,
            Err(e) => e == RenameBranchError::EmptyBranchName && trim(requested@).len() == 0,
        },
{
    let name = trimmed(requested);
    if name.as_str().is_empty() {
        Err(RenameBranchError::EmptyBranchName)
    } else {
        Ok(name)
    }
}

/// What a rename does once its name is known.
#[derive(Clone, Copy, Debug, PartialEq, Eq, Structural)]
pub enum RenameStep {
    /// The name is not a valid git branch name.
    Invalid,
    /// The branch already has that name: answered at once with it.
    Unchanged,
    /// Go on to check the repositories.
    Proceed,
}

/// Decides the next step of a rename from the name's validity and the current branch.
pub fn rename_step(name: &str, name_valid: bool, current_branch: &str) -> (r: RenameStep)
    ensures
        r == (if !name_valid {
            RenameStep::Invalid
        } else if name@ == current_branch@ {
            RenameStep::Unchanged
        } else {
            RenameStep::Proceed
        }),
{
    if !name_valid {
        return RenameStep::Invalid;
    }
    let a = crate::text::chars_of(name);
    let b = crate::text::chars_of(current_branch);
    if crate::text::chars_eq(&a, &b) {
        RenameStep::Unchanged
    } else {
        RenameStep::Proceed
    }
}

/// What git says of one repository before a rename: whether the new name is taken there,
/// and whether a rebase is under way in its worktree.
#[derive(Clone, Debug)]
pub struct RepoRenameState {
    pub repo_name: String,
    pub branch_exists: bool,
    pub rebase_in_progress: bool,
}

/// What stops a rename in one repository: the name already taken, else a rebase under way.
pub open spec fn repo_blocker(r: RepoRenameState) -> Option<RenameBranchError> {
    if r.branch_exists {
        Some(RenameBranchError::BranchAlreadyExists { repo_name: r.repo_name })
    } else if r.rebase_in_progress {
        Some(RenameBranchError::RebaseInProgress { repo_name: r.repo_name })
    } else {
        None
    }
}

/// The first repository, in order, that stops the rename, and why.
pub open spec fn first_blocker(repos: Seq<RepoRenameState>) -> Option<RenameBranchError>
    decreases repos.len(),
{
    if repos.len() == 0 {
        None
    } else {
        match repo_blocker(repos[0]) {
            Some(e) => Some(e),
            None => first_blocker(repos.drop_first()),
        }
    }
}

/// Checks the repositories in order before a rename (see `first_blocker`).
pub fn rename_blocker(repos: &Vec<RepoRenameState>) -> (r: Option<RenameBranchError>)
    ensures
        match first_blocker(repos@) {
            Some(e) => r matches Some(x) && x == e,
            None => r is None,
        },
{
    let mut i: usize = 0;
    proof {
        assert(repos@.skip(0) =~= repos@);
    }
    while i < repos.len()
        invariant
            i <= repos.len(),
            first_blocker(repos@) == first_blocker(repos@.skip(i as int)),
        decreases repos.len() - i,
    {
        let r = &repos[i];
        proof {
            assert(repos@.skip(i as int)[0] == repos@[i as int]);
            assert(repos@.skip(i as int).drop_first() =~= repos@.skip(i + 1));
        }
        if r.branch_exists {
            return Some(RenameBranchError::BranchAlreadyExists { repo_name: r.repo_name.clone() });
        }
        if r.rebase_in_progress {
            return Some(RenameBranchError::RebaseInProgress { repo_name: r.repo_name.clone() });
        }
        i = i + 1;
    }
    None
}

/// When renaming fails in the repository at position `failed_at`, the repositories renamed
/// before it are renamed back: the first `failed_at`, in order.
pub fn rollback_repos(repo_names: &Vec<String>, failed_at: usize) -> (r: Vec<String>)
    requires
        failed_at <= repo_names.len(),
    ensures
        crate::text::views(r@) == crate::text::views(repo_names@).take(failed_at as int),
{
    let mut out: Vec<String> = Vec::new();
    let mut i: usize = 0;
    while i < failed_at
        invariant
            i <= failed_at <= repo_names.len(),
            crate::text::views(out@) == crate::text::views(repo_names@).take(i as int),
        decreases failed_at - i,
    {
        let ghost prev = crate::text::views(out@);
        out.push(repo_names[i].clone());
        proof {
            assert(crate::text::views(out@) =~= prev.push(repo_names@[i as int]@));
            assert(crate::text::views(repo_names@).take(i + 1) =~= crate::text::views(repo_names@).take(
                i as int,
            ).push(repo_names@[i as int]@));
        }
        i = i + 1;
    }
    out
}

/// A merge of an attempt as far as its pull request goes.
#[derive(Clone, Copy, Debug, PartialEq, Eq, Structural)]
pub struct MergeSummary {
    /// It was made through a pull request (not merged directly).
    pub is_pr: bool,
    /// That pull request is still open.
    pub pr_open: bool,
}

pub open spec fn open_pr(m: MergeSummary) -> bool {
    m.is_pr && m.pr_open
}

/// Some merge of the attempt is an open pull request (a rename is refused then).
pub fn any_open_pr(merges: &Vec<MergeSummary>) -> (r: bool)
    ensures
        r == exists|i: int| 0 <= i < merges.len() && open_pr(#[trigger] merges@[i]),
{
    let mut i: usize = 0;
    while i < merges.len()
        invariant
            i <= merges.len(),
            forall|j: int| 0 <= j < i ==> !open_pr(#[trigger] merges@[j]),
        decreases merges.len() - i,
    {
        if merges[i].is_pr && merges[i].pr_open {
            proof {
                assert(open_pr(merges@[i as int]));
            }
            return true;
        }
        i = i + 1;
    }
    false
}

/// The latest merge of a repository (listed first) is an open pull request: its remote
/// branch is then compared too.
pub fn latest_is_open_pr(merges: &Vec<MergeSummary>) -> (r: bool)
    ensures
        r == (merges.len() > 0 && open_pr(merges@[0])),
{
    merges.len() > 0 && merges[0].is_pr && merges[0].pr_open
}

/// Whether a worktree has uncommitted changes, when they could be counted.
pub fn has_uncommitted_changes(count: Option<usize>) -> (r: Option<bool>)
    ensures
        r == (match count {
            Some(c) => Some(c > 0),
            None => None::<bool>,
        }),
{
    match count {
        Some(c) => Some(c > 0),
        None => None,
    }
}

/// The message of a direct merge: the task's title, the first group of its id, and its
/// description after a blank line unless it is blank.
pub open spec fn spec_merge_commit_message(title: Seq<char>, task_id: u128, description: Option<Seq<char>>) -> Seq<char> {
    let head = title + " (vibe-kanban "@ + uuid_text(task_id).take(8) + ")"@;
    match description {
        Some(d) => if trim(d).len() > 0 {
            head + "\n\n"@ + d
        } else {
            head
        },
        None => head,
    }
}

/// Writes the message of a direct merge.
pub fn merge_commit_message(title: &str, task_id: u128, description: &Option<String>) -> (r: String)
    ensures
        r@ == spec_merge_commit_message(title@, task_id, opt_view(*description)),
{
    let id = uuid_string(task_id);
    let id_chars = crate::text::chars_of(id.as_str());
    proof {
        crate::ids::lemma_uuid_text_len(task_id);
    }
    let mut out = title.to_owned();
    crate::text::push_str(&mut out, " (vibe-kanban ");
    crate::text::push_range(&mut out, &id_chars, 0, 8);
    out.push(')');
    proof {
        reveal_strlit(")");
        assert(id_chars@.subrange(0, 8) =~= uuid_text(task_id).take(8));
        assert(out@ =~= title@ + " (vibe-kanban "@ + uuid_text(task_id).take(8) + ")"@);
    }
    match description {
        Some(d) => {
            if !crate::text::blank(d.as_str()) {
                crate::text::push_str(&mut out, "\n\n");
                crate::text::push_str(&mut out, d.as_str());
            }
        },
        None => {},
    }
    out
}

/// The bases of a rebase: the old and the new base branch, each the repository's target
/// branch when the request names none.
pub fn rebase_bases(old_base: Option<String>, new_base: Option<String>, target_branch: &String) -> (r: (String, String))
    ensures
        r.0@ == (match old_base {
            Some(b) => b@,
            None => target_branch@,
        }),
        r.1@ == (match new_base {
            Some(b) => b@,
            None => target_branch@,
        }),
{
    let old = match old_base {
        Some(b) => b,
        None => target_branch.clone(),
    };
    let new = match new_base {
        Some(b) => b,
        None => target_branch.clone(),
    };
    (old, new)
}

/// The answer when a rebase's new base does not exist.
pub fn missing_branch_message(branch: &str) -> (r: String)
    ensures
        r@ == "Branch '"@ + branch@ + "' does not exist in the repository"@,
{
    let mut out = "Branch '".to_owned();
    crate::text::push_str(&mut out, branch);
    crate::text::push_str(&mut out, "' does not exist in the repository");
    out
}

/// The answer when a new target branch does not exist in the repository.
pub fn missing_target_branch_message(branch: &str, repo_name: &str) -> (r: String)
    ensures
        r@ == "Branch '"@ + branch@ + "' does not exist in repository '"@ + repo_name@ + "'"@,
{
    let mut out = "Branch '".to_owned();
    crate::text::push_str(&mut out, branch);
    crate::text::push_str(&mut out, "' does not exist in repository '");
    crate::text::push_str(&mut out, repo_name);
    crate::text::push_str(&mut out, "'");
    out
}

} // verus!
