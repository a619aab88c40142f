//! What an attempt's patch and file endpoints hand out: the limits on a request, which
//! requested paths stay inside the workspace, how the patch text is assembled and cut to
//! a byte budget, and which window of a file is read.
use vstd::prelude::*;

use crate::paths::{components, is_absolute, path_components};
use crate::text::{chars_eq, chars_of, find_char, first_index_of, trim, trim_range, views};

verus! {

/// Why an artifact of an attempt is withheld.
#[derive(Clone, Copy, Debug, PartialEq, Eq, Structural)]
pub enum AttemptArtifactBlockedReason {
    TooManyPaths,
    SizeExceeded,
    SummaryFailed,
    ThresholdExceeded,
    PathOutsideWorkspace,
}

/// Patch budget when the request names none.
pub const PATCH_DEFAULT_MAX_BYTES: usize = 204800;

/// Largest patch budget a request may ask for.
pub const PATCH_HARD_MAX_BYTES: usize = 2097152;

/// Most paths one patch request may name.
pub const PATCH_MAX_PATHS: usize = 100;

/// File window when the request names none.
pub const FILE_DEFAULT_MAX_BYTES: usize = 65536;

/// Largest file window a request may ask for.
pub const FILE_HARD_MAX_BYTES: usize = 524288;

/// The first decision on a patch request.
#[derive(Clone, Copy, Debug, PartialEq, Eq, Structural)]
pub enum PatchGate {
    /// No path was named ("paths must not be empty").
    NoPaths,
    /// Answered at once with this reason and no patch.
    Blocked(AttemptArtifactBlockedReason),
    /// Go on with this byte budget.
    Proceed(usize),
}

pub open spec fn spec_patch_gate(path_count: usize, max_bytes: Option<usize>) -> PatchGate {
    if path_count == 0 {
        PatchGate::NoPaths
    } else if path_count > PATCH_MAX_PATHS {
        PatchGate::Blocked(AttemptArtifactBlockedReason::TooManyPaths)
    } else {
        let m = match max_bytes {
            Some(m) => m,
            None => PATCH_DEFAULT_MAX_BYTES,
        };
        if m > PATCH_HARD_MAX_BYTES {
            PatchGate::Blocked(AttemptArtifactBlockedReason::SizeExceeded)
        } else {
            PatchGate::Proceed(m)
        }
    }
}

/// Checks the number of paths and the byte budget of a patch request.
pub fn patch_request_gate(path_count: usize, max_bytes: Option<usize>) -> (r: PatchGate)
    ensures
        r == spec_patch_gate(path_count, max_bytes),
{
    if path_count == 0 {
        return PatchGate::NoPaths;
    }
    if path_count > PATCH_MAX_PATHS {
        return PatchGate::Blocked(AttemptArtifactBlockedReason::TooManyPaths);
    }
    let m = match max_bytes {
        Some(m) => m,
        None => PATCH_DEFAULT_MAX_BYTES,
    };
    if m > PATCH_HARD_MAX_BYTES {
        PatchGate::Blocked(AttemptArtifactBlockedReason::SizeExceeded)
    } else {
        PatchGate::Proceed(m)
    }
}

/// A relative path that leaves the directory it is joined to: absolute, or with a `..`
/// component.
pub open spec fn escapes_workspace(p: Seq<char>) -> bool {
    is_absolute(p) || components(p).contains(seq!['.', '.'])
}

/// Whether a requested path would leave the workspace.
pub fn path_escapes_workspace(p: &str) -> (r: bool)
    ensures
        r == escapes_workspace(p@),
{
    let v = chars_of(p);
    if v.len() > 0 && v[0] == '/' {
        return true;
    }
    let comps = path_components(p);
    let ghost cv = comps@.map_values(|c: Vec<char>| c@);
    let mut up: Vec<char> = Vec::new();
    up.push('.');
    up.push('.');
    let mut i: usize = 0;
    while i < comps.len()
        invariant
            i <= comps.len(),
            cv == comps@.map_values(|c: Vec<char>| c@),
            cv == components(p@),
            up@ == seq!['.', '.'],
            forall|j: int| 0 <= j < i ==> cv[j] != seq!['.', '.'],
        decreases comps.len() - i,
    {
        if chars_eq(&comps[i], &up) {
            proof {
                assert(cv[i as int] == seq!['.', '.']);
            }
            return true;
        }
        i = i + 1;
    }
    proof {
        if cv.contains(seq!['.', '.']) {
            let j = choose|j: int| 0 <= j < cv.len() && cv[j] == seq!['.', '.'];
            assert(cv[j] == seq!['.', '.']);
        }
    }
    false
}

/// One requested patch path: `Err` when it names no repository or leaves the workspace,
/// `Ok(None)` when it is blank (or names nothing inside the repository), else the
/// repository name and the trimmed path inside it.
pub open spec fn requested_entry(raw: Seq<char>) -> Result<Option<(Seq<char>, Seq<char>)>, ()> {
    let t = trim(raw);
    if t.len() == 0 {
        Ok(None)
    } else {
        let k = first_index_of(t, '/');
        if k >= t.len() {
            Err(())
        } else {
            let rel = trim(t.skip(k + 1));
            if rel.len() == 0 {
                Ok(None)
            } else if escapes_workspace(rel) {
                Err(())
            } else {
                Ok(Some((t.take(k), rel)))
            }
        }
    }
}

/// The entries of all requested paths in order, or `None` when one of them is refused.
pub open spec fn requested_entries(paths: Seq<Seq<char>>) -> Option<Seq<(Seq<char>, Seq<char>)>>
    decreases paths.len(),
{
    if paths.len() == 0 {
        Some(seq![])
    } else {
        match requested_entries(paths.drop_last()) {
            None => None,
            Some(es) => match requested_entry(paths.last()) {
                Err(_) => None,
                Ok(None) => Some(es),
                Ok(Some(e)) => Some(es.push(e)),
            },
        }
    }
}

pub open spec fn pair_views(v: Seq<(String, String)>) -> Seq<(Seq<char>, Seq<char>)> {
    v.map_values(|p: (String, String)| (p.0@, p.1@))
}

fn requested_path_entry(raw: &str) -> (r: Result<Option<(String, String)>, ()>)
    ensures
        match r {
            Ok(Some(e)) => requested_entry(raw@) == Ok::<_, ()>(Some((e.0@, e.1@))),
            Ok(None) => requested_entry(raw@) == Ok::<_, ()>(None::<(Seq<char>, Seq<char>)>),
            Err(_) => requested_entry(raw@) is Err,
        },
{
    let v = chars_of(raw);
    let (a, b) = trim_range(&v, 0, v.len());
    let ghost t = trim(raw@);
    proof {
        assert(v@.subrange(0, v@.len() as int) =~= v@);
    }
    if a == b {
        return Ok(None);
    }
    let k = find_char(&v, a, b, '/');
    if k == b {
        return Err(());
    }
    let (c, d) = trim_range(&v, k + 1, b);
    proof {
        assert(t.skip(k - a + 1) =~= v@.subrange(k + 1, b as int));
        assert(t.take(k - a) =~= v@.subrange(a as int, k as int));
    }
    if c == d {
        return Ok(None);
    }
    let rel = crate::text::string_from_range(&v, c, d);
    if path_escapes_workspace(rel.as_str()) {
        return Err(());
    }
    let repo = crate::text::string_from_range(&v, a, k);
    Ok(Some((repo, rel)))
}

/// Splits the requested paths into `(repository, path)` entries, in order; a path that
/// names no repository or leaves the workspace refuses the whole request.
pub fn group_requested_paths(paths: &Vec<String>) -> (r: Result<Vec<(String, String)>, AttemptArtifactBlockedReason>)
    ensures
        match r {
            Ok(v) => requested_entries(views(paths@)) == Some(pair_views(v@)),
            Err(e) => e == AttemptArtifactBlockedReason::PathOutsideWorkspace
                && requested_entries(views(paths@)) is None,
        },
{
    let ghost pv = views(paths@);
    let mut out: Vec<(String, String)> = Vec::new();
    let mut i: usize = 0;
    proof {
        assert(pv.take(0) =~= Seq::<Seq<char>>::empty());
        assert(pair_views(out@) =~= Seq::<(Seq<char>, Seq<char>)>::empty());
    }
    while i < paths.len()
        invariant
            i <= paths.len(),
            pv == views(paths@),
            requested_entries(pv.take(i as int)) == Some(pair_views(out@)),
        decreases paths.len() - i,
    {
        proof {
            assert(pv.take(i + 1).drop_last() =~= pv.take(i as int));
            assert(pv.take(i + 1).last() == paths@[i as int]@);
        }
        match requested_path_entry(paths[i].as_str()) {
            Err(_) => {
                proof {
                    lemma_refused_prefix(pv, i + 1);
                }
                return Err(AttemptArtifactBlockedReason::PathOutsideWorkspace);
            },
            Ok(None) => {},
            Ok(Some(e)) => {
                let ghost before = pair_views(out@);
                let ghost ev = (e.0@, e.1@);
                out.push(e);
                proof {
                    assert(pair_views(out@) =~= before.push(ev));
                }
            },
        }
        i = i + 1;
    }
    proof {
        assert(pv.take(i as int) =~= pv);
    }
    Ok(out)
}

/// Once a prefix of the paths is refused, so is the whole request.
proof fn lemma_refused_prefix(pv: Seq<Seq<char>>, n: int)
    requires
        0 <= n <= pv.len(),
        requested_entries(pv.take(n)) is None,
    ensures
        requested_entries(pv) is None,
    decreases pv.len() - n,
{
    if n < pv.len() {
        assert(pv.take(n + 1).drop_last() =~= pv.take(n));
        lemma_refused_prefix(pv, n + 1);
    } else {
        assert(pv.take(n) =~= pv);
    }
}

/// The paths requested inside one repository, in order.
pub open spec fn paths_in_repo(entries: Seq<(Seq<char>, Seq<char>)>, repo: Seq<char>) -> Seq<Seq<char>>
    decreases entries.len(),
{
    if entries.len() == 0 {
        seq![]
    } else {
        let rest = paths_in_repo(entries.drop_last(), repo);
        if entries.last().0 == repo {
            rest.push(entries.last().1)
        } else {
            rest
        }
    }
}

/// The requested paths of one repository (empty when it has none).
pub fn requested_paths_for_repo(entries: &Vec<(String, String)>, repo: &str) -> (r: Vec<String>)
    ensures
        views(r@) == paths_in_repo(pair_views(entries@), repo@),
{
    let ghost ev = pair_views(entries@);
    let rv = chars_of(repo);
    let mut out: Vec<String> = Vec::new();
    let mut i: usize = 0;
    proof {
        assert(ev.take(0) =~= Seq::<(Seq<char>, Seq<char>)>::empty());
        assert(views(out@) =~= Seq::<Seq<char>>::empty());
    }
    while i < entries.len()
        invariant
            i <= entries.len(),
            ev == pair_views(entries@),
            rv@ == repo@,
            views(out@) == paths_in_repo(ev.take(i as int), repo@),
        decreases entries.len() - i,
    {
        proof {
            assert(ev.take(i + 1).drop_last() =~= ev.take(i as int));
            assert(ev.take(i + 1).last() == (entries@[i as int].0@, entries@[i as int].1@));
        }
        let name = chars_of(entries[i].0.as_str());
        if chars_eq(&name, &rv) {
            let ghost before = views(out@);
            out.push(entries[i].1.clone());
            proof {
                assert(views(out@) =~= before.push(entries@[i as int].1@));
            }
        }
        i = i + 1;
    }
    proof {
        assert(ev.take(i as int) =~= ev);
    }
    out
}

/// The text with a line break added unless it already ends with one.
pub open spec fn with_final_newline(s: Seq<char>) -> Seq<char> {
    if s.len() > 0 && s.last() == '\n' {
        s
    } else {
        s.push('\n')
    }
}

/// Appends one file's diff to the patch, ending it with a line break.
pub fn append_file_patch(patch: &mut String, diff: &str)
    ensures
        final(patch)@ == with_final_newline(old(patch)@ + diff@),
{
    let d = chars_of(diff);
    crate::text::push_str(patch, diff);
    let ends_nl = if d.len() > 0 {
        d[d.len() - 1] == '\n'
    } else {
        let all = chars_of(patch.as_str());
        all.len() > 0 && all[all.len() - 1] == '\n'
    };
    if !ends_nl {
        patch.push('\n');
    }
}

/// Bytes of a character in UTF-8 (`char::len_utf8`).
pub open spec fn char_utf8_len(c: char) -> nat {
    let u = c as u32;
    if u < 0x80 {
        1
    } else if u < 0x800 {
        2
    } else if u < 0x10000 {
        3
    } else {
        4
    }
}

/// Bytes of a text in UTF-8 (`str::len`).
pub open spec fn utf8_len(s: Seq<char>) -> nat
    decreases s.len(),
{
    if s.len() == 0 {
        0
    } else {
        utf8_len(s.drop_last()) + char_utf8_len(s.last())
    }
}

/// How many characters of `s` fit in `max` bytes: all of them, or as many as fit from the
/// start (the cut falls on a character boundary).
pub open spec fn chars_within(s: Seq<char>, max: nat) -> nat
    decreases s.len(),
{
    if utf8_len(s) <= max {
        s.len()
    } else {
        chars_within(s.drop_last(), max)
    }
}

/// A cut text fits its byte budget, keeps a prefix of the characters, and is as long as
/// it can be: one more character would exceed the budget.
pub proof fn law_truncation_fits(s: Seq<char>, max: nat)
    ensures
        chars_within(s, max) <= s.len(),
        utf8_len(s.take(chars_within(s, max) as int)) <= max,
        chars_within(s, max) < s.len() ==> utf8_len(s.take(chars_within(s, max) + 1int)) > max,
        (chars_within(s, max) == s.len()) == (utf8_len(s) <= max),
    decreases s.len(),
{
    if utf8_len(s) <= max {
        assert(s.take(s.len() as int) =~= s);
    } else {
        let t = s.drop_last();
        law_truncation_fits(t, max);
        let k = chars_within(t, max);
        assert(t.take(k as int) =~= s.take(k as int));
        if k < t.len() {
            assert(t.take(k + 1int) =~= s.take(k + 1int));
        } else {
            assert(s.take(k + 1int) =~= s);
        }
    }
}

fn char_len_utf8(c: char) -> (r: usize)
    ensures
        r == char_utf8_len(c),
{
    let u = c as u32;
    if u < 0x80 {
        1
    } else if u < 0x800 {
        2
    } else if u < 0x10000 {
        3
    } else {
        4
    }
}

proof fn lemma_utf8_len_prefix(s: Seq<char>, k: int)
    requires
        0 <= k <= s.len(),
    ensures
        utf8_len(s.take(k)) <= utf8_len(s),
    decreases s.len() - k,
{
    if k < s.len() {
        lemma_utf8_len_prefix(s, k + 1);
        assert(s.take(k + 1).drop_last() =~= s.take(k));
    } else {
        assert(s.take(k) =~= s);
    }
}

proof fn lemma_chars_within_is(s: Seq<char>, max: nat, i: int)
    requires
        0 <= i <= s.len(),
        utf8_len(s.take(i)) <= max,
        i < s.len() ==> utf8_len(s.take(i + 1)) > max,
    ensures
        chars_within(s, max) == i,
    decreases s.len(),
{
    if i == s.len() {
        assert(s.take(i) =~= s);
    } else {
        lemma_utf8_len_prefix(s, i + 1);
        let t = s.drop_last();
        assert(t.take(i) =~= s.take(i));
        if i + 1 <= t.len() {
            assert(t.take(i + 1) =~= s.take(i + 1));
        }
        lemma_chars_within_is(t, max, i);
    }
}

/// Cuts `s` to at most `max` bytes on a character boundary (`truncate_to_char_boundary`):
/// the kept text, whether anything was cut, and the kept byte count.
pub fn truncate_to_char_boundary(s: &str, max: usize) -> (r: (String, bool, usize))
    ensures
        r.0@ == s@.take(chars_within(s@, max as nat) as int),
        r.1 == (utf8_len(s@) > max),
        r.2 == utf8_len(r.0@),
{
    let v = chars_of(s);
    let mut bytes: usize = 0;
    let mut i: usize = 0;
    proof {
        assert(v@.take(0) =~= Seq::<char>::empty());
    }
    while i < v.len() && char_len_utf8(v[i]) <= max - bytes
        invariant
            i <= v.len(),
            v@ == s@,
            bytes <= max,
            bytes == utf8_len(v@.take(i as int)),
        decreases v.len() - i,
    {
        let n = char_len_utf8(v[i]);
        proof {
            assert(v@.take(i + 1).drop_last() =~= v@.take(i as int));
        }
        bytes = bytes + n;
        i = i + 1;
    }
    proof {
        if i < v.len() {
            assert(v@.take(i + 1).drop_last() =~= v@.take(i as int));
        }
        lemma_chars_within_is(v@, max as nat, i as int);
        if i < v.len() {
            lemma_utf8_len_prefix(v@, i + 1);
        } else {
            assert(v@.take(i as int) =~= v@);
        }
    }
    let kept = crate::text::string_from_range(&v, 0, i);
    proof {
        assert(v@.subrange(0, i as int) =~= v@.take(i as int));
    }
    (kept, i < v.len(), bytes)
}

/// The byte budget of a file request, or `None` when it asks for more than allowed.
pub fn file_max_bytes(requested: Option<usize>) -> (r: Option<usize>)
    ensures
        r == (match requested {
            Some(m) => if m > FILE_HARD_MAX_BYTES {
                None
            } else {
                Some(m)
            },
            None => Some(FILE_DEFAULT_MAX_BYTES),
        }),
{
    match requested {
        Some(m) => if m > FILE_HARD_MAX_BYTES {
            None
        } else {
            Some(m)
        },
        None => Some(FILE_DEFAULT_MAX_BYTES),
    }
}

/// How many bytes of a file to read from `start`: none when `start` is at or past the end,
/// else the budget or what is left, whichever is less.
pub fn file_read_len(start: u64, total: u64, max_bytes: usize) -> (r: Option<usize>)
    ensures
        r == (if start >= total {
            None
        } else if max_bytes < ((total - start) as u64) as usize {
            Some(max_bytes)
        } else {
            Some(((total - start) as u64) as usize)
        }),
{
    if start >= total {
        return None;
    }
    let left = (total - start) as usize;
    if max_bytes < left {
        Some(max_bytes)
    } else {
        Some(left)
    }
}

/// Whether a read of `read` bytes from `start` stopped before the end of the file.
pub fn file_read_truncated(start: u64, read: usize, total: u64) -> (r: bool)
    ensures
        r == (start + read < total),
{
    (start as u128) + (read as u128) < (total as u128)
}

} // verus!
