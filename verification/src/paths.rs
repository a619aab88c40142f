//! Path handling on `/`-separated paths: the configuration directory layout and the checks
//! that keep requested directories inside the allowed workspace roots.
use vstd::prelude::*;

use crate::text::{
    opt_view,
    blank, chars_eq, chars_of, find_char, first_index_of, is_blank, push_range, push_str,
    string_from_chars, trim, trimmed_chars,
};

verus! {

/// `dir` joined with a relative `name` (`Path::join`): a separator is put between them unless
/// `dir` is empty or already ends in one.
pub open spec fn join_path(dir: Seq<char>, name: Seq<char>) -> Seq<char> {
    if dir.len() == 0 || dir.last() == '/' {
        dir + name
    } else {
        dir + seq!['/'] + name
    }
}

/// Joins a directory and a relative name.
pub fn join(dir: &str, name: &str) -> (r: String)
    ensures
        r@ == join_path(dir@, name@),
{
    let v = chars_of(dir);
    let mut out = String::new();
    push_range(&mut out, &v, 0, v.len());
    if v.len() > 0 && v[v.len() - 1] != '/' {
        out.push('/');
    }
    push_str(&mut out, name);
    proof {
        assert(v@.subrange(0, v@.len() as int) =~= v@);
        assert(out@ =~= join_path(dir@, name@));
    }
    out
}

/// The configuration directory: the override when it is set and not blank (trimmed), else
/// `vk` inside the platform's configuration directory.
pub open spec fn spec_vk_config_dir(override_dir: Option<Seq<char>>, base_config_dir: Seq<char>) -> Seq<char> {
    match override_dir {
        Some(o) if !is_blank(o) => trim(o),
        _ => join_path(base_config_dir, "vk"@),
    }
}

/// Chooses the configuration directory from the `VK_CONFIG_DIR` value and the platform's
/// configuration directory.
pub fn vk_config_dir(override_dir: Option<&str>, base_config_dir: &str) -> (r: String)
    ensures
        r@ == spec_vk_config_dir(
            match override_dir {
                Some(o) => Some(o@),
                None => None,
            },
            base_config_dir@,
        ),
{
    match override_dir {
        Some(o) => {
            if !blank(o) {
                return crate::text::trimmed(o);
            }
        },
        None => {},
    }
    join(base_config_dir, "vk")
}

/// `config.yaml` in the configuration directory.
pub fn vk_config_yaml_path(config_dir: &str) -> (r: String)
    ensures
        r@ == join_path(config_dir@, "config.yaml"@),
{
    join(config_dir, "config.yaml")
}

/// `secret.env` in the configuration directory.
pub fn vk_secret_env_path(config_dir: &str) -> (r: String)
    ensures
        r@ == join_path(config_dir@, "secret.env"@),
{
    join(config_dir, "secret.env")
}

/// `config.schema.json` in the configuration directory.
pub fn vk_config_schema_path(config_dir: &str) -> (r: String)
    ensures
        r@ == join_path(config_dir@, "config.schema.json"@),
{
    join(config_dir, "config.schema.json")
}

/// `projects.yaml` in the configuration directory.
pub fn vk_projects_yaml_path(config_dir: &str) -> (r: String)
    ensures
        r@ == join_path(config_dir@, "projects.yaml"@),
{
    join(config_dir, "projects.yaml")
}

/// `projects.schema.json` in the configuration directory.
pub fn vk_projects_schema_path(config_dir: &str) -> (r: String)
    ensures
        r@ == join_path(config_dir@, "projects.schema.json"@),
{
    join(config_dir, "projects.schema.json")
}

/// `projects.d` in the configuration directory.
pub fn vk_projects_dir(config_dir: &str) -> (r: String)
    ensures
        r@ == join_path(config_dir@, "projects.d"@),
{
    join(config_dir, "projects.d")
}

/// `projects.ui.yaml` in the configuration directory.
pub fn vk_projects_ui_yaml_path(config_dir: &str) -> (r: String)
    ensures
        r@ == join_path(config_dir@, "projects.ui.yaml"@),
{
    join(config_dir, "projects.ui.yaml")
}

/// The pieces of a text between separators (`str::split`), empty pieces included.
pub open spec fn split_on(s: Seq<char>, c: char) -> Seq<Seq<char>>
    decreases s.len(),
{
    let k = first_index_of(s, c);
    proof {
        crate::text::lemma_first_index_of(s, c);
    }
    if k >= s.len() {
        seq![s]
    } else {
        seq![s.take(k)] + split_on(s.skip(k + 1), c)
    }
}

/// Pieces that are real path components: not empty and not `.`.
pub open spec fn normal_parts(segs: Seq<Seq<char>>) -> Seq<Seq<char>>
    decreases segs.len(),
{
    if segs.len() == 0 {
        seq![]
    } else {
        (if segs[0].len() > 0 && segs[0] != seq!['.'] {
            seq![segs[0]]
        } else {
            seq![]
        }) + normal_parts(segs.drop_first())
    }
}

/// The components of a path (`Path::components`): the root (written `/`) for an absolute
/// path, a leading `.` for a path that starts with one, then every non-empty piece other
/// than `.` (repeated and trailing separators and inner `.` are dropped).
pub open spec fn components(s: Seq<char>) -> Seq<Seq<char>> {
    let segs = split_on(s, '/');
    if s.len() > 0 && s[0] == '/' {
        seq![seq!['/']] + normal_parts(segs)
    } else if segs[0] == seq!['.'] {
        seq![seq!['.']] + normal_parts(segs)
    } else {
        normal_parts(segs)
    }
}

/// `path` starts with `base` component by component (`Path::starts_with`).
pub open spec fn path_starts_with(path: Seq<char>, base: Seq<char>) -> bool {
    let a = components(path);
    let b = components(base);
    b.len() <= a.len() && a.take(b.len() as int) == b
}

/// Absolute path (`Path::is_absolute` on Unix).
pub open spec fn is_absolute(s: Seq<char>) -> bool {
    s.len() > 0 && s[0] == '/'
}

/// The components of a path.
pub fn path_components(path: &str) -> (r: Vec<Vec<char>>)
    ensures
        r@.map_values(|c: Vec<char>| c@) == components(path@),
{
    let v = chars_of(path);
    let dot = chars_of(".");
    proof {
        reveal_strlit(".");
        assert(dot@ =~= seq!['.']);
    }
    let mut out: Vec<Vec<char>> = Vec::new();
    let rooted = v.len() > 0 && v[0] == '/';
    let ghost segs0 = split_on(v@, '/');
    let ghost mut prefix: Seq<Seq<char>> = seq![];
    if rooted {
        let mut root: Vec<char> = Vec::new();
        root.push('/');
        out.push(root);
        proof {
            prefix = seq![seq!['/']];
        }
    } else {
        let k0 = find_char(&v, 0, v.len(), '/');
        proof {
            assert(v@.subrange(0, v@.len() as int) =~= v@);
            if k0 < v.len() {
                assert(segs0[0] == v@.take(k0 as int));
            } else {
                assert(segs0[0] == v@);
            }
            assert(segs0[0] =~= v@.subrange(0, k0 as int));
        }
        if crate::text::range_eq(&v, 0, k0, &dot) {
            let mut cur: Vec<char> = Vec::new();
            cur.push('.');
            out.push(cur);
            proof {
                prefix = seq![seq!['.']];
            }
        }
    }
    proof {
        assert(out@.map_values(|c: Vec<char>| c@) =~= prefix);
        assert(components(v@) == prefix + normal_parts(segs0));
        assert(v@.skip(0) =~= v@);
    }
    let mut p: usize = 0;
    loop
        invariant
            p <= v.len(),
            v@ == path@,
            dot@ == seq!['.'],
            components(v@) == out@.map_values(|c: Vec<char>| c@) + normal_parts(
                split_on(v@.skip(p as int), '/'),
            ),
        decreases v.len() - p,
    {
        let len = v.len();
        let k = find_char(&v, p, len, '/');
        let ghost s = v@.skip(p as int);
        let ghost seg = v@.subrange(p as int, k as int);
        proof {
            assert(v@.subrange(p as int, len as int) =~= s);
            if k < len {
                assert(s.take(k - p) =~= seg);
                assert(s.skip(k - p + 1) =~= v@.skip(k + 1));
                assert(split_on(s, '/') == seq![seg] + split_on(v@.skip(k + 1), '/'));
            } else {
                assert(s =~= seg);
                assert(split_on(s, '/') == seq![seg]);
            }
            assert(split_on(s, '/')[0] == seg);
            assert(split_on(s, '/').drop_first() =~= (if k < len {
                split_on(v@.skip(k + 1), '/')
            } else {
                seq![]
            }));
        }
        let ghost before = out@.map_values(|c: Vec<char>| c@);
        if k > p && !crate::text::range_eq(&v, p, k, &dot) {
            let mut part: Vec<char> = Vec::new();
            let mut j = p;
            while j < k
                invariant
                    p <= j <= k <= v.len(),
                    part@ == v@.subrange(p as int, j as int),
                decreases k - j,
            {
                part.push(v[j]);
                proof {
                    assert(v@.subrange(p as int, j + 1) =~= v@.subrange(p as int, j as int).push(
                        v@[j as int],
                    ));
                }
                j = j + 1;
            }
            out.push(part);
            proof {
                assert(out@.map_values(|c: Vec<char>| c@) =~= before + seq![seg]);
            }
        }
        if k == len {
            proof {
                assert(normal_parts(seq![]) == Seq::<Seq<char>>::empty());
                assert(components(v@) =~= out@.map_values(|c: Vec<char>| c@));
            }
            return out;
        }
        proof {
            assert(components(v@) =~= out@.map_values(|c: Vec<char>| c@) + normal_parts(
                split_on(v@.skip(k + 1), '/'),
            ));
        }
        p = k + 1;
    }
}

/// Whether `path` starts with `base`, comparing whole components.
pub fn starts_with_path(path: &str, base: &str) -> (r: bool)
    ensures
        r == path_starts_with(path@, base@),
{
    let a = path_components(path);
    let b = path_components(base);
    let ghost av = a@.map_values(|c: Vec<char>| c@);
    let ghost bv = b@.map_values(|c: Vec<char>| c@);
    if b.len() > a.len() {
        return false;
    }
    let mut i: usize = 0;
    while i < b.len()
        invariant
            b.len() <= a.len(),
            i <= b.len(),
            av == a@.map_values(|c: Vec<char>| c@),
            bv == b@.map_values(|c: Vec<char>| c@),
            av == components(path@),
            bv == components(base@),
            forall|j: int| 0 <= j < i ==> av[j] == bv[j],
        decreases b.len() - i,
    {
        if !chars_eq(&a[i], &b[i]) {
            proof {
                assert(av.take(bv.len() as int)[i as int] != bv[i as int]);
            }
            return false;
        }
        i = i + 1;
    }
    proof {
        assert(av.take(bv.len() as int) =~= bv);
    }
    true
}

/// Why a requested directory was refused.
#[derive(Clone, Copy, Debug, PartialEq, Eq, Structural)]
pub enum PathAccessError {
    /// No workspace root is configured (forbidden).
    NoWorkspaceRoots,
    /// The request names no path (bad request).
    PathRequired,
    /// The directory lies outside every workspace root (forbidden).
    OutsideWorkspaceRoots,
    /// A dev server working directory was given as an absolute path (bad request).
    WorkingDirNotRelative,
    /// A dev server working directory lies outside the workspace (forbidden).
    WorkingDirOutsideWorkspace,
}

impl PathAccessError {
    /// The message reported to the client.
    pub fn message(&self) -> (r: &'static str)
        ensures
            r@ == match *self {
                PathAccessError::NoWorkspaceRoots => "No allowed workspace roots are available"@,
                PathAccessError::PathRequired => "Path is required"@,
                PathAccessError::OutsideWorkspaceRoots => "Path is outside configured workspace roots"@,
                PathAccessError::WorkingDirNotRelative => "Dev script working directory must be relative to the workspace root"@,
                PathAccessError::WorkingDirOutsideWorkspace => "Dev script working directory is outside the workspace root"@,
            },
    {
        match self {
            PathAccessError::NoWorkspaceRoots => "No allowed workspace roots are available",
            PathAccessError::PathRequired => "Path is required",
            PathAccessError::OutsideWorkspaceRoots => "Path is outside configured workspace roots",
            PathAccessError::WorkingDirNotRelative => "Dev script working directory must be relative to the workspace root",
            PathAccessError::WorkingDirOutsideWorkspace => "Dev script working directory is outside the workspace root",
        }
    }
}

/// The directory a listing request names, before it is resolved on disk: the given path
/// (absolute, or relative to the first root) when it is not blank, else the first root.
pub open spec fn spec_request_directory(path: Option<Seq<char>>, roots: Seq<Seq<char>>) -> Option<Seq<char>> {
    if roots.len() == 0 {
        None
    } else {
        match path {
            Some(p) if !is_blank(p) => if is_absolute(p) {
                Some(p)
            } else {
                Some(join_path(roots[0], p))
            },
            _ => Some(roots[0]),
        }
    }
}

/// Chooses the directory a listing request asks for.
pub fn request_directory(path: Option<&str>, roots: &Vec<String>) -> (r: Result<String, PathAccessError>)
    ensures
        match spec_request_directory(
            match path {
                Some(p) => Some(p@),
                None => None,
            },
            crate::text::views(roots@),
        ) {
            Some(d) => r matches Ok(s) && s@ == d,
            None => r == Err::<String, PathAccessError>(PathAccessError::NoWorkspaceRoots),
        },
{
    if roots.len() == 0 {
        return Err(PathAccessError::NoWorkspaceRoots);
    }
    let root = roots[0].as_str();
    match path {
        Some(p) => {
            if !blank(p) {
                let v = chars_of(p);
                if v.len() > 0 && v[0] == '/' {
                    return Ok(string_from_chars(&v));
                } else {
                    return Ok(join(root, p));
                }
            }
        },
        None => {},
    }
    Ok(roots[0].clone())
}

/// The directory a repository request names: the trimmed path, absolute or relative to the
/// first root; a blank path is refused.
pub open spec fn spec_repo_request_directory(path: Seq<char>, roots: Seq<Seq<char>>) -> Result<Seq<char>, PathAccessError> {
    if roots.len() == 0 {
        Err(PathAccessError::NoWorkspaceRoots)
    } else if is_blank(path) {
        Err(PathAccessError::PathRequired)
    } else if is_absolute(trim(path)) {
        Ok(trim(path))
    } else {
        Ok(join_path(roots[0], trim(path)))
    }
}

/// Chooses the directory a repository registration or initialisation asks for.
pub fn repo_request_directory(path: &str, roots: &Vec<String>) -> (r: Result<String, PathAccessError>)
    ensures
        match spec_repo_request_directory(path@, crate::text::views(roots@)) {
            Ok(d) => r matches Ok(s) && s@ == d,
            Err(e) => r == Err::<String, PathAccessError>(e),
        },
{
    if roots.len() == 0 {
        return Err(PathAccessError::NoWorkspaceRoots);
    }
    let t = trimmed_chars(path);
    if t.len() == 0 {
        return Err(PathAccessError::PathRequired);
    }
    let ts = string_from_chars(&t);
    if t[0] == '/' {
        Ok(ts)
    } else {
        Ok(join(roots[0].as_str(), ts.as_str()))
    }
}

/// Some workspace root is a leading part of the path.
pub open spec fn within_roots(path: Seq<char>, roots: Seq<Seq<char>>) -> bool {
    exists|i: int| 0 <= i < roots.len() && path_starts_with(path, #[trigger] roots[i])
}

/// Accepts a resolved directory only when it lies inside one of the workspace roots.
pub fn ensure_within_roots(path: &str, roots: &Vec<String>) -> (r: Result<(), PathAccessError>)
    ensures
        r is Ok <==> within_roots(path@, crate::text::views(roots@)),
        r is Err ==> r == Err::<(), PathAccessError>(PathAccessError::OutsideWorkspaceRoots),
{
    let ghost rv = crate::text::views(roots@);
    let mut i: usize = 0;
    while i < roots.len()
        invariant
            i <= roots.len(),
            rv == crate::text::views(roots@),
            forall|j: int| 0 <= j < i ==> !path_starts_with(path@, rv[j]),
        decreases roots.len() - i,
    {
        if starts_with_path(path, roots[i].as_str()) {
            proof {
                assert(path_starts_with(path@, rv[i as int]));
            }
            return Ok(());
        }
        i = i + 1;
    }
    Err(PathAccessError::OutsideWorkspaceRoots)
}

/// The configured dev server working directory, trimmed: none when blank, refused when
/// absolute.
pub fn dev_working_dir_request(configured: Option<&str>) -> (r: Result<Option<String>, PathAccessError>)
    ensures
        match configured {
            Some(c) if !is_blank(c@) => if is_absolute(trim(c@)) {
                r == Err::<Option<String>, PathAccessError>(PathAccessError::WorkingDirNotRelative)
            } else {
                r matches Ok(Some(s)) && s@ == trim(c@)
            },
            _ => r matches Ok(None),
        },
{
    match configured {
        Some(c) => {
            let t = trimmed_chars(c);
            if t.len() == 0 {
                return Ok(None);
            }
            if t[0] == '/' {
                return Err(PathAccessError::WorkingDirNotRelative);
            }
            Ok(Some(string_from_chars(&t)))
        },
        None => Ok(None),
    }
}

/// The components after the first `n`, joined by `/`.
pub open spec fn rest_joined(comps: Seq<Seq<char>>, n: int) -> Seq<char> {
    crate::text::join(comps.skip(n), seq!['/'])
}

/// The position of a resolved working directory relative to the workspace root: refused
/// when it is outside the root; none when it is the root itself.
pub fn relative_working_dir(resolved: &str, root: &str) -> (r: Result<Option<String>, PathAccessError>)
    ensures
        !path_starts_with(resolved@, root@) ==> r == Err::<Option<String>, PathAccessError>(
            PathAccessError::WorkingDirOutsideWorkspace,
        ),
        path_starts_with(resolved@, root@) ==> {
            let rest = rest_joined(components(resolved@), components(root@).len() as int);
            if components(resolved@).len() == components(root@).len() {
                r matches Ok(None)
            } else {
                r matches Ok(Some(s)) && s@ == rest
            }
        },
{
    if !starts_with_path(resolved, root) {
        return Err(PathAccessError::WorkingDirOutsideWorkspace);
    }
    let a = path_components(resolved);
    let b = path_components(root);
    let ghost av = a@.map_values(|c: Vec<char>| c@);
    if a.len() == b.len() {
        return Ok(None);
    }
    let mut out: Vec<char> = Vec::new();
    let mut i = b.len();
    let ghost n = b.len() as int;
    proof {
        assert(av.skip(n).take(0) =~= Seq::<Seq<char>>::empty());
    }
    while i < a.len()
        invariant
            b.len() <= i <= a.len(),
            n == b.len(),
            av == a@.map_values(|c: Vec<char>| c@),
            out@ == crate::text::join(av.skip(n).take(i - n), seq!['/']),
        decreases a.len() - i,
    {
        let ghost parts = av.skip(n).take(i - n);
        let ghost next = av.skip(n).take(i - n + 1);
        proof {
            assert(next.drop_last() =~= parts);
            assert(next.last() == a@[i as int]@);
        }
        if i > b.len() {
            out.push('/');
        }
        let mut j: usize = 0;
        let ghost base = out@;
        while j < a[i].len()
            invariant
                i < a.len(),
                j <= a@[i as int].len(),
                out@ == base + a@[i as int]@.take(j as int),
            decreases a@[i as int].len() - j,
        {
            out.push(a[i][j]);
            proof {
                assert(a@[i as int]@.take(j + 1) =~= a@[i as int]@.take(j as int).push(a@[i as int]@[j as int]));
            }
            j = j + 1;
        }
        proof {
            assert(a@[i as int]@.take(j as int) =~= a@[i as int]@);
            if i > b.len() {
                assert(out@ =~= crate::text::join(parts, seq!['/']) + seq!['/'] + next.last());
            } else {
                assert(parts.len() == 0);
                assert(out@ =~= next.last());
            }
        }
        i = i + 1;
    }
    proof {
        assert(av.skip(n).take(a.len() - n) =~= av.skip(n));
    }
    Ok(Some(string_from_chars(&out)))
}

/// The name a repository gets from its path: the last component, or its id when the path
/// has none.
pub fn repo_name_from_path(path: &str, repo_id: u128) -> (r: String)
    ensures
        r@ == (match crate::frontend::file_name(path@) {
            Some(n) => n,
            None => crate::ids::uuid_text(repo_id),
        }),
{
    match crate::images::path_file_name(path) {
        Some(n) => n,
        None => crate::ids::uuid_string(repo_id),
    }
}

/// The working directories a single-repository project gets when its repository is named:
/// the dev script's (when there is a script but no directory) and the agent's (when there is
/// no directory), both the repository's name; `None` when neither is missing. An empty
/// text counts as missing.
pub open spec fn spec_working_dir_backfill(
    dev_script: Option<Seq<char>>,
    dev_dir: Option<Seq<char>>,
    agent_dir: Option<Seq<char>>,
    name: Seq<char>,
) -> Option<(Option<Seq<char>>, Option<Seq<char>>)> {
    let needs_dev = (match dev_script {
        Some(s) => s.len() > 0,
        None => false,
    }) && (match dev_dir {
        Some(d) => d.len() == 0,
        None => true,
    });
    let needs_agent = match agent_dir {
        Some(d) => d.len() == 0,
        None => true,
    };
    if needs_dev || needs_agent {
        Some(
            (
                if needs_dev {
                    Some(name)
                } else {
                    dev_dir
                },
                if needs_agent {
                    Some(name)
                } else {
                    agent_dir
                },
            ),
        )
    } else {
        None
    }
}

fn is_missing(o: &Option<String>) -> (r: bool)
    ensures
        r == (match opt_view(*o) {
            Some(d) => d.len() == 0,
            None => true,
        }),
{
    match o {
        Some(d) => d.as_str().is_empty(),
        None => true,
    }
}

/// Decides the working directories of a single-repository project (see
/// `spec_working_dir_backfill`).
pub fn working_dir_backfill(
    dev_script: &Option<String>,
    dev_dir: &Option<String>,
    agent_dir: &Option<String>,
    name: &String,
) -> (r: Option<(Option<String>, Option<String>)>)
    ensures
        match r {
            Some((d, a)) => spec_working_dir_backfill(
                opt_view(*dev_script),
                opt_view(*dev_dir),
                opt_view(*agent_dir),
                name@,
            ) == Some((opt_view(d), opt_view(a))),
            None => spec_working_dir_backfill(
                opt_view(*dev_script),
                opt_view(*dev_dir),
                opt_view(*agent_dir),
                name@,
            ) is None,
        },
{
    let has_script = match dev_script {
        Some(s) => !s.as_str().is_empty(),
        None => false,
    };
    let needs_dev = has_script && is_missing(dev_dir);
    let needs_agent = is_missing(agent_dir);
    if !(needs_dev || needs_agent) {
        return None;
    }
    let d = if needs_dev {
        Some(name.clone())
    } else {
        match dev_dir {
            Some(x) => Some(x.clone()),
            None => None,
        }
    };
    let a = if needs_agent {
        Some(name.clone())
    } else {
        match agent_dir {
            Some(x) => Some(x.clone()),
            None => None,
        }
    };
    Some((d, a))
}

/// The name of a repository listed in the configuration: its display name, else the last
/// component of its path, else `repo`.
pub fn config_repo_name(display_name: &Option<String>, path: &str) -> (r: String)
    ensures
        r@ == (match opt_view(*display_name) {
            Some(n) => n,
            None => match crate::frontend::file_name(path@) {
                Some(n) => n,
                None => "repo"@,
            },
        }),
{
    match display_name {
        Some(n) => n.clone(),
        None => match crate::images::path_file_name(path) {
            Some(n) => n,
            None => "repo".to_owned(),
        },
    }
}

/// The directories tried as workspace roots, in order: the configured workspace directory
/// (already resolved) and the base directory of workspaces; without a configured one, the
/// home directory, the base directory and the current directory, as far as they are known.
pub open spec fn spec_root_candidates(
    configured: Option<Seq<char>>,
    base: Seq<char>,
    home: Option<Seq<char>>,
    cwd: Option<Seq<char>>,
) -> Seq<Seq<char>> {
    match configured {
        Some(c) => seq![c, base],
        None => (match home {
            Some(h) => seq![h],
            None => seq![],
        }) + seq![base] + (match cwd {
            Some(d) => seq![d],
            None => seq![],
        }),
    }
}

/// Lists the directories tried as workspace roots (see `spec_root_candidates`).
pub fn workspace_root_candidates(
    configured: Option<String>,
    base: String,
    home: Option<String>,
    cwd: Option<String>,
) -> (r: Vec<String>)
    ensures
        crate::text::views(r@) == spec_root_candidates(
            opt_view(configured),
            base@,
            opt_view(home),
            opt_view(cwd),
        ),
{
    let mut out: Vec<String> = Vec::new();
    match configured {
        Some(c) => {
            out.push(c);
            out.push(base);
        },
        None => {
            match home {
                Some(h) => out.push(h),
                None => {},
            }
            out.push(base);
            match cwd {
                Some(d) => out.push(d),
                None => {},
            }
        },
    }
    proof {
        assert(crate::text::views(out@) =~= spec_root_candidates(
            opt_view(configured),
            base@,
            opt_view(home),
            opt_view(cwd),
        ));
    }
    out
}

/// The known texts of `s`, in order.
pub open spec fn known(s: Seq<Option<Seq<char>>>) -> Seq<Seq<char>>
    decreases s.len(),
{
    if s.len() == 0 {
        seq![]
    } else {
        match s.last() {
            Some(x) => known(s.drop_last()).push(x),
            None => known(s.drop_last()),
        }
    }
}

pub open spec fn opt_views(v: Seq<Option<String>>) -> Seq<Option<Seq<char>>> {
    v.map_values(|o: Option<String>| opt_view(o))
}

/// The workspace roots: the candidates that resolved to a directory (`None` for the
/// others), each once, in order; `None` when there is none ("No readable workspace roots
/// are configured").
pub fn distinct_roots(resolved: &Vec<Option<String>>) -> (r: Option<Vec<String>>)
    ensures
        match r {
            Some(v) => crate::text::views(v@) == crate::milestone_preview::fresh_distinct(
                known(opt_views(resolved@)),
                seq![],
            ) && v@.len() > 0,
            None => crate::milestone_preview::fresh_distinct(known(opt_views(resolved@)), seq![]).len()
                == 0,
        },
{
    let ghost rv = opt_views(resolved@);
    let mut out: Vec<String> = Vec::new();
    let mut i: usize = 0;
    proof {
        assert(rv.take(0) =~= Seq::<Option<Seq<char>>>::empty());
        assert(crate::text::views(out@) =~= Seq::<Seq<char>>::empty());
    }
    while i < resolved.len()
        invariant
            i <= resolved.len(),
            rv == opt_views(resolved@),
            crate::text::views(out@) == crate::milestone_preview::fresh_distinct(
                known(rv.take(i as int)),
                seq![],
            ),
        decreases resolved.len() - i,
    {
        proof {
            assert(rv.take(i + 1).drop_last() =~= rv.take(i as int));
            assert(rv.take(i + 1).last() == opt_view(resolved@[i as int]));
        }
        match &resolved[i] {
            Some(p) => {
                let ghost l = known(rv.take(i as int)).push(p@);
                proof {
                    assert(known(rv.take(i + 1)) == l);
                    assert(l.drop_last() =~= known(rv.take(i as int)));
                }
                if !crate::milestone_preview::contains_string(&out, p) {
                    let ghost before = crate::text::views(out@);
                    out.push(p.clone());
                    proof {
                        assert(crate::text::views(out@) =~= before.push(p@));
                    }
                }
                proof {
                    assert(crate::milestone_preview::fresh_distinct(l, seq![]) == crate::text::views(out@));
                }
            },
            None => {
                proof {
                    assert(known(rv.take(i + 1)) == known(rv.take(i as int)));
                }
            },
        }
        i = i + 1;
    }
    proof {
        assert(rv.take(i as int) =~= rv);
    }
    if out.len() == 0 {
        None
    } else {
        Some(out)
    }
}

} // verus!
