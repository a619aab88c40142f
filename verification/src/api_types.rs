//! Request and response types of the HTTP API, and the small decisions made on them.
use vstd::prelude::*;

use crate::text::{opt_view, trim};

verus! {

/// The machine the server runs on.
#[derive(Clone, Debug)]
pub struct Environment {
    pub os_type: String,
    pub os_version: String,
    pub os_architecture: String,
    pub bitness: String,
}

#[verifier::external_type_specification]
#[verifier::external_body]
pub struct ExOsInfo(os_info::Info);

/// Calls `os_info::get`. Nothing is claimed of the result, which depends on the machine.
#[verifier::external_body]
fn os_info_get() -> (r: os_info::Info) {
    os_info::get()
}

/// Calls `os_info::Info::os_type` and writes it. Nothing is claimed of the result.
#[verifier::external_body]
fn os_type_text(info: &os_info::Info) -> (r: String) {
    info.os_type().to_string()
}

/// Calls `os_info::Info::version` and writes it. Nothing is claimed of the result.
#[verifier::external_body]
fn os_version_text(info: &os_info::Info) -> (r: String) {
    info.version().to_string()
}

/// Calls `os_info::Info::architecture`. Nothing is claimed of the result.
#[verifier::external_body]
fn os_architecture(info: &os_info::Info) -> (r: Option<String>) {
    match info.architecture() {
        Some(a) => Some(a.to_string()),
        None => None,
    }
}

/// Calls `os_info::Info::bitness` and writes it. Nothing is claimed of the result.
#[verifier::external_body]
fn os_bitness_text(info: &os_info::Info) -> (r: String) {
    info.bitness().to_string()
}

/// The architecture as described: the one `os_info` reports, else `unknown`.
pub open spec fn described_architecture(architecture: Option<Seq<char>>) -> Seq<char> {
    match architecture {
        Some(a) => a,
        None => "unknown"@,
    }
}

impl Environment {
    /// The description of a machine from what `os_info` reports of it; an architecture that
    /// could not be told reads `unknown`.
    pub fn from_parts(os_type: String, os_version: String, architecture: Option<String>, bitness: String) -> (r: Self)
        ensures
            r.os_type@ == os_type@,
            r.os_version@ == os_version@,
            r.os_architecture@ == described_architecture(opt_view(architecture)),
            r.bitness@ == bitness@,
    {
        let os_architecture = match architecture {
            Some(a) => a,
            None => "unknown".to_owned(),
        };
        Environment { os_type, os_version, os_architecture, bitness }
    }

    /// Describes this machine (see `from_parts`). What `os_info` reports depends on the
    /// machine, so nothing is stated of the values themselves.
    pub fn new() -> (r: Self) {
        let info = os_info_get();
        Environment::from_parts(
            os_type_text(&info),
            os_version_text(&info),
            os_architecture(&info),
            os_bitness_text(&info),
        )
    }
}

/// Where the configuration lives, when it was loaded, and whether it changed since.
#[derive(Clone, Debug)]
pub struct ConfigStatusResponse {
    pub config_dir: String,
    pub config_path: String,
    pub projects_path: String,
    pub projects_dir: String,
    pub secret_env_path: String,
    pub schema_path: String,
    pub projects_schema_path: String,
    pub loaded_at_unix_ms: u64,
    pub last_error: Option<String>,
    pub dirty: bool,
}

/// The executor profiles file: its text and where it is.
#[derive(Clone, Debug)]
pub struct ProfilesContent {
    pub content: String,
    pub path: String,
}

/// What importing llman profiles did.
#[derive(Clone, Debug)]
pub struct ImportLlmanProfilesResponse {
    pub path: String,
    pub imported: usize,
    pub updated: usize,
    pub skipped: usize,
}

/// Where llman's configuration for the coding agent was found, if anywhere.
#[derive(Clone, Debug)]
pub struct ResolveLlmanPathResponse {
    pub path: Option<String>,
}

/// Which editor to look for, by the name of its kind (such as `VS_CODE`).
#[derive(Clone, Debug)]
pub struct CheckEditorAvailabilityQuery {
    pub editor_type: String,
}

/// Whether an editor is installed.
#[derive(Clone, Copy, Debug, PartialEq, Eq, Structural)]
pub struct CheckEditorAvailabilityResponse {
    pub available: bool,
}

/// Query of a directory listing.
#[derive(Clone, Debug)]
pub struct ListDirectoryQuery {
    pub path: Option<String>,
}

/// Request to register an existing repository.
#[derive(Clone, Debug)]
pub struct RegisterRepoRequest {
    pub path: String,
    pub display_name: Option<String>,
}

/// Request to create a repository in a folder.
#[derive(Clone, Debug)]
pub struct InitRepoRequest {
    pub parent_path: String,
    pub folder_name: String,
}

/// Request to queue a follow-up message.
#[derive(Clone, Debug)]
pub struct QueueMessageRequest {
    pub message: String,
    pub variant: Option<String>,
}

/// What asking a milestone for its next step did.
#[derive(Clone, Copy, Debug, PartialEq, Eq, Structural)]
pub enum RunNextMilestoneStepStatus {
    Queued,
    QueuedWaitingForActiveAttempt,
    NotEligible,
}

/// Request to push a milestone's baseline branch.
#[derive(Clone, Copy, Debug, PartialEq, Eq, Structural)]
pub struct PushMilestoneBaselineRequest {
    pub force: bool,
}

/// What pushing a baseline branch did for one repository.
#[derive(Clone, Copy, Debug, PartialEq, Eq, Structural)]
pub enum PushMilestoneBaselineStatus {
    Pushed,
    ForcePushRequired,
    SkippedNoRemote,
    Failed,
}

/// The branches tried, in order, as the seed of a milestone's baseline: the preferred one
/// (trimmed) unless blank, then `main` and `master` unless that is the preferred one.
pub open spec fn seed_candidates(preferred: Seq<char>) -> Seq<Seq<char>> {
    let p = trim(preferred);
    (if p.len() == 0 {
        seq![]
    } else {
        seq![p]
    }) + (if p == "main"@ {
        seq![]
    } else {
        seq!["main"@]
    }) + (if p == "master"@ {
        seq![]
    } else {
        seq!["master"@]
    })
}

/// The branches tried, in order, as the seed of a milestone's baseline (see
/// `seed_candidates`).
pub fn seed_branch_candidates(preferred: &str) -> (r: Vec<String>)
    ensures
        crate::text::views(r@) == seed_candidates(preferred@),
{
    let p = crate::text::trimmed(preferred);
    let main = "main".to_owned();
    let master = "master".to_owned();
    let p_is_main = p == main;
    let p_is_master = p == master;
    let mut out: Vec<String> = Vec::new();
    let p_blank = p.as_str().is_empty();
    let ghost pv = p@;
    if !p_blank {
        out.push(p);
    }
    if !p_is_main {
        out.push(main);
    }
    if !p_is_master {
        out.push(master);
    }
    proof {
        assert(crate::text::views(out@) =~= seed_candidates(preferred@));
    }
    out
}

/// A failure of the filesystem service.
#[derive(Clone, Debug)]
pub enum FilesystemError {
    DirectoryDoesNotExist,
    PathIsNotDirectory,
    Io(String),
}

/// How the API reports a failure: its status and, for client errors, the message.
#[derive(Clone, Debug)]
pub enum ApiErrorKind {
    NotFound(String),
    BadRequest(String),
    Io(String),
}

/// The API error for a filesystem failure: a missing directory is not found, a file where a
/// directory was expected is a bad request, anything else an I/O error.
pub fn map_filesystem_error(error: FilesystemError) -> (r: ApiErrorKind)
    ensures
        match error {
            FilesystemError::DirectoryDoesNotExist => r matches ApiErrorKind::NotFound(m) && m@
                == "Directory does not exist"@,
            FilesystemError::PathIsNotDirectory => r matches ApiErrorKind::BadRequest(m) && m@
                == "Path is not a directory"@,
            FilesystemError::Io(e) => r matches ApiErrorKind::Io(m) && m@ == e@,
        },
{
    match error {
        FilesystemError::DirectoryDoesNotExist => ApiErrorKind::NotFound("Directory does not exist".to_owned()),
        FilesystemError::PathIsNotDirectory => ApiErrorKind::BadRequest("Path is not a directory".to_owned()),
        FilesystemError::Io(e) => ApiErrorKind::Io(e),
    }
}

/// Receives notifications for the user.
pub trait Notifier {
    fn notify(&self, title: &str, message: &str);
}

/// A notifier that drops every notification.
#[derive(Clone, Copy, Debug, Default)]
pub struct NoopNotifier;

impl Notifier for NoopNotifier {
    fn notify(&self, title: &str, message: &str) {
    }
}

/// The task runtime of a deployment: task operations carried out by its container service.
pub struct DeploymentTaskRuntime<'a, C> {
    pub container: &'a C,
}

impl<'a, C> DeploymentTaskRuntime<'a, C> {
    pub fn new(container: &'a C) -> (r: Self)
        ensures
            r.container == container,
    {
        DeploymentTaskRuntime { container }
    }
}

/// A SQLite database for tests: a file, or one held in memory.
#[derive(Clone, Debug)]
pub struct TestDb {
    db_path: String,
    url: String,
}

impl TestDb {
    /// A database in the file `db.sqlite` under `temp_root`, created on first use.
    pub fn sqlite_file(temp_root: &str) -> (r: Self)
        ensures
            r.path_view() == crate::paths::join_path(temp_root@, "db.sqlite"@),
            r.url_view() == "sqlite://"@ + crate::paths::join_path(temp_root@, "db.sqlite"@) + "?mode=rwc"@,
    {
        let db_path = crate::paths::join(temp_root, "db.sqlite");
        let mut url = "sqlite://".to_owned();
        crate::text::push_str(&mut url, db_path.as_str());
        crate::text::push_str(&mut url, "?mode=rwc");
        TestDb { db_path, url }
    }

    /// A database held in memory, with no file.
    pub fn sqlite_memory() -> (r: Self)
        ensures
            r.path_view() == Seq::<char>::empty(),
            r.url_view() == "sqlite::memory:"@,
    {
        TestDb { db_path: String::new(), url: "sqlite::memory:".to_owned() }
    }

    pub closed spec fn path_view(&self) -> Seq<char> {
        self.db_path@
    }

    pub closed spec fn url_view(&self) -> Seq<char> {
        self.url@
    }

    /// The database file; empty for one in memory.
    pub fn path(&self) -> (r: &str)
        ensures
            r@ == self.path_view(),
    {
        self.db_path.as_str()
    }

    /// The connection address.
    pub fn url(&self) -> (r: &str)
        ensures
            r@ == self.url_view(),
    {
        self.url.as_str()
    }
}

/// Whether the server runs under WSL2: a WSL variable is set (`WSL_DISTRO_NAME` or
/// `WSLENV`), or the kernel's version text mentions `WSL2` or `microsoft`.
pub fn detects_wsl2(distro_name_set: bool, wslenv_set: bool, proc_version: Option<&str>) -> (r: bool)
    ensures
        r == (distro_name_set || wslenv_set || match proc_version {
            Some(v) => crate::text::contains_seq(v@, "WSL2"@) || crate::text::contains_seq(
                v@,
                "microsoft"@,
            ),
            None => false,
        }),
{
    if distro_name_set || wslenv_set {
        return true;
    }
    match proc_version {
        Some(v) => {
            let chars = crate::text::chars_of(v);
            let wsl = crate::text::chars_of("WSL2");
            let ms = crate::text::chars_of("microsoft");
            crate::text::contains_chars(&chars, &wsl) || crate::text::contains_chars(&chars, &ms)
        },
        None => false,
    }
}

} // verus!
