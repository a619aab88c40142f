//! User configuration schema: enumerations, defaults and small accessors.
use vstd::prelude::*;

verus! {

/// Version written into every normalized configuration.
pub const CURRENT_CONFIG_VERSION: &'static str = "v10";

/// How eagerly large diffs are held back from the preview.
#[derive(Clone, Copy, Debug, PartialEq, Eq, Structural)]
pub enum DiffPreviewGuardPreset {
    Safe,
    Balanced,
    Relaxed,
    Off,
}

impl Default for DiffPreviewGuardPreset {
    fn default() -> (r: Self)
        ensures
            r == DiffPreviewGuardPreset::Balanced,
    {
        DiffPreviewGuardPreset::Balanced
    }
}

/// Feature showcases the user has already seen.
#[derive(Clone, Debug)]
pub struct ShowcaseState {
    pub seen_features: Vec<String>,
}

impl Default for ShowcaseState {
    fn default() -> (r: Self)
        ensures
            r.seen_features@.len() == 0,
    {
        ShowcaseState { seen_features: Vec::new() }
    }
}

/// Colour theme of the UI.
#[derive(Clone, Copy, Debug, PartialEq, Eq, Structural)]
pub enum ThemeMode {
    Light,
    Dark,
    System,
}

impl Default for ThemeMode {
    fn default() -> (r: Self)
        ensures
            r == ThemeMode::System,
    {
        ThemeMode::System
    }
}

/// Language of the UI.
#[derive(Clone, Copy, Debug, PartialEq, Eq, Structural)]
pub enum UiLanguage {
    Browser,
    En,
    ZhHans,
}

impl Default for UiLanguage {
    fn default() -> (r: Self)
        ensures
            r == UiLanguage::Browser,
    {
        UiLanguage::Browser
    }
}

/// Sound played on notifications.
#[derive(Clone, Copy, Debug, PartialEq, Eq, Structural)]
pub enum SoundFile {
    AbstractSound1,
    AbstractSound2,
    AbstractSound3,
    AbstractSound4,
    CowMooing,
    PhoneVibration,
    Rooster,
}

/// File name of a sound asset.
pub open spec fn sound_filename(s: SoundFile) -> Seq<char> {
    match s {
        SoundFile::AbstractSound1 => "abstract-sound1.wav"@,
        SoundFile::AbstractSound2 => "abstract-sound2.wav"@,
        SoundFile::AbstractSound3 => "abstract-sound3.wav"@,
        SoundFile::AbstractSound4 => "abstract-sound4.wav"@,
        SoundFile::CowMooing => "cow-mooing.wav"@,
        SoundFile::PhoneVibration => "phone-vibration.wav"@,
        SoundFile::Rooster => "rooster.wav"@,
    }
}

impl SoundFile {
    /// File name of the embedded sound asset.
    pub fn to_filename(&self) -> (r: &'static str)
        ensures
            r@ == sound_filename(*self),
    {
        match self {
            SoundFile::AbstractSound1 => "abstract-sound1.wav",
            SoundFile::AbstractSound2 => "abstract-sound2.wav",
            SoundFile::AbstractSound3 => "abstract-sound3.wav",
            SoundFile::AbstractSound4 => "abstract-sound4.wav",
            SoundFile::CowMooing => "cow-mooing.wav",
            SoundFile::PhoneVibration => "phone-vibration.wav",
            SoundFile::Rooster => "rooster.wav",
        }
    }
}

/// Notification preferences.
#[derive(Clone, Copy, Debug)]
pub struct NotificationConfig {
    pub sound_enabled: bool,
    pub push_enabled: bool,
    pub sound_file: SoundFile,
}

impl Default for NotificationConfig {
    fn default() -> (r: Self)
        ensures
            r.sound_enabled,
            r.push_enabled,
            r.sound_file == SoundFile::CowMooing,
    {
        NotificationConfig { sound_enabled: true, push_enabled: true, sound_file: SoundFile::CowMooing }
    }
}

/// GitHub credentials and defaults.
#[derive(Clone, Debug)]
pub struct GitHubConfig {
    pub pat: Option<String>,
    pub oauth_token: Option<String>,
    pub username: Option<String>,
    pub primary_email: Option<String>,
    pub default_pr_base: Option<String>,
}

impl Default for GitHubConfig {
    fn default() -> (r: Self)
        ensures
            r.pat is None,
            r.oauth_token is None,
            r.username is None,
            r.primary_email is None,
            r.default_pr_base matches Some(b) && b@ == "main"@,
    {
        GitHubConfig {
            pat: None,
            oauth_token: None,
            username: None,
            primary_email: None,
            default_pr_base: Some(String::from_str("main")),
        }
    }
}

/// The token to authenticate with: the personal access token when set, else the OAuth token.
pub open spec fn spec_github_token(c: GitHubConfig) -> Option<Seq<char>> {
    match c.pat {
        Some(p) => Some(p@),
        None => match c.oauth_token {
            Some(o) => Some(o@),
            None => None,
        },
    }
}

impl GitHubConfig {
    /// The token to authenticate with: the personal access token when set, else the OAuth token.
    pub fn token(&self) -> (r: Option<String>)
        ensures
            match r {
                Some(t) => spec_github_token(*self) == Some(t@),
                None => spec_github_token(*self) is None,
            },
    {
        match &self.pat {
            Some(p) => Some(p.clone()),
            None => match &self.oauth_token {
                Some(o) => Some(o.clone()),
                None => None,
            },
        }
    }
}

/// Whether API access needs a token.
#[derive(Clone, Copy, Debug, PartialEq, Eq, Structural)]
pub enum AccessControlMode {
    Disabled,
    Token,
}

impl Default for AccessControlMode {
    fn default() -> (r: Self)
        ensures
            r == AccessControlMode::Disabled,
    {
        AccessControlMode::Disabled
    }
}

/// API access control settings.
#[derive(Clone, Debug)]
pub struct AccessControlConfig {
    pub mode: AccessControlMode,
    pub token: Option<String>,
    pub allow_localhost_bypass: bool,
}

impl Default for AccessControlConfig {
    fn default() -> (r: Self)
        ensures
            r.mode == AccessControlMode::Disabled,
            r.token is None,
            r.allow_localhost_bypass,
    {
        AccessControlConfig { mode: AccessControlMode::Disabled, token: None, allow_localhost_bypass: true }
    }
}

/// Default prefix of attempt branch names.
pub fn default_git_branch_prefix() -> (r: String)
    ensures
        r@ == "vk"@,
{
    String::from_str("vk")
}

/// PR descriptions are generated by default.
pub fn default_pr_auto_description_enabled() -> (r: bool)
    ensures
        r,
{
    true
}

/// Git hooks run by default.
pub fn default_git_no_verify() -> (r: bool)
    ensures
        !r,
{
    false
}

/// The diff preview guard starts balanced.
pub fn default_diff_preview_guard() -> (r: DiffPreviewGuardPreset)
    ensures
        r == DiffPreviewGuardPreset::Balanced,
{
    DiffPreviewGuardPreset::Balanced
}

/// An optional setting with blank values dropped.
pub open spec fn spec_drop_blank(v: Option<Seq<char>>) -> Option<Seq<char>> {
    match v {
        Some(x) => if crate::text::is_blank(x) {
            None
        } else {
            Some(x)
        },
        None => None,
    }
}

/// An optional setting as normalization keeps it: dropped when blank, else unchanged.
pub fn drop_blank(value: Option<String>) -> (r: Option<String>)
    ensures
        crate::text::opt_view(r) == spec_drop_blank(crate::text::opt_view(value)),
{
    match value {
        Some(v) => if crate::text::blank(v.as_str()) {
            None
        } else {
            Some(v)
        },
        None => None,
    }
}

/// The branch prefix a normalized configuration keeps: the given one when git accepts it
/// as a prefix, else the default `vk`.
pub fn normalized_branch_prefix(prefix: String, prefix_valid: bool) -> (r: String)
    ensures
        r@ == (if prefix_valid {
            prefix@
        } else {
            "vk"@
        }),
{
    if prefix_valid {
        prefix
    } else {
        default_git_branch_prefix()
    }
}

/// The version a normalized configuration carries, whatever it was written with.
pub fn normalized_config_version() -> (r: String)
    ensures
        r@ == CURRENT_CONFIG_VERSION@,
{
    CURRENT_CONFIG_VERSION.to_owned()
}

/// The settings of a configuration that normalization rewrites; every other setting of a
/// configuration passes through normalization unchanged.
#[derive(Clone, Debug)]
pub struct NormalizableSettings {
    pub config_version: String,
    pub git_branch_prefix: String,
    /// The variant of the chosen executor profile.
    pub executor_variant: Option<String>,
    pub llman_claude_code_path: Option<String>,
    pub workspace_dir: Option<String>,
    /// The access-control token.
    pub access_token: Option<String>,
}

/// The settings as character sequences: version, branch prefix, executor variant, agent
/// binary path, workspace directory, access token.
pub type SettingsView = (
    Seq<char>,
    Seq<char>,
    Option<Seq<char>>,
    Option<Seq<char>>,
    Option<Seq<char>>,
    Option<Seq<char>>,
);

impl View for NormalizableSettings {
    type V = SettingsView;

    open spec fn view(&self) -> SettingsView {
        (
            self.config_version@,
            self.git_branch_prefix@,
            crate::text::opt_view(self.executor_variant),
            crate::text::opt_view(self.llman_claude_code_path),
            crate::text::opt_view(self.workspace_dir),
            crate::text::opt_view(self.access_token),
        )
    }
}

/// The settings as a normalized configuration holds them: the current version, the branch
/// prefix reset to `vk` unless git accepts it (`prefix_valid`), and the blank optional
/// settings dropped.
pub open spec fn normalized_settings(s: SettingsView, prefix_valid: bool) -> SettingsView {
    (
        CURRENT_CONFIG_VERSION@,
        if prefix_valid {
            s.1
        } else {
            "vk"@
        },
        spec_drop_blank(s.2),
        spec_drop_blank(s.3),
        spec_drop_blank(s.4),
        spec_drop_blank(s.5),
    )
}

impl NormalizableSettings {
    /// The settings as a normalized configuration holds them (see `normalized_settings`).
    pub fn normalized(self, prefix_valid: bool) -> (r: Self)
        ensures
            r@ == normalized_settings(self@, prefix_valid),
    {
        NormalizableSettings {
            config_version: normalized_config_version(),
            git_branch_prefix: normalized_branch_prefix(self.git_branch_prefix, prefix_valid),
            executor_variant: drop_blank(self.executor_variant),
            llman_claude_code_path: drop_blank(self.llman_claude_code_path),
            workspace_dir: drop_blank(self.workspace_dir),
            access_token: drop_blank(self.access_token),
        }
    }
}

proof fn lemma_drop_blank_idempotent(v: Option<Seq<char>>)
    ensures
        spec_drop_blank(spec_drop_blank(v)) == spec_drop_blank(v),
{
}

/// Normalizing normalized settings changes nothing. The second normalization is given git's
/// verdict on the prefix that the first one left (`again_valid`): a prefix git accepted, or
/// the default `vk`; the law holds where git accepts it.
pub proof fn law_normalizing_settings_twice(s: SettingsView, prefix_valid: bool, again_valid: bool)
    requires
        again_valid,
    ensures
        normalized_settings(normalized_settings(s, prefix_valid), again_valid) == normalized_settings(
            s,
            prefix_valid,
        ),
{
    lemma_drop_blank_idempotent(s.2);
    lemma_drop_blank_idempotent(s.3);
    lemma_drop_blank_idempotent(s.4);
    lemma_drop_blank_idempotent(s.5);
}

} // verus!
