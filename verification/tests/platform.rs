use vibe_kanban::api_types::{
    detects_wsl2, map_filesystem_error, seed_branch_candidates, ApiErrorKind, DeploymentTaskRuntime,
    Environment, FilesystemError, NoopNotifier, Notifier, TestDb,
};
use vibe_kanban::clock::{
    now_nanos, now_unix_millis, now_unix_timestamp, to_unix_ms, to_unix_nanos, to_unix_timestamp,
};
use vibe_kanban::config_schema::{
    NormalizableSettings,
    drop_blank, normalized_branch_prefix, normalized_config_version, default_diff_preview_guard, default_git_branch_prefix, default_git_no_verify,
    default_pr_auto_description_enabled, DiffPreviewGuardPreset, GitHubConfig, SoundFile,
};
use vibe_kanban::ids::uuid_string;
use vibe_kanban::log_entries::LogEntryChannel;
use vibe_kanban::number::{parse_i64_str, parse_u64, parse_u64_trimmed, parse_usize};
use vibe_kanban::paths::{
    config_repo_name, distinct_roots, repo_name_from_path, working_dir_backfill,
    workspace_root_candidates,
};
use vibe_kanban::paths::{
    dev_working_dir_request, ensure_within_roots, join, relative_working_dir,
    repo_request_directory, request_directory, starts_with_path, vk_config_dir,
    vk_config_schema_path, vk_config_yaml_path, vk_projects_dir, vk_projects_schema_path,
    vk_projects_ui_yaml_path, vk_projects_yaml_path, vk_secret_env_path, PathAccessError,
};
use vibe_kanban::streams::{
    patch_for, PatchKind,
    next_ws_seq, next_ws_seq_at, parse_last_event_id, resume_after_seq, EventsQuery,
};

#[test]
fn numbers_parse_as_rust_does() {
    assert_eq!(parse_u64("42"), Some(42));
    assert_eq!(parse_u64("+42"), Some(42));
    assert_eq!(parse_u64(" 42"), None);
    assert_eq!(parse_u64(""), None);
    assert_eq!(parse_u64("18446744073709551615"), Some(u64::MAX));
    assert_eq!(parse_u64("18446744073709551616"), None);
    assert_eq!(parse_usize("7x"), None);
    assert_eq!(parse_u64_trimmed(" 9 \n"), Some(9));
    assert_eq!(parse_i64_str("-9223372036854775808"), Some(i64::MIN));
    assert_eq!(parse_i64_str("9223372036854775807"), Some(i64::MAX));
    assert_eq!(parse_i64_str("9223372036854775808"), None);
    assert_eq!(parse_i64_str("-+1"), None);
    assert_eq!(parse_i64_str("-"), None);
    assert_eq!(parse_i64_str("-12"), Some(-12));
}

#[test]
fn event_stream_resumes_from_query_then_header() {
    assert_eq!(parse_last_event_id(Some(" 17 ".to_string())), Some(17));
    assert_eq!(parse_last_event_id(Some("abc".to_string())), None);
    assert_eq!(parse_last_event_id(None), None);
    let q = EventsQuery { after_seq: Some(3) };
    assert_eq!(resume_after_seq(&q, Some("17".to_string())), Some(3));
    let q = EventsQuery { after_seq: None };
    assert_eq!(resume_after_seq(&q, Some("17".to_string())), Some(17));
}

#[test]
fn sequence_numbers_grow() {
    let mut last = 5;
    assert_eq!(next_ws_seq_at(&mut last, 3), 6);
    assert_eq!(last, 6);
    assert_eq!(next_ws_seq_at(&mut last, 100), 100);
    let mut max = u64::MAX;
    assert_eq!(next_ws_seq_at(&mut max, 0), u64::MAX);
    let mut clock_seq = 0;
    let a = next_ws_seq(&mut clock_seq);
    let b = next_ws_seq(&mut clock_seq);
    assert!(b > a);
}

#[test]
fn unix_times() {
    assert_eq!(to_unix_ms(None), 0);
    assert_eq!(to_unix_ms(Some((1, 500_000_000))), 1500);
    assert_eq!(to_unix_ms(Some((u64::MAX, 0))), u64::MAX);
    assert!(now_unix_millis() > 1_600_000_000_000);
    assert!(now_unix_timestamp() > 1_600_000_000);
}

#[test]
fn uuids_are_written_hyphenated() {
    assert_eq!(uuid_string(0), "00000000-0000-0000-0000-000000000000");
    assert_eq!(
        uuid_string(0x67e5504410b1426f9247bb680e5fe0c8),
        "67e55044-10b1-426f-9247-bb680e5fe0c8"
    );
}

#[test]
fn config_layout() {
    assert_eq!(vk_config_dir(Some("  /tmp/cfg "), "/home/u/.config"), "/tmp/cfg");
    assert_eq!(vk_config_dir(Some("  "), "/home/u/.config"), "/home/u/.config/vk");
    assert_eq!(vk_config_dir(None, "/home/u/.config/"), "/home/u/.config/vk");
    assert_eq!(vk_config_yaml_path("/c"), "/c/config.yaml");
    assert_eq!(vk_secret_env_path("/c"), "/c/secret.env");
    assert_eq!(vk_config_schema_path("/c"), "/c/config.schema.json");
    assert_eq!(vk_projects_yaml_path("/c"), "/c/projects.yaml");
    assert_eq!(vk_projects_schema_path("/c"), "/c/projects.schema.json");
    assert_eq!(vk_projects_dir("/c"), "/c/projects.d");
    assert_eq!(vk_projects_ui_yaml_path("/c"), "/c/projects.ui.yaml");
    assert_eq!(join("", "a"), "a");
}

#[test]
fn requested_directories_stay_within_roots() {
    let roots = vec!["/home/u".to_string(), "/srv/work".to_string()];
    assert_eq!(request_directory(None, &roots), Ok("/home/u".to_string()));
    assert_eq!(request_directory(Some("proj"), &roots), Ok("/home/u/proj".to_string()));
    assert_eq!(request_directory(Some("/abs"), &roots), Ok("/abs".to_string()));
    assert_eq!(request_directory(Some("x"), &vec![]), Err(PathAccessError::NoWorkspaceRoots));
    assert_eq!(repo_request_directory("  ", &roots), Err(PathAccessError::PathRequired));
    assert!(starts_with_path("/srv/work/a", "/srv/work"));
    assert!(!starts_with_path("/srv/workshop", "/srv/work"));
    assert_eq!(ensure_within_roots("/srv/work/repo", &roots), Ok(()));
    assert_eq!(
        ensure_within_roots("/etc", &roots),
        Err(PathAccessError::OutsideWorkspaceRoots)
    );
    assert_eq!(
        PathAccessError::OutsideWorkspaceRoots.message(),
        "Path is outside configured workspace roots"
    );
}

#[test]
fn dev_working_dirs_are_relative_and_inside() {
    assert_eq!(dev_working_dir_request(None), Ok(None));
    assert_eq!(dev_working_dir_request(Some("  ")), Ok(None));
    assert_eq!(dev_working_dir_request(Some(" web ")), Ok(Some("web".to_string())));
    assert_eq!(
        dev_working_dir_request(Some("/abs")),
        Err(PathAccessError::WorkingDirNotRelative)
    );
    assert_eq!(relative_working_dir("/ws/repo-a", "/ws"), Ok(Some("repo-a".to_string())));
    assert_eq!(relative_working_dir("/ws", "/ws"), Ok(None));
    assert_eq!(
        relative_working_dir("/outside", "/ws"),
        Err(PathAccessError::WorkingDirOutsideWorkspace)
    );
}

#[test]
fn config_defaults_and_accessors() {
    assert_eq!(default_git_branch_prefix(), "vk");
    assert!(default_pr_auto_description_enabled());
    assert!(!default_git_no_verify());
    assert!(matches!(default_diff_preview_guard(), DiffPreviewGuardPreset::Balanced));
    assert_eq!(SoundFile::CowMooing.to_filename(), "cow-mooing.wav");
    assert_eq!(SoundFile::AbstractSound3.to_filename(), "abstract-sound3.wav");
    let mut gh = GitHubConfig::default();
    assert_eq!(gh.token(), None);
    assert_eq!(gh.default_pr_base.as_deref(), Some("main"));
    gh.oauth_token = Some("oauth".to_string());
    assert_eq!(gh.token(), Some("oauth".to_string()));
    gh.pat = Some("pat".to_string());
    assert_eq!(gh.token(), Some("pat".to_string()));
}

#[test]
fn log_channels_round_trip() {
    assert_eq!(LogEntryChannel::Raw.as_str(), "raw");
    assert_eq!(LogEntryChannel::parse("normalized"), Ok(LogEntryChannel::Normalized));
    assert_eq!(
        "bogus".parse::<LogEntryChannel>(),
        Err("Unknown log entry channel: bogus".to_string())
    );
}

#[test]
fn api_helpers() {
    assert!(matches!(
        map_filesystem_error(FilesystemError::DirectoryDoesNotExist),
        ApiErrorKind::NotFound(m) if m == "Directory does not exist"
    ));
    assert!(matches!(
        map_filesystem_error(FilesystemError::PathIsNotDirectory),
        ApiErrorKind::BadRequest(m) if m == "Path is not a directory"
    ));
    assert!(matches!(
        map_filesystem_error(FilesystemError::Io("disk".to_string())),
        ApiErrorKind::Io(m) if m == "disk"
    ));
    assert_eq!(seed_branch_candidates(" dev "), vec!["dev", "main", "master"]);
    assert_eq!(seed_branch_candidates("main"), vec!["main", "master"]);
    assert_eq!(seed_branch_candidates("master"), vec!["master", "main"]);
    assert_eq!(seed_branch_candidates("  "), vec!["main", "master"]);
    NoopNotifier.notify("title", "message");
    let container = 5u8;
    let runtime = DeploymentTaskRuntime::new(&container);
    assert_eq!(*runtime.container, 5);
    let env = Environment::new();
    assert!(!env.os_type.is_empty());
}

#[test]
fn test_databases() {
    let mem = TestDb::sqlite_memory();
    assert_eq!(mem.url(), "sqlite::memory:");
    assert_eq!(mem.path(), "");
    let file = TestDb::sqlite_file("/tmp/root");
    assert_eq!(file.path(), "/tmp/root/db.sqlite");
    assert_eq!(file.url(), "sqlite:///tmp/root/db.sqlite?mode=rwc");
}

#[test]
fn outbox_events_become_patches() {
    assert_eq!(patch_for(PatchKind::Remove, false), Some(PatchKind::Remove));
    assert_eq!(patch_for(PatchKind::Remove, true), Some(PatchKind::Remove));
    assert_eq!(patch_for(PatchKind::Add, true), Some(PatchKind::Add));
    assert_eq!(patch_for(PatchKind::Replace, true), Some(PatchKind::Replace));
    assert_eq!(patch_for(PatchKind::Add, false), None);
    assert_eq!(patch_for(PatchKind::Replace, false), None);
}

#[test]
fn repo_names_come_from_paths() {
    assert_eq!(repo_name_from_path("/home/me/code/web/", 1), "web");
    assert_eq!(repo_name_from_path("/", 1), "00000000-0000-0000-0000-000000000001");
}

#[test]
fn single_repo_projects_get_working_dirs() {
    let name = "web".to_string();
    let s = |x: &str| Some(x.to_string());
    assert_eq!(
        working_dir_backfill(&s("npm run dev"), &None, &None, &name),
        Some((s("web"), s("web")))
    );
    assert_eq!(
        working_dir_backfill(&None, &None, &s(""), &name),
        Some((None, s("web")))
    );
    assert_eq!(
        working_dir_backfill(&s("npm run dev"), &s("app"), &s("app"), &name),
        None
    );
    assert_eq!(
        working_dir_backfill(&s(""), &s(""), &s("x"), &name),
        None
    );
}

#[test]
fn configured_repo_names() {
    assert_eq!(config_repo_name(&Some("Web".to_string()), "/code/web"), "Web");
    assert_eq!(config_repo_name(&None, "/code/web"), "web");
    assert_eq!(config_repo_name(&None, "/"), "repo");
}

#[test]
fn workspace_roots_in_order() {
    let s = |x: &str| x.to_string();
    assert_eq!(
        workspace_root_candidates(Some(s("/ws")), s("/base"), Some(s("/home/me")), Some(s("/cwd"))),
        vec![s("/ws"), s("/base")]
    );
    assert_eq!(
        workspace_root_candidates(None, s("/base"), Some(s("/home/me")), Some(s("/cwd"))),
        vec![s("/home/me"), s("/base"), s("/cwd")]
    );
    assert_eq!(workspace_root_candidates(None, s("/base"), None, None), vec![s("/base")]);
    assert_eq!(
        distinct_roots(&vec![Some(s("/a")), None, Some(s("/b")), Some(s("/a"))]),
        Some(vec![s("/a"), s("/b")])
    );
    assert_eq!(distinct_roots(&vec![None, None]), None);
}

#[test]
fn config_normalization_pieces() {
    assert_eq!(drop_blank(Some("  ".to_string())), None);
    assert_eq!(drop_blank(Some(" /ws ".to_string())), Some(" /ws ".to_string()));
    assert_eq!(drop_blank(None), None);
    assert_eq!(normalized_branch_prefix("feature".to_string(), true), "feature");
    assert_eq!(normalized_branch_prefix("foo/bar".to_string(), false), "vk");
    assert_eq!(normalized_config_version(), "v10");
}

#[test]
fn wsl2_detection() {
    assert!(detects_wsl2(true, false, None));
    assert!(detects_wsl2(false, true, None));
    assert!(detects_wsl2(false, false, Some("Linux version 5.15.90.1-microsoft-standard-WSL2")));
    assert!(detects_wsl2(false, false, Some("... WSL2 ...")));
    assert!(!detects_wsl2(false, false, Some("Linux version 6.1.0-18-amd64")));
    assert!(!detects_wsl2(false, false, None));
}

#[test]
fn normalization_resets_invalid_prefix_and_drops_blank_settings() {
    let settings = NormalizableSettings {
        config_version: "v1".to_string(),
        git_branch_prefix: "foo/bar".to_string(),
        executor_variant: Some("  ".to_string()),
        llman_claude_code_path: Some("/opt/agent/bin".to_string()),
        workspace_dir: Some("".to_string()),
        access_token: Some("\t".to_string()),
    };
    let normalized = settings.normalized(false);
    assert_eq!(normalized.config_version, "v10");
    assert_eq!(normalized.git_branch_prefix, "vk");
    assert_eq!(normalized.executor_variant, None);
    assert_eq!(normalized.llman_claude_code_path.as_deref(), Some("/opt/agent/bin"));
    assert_eq!(normalized.workspace_dir, None);
    assert_eq!(normalized.access_token, None);
}

#[test]
fn normalization_keeps_valid_prefix() {
    let settings = NormalizableSettings {
        config_version: "v1".to_string(),
        git_branch_prefix: "feature".to_string(),
        executor_variant: Some("PLAN".to_string()),
        llman_claude_code_path: None,
        workspace_dir: Some("/work".to_string()),
        access_token: Some("secret".to_string()),
    };
    let normalized = settings.normalized(true);
    assert_eq!(normalized.config_version, "v10");
    assert_eq!(normalized.git_branch_prefix, "feature");
    assert_eq!(normalized.executor_variant.as_deref(), Some("PLAN"));
    assert_eq!(normalized.llman_claude_code_path, None);
    assert_eq!(normalized.workspace_dir.as_deref(), Some("/work"));
    assert_eq!(normalized.access_token.as_deref(), Some("secret"));
}

#[test]
fn clock_readings_convert_to_nanos_and_seconds() {
    assert_eq!(to_unix_nanos(None), 0);
    assert_eq!(to_unix_nanos(Some((2, 5))), 2_000_000_005);
    assert_eq!(to_unix_timestamp(None), 0);
    assert_eq!(to_unix_timestamp(Some((1_700_000_000, 999))), 1_700_000_000);
    assert_eq!(to_unix_timestamp(Some((u64::MAX, 0))), -1);
    assert!(now_nanos() > 1_600_000_000_000_000_000);
}

#[test]
fn normalizing_settings_twice_changes_nothing() {
    let settings = NormalizableSettings {
        config_version: "v3".to_string(),
        git_branch_prefix: "bad prefix".to_string(),
        executor_variant: Some(" PLAN ".to_string()),
        llman_claude_code_path: Some(" ".to_string()),
        workspace_dir: None,
        access_token: Some("t".to_string()),
    };
    let once = settings.normalized(false);
    let twice = once.clone().normalized(true);
    assert_eq!(twice.config_version, once.config_version);
    assert_eq!(twice.git_branch_prefix, once.git_branch_prefix);
    assert_eq!(once.git_branch_prefix, "vk");
    assert_eq!(twice.executor_variant, once.executor_variant);
    assert_eq!(once.executor_variant.as_deref(), Some(" PLAN "));
    assert_eq!(twice.llman_claude_code_path, None);
    assert_eq!(twice.workspace_dir, None);
    assert_eq!(twice.access_token.as_deref(), Some("t"));
}

#[test]
fn environment_from_parts_marks_an_unknown_architecture() {
    let env = Environment::from_parts(
        "Ubuntu".to_string(),
        "22.04".to_string(),
        None,
        "64-bit".to_string(),
    );
    assert_eq!(env.os_type, "Ubuntu");
    assert_eq!(env.os_version, "22.04");
    assert_eq!(env.os_architecture, "unknown");
    assert_eq!(env.bitness, "64-bit");
    let env = Environment::from_parts(
        "Mac OS".to_string(),
        "14.0".to_string(),
        Some("arm64".to_string()),
        "64-bit".to_string(),
    );
    assert_eq!(env.os_architecture, "arm64");
}
