use vibe_kanban::dag::kahn_order;
use vibe_kanban::execution_plan::{
    next_run_reason, ActionKind, backfill_cache_key, needs_backfill, normalized_patch_entries, PatchOp, PatchOpKind,
    all_setups_parallel, build_sequential_setup_chain, cleanup_actions_for_repos, dedupe_entries_by_index,
    entry_stats, normalized_entry_index, setup_action_for_repo, setup_actions_for_repos,
    should_finalize, ExecutionProcessRunReason, ExecutionProcessStatus, LogEntryRow,
    ProjectRepoWithName, ScriptContext,
};
use vibe_kanban::file_ranker::{
    is_cache_entry_expired, FileRanker, FileStat, FileStatsCache, RepoHistoryCache,
    SearchMatchType, SearchResult,
};
use vibe_kanban::idempotency::{
    existing_record_outcome, idempotency_in_progress_ttl, idempotency_key, lower_hex,
    request_hash, ReplayOutcome,
};
use vibe_kanban::images::{
    image_file_headers, image_markdown_path, upload_file_name,
    image_not_found, path_image_format, task_image_found, task_image_path, workspace_image_found,
    workspace_image_path,
};
use vibe_kanban::log_entries::LogEntryChannel;
use vibe_kanban::log_history::{
    cursor_before_min, history_cursor, history_page_limit, history_truncated,
    log_backfill_concurrency, log_history_config, parse_log_persistence_mode,
    resolve_log_persistence_config, LogHistoryQuery, LogPersistenceMode,
};
use vibe_kanban::log_history::{
    history_source, stored_history_source, HistorySource, StoredHistorySource,
};
use vibe_kanban::redaction::JsonValue;
use vibe_kanban::task_lifecycle::{
    agent_working_dir, check_start_request, restores_after_failed_start, status_may_restore,
    StartRequestError,
    default_archive_title, ensure_statuses_non_empty, is_blocking_after_prepare_hook_error,
    normalize_title, plan_milestone_deletion,
};
use vibe_kanban::graph::TaskStatus;
use vibe_kanban::sorting::{sort_by_key, str_le};

#[test]
fn kahn_order_sorts_acyclic_graphs_and_stops_on_cycles() {
    let order = kahn_order(3, &vec![(2, 1), (1, 0)]);
    assert_eq!(order, vec![2, 1, 0]);
    let cyclic = kahn_order(3, &vec![(0, 1), (1, 0)]);
    assert_eq!(cyclic, vec![2]);
}

fn result(path: &str, t: SearchMatchType) -> SearchResult {
    SearchResult {
        path: path.to_string(),
        is_file: true,
        match_type: t,
    }
}

#[test]
fn scores_follow_the_formula() {
    let ranker = FileRanker::new();
    let stats = vec![(
        "src/a.rs".to_string(),
        FileStat {
            last_index: 3,
            commit_count: 5,
            last_time_millis: 0,
        },
    )];
    assert_eq!(
        ranker.calculate_score(&result("src/a.rs", SearchMatchType::FileName), &stats),
        100_000 + 97 * 2 * 10 + 5
    );
    assert_eq!(
        ranker.calculate_score(&result("src/b.rs", SearchMatchType::DirectoryName), &stats),
        10_000
    );
    let old = vec![(
        "x".to_string(),
        FileStat {
            last_index: 500,
            commit_count: 0,
            last_time_millis: 0,
        },
    )];
    assert_eq!(
        ranker.calculate_score(&result("x", SearchMatchType::FullPath), &old),
        1000 + 20
    );
}

#[test]
fn rerank_orders_by_score_keeping_ties() {
    let ranker = FileRanker::default();
    let stats = vec![(
        "hot".to_string(),
        FileStat {
            last_index: 0,
            commit_count: 9,
            last_time_millis: 0,
        },
    )];
    let mut results = vec![
        result("p1", SearchMatchType::FullPath),
        result("d1", SearchMatchType::DirectoryName),
        result("hot", SearchMatchType::DirectoryName),
        result("d2", SearchMatchType::DirectoryName),
        result("f1", SearchMatchType::FileName),
    ];
    ranker.rerank(&mut results, &stats);
    let order: Vec<&str> = results.iter().map(|r| r.path.as_str()).collect();
    assert_eq!(order, vec!["f1", "hot", "d1", "d2", "p1"]);
}

fn entry(head: &str, at: u128) -> RepoHistoryCache {
    RepoHistoryCache {
        head_sha: head.to_string(),
        stats: Vec::new(),
        cached_at: at,
    }
}

#[test]
fn stats_cache_prunes_expired_then_oldest() {
    assert!(!is_cache_entry_expired(0, 0, 1_000));
    assert!(is_cache_entry_expired(0, 10, 11));
    assert!(!is_cache_entry_expired(0, 10, 10));
    let mut cache = FileStatsCache::new();
    cache.insert("/r1".to_string(), entry("h1", 100));
    cache.insert("/r2".to_string(), entry("h2", 50));
    cache.insert("/r3".to_string(), entry("h3", 70));
    cache.insert("/r4".to_string(), entry("h4", 5));
    assert_eq!(cache.len(), 4);
    let (expired, evicted) = cache.prune(60, 2, 70);
    assert_eq!((expired, evicted), (1, 1));
    assert_eq!(cache.len(), 2);
    assert!(cache.stats_for_head(&"/r1".to_string(), &"h1".to_string()).is_some());
    assert!(cache.stats_for_head(&"/r3".to_string(), &"h3".to_string()).is_some());
    assert!(cache.stats_for_head(&"/r3".to_string(), &"other".to_string()).is_none());
    assert!(cache.stats_for_head(&"/r2".to_string(), &"h2".to_string()).is_none());
}

#[test]
fn stats_cache_replaces_and_expires_entries() {
    let mut cache = FileStatsCache::new();
    cache.insert("/r".to_string(), entry("old", 0));
    cache.insert("/r".to_string(), entry("new", 10));
    assert_eq!(cache.len(), 1);
    assert!(cache.stats_for_head(&"/r".to_string(), &"new".to_string()).is_some());
    assert!(!cache.remove_if_expired(&"/r".to_string(), 100, 50));
    assert!(cache.remove_if_expired(&"/r".to_string(), 100, 500));
    assert_eq!(cache.len(), 0);
}

#[test]
fn idempotency_keys_hashes_and_ttls() {
    assert_eq!(idempotency_key(Some("  req-1 ".to_string())), Some("req-1".to_string()));
    assert_eq!(idempotency_key(Some("   ".to_string())), None);
    assert_eq!(idempotency_key(None), None);
    assert_eq!(lower_hex(&vec![0x00, 0xab, 0x0f]), "00ab0f");
    assert_eq!(
        request_hash(&b"abc".to_vec()),
        "ba7816bf8f01cfea414140de5dae2223b00361a396177a9cb410ff61f20015ad"
    );
    assert_eq!(idempotency_in_progress_ttl(None), Some(3600));
    assert_eq!(idempotency_in_progress_ttl(Some("  ".to_string())), Some(3600));
    assert_eq!(idempotency_in_progress_ttl(Some(" 120 ".to_string())), Some(120));
    assert_eq!(idempotency_in_progress_ttl(Some("0".to_string())), None);
    assert_eq!(idempotency_in_progress_ttl(Some("-5".to_string())), None);
    assert_eq!(idempotency_in_progress_ttl(Some("soon".to_string())), Some(3600));
}

#[test]
fn repeated_requests_are_answered_by_record_state() {
    let h = "hash-1".to_string();
    assert_eq!(
        existing_record_outcome(&h, &"hash-2".to_string(), &"completed".to_string(), None),
        ReplayOutcome::HashMismatch
    );
    assert_eq!(
        existing_record_outcome(&h, &h, &"completed".to_string(), Some("{}".to_string())),
        ReplayOutcome::Replay("{}".to_string())
    );
    assert_eq!(
        existing_record_outcome(&h, &h, &"completed".to_string(), None),
        ReplayOutcome::MissingResponse
    );
    assert_eq!(
        existing_record_outcome(&h, &h, &"in_progress".to_string(), None),
        ReplayOutcome::InProgress
    );
    assert_eq!(
        existing_record_outcome(&h, &h, &"weird".to_string(), None),
        ReplayOutcome::UnknownState("weird".to_string())
    );
}

#[test]
fn image_paths_and_metadata() {
    assert_eq!(workspace_image_path(".vibe-images/shot.png"), Some("shot.png".to_string()));
    assert_eq!(workspace_image_path("images/shot.png"), None);
    assert_eq!(workspace_image_path(".vibe-images/../secret"), None);
    assert_eq!(workspace_image_path(".vibe-images/  "), None);
    assert_eq!(task_image_path(".vibe-images/  "), Some("  ".to_string()));
    assert_eq!(task_image_path(".vibe-images/"), None);
    assert_eq!(path_image_format("a/b/Photo.PNG"), Some("png".to_string()));
    assert_eq!(path_image_format(".hidden"), None);
    assert_eq!(path_image_format("noext"), None);
    let missing = image_not_found("x".to_string());
    assert!(!missing.exists);
    assert_eq!(missing.path.as_deref(), Some("x"));
    let found = workspace_image_found(
        ".vibe-images/dir/Shot.JPG".to_string(),
        "dir/Shot.JPG",
        0x67e5504410b1426f9247bb680e5fe0c8,
        2048,
    );
    assert!(found.exists);
    assert_eq!(found.file_name.as_deref(), Some("Shot.JPG"));
    assert_eq!(found.format.as_deref(), Some("jpg"));
    assert_eq!(found.size_bytes, Some(2048));
    assert_eq!(
        found.proxy_url.as_deref(),
        Some("/api/task-attempts/67e55044-10b1-426f-9247-bb680e5fe0c8/images/file/dir/Shot.JPG")
    );
    let task = task_image_found(".vibe-images/u.webp".to_string(), "u.webp", "cat.webp".to_string(), 9, 1);
    assert_eq!(task.file_name.as_deref(), Some("cat.webp"));
    assert_eq!(task.format.as_deref(), Some("webp"));
    assert_eq!(
        task.proxy_url.as_deref(),
        Some("/api/images/00000000-0000-0000-0000-000000000001/file")
    );
}

#[test]
fn log_history_paging() {
    let cfg = log_history_config(None, Some("0".to_string()));
    assert_eq!(cfg.normalized_page_size, 20);
    assert_eq!(cfg.raw_page_size, 1);
    let cfg = log_history_config(Some("50".to_string()), Some("bad".to_string()));
    assert_eq!(cfg.normalized_page_size, 50);
    assert_eq!(cfg.raw_page_size, 200);
    let q = LogHistoryQuery { limit: None, cursor: None };
    assert_eq!(history_page_limit(&cfg, LogEntryChannel::Normalized, &q), 50);
    assert_eq!(history_page_limit(&cfg, LogEntryChannel::Raw, &q), 200);
    let q = LogHistoryQuery { limit: Some(0), cursor: None };
    assert_eq!(history_page_limit(&cfg, LogEntryChannel::Raw, &q), 1);
    let q = LogHistoryQuery { limit: Some(5000), cursor: None };
    assert_eq!(history_page_limit(&cfg, LogEntryChannel::Raw, &q), 1000);
    assert_eq!(history_cursor(Some(-1)), None);
    assert_eq!(history_cursor(Some(12)), Some(12));
    assert_eq!(history_cursor(None), None);
    assert!(cursor_before_min(Some(3), Some(3)));
    assert!(!cursor_before_min(Some(4), Some(3)));
    assert!(cursor_before_min(Some(4), None));
    assert!(!cursor_before_min(None, Some(3)));
    assert!(history_truncated(None, Some(true)));
    assert!(!history_truncated(Some(2), Some(true)));
    assert!(history_truncated(Some(2), Some(false)));
    assert!(history_truncated(Some(2), None));
}

#[test]
fn log_persistence_settings() {
    assert_eq!(parse_log_persistence_mode(Some(" Log-Entries ".to_string())), Some(LogPersistenceMode::LogEntriesOnly));
    assert_eq!(parse_log_persistence_mode(Some("LEGACY".to_string())), Some(LogPersistenceMode::LegacyJsonl));
    assert_eq!(parse_log_persistence_mode(Some("auto".to_string())), None);
    assert_eq!(parse_log_persistence_mode(Some("other".to_string())), None);
    assert_eq!(parse_log_persistence_mode(None), None);
    let cfg = resolve_log_persistence_config(Some("entries".to_string()), false);
    assert_eq!(cfg.mode, LogPersistenceMode::LegacyJsonl);
    assert!(cfg.write_jsonl());
    assert!(!cfg.write_log_entries());
    let cfg = resolve_log_persistence_config(None, true);
    assert_eq!(cfg.mode, LogPersistenceMode::LogEntriesOnly);
    assert!(!cfg.write_jsonl());
    assert!(cfg.write_log_entries());
    let cfg = resolve_log_persistence_config(Some("jsonl".to_string()), true);
    assert_eq!(cfg.mode, LogPersistenceMode::LegacyJsonl);
    assert!(cfg.write_log_entries());
    assert_eq!(log_backfill_concurrency(None), 4);
    assert_eq!(log_backfill_concurrency(Some(" 8 ".to_string())), 8);
    assert_eq!(log_backfill_concurrency(Some("0".to_string())), 1);
    assert_eq!(log_backfill_concurrency(Some("x".to_string())), 4);
}

fn repo(name: &str, setup: Option<&str>, cleanup: Option<&str>) -> ProjectRepoWithName {
    ProjectRepoWithName {
        repo_name: name.to_string(),
        setup_script: setup.map(str::to_string),
        cleanup_script: cleanup.map(str::to_string),
        parallel_setup_script: false,
    }
}

#[test]
fn finalization_rules() {
    type R = ExecutionProcessRunReason;
    type S = ExecutionProcessStatus;
    assert!(!should_finalize(R::DevServer, None, S::Failed));
    assert!(should_finalize(ExecutionProcessRunReason::CodingAgent, None, S::Completed));
    assert!(!should_finalize(ExecutionProcessRunReason::SetupScript, Some(false), S::Failed));
    assert!(should_finalize(ExecutionProcessRunReason::SetupScript, Some(true), S::Killed));
    assert!(!should_finalize(ExecutionProcessRunReason::CodingAgent, Some(true), S::Completed));
    assert!(should_finalize(ExecutionProcessRunReason::CodingAgent, Some(false), S::Completed));
    assert!(should_finalize(ExecutionProcessRunReason::CleanupScript, Some(false), S::Completed));
}

#[test]
fn script_chains() {
    let repos = vec![
        repo("a", Some("npm i"), None),
        repo("b", None, Some("rm -rf tmp")),
        repo("c", Some("make"), Some("make clean")),
    ];
    let setup = setup_actions_for_repos(&repos).unwrap();
    let names: Vec<&str> = setup.iter().map(|s| s.working_dir.as_deref().unwrap()).collect();
    assert_eq!(names, vec!["a", "c"]);
    assert_eq!(setup[1].script, "make");
    assert!(matches!(setup[0].context, ScriptContext::SetupScript));
    let cleanup = cleanup_actions_for_repos(&repos).unwrap();
    assert_eq!(cleanup.len(), 2);
    assert_eq!(cleanup[0].script, "rm -rf tmp");
    assert!(cleanup_actions_for_repos(&vec![repo("x", Some("s"), None)]).is_none());
    assert!(setup_action_for_repo(&repo("x", None, None)).is_none());
    assert_eq!(setup_action_for_repo(&repos[0]).unwrap().script, "npm i");
    let chain = build_sequential_setup_chain(&repos, "agent");
    assert_eq!(chain.setup.len(), 2);
    assert_eq!(chain.next, "agent");
}

fn row(index: i64, json: &str) -> LogEntryRow {
    LogEntryRow {
        entry_index: index,
        entry_json: json.to_string(),
    }
}

#[test]
fn log_rows_are_merged_by_index() {
    let merged = dedupe_entries_by_index(vec![row(3, "c"), row(1, "a"), row(3, "c2"), row(2, "b")]);
    let pairs: Vec<(i64, &str)> = merged.iter().map(|r| (r.entry_index, r.entry_json.as_str())).collect();
    assert_eq!(pairs, vec![(1, "a"), (2, "b"), (3, "c2")]);
    assert_eq!(entry_stats(&vec![]), None);
    assert_eq!(entry_stats(&vec![row(5, "x"), row(-2, "y"), row(9, "z")]), Some((3, -2, 9)));
}

#[test]
fn normalized_patches_are_recognized() {
    let entry = JsonValue::Object(vec![
        ("type".to_string(), JsonValue::Str("NORMALIZED_ENTRY".to_string())),
        ("content".to_string(), JsonValue::Str("hi".to_string())),
    ]);
    assert_eq!(normalized_entry_index("/entries/4", &entry), Some(4));
    assert_eq!(normalized_entry_index("/entries/x", &entry), None);
    assert_eq!(normalized_entry_index("/other/4", &entry), None);
    let stdout = JsonValue::Object(vec![("type".to_string(), JsonValue::Str("STDOUT".to_string()))]);
    assert_eq!(normalized_entry_index("/entries/4", &stdout), None);
    assert_eq!(normalized_entry_index("/entries/4", &JsonValue::Null), None);
}

#[test]
fn task_lifecycle_helpers() {
    assert_eq!(normalize_title(Some("  Sprint 3 ".to_string())), Some("Sprint 3".to_string()));
    assert_eq!(normalize_title(Some(" ".to_string())), None);
    assert_eq!(default_archive_title(0), Some("\u{5f52}\u{6863} 1970-01-01 00:00".to_string()));
    assert_eq!(default_archive_title(1_700_000_000), Some("\u{5f52}\u{6863} 2023-11-14 22:13".to_string()));
    assert!(ensure_statuses_non_empty(&vec![]).is_err());
    assert!(ensure_statuses_non_empty(&vec![TaskStatus::Done]).is_ok());
    assert!(is_blocking_after_prepare_hook_error(
        "Start failed: Workspace Lifecycle Hook Failed During After_Prepare: exit 1"
    ));
    assert!(!is_blocking_after_prepare_hook_error("hook failed before cleanup"));
}

#[test]
fn milestone_deletion_order() {
    let tasks = vec![(10, false), (1, true), (11, false), (12, false), (2, true)];
    let plan = plan_milestone_deletion(&tasks, None, &vec![11, 10, 99]);
    assert_eq!(plan.running_checks, vec![10, 11, 12, 1]);
    assert_eq!(plan.delete_order, vec![10, 11, 12, 1]);
    let plan = plan_milestone_deletion(&tasks, Some(7), &vec![12, 11]);
    assert_eq!(plan.running_checks, vec![10, 11, 12, 7]);
    assert_eq!(plan.delete_order, vec![11, 12, 10, 7]);
}

#[test]
fn strings_sort_by_code_points() {
    let sorted = sort_by_key(vec![
        "b".to_string(),
        "ab".to_string(),
        "a".to_string(),
        "Z".to_string(),
        "é".to_string(),
    ]);
    assert_eq!(sorted, vec!["Z", "a", "ab", "b", "é"]);
    assert!(str_le("a", "a"));
    assert!(str_le("a", "ab"));
    assert!(!str_le("b", "ab"));
}

#[test]
fn failed_start_restores_status_only_for_latest_attempt() {
    assert!(status_may_restore(TaskStatus::Todo, TaskStatus::InProgress));
    assert!(status_may_restore(TaskStatus::Done, TaskStatus::InReview));
    assert!(!status_may_restore(TaskStatus::InProgress, TaskStatus::InProgress));
    assert!(!status_may_restore(TaskStatus::Todo, TaskStatus::Done));
    assert!(restores_after_failed_start(Some(false), Some(Some(7)), 7));
    assert!(restores_after_failed_start(Some(false), Some(None), 7));
    assert!(!restores_after_failed_start(Some(false), Some(Some(8)), 7));
    assert!(!restores_after_failed_start(Some(false), None, 7));
    assert!(!restores_after_failed_start(Some(true), Some(Some(7)), 7));
    assert!(!restores_after_failed_start(None, Some(Some(7)), 7));
}

#[test]
fn start_requests_and_working_dir() {
    assert_eq!(check_start_request(true, 0), Err(StartRequestError::GroupEntryTask));
    assert_eq!(check_start_request(false, 0), Err(StartRequestError::NoRepositories));
    assert_eq!(check_start_request(false, 2), Ok(()));
    assert_eq!(agent_working_dir(&Some("src".to_string())), Some("src".to_string()));
    assert_eq!(agent_working_dir(&Some(String::new())), None);
    assert_eq!(agent_working_dir(&Some(" ".to_string())), Some(" ".to_string()));
    assert_eq!(agent_working_dir(&None), None);
}

#[test]
fn setups_run_in_parallel_only_when_all_allow_it() {
    let mut a = repo("a", Some("npm i"), None);
    let mut b = repo("b", Some("cargo fetch"), None);
    let c = repo("c", None, None);
    assert!(all_setups_parallel(&vec![]));
    assert!(all_setups_parallel(&vec![c.clone()]));
    a.parallel_setup_script = true;
    assert!(!all_setups_parallel(&vec![a.clone(), b.clone(), c.clone()]));
    b.parallel_setup_script = true;
    assert!(all_setups_parallel(&vec![a, b, c]));
}

#[test]
fn backfill_keys_and_decisions() {
    assert_eq!(
        backfill_cache_key(0xabc, LogEntryChannel::Normalized),
        "00000000-0000-0000-0000-000000000abc:normalized"
    );
    assert_eq!(
        backfill_cache_key(1, LogEntryChannel::Raw),
        "00000000-0000-0000-0000-000000000001:raw"
    );
    assert!(needs_backfill(None, (1, 0, 0)));
    assert!(needs_backfill(Some((2, 0, 1)), (3, 0, 2)));
    assert!(!needs_backfill(Some((3, 0, 2)), (3, 0, 2)));
}

#[test]
fn normalized_entries_are_picked_from_patches() {
    let entry = |t: &str| {
        JsonValue::Object(vec![("type".to_string(), JsonValue::Str(t.to_string()))])
    };
    let ops = vec![
        PatchOp { kind: PatchOpKind::Add, path: "/entries/3".to_string(), value: entry("NORMALIZED_ENTRY") },
        PatchOp { kind: PatchOpKind::Other, path: "/entries/4".to_string(), value: entry("NORMALIZED_ENTRY") },
        PatchOp { kind: PatchOpKind::Replace, path: "/entries/5".to_string(), value: entry("STDOUT") },
        PatchOp { kind: PatchOpKind::Replace, path: "/entries/x".to_string(), value: entry("NORMALIZED_ENTRY") },
        PatchOp { kind: PatchOpKind::Replace, path: "/entries/7".to_string(), value: entry("NORMALIZED_ENTRY") },
    ];
    assert_eq!(normalized_patch_entries(&ops), vec![(0, 3), (4, 7)]);
}

#[test]
fn next_actions_run_for_the_right_reason() {
    assert_eq!(next_run_reason(ActionKind::Script, ActionKind::Script), ExecutionProcessRunReason::SetupScript);
    assert_eq!(next_run_reason(ActionKind::CodingAgentInitial, ActionKind::Script), ExecutionProcessRunReason::CleanupScript);
    assert_eq!(next_run_reason(ActionKind::CodingAgentFollowUp, ActionKind::Script), ExecutionProcessRunReason::CleanupScript);
    assert_eq!(next_run_reason(ActionKind::Script, ActionKind::CodingAgentInitial), ExecutionProcessRunReason::CodingAgent);
    assert_eq!(
        next_run_reason(ActionKind::CodingAgentInitial, ActionKind::CodingAgentFollowUp),
        ExecutionProcessRunReason::CodingAgent
    );
}

#[test]
fn image_files_are_private_and_nosniff() {
    let headers = image_file_headers(&Some("image/png".to_string()), 1234);
    let pairs: Vec<(&str, &str)> =
        headers.iter().map(|(k, v)| (k.as_str(), v.as_str())).collect();
    assert_eq!(
        pairs,
        vec![
            ("content-type", "image/png"),
            ("content-length", "1234"),
            ("cache-control", "private, max-age=31536000, immutable"),
            ("x-content-type-options", "nosniff"),
        ]
    );
    assert_eq!(image_file_headers(&None, 0)[0].1, "application/octet-stream");
    assert_eq!(upload_file_name(None), "image.png");
    assert_eq!(upload_file_name(Some("a.jpg".to_string())), "a.jpg");
    assert_eq!(image_markdown_path("abc.png"), ".vibe-images/abc.png");
}

#[test]
fn history_pages_come_from_the_right_source() {
    assert_eq!(history_source(true, false, true), HistorySource::LiveStore);
    assert_eq!(history_source(true, true, true), HistorySource::StoredThenLiveStore);
    assert_eq!(history_source(true, true, false), HistorySource::LiveStoreWithStoredOlder);
    assert_eq!(history_source(false, true, true), HistorySource::Stored);
    assert_eq!(stored_history_source(true, true), StoredHistorySource::Database);
    assert_eq!(stored_history_source(false, true), StoredHistorySource::MemoryStore);
    assert_eq!(stored_history_source(false, false), StoredHistorySource::Empty);
}

#[test]
fn start_request_errors_have_their_messages() {
    assert_eq!(StartRequestError::GroupEntryTask.message(), "Task group entry tasks cannot be started");
    assert_eq!(StartRequestError::NoRepositories.message(), "At least one repository is required");
}
