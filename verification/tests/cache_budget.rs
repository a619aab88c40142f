use vibe_kanban::cache_budget::{
    lookup_env, normalize_max, read_env_duration, read_env_usize, CacheBudgetConfig, WarnLog,
    DEFAULT_APPROVALS_COMPLETED_TTL_SECS, DEFAULT_CACHE_WARN_SAMPLE_SECS,
    DEFAULT_FILE_SEARCH_CACHE_MAX_REPOS, DEFAULT_FILE_SEARCH_CACHE_TTL_SECS,
    DEFAULT_FILE_SEARCH_MAX_FILES, DEFAULT_FILE_SEARCH_WATCHERS_MAX,
    DEFAULT_FILE_SEARCH_WATCHER_TTL_SECS, DEFAULT_FILE_STATS_CACHE_MAX_REPOS,
    DEFAULT_FILE_STATS_CACHE_TTL_SECS, DEFAULT_LOG_BACKFILL_COMPLETION_MAX_ENTRIES,
    DEFAULT_LOG_BACKFILL_COMPLETION_TTL_SECS, DEFAULT_QUEUED_MESSAGES_TTL_SECS,
};

fn vars(pairs: &[(&str, &str)]) -> Vec<(String, String)> {
    pairs
        .iter()
        .map(|(k, v)| (k.to_string(), v.to_string()))
        .collect()
}

#[test]
fn defaults_are_used_without_env() {
    let cfg = CacheBudgetConfig::from_env_with(&Vec::new());

    assert_eq!(
        cfg.file_search_cache_max_repos,
        DEFAULT_FILE_SEARCH_CACHE_MAX_REPOS
    );
    assert_eq!(
        cfg.file_search_cache_ttl_secs,
        DEFAULT_FILE_SEARCH_CACHE_TTL_SECS
    );
    assert_eq!(cfg.file_search_max_files, DEFAULT_FILE_SEARCH_MAX_FILES);
    assert_eq!(
        cfg.file_search_watchers_max,
        DEFAULT_FILE_SEARCH_WATCHERS_MAX
    );
    assert_eq!(
        cfg.file_search_watcher_ttl_secs,
        DEFAULT_FILE_SEARCH_WATCHER_TTL_SECS
    );
    assert_eq!(
        cfg.file_stats_cache_max_repos,
        DEFAULT_FILE_STATS_CACHE_MAX_REPOS
    );
    assert_eq!(
        cfg.file_stats_cache_ttl_secs,
        DEFAULT_FILE_STATS_CACHE_TTL_SECS
    );
    assert_eq!(
        cfg.approvals_completed_ttl_secs,
        DEFAULT_APPROVALS_COMPLETED_TTL_SECS
    );
    assert_eq!(
        cfg.queued_messages_ttl_secs,
        DEFAULT_QUEUED_MESSAGES_TTL_SECS
    );
    assert_eq!(
        cfg.log_backfill_completion_max_entries,
        DEFAULT_LOG_BACKFILL_COMPLETION_MAX_ENTRIES
    );
    assert_eq!(
        cfg.log_backfill_completion_ttl_secs,
        DEFAULT_LOG_BACKFILL_COMPLETION_TTL_SECS
    );
    assert_eq!(cfg.cache_warn_sample_secs, DEFAULT_CACHE_WARN_SAMPLE_SECS);
    assert!(cfg == CacheBudgetConfig::default());
}

#[test]
fn overrides_apply_and_normalize() {
    let envs = vars(&[
        ("VK_FILE_SEARCH_CACHE_MAX_REPOS", "10"),
        ("VK_FILE_SEARCH_MAX_FILES", "100"),
        ("VK_FILE_SEARCH_WATCHERS_MAX", "0"),
        ("VK_FILE_STATS_CACHE_TTL_SECS", "120"),
        ("VK_LOG_BACKFILL_COMPLETION_MAX_ENTRIES", "0"),
        ("VK_LOG_BACKFILL_COMPLETION_TTL_SECS", "45"),
        ("VK_CACHE_WARN_AT_RATIO", "0.5"),
    ]);

    let cfg = CacheBudgetConfig::from_env_with(&envs);

    assert_eq!(cfg.file_search_cache_max_repos, 10);
    assert_eq!(cfg.file_search_max_files, 100);
    assert_eq!(cfg.file_search_watchers_max, 1);
    assert_eq!(cfg.file_stats_cache_ttl_secs, 120);
    assert_eq!(cfg.log_backfill_completion_max_entries, 1);
    assert_eq!(cfg.log_backfill_completion_ttl_secs, 45);
}

#[test]
fn invalid_values_fall_back_to_defaults() {
    let envs = vars(&[
        ("VK_FILE_SEARCH_MAX_FILES", " 100"),
        ("VK_QUEUED_MESSAGES_TTL_SECS", "-5"),
        ("VK_FILE_STATS_CACHE_MAX_REPOS", "+7"),
    ]);
    let cfg = CacheBudgetConfig::from_env_with(&envs);
    assert_eq!(cfg.file_search_max_files, DEFAULT_FILE_SEARCH_MAX_FILES);
    assert_eq!(cfg.queued_messages_ttl_secs, DEFAULT_QUEUED_MESSAGES_TTL_SECS);
    assert_eq!(cfg.file_stats_cache_max_repos, 7);
}

#[test]
fn env_readers_take_the_first_match() {
    let envs = vars(&[("A", "1"), ("B", "x"), ("A", "2")]);
    assert_eq!(lookup_env(&envs, "A"), Some("1".to_string()));
    assert_eq!(lookup_env(&envs, "C"), None);
    assert_eq!(read_env_usize("A", 9, &envs), 1);
    assert_eq!(read_env_usize("B", 9, &envs), 9);
    assert_eq!(read_env_duration("C", 33, &envs), 33);
    assert_eq!(normalize_max(0, "A", 5), 1);
    assert_eq!(normalize_max(3, "A", 5), 3);
}

#[test]
fn warnings_are_rate_limited_per_cache() {
    let mut log = WarnLog::new();
    let sec: u128 = 1_000_000_000;
    assert!(log.should_warn("file_stats_cache", 100 * sec, 300 * sec));
    assert!(!log.should_warn("file_stats_cache", 200 * sec, 300 * sec));
    assert!(log.should_warn("queued_messages", 200 * sec, 300 * sec));
    assert!(log.should_warn("file_stats_cache", 400 * sec, 300 * sec));
    assert!(!log.should_warn("file_stats_cache", 500 * sec, 300 * sec));
    assert!(log.should_warn("file_stats_cache", 500 * sec, 0));
}
