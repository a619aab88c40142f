//! Limits of the in-memory caches, read from the environment with defaults, and the
//! rate limit of the warnings that the caches log.
use vstd::prelude::*;

use crate::number::{parse_u64, parse_unsigned, parse_usize};
use crate::text::opt_view;

verus! {

pub const DEFAULT_FILE_SEARCH_CACHE_MAX_REPOS: usize = 25;
pub const DEFAULT_FILE_SEARCH_CACHE_TTL_SECS: u64 = 3600;
pub const DEFAULT_FILE_SEARCH_MAX_FILES: usize = 200000;
pub const DEFAULT_FILE_SEARCH_WATCHERS_MAX: usize = 25;
pub const DEFAULT_FILE_SEARCH_WATCHER_TTL_SECS: u64 = 21600;
pub const DEFAULT_FILE_STATS_CACHE_MAX_REPOS: usize = 25;
pub const DEFAULT_FILE_STATS_CACHE_TTL_SECS: u64 = 3600;
pub const DEFAULT_APPROVALS_COMPLETED_TTL_SECS: u64 = 86400;
pub const DEFAULT_QUEUED_MESSAGES_TTL_SECS: u64 = 86400;
pub const DEFAULT_LOG_BACKFILL_COMPLETION_MAX_ENTRIES: usize = 10000;
pub const DEFAULT_LOG_BACKFILL_COMPLETION_TTL_SECS: u64 = 86400;
pub const DEFAULT_CACHE_WARN_SAMPLE_SECS: u64 = 300;

/// Cache limits. A time to live of zero means entries never expire; durations are in whole
/// seconds.
#[derive(Clone, Copy, Debug, PartialEq, Eq, Structural)]
pub struct CacheBudgetConfig {
    pub file_search_cache_max_repos: usize,
    pub file_search_cache_ttl_secs: u64,
    pub file_search_max_files: usize,
    pub file_search_watchers_max: usize,
    pub file_search_watcher_ttl_secs: u64,
    pub file_stats_cache_max_repos: usize,
    pub file_stats_cache_ttl_secs: u64,
    pub approvals_completed_ttl_secs: u64,
    pub queued_messages_ttl_secs: u64,
    pub log_backfill_completion_max_entries: usize,
    pub log_backfill_completion_ttl_secs: u64,
    pub cache_warn_sample_secs: u64,
}

/// The limits used when the environment sets none.
pub open spec fn default_budgets() -> CacheBudgetConfig {
    CacheBudgetConfig {
        file_search_cache_max_repos: DEFAULT_FILE_SEARCH_CACHE_MAX_REPOS,
        file_search_cache_ttl_secs: DEFAULT_FILE_SEARCH_CACHE_TTL_SECS,
        file_search_max_files: DEFAULT_FILE_SEARCH_MAX_FILES,
        file_search_watchers_max: DEFAULT_FILE_SEARCH_WATCHERS_MAX,
        file_search_watcher_ttl_secs: DEFAULT_FILE_SEARCH_WATCHER_TTL_SECS,
        file_stats_cache_max_repos: DEFAULT_FILE_STATS_CACHE_MAX_REPOS,
        file_stats_cache_ttl_secs: DEFAULT_FILE_STATS_CACHE_TTL_SECS,
        approvals_completed_ttl_secs: DEFAULT_APPROVALS_COMPLETED_TTL_SECS,
        queued_messages_ttl_secs: DEFAULT_QUEUED_MESSAGES_TTL_SECS,
        log_backfill_completion_max_entries: DEFAULT_LOG_BACKFILL_COMPLETION_MAX_ENTRIES,
        log_backfill_completion_ttl_secs: DEFAULT_LOG_BACKFILL_COMPLETION_TTL_SECS,
        cache_warn_sample_secs: DEFAULT_CACHE_WARN_SAMPLE_SECS,
    }
}

impl Default for CacheBudgetConfig {
    fn default() -> (r: Self)
        ensures
            r == default_budgets(),
    {
        CacheBudgetConfig {
            file_search_cache_max_repos: DEFAULT_FILE_SEARCH_CACHE_MAX_REPOS,
            file_search_cache_ttl_secs: DEFAULT_FILE_SEARCH_CACHE_TTL_SECS,
            file_search_max_files: DEFAULT_FILE_SEARCH_MAX_FILES,
            file_search_watchers_max: DEFAULT_FILE_SEARCH_WATCHERS_MAX,
            file_search_watcher_ttl_secs: DEFAULT_FILE_SEARCH_WATCHER_TTL_SECS,
            file_stats_cache_max_repos: DEFAULT_FILE_STATS_CACHE_MAX_REPOS,
            file_stats_cache_ttl_secs: DEFAULT_FILE_STATS_CACHE_TTL_SECS,
            approvals_completed_ttl_secs: DEFAULT_APPROVALS_COMPLETED_TTL_SECS,
            queued_messages_ttl_secs: DEFAULT_QUEUED_MESSAGES_TTL_SECS,
            log_backfill_completion_max_entries: DEFAULT_LOG_BACKFILL_COMPLETION_MAX_ENTRIES,
            log_backfill_completion_ttl_secs: DEFAULT_LOG_BACKFILL_COMPLETION_TTL_SECS,
            cache_warn_sample_secs: DEFAULT_CACHE_WARN_SAMPLE_SECS,
        }
    }
}

/// The value of the first variable called `name`, if any.
pub open spec fn env_lookup(env: Seq<(String, String)>, name: Seq<char>) -> Option<Seq<char>>
    decreases env.len(),
{
    if env.len() == 0 {
        None
    } else if env[0].0@ == name {
        Some(env[0].1@)
    } else {
        env_lookup(env.drop_first(), name)
    }
}

/// Looks a variable up in a list of `(name, value)` pairs; the first one counts.
pub fn lookup_env(env: &Vec<(String, String)>, name: &str) -> (r: Option<String>)
    ensures
        opt_view(r) == env_lookup(env@, name@),
{
    let key = name.to_owned();
    let mut i: usize = 0;
    proof {
        assert(env@.skip(0) =~= env@);
    }
    while i < env.len()
        invariant
            i <= env.len(),
            key@ == name@,
            env_lookup(env@, name@) == env_lookup(env@.skip(i as int), name@),
        decreases env.len() - i,
    {
        proof {
            assert(env@.skip(i as int)[0] == env@[i as int]);
            assert(env@.skip(i as int).drop_first() =~= env@.skip(i + 1));
        }
        if env[i].0 == key {
            return Some(env[i].1.clone());
        }
        i = i + 1;
    }
    None
}

/// A count read from the environment: the variable as a `usize`, or the default when it is
/// unset or not one.
pub open spec fn env_usize(env: Seq<(String, String)>, name: Seq<char>, default: usize) -> usize {
    match env_lookup(env, name) {
        Some(v) => match parse_unsigned(v, usize::MAX as nat) {
            Some(n) => n as usize,
            None => default,
        },
        None => default,
    }
}

/// A duration in seconds read from the environment: the variable as a `u64`, or the default
/// when it is unset or not one.
pub open spec fn env_secs(env: Seq<(String, String)>, name: Seq<char>, default: u64) -> u64 {
    match env_lookup(env, name) {
        Some(v) => match parse_unsigned(v, u64::MAX as nat) {
            Some(n) => n as u64,
            None => default,
        },
        None => default,
    }
}

/// A count read from the environment (see `env_usize`).
pub fn read_env_usize(name: &str, default: usize, env: &Vec<(String, String)>) -> (r: usize)
    ensures
        r == env_usize(env@, name@, default),
{
    match lookup_env(env, name) {
        Some(value) => match parse_usize(value.as_str()) {
            Some(parsed) => parsed,
            None => default,
        },
        None => default,
    }
}

/// A duration in seconds read from the environment (see `env_secs`).
pub fn read_env_duration(name: &str, default_secs: u64, env: &Vec<(String, String)>) -> (r: u64)
    ensures
        r == env_secs(env@, name@, default_secs),
{
    match lookup_env(env, name) {
        Some(value) => match parse_u64(value.as_str()) {
            Some(parsed) => parsed,
            None => default_secs,
        },
        None => default_secs,
    }
}

/// A limit of zero would make a cache useless: it becomes one.
pub open spec fn at_least_one(value: usize) -> usize {
    if value == 0 {
        1
    } else {
        value
    }
}

/// A limit of zero becomes one; any other stays.
pub fn normalize_max(value: usize, name: &str, default: usize) -> (r: usize)
    ensures
        r == at_least_one(value),
{
    if value == 0 {
        1
    } else {
        value
    }
}

/// The limits that a list of environment variables gives: each read with its default,
/// counts of zero raised to one.
pub open spec fn budgets_from_env(env: Seq<(String, String)>) -> CacheBudgetConfig {
    let d = default_budgets();
    CacheBudgetConfig {
        file_search_cache_max_repos: at_least_one(
            env_usize(env, "VK_FILE_SEARCH_CACHE_MAX_REPOS"@, d.file_search_cache_max_repos),
        ),
        file_search_cache_ttl_secs: env_secs(env, "VK_FILE_SEARCH_CACHE_TTL_SECS"@, d.file_search_cache_ttl_secs),
        file_search_max_files: at_least_one(
            env_usize(env, "VK_FILE_SEARCH_MAX_FILES"@, d.file_search_max_files),
        ),
        file_search_watchers_max: at_least_one(
            env_usize(env, "VK_FILE_SEARCH_WATCHERS_MAX"@, d.file_search_watchers_max),
        ),
        file_search_watcher_ttl_secs: env_secs(
            env,
            "VK_FILE_SEARCH_WATCHER_TTL_SECS"@,
            d.file_search_watcher_ttl_secs,
        ),
        file_stats_cache_max_repos: at_least_one(
            env_usize(env, "VK_FILE_STATS_CACHE_MAX_REPOS"@, d.file_stats_cache_max_repos),
        ),
        file_stats_cache_ttl_secs: env_secs(env, "VK_FILE_STATS_CACHE_TTL_SECS"@, d.file_stats_cache_ttl_secs),
        approvals_completed_ttl_secs: env_secs(
            env,
            "VK_APPROVALS_COMPLETED_TTL_SECS"@,
            d.approvals_completed_ttl_secs,
        ),
        queued_messages_ttl_secs: env_secs(env, "VK_QUEUED_MESSAGES_TTL_SECS"@, d.queued_messages_ttl_secs),
        log_backfill_completion_max_entries: at_least_one(
            env_usize(
                env,
                "VK_LOG_BACKFILL_COMPLETION_MAX_ENTRIES"@,
                d.log_backfill_completion_max_entries,
            ),
        ),
        log_backfill_completion_ttl_secs: env_secs(
            env,
            "VK_LOG_BACKFILL_COMPLETION_TTL_SECS"@,
            d.log_backfill_completion_ttl_secs,
        ),
        cache_warn_sample_secs: env_secs(env, "VK_CACHE_WARN_SAMPLE_SECS"@, d.cache_warn_sample_secs),
    }
}

/// Every duration limit is the whole number of seconds its variable gives, and keeps its
/// default only when the variable is unset or not a number that fits.
pub proof fn law_duration_limits_follow_environment(env: Seq<(String, String)>)
    ensures
        (match env_lookup(env, "VK_FILE_SEARCH_CACHE_TTL_SECS"@) {
            Some(x) => match parse_unsigned(x, u64::MAX as nat) {
                Some(n) => budgets_from_env(env).file_search_cache_ttl_secs == n,
                None => budgets_from_env(env).file_search_cache_ttl_secs == DEFAULT_FILE_SEARCH_CACHE_TTL_SECS,
            },
            None => budgets_from_env(env).file_search_cache_ttl_secs == DEFAULT_FILE_SEARCH_CACHE_TTL_SECS,
        }),
        (match env_lookup(env, "VK_FILE_SEARCH_WATCHER_TTL_SECS"@) {
            Some(x) => match parse_unsigned(x, u64::MAX as nat) {
                Some(n) => budgets_from_env(env).file_search_watcher_ttl_secs == n,
                None => budgets_from_env(env).file_search_watcher_ttl_secs == DEFAULT_FILE_SEARCH_WATCHER_TTL_SECS,
            },
            None => budgets_from_env(env).file_search_watcher_ttl_secs == DEFAULT_FILE_SEARCH_WATCHER_TTL_SECS,
        }),
        (match env_lookup(env, "VK_FILE_STATS_CACHE_TTL_SECS"@) {
            Some(x) => match parse_unsigned(x, u64::MAX as nat) {
                Some(n) => budgets_from_env(env).file_stats_cache_ttl_secs == n,
                None => budgets_from_env(env).file_stats_cache_ttl_secs == DEFAULT_FILE_STATS_CACHE_TTL_SECS,
            },
            None => budgets_from_env(env).file_stats_cache_ttl_secs == DEFAULT_FILE_STATS_CACHE_TTL_SECS,
        }),
        (match env_lookup(env, "VK_APPROVALS_COMPLETED_TTL_SECS"@) {
            Some(x) => match parse_unsigned(x, u64::MAX as nat) {
                Some(n) => budgets_from_env(env).approvals_completed_ttl_secs == n,
                None => budgets_from_env(env).approvals_completed_ttl_secs == DEFAULT_APPROVALS_COMPLETED_TTL_SECS,
            },
            None => budgets_from_env(env).approvals_completed_ttl_secs == DEFAULT_APPROVALS_COMPLETED_TTL_SECS,
        }),
        (match env_lookup(env, "VK_QUEUED_MESSAGES_TTL_SECS"@) {
            Some(x) => match parse_unsigned(x, u64::MAX as nat) {
                Some(n) => budgets_from_env(env).queued_messages_ttl_secs == n,
                None => budgets_from_env(env).queued_messages_ttl_secs == DEFAULT_QUEUED_MESSAGES_TTL_SECS,
            },
            None => budgets_from_env(env).queued_messages_ttl_secs == DEFAULT_QUEUED_MESSAGES_TTL_SECS,
        }),
        (match env_lookup(env, "VK_LOG_BACKFILL_COMPLETION_TTL_SECS"@) {
            Some(x) => match parse_unsigned(x, u64::MAX as nat) {
                Some(n) => budgets_from_env(env).log_backfill_completion_ttl_secs == n,
                None => budgets_from_env(env).log_backfill_completion_ttl_secs == DEFAULT_LOG_BACKFILL_COMPLETION_TTL_SECS,
            },
            None => budgets_from_env(env).log_backfill_completion_ttl_secs == DEFAULT_LOG_BACKFILL_COMPLETION_TTL_SECS,
        }),
        (match env_lookup(env, "VK_CACHE_WARN_SAMPLE_SECS"@) {
            Some(x) => match parse_unsigned(x, u64::MAX as nat) {
                Some(n) => budgets_from_env(env).cache_warn_sample_secs == n,
                None => budgets_from_env(env).cache_warn_sample_secs == DEFAULT_CACHE_WARN_SAMPLE_SECS,
            },
            None => budgets_from_env(env).cache_warn_sample_secs == DEFAULT_CACHE_WARN_SAMPLE_SECS,
        }),
{
}

/// Every count limit is the number its variable gives, zero raised to one, and keeps its
/// default only when the variable is unset or not a number that fits.
pub proof fn law_count_limits_follow_environment(env: Seq<(String, String)>)
    ensures
        (match env_lookup(env, "VK_FILE_SEARCH_CACHE_MAX_REPOS"@) {
            Some(x) => match parse_unsigned(x, usize::MAX as nat) {
                Some(n) => budgets_from_env(env).file_search_cache_max_repos == (if n == 0 { 1 } else { n }),
                None => budgets_from_env(env).file_search_cache_max_repos == DEFAULT_FILE_SEARCH_CACHE_MAX_REPOS,
            },
            None => budgets_from_env(env).file_search_cache_max_repos == DEFAULT_FILE_SEARCH_CACHE_MAX_REPOS,
        }),
        (match env_lookup(env, "VK_FILE_SEARCH_MAX_FILES"@) {
            Some(x) => match parse_unsigned(x, usize::MAX as nat) {
                Some(n) => budgets_from_env(env).file_search_max_files == (if n == 0 { 1 } else { n }),
                None => budgets_from_env(env).file_search_max_files == DEFAULT_FILE_SEARCH_MAX_FILES,
            },
            None => budgets_from_env(env).file_search_max_files == DEFAULT_FILE_SEARCH_MAX_FILES,
        }),
        (match env_lookup(env, "VK_FILE_SEARCH_WATCHERS_MAX"@) {
            Some(x) => match parse_unsigned(x, usize::MAX as nat) {
                Some(n) => budgets_from_env(env).file_search_watchers_max == (if n == 0 { 1 } else { n }),
                None => budgets_from_env(env).file_search_watchers_max == DEFAULT_FILE_SEARCH_WATCHERS_MAX,
            },
            None => budgets_from_env(env).file_search_watchers_max == DEFAULT_FILE_SEARCH_WATCHERS_MAX,
        }),
        (match env_lookup(env, "VK_FILE_STATS_CACHE_MAX_REPOS"@) {
            Some(x) => match parse_unsigned(x, usize::MAX as nat) {
                Some(n) => budgets_from_env(env).file_stats_cache_max_repos == (if n == 0 { 1 } else { n }),
                None => budgets_from_env(env).file_stats_cache_max_repos == DEFAULT_FILE_STATS_CACHE_MAX_REPOS,
            },
            None => budgets_from_env(env).file_stats_cache_max_repos == DEFAULT_FILE_STATS_CACHE_MAX_REPOS,
        }),
        (match env_lookup(env, "VK_LOG_BACKFILL_COMPLETION_MAX_ENTRIES"@) {
            Some(x) => match parse_unsigned(x, usize::MAX as nat) {
                Some(n) => budgets_from_env(env).log_backfill_completion_max_entries == (if n == 0 { 1 } else { n }),
                None => budgets_from_env(env).log_backfill_completion_max_entries == DEFAULT_LOG_BACKFILL_COMPLETION_MAX_ENTRIES,
            },
            None => budgets_from_env(env).log_backfill_completion_max_entries == DEFAULT_LOG_BACKFILL_COMPLETION_MAX_ENTRIES,
        }),
{
}

impl CacheBudgetConfig {
    /// The limits that the given environment variables set (see `budgets_from_env`).
    pub fn from_env_with(env: &Vec<(String, String)>) -> (r: Self)
        ensures
            r == budgets_from_env(env@),
    {
        let d = CacheBudgetConfig::default();
        let file_search_cache_max_repos = read_env_usize(
            "VK_FILE_SEARCH_CACHE_MAX_REPOS",
            d.file_search_cache_max_repos,
            env,
        );
        let file_search_max_files = read_env_usize(
            "VK_FILE_SEARCH_MAX_FILES",
            d.file_search_max_files,
            env,
        );
        let file_search_watchers_max = read_env_usize(
            "VK_FILE_SEARCH_WATCHERS_MAX",
            d.file_search_watchers_max,
            env,
        );
        let file_stats_cache_max_repos = read_env_usize(
            "VK_FILE_STATS_CACHE_MAX_REPOS",
            d.file_stats_cache_max_repos,
            env,
        );
        let log_backfill_completion_max_entries = read_env_usize(
            "VK_LOG_BACKFILL_COMPLETION_MAX_ENTRIES",
            d.log_backfill_completion_max_entries,
            env,
        );
        CacheBudgetConfig {
            file_search_cache_max_repos: normalize_max(
                file_search_cache_max_repos,
                "VK_FILE_SEARCH_CACHE_MAX_REPOS",
                d.file_search_cache_max_repos,
            ),
            file_search_cache_ttl_secs: read_env_duration(
                "VK_FILE_SEARCH_CACHE_TTL_SECS",
                d.file_search_cache_ttl_secs,
                env,
            ),
            file_search_max_files: normalize_max(
                file_search_max_files,
                "VK_FILE_SEARCH_MAX_FILES",
                d.file_search_max_files,
            ),
            file_search_watchers_max: normalize_max(
                file_search_watchers_max,
                "VK_FILE_SEARCH_WATCHERS_MAX",
                d.file_search_watchers_max,
            ),
            file_search_watcher_ttl_secs: read_env_duration(
                "VK_FILE_SEARCH_WATCHER_TTL_SECS",
                d.file_search_watcher_ttl_secs,
                env,
            ),
            file_stats_cache_max_repos: normalize_max(
                file_stats_cache_max_repos,
                "VK_FILE_STATS_CACHE_MAX_REPOS",
                d.file_stats_cache_max_repos,
            ),
            file_stats_cache_ttl_secs: read_env_duration(
                "VK_FILE_STATS_CACHE_TTL_SECS",
                d.file_stats_cache_ttl_secs,
                env,
            ),
            approvals_completed_ttl_secs: read_env_duration(
                "VK_APPROVALS_COMPLETED_TTL_SECS",
                d.approvals_completed_ttl_secs,
                env,
            ),
            queued_messages_ttl_secs: read_env_duration(
                "VK_QUEUED_MESSAGES_TTL_SECS",
                d.queued_messages_ttl_secs,
                env,
            ),
            log_backfill_completion_max_entries: normalize_max(
                log_backfill_completion_max_entries,
                "VK_LOG_BACKFILL_COMPLETION_MAX_ENTRIES",
                d.log_backfill_completion_max_entries,
            ),
            log_backfill_completion_ttl_secs: read_env_duration(
                "VK_LOG_BACKFILL_COMPLETION_TTL_SECS",
                d.log_backfill_completion_ttl_secs,
                env,
            ),
            cache_warn_sample_secs: read_env_duration(
                "VK_CACHE_WARN_SAMPLE_SECS",
                d.cache_warn_sample_secs,
                env,
            ),
        }
    }
}

/// When each cache last logged a warning, in nanoseconds on a monotonic clock; each cache
/// name appears once.
pub struct WarnLog {
    entries: Vec<(String, u128)>,
}

/// The last warning time of each cache that has one.
pub open spec fn warn_map(s: Seq<(String, u128)>) -> Map<Seq<char>, u128>
    decreases s.len(),
{
    if s.len() == 0 {
        Map::empty()
    } else {
        warn_map(s.drop_last()).insert(s.last().0@, s.last().1)
    }
}

pub open spec fn distinct_names(s: Seq<(String, u128)>) -> bool {
    forall|i: int, j: int| 0 <= i < j < s.len() ==> (#[trigger] s[i]).0@ != (#[trigger] s[j]).0@
}

proof fn lemma_warn_map_at(s: Seq<(String, u128)>, i: int)
    requires
        distinct_names(s),
        0 <= i < s.len(),
    ensures
        warn_map(s).contains_key(s[i].0@),
        warn_map(s)[s[i].0@] == s[i].1,
    decreases s.len(),
{
    if i < s.len() - 1 {
        lemma_warn_map_at(s.drop_last(), i);
        assert(s.drop_last()[i] == s[i]);
        assert(s[i].0@ != s.last().0@);
    }
}

proof fn lemma_warn_map_absent(s: Seq<(String, u128)>, k: Seq<char>)
    requires
        forall|i: int| 0 <= i < s.len() ==> (#[trigger] s[i]).0@ != k,
    ensures
        !warn_map(s).contains_key(k),
    decreases s.len(),
{
    if s.len() > 0 {
        assert forall|i: int| 0 <= i < s.len() - 1 implies (#[trigger] s.drop_last()[i]).0@ != k by {
            assert(s.drop_last()[i] == s[i]);
        }
        lemma_warn_map_absent(s.drop_last(), k);
    }
}

proof fn lemma_warn_map_update(s: Seq<(String, u128)>, i: int, e: (String, u128))
    requires
        distinct_names(s),
        0 <= i < s.len(),
        e.0@ == s[i].0@,
    ensures
        warn_map(s.update(i, e)) == warn_map(s).insert(e.0@, e.1),
    decreases s.len(),
{
    let u = s.update(i, e);
    if i == s.len() - 1 {
        assert(u.drop_last() =~= s.drop_last());
        assert(warn_map(s.drop_last()).insert(e.0@, e.1) =~= warn_map(s.drop_last()).insert(
            s.last().0@,
            s.last().1,
        ).insert(e.0@, e.1));
    } else {
        assert(u.drop_last() =~= s.drop_last().update(i, e));
        assert forall|a: int, b: int| 0 <= a < b < s.drop_last().len() implies (#[trigger] s.drop_last()[a]).0@
            != (#[trigger] s.drop_last()[b]).0@ by {
            assert(s.drop_last()[a] == s[a] && s.drop_last()[b] == s[b]);
        }
        lemma_warn_map_update(s.drop_last(), i, e);
        assert(s[i].0@ != s.last().0@);
        assert(warn_map(u) =~= warn_map(s).insert(e.0@, e.1));
    }
}

/// Whether cache `name` may warn at `now`, given the last warning time of each cache
/// (`last`): always when the sample period is zero; otherwise unless it warned less than the
/// period before `now` (a clock that went back counts as no time passed).
pub open spec fn warn_allowed(last: Map<Seq<char>, u128>, name: Seq<char>, now: u128, sample_nanos: u128) -> bool {
    sample_nanos == 0 || !last.contains_key(name) || (if now >= last[name] {
        now - last[name]
    } else {
        0
    }) >= sample_nanos
}

/// The last warning times after a request to warn: `now` is recorded for `name` when it
/// may warn and the sample period is not zero; nothing changes otherwise.
pub open spec fn after_warn(last: Map<Seq<char>, u128>, name: Seq<char>, now: u128, sample_nanos: u128) -> Map<
    Seq<char>,
    u128,
> {
    if warn_allowed(last, name, now, sample_nanos) && sample_nanos != 0 {
        last.insert(name, now)
    } else {
        last
    }
}

/// Warnings are sampled per cache: with a sample period, a cache that may warn at `t` may not
/// warn again before `t + sample_nanos`; and a request for one cache changes nothing for
/// another.
pub proof fn law_warnings_sampled_per_cache(
    last: Map<Seq<char>, u128>,
    name: Seq<char>,
    other: Seq<char>,
    t: u128,
    later: u128,
    sample_nanos: u128,
)
    requires
        sample_nanos != 0,
        warn_allowed(last, name, t, sample_nanos),
        t <= later,
        later - t < sample_nanos,
        other != name,
    ensures
        !warn_allowed(after_warn(last, name, t, sample_nanos), name, later, sample_nanos),
        warn_allowed(after_warn(last, name, t, sample_nanos), other, later, sample_nanos)
            == warn_allowed(last, other, later, sample_nanos),
        after_warn(last, name, t, sample_nanos)[other] == last[other],
{
}

impl WarnLog {
    pub closed spec fn view(&self) -> Map<Seq<char>, u128> {
        warn_map(self.entries@)
    }

    /// Each cache appears at most once in the log.
    #[verifier::type_invariant]
    closed spec fn wf(&self) -> bool {
        distinct_names(self.entries@)
    }

    /// A log with no warnings yet.
    pub fn new() -> (r: Self)
        ensures
            r.view() == Map::<Seq<char>, u128>::empty(),
    {
        WarnLog { entries: Vec::new() }
    }

    /// Whether the cache `cache_name` may log a warning at `now` (nanoseconds): always when
    /// the sample period is zero; otherwise unless it warned less than the period ago, in
    /// which case nothing changes. When it may, `now` is recorded as its last warning.
    #[verifier::loop_isolation(false)]
    pub fn should_warn(&mut self, cache_name: &str, now: u128, sample_nanos: u128) -> (r: bool)
        ensures
            r == warn_allowed(old(self).view(), cache_name@, now, sample_nanos),
            final(self).view() == after_warn(old(self).view(), cache_name@, now, sample_nanos),
    {
        proof {
            use_type_invariant(&*self);
        }
        if sample_nanos == 0 {
            return true;
        }
        let key = cache_name.to_owned();
        let mut entries: Vec<(String, u128)> = Vec::new();
        std::mem::swap(&mut self.entries, &mut entries);
        let ghost orig = entries@;
        let mut i: usize = 0;
        while i < entries.len()
            invariant
                i <= entries.len(),
                key@ == cache_name@,
                entries@ == orig,
                distinct_names(orig),
                forall|j: int| 0 <= j < i ==> (#[trigger] entries@[j]).0@ != cache_name@,
            decreases entries.len() - i,
        {
            if entries[i].0 == key {
                proof {
                    lemma_warn_map_at(entries@, i as int);
                }
                let prev = entries[i].1;
                let elapsed = if now >= prev {
                    now - prev
                } else {
                    0
                };
                if elapsed < sample_nanos {
                    self.entries = entries;
                    return false;
                }
                let ghost before = entries@;
                entries.set(i, (key, now));
                proof {
                    lemma_warn_map_update(before, i as int, (key, now));
                    assert forall|a: int, b: int| 0 <= a < b < entries@.len() implies (#[trigger] entries@[a]).0@
                        != (#[trigger] entries@[b]).0@ by {
                        if a != i && b != i {
                            assert(before[a] == entries@[a] && before[b] == entries@[b]);
                        } else if a == i {
                            assert(before[b] == entries@[b]);
                        } else {
                            assert(before[a] == entries@[a]);
                        }
                    }
                }
                self.entries = entries;
                return true;
            }
            i = i + 1;
        }
        proof {
            lemma_warn_map_absent(entries@, cache_name@);
        }
        let ghost before = entries@;
        entries.push((key, now));
        proof {
            assert(entries@.drop_last() =~= before);
            assert forall|a: int, b: int| 0 <= a < b < entries@.len() implies (#[trigger] entries@[a]).0@
                != (#[trigger] entries@[b]).0@ by {
                assert(before[a] == entries@[a]);
                if b < before.len() {
                    assert(before[b] == entries@[b]);
                }
            }
        }
        self.entries = entries;
        true
    }
}

} // verus!
