//! Pages of execution log history, and how execution logs are persisted.
use vstd::prelude::*;

use crate::log_entries::LogEntryChannel;
use crate::number::{parse_unsigned, parse_usize};
use crate::redaction::JsonValue;
use crate::text::{codes, codes_eq, codes_of, lower_codes, opt_view, trim, trimmed_lower_codes};

verus! {

pub const DEFAULT_NORMALIZED_HISTORY_PAGE_SIZE: usize = 20;
pub const DEFAULT_RAW_HISTORY_PAGE_SIZE: usize = 200;
pub const MAX_HISTORY_PAGE_SIZE: usize = 1000;
pub const DEFAULT_LOG_BACKFILL_CONCURRENCY: usize = 4;

/// Query of a log history page: how many entries, and the entry index to read before.
#[derive(Clone, Copy, Debug, PartialEq, Eq, Structural)]
pub struct LogHistoryQuery {
    pub limit: Option<usize>,
    pub cursor: Option<i64>,
}

/// Default page sizes of the two log channels.
#[derive(Clone, Copy, Debug, PartialEq, Eq, Structural)]
pub struct LogHistoryConfig {
    pub normalized_page_size: usize,
    pub raw_page_size: usize,
}

/// A count from an environment variable's value: the value as a `usize`, or the default when
/// the variable is unset or not one.
pub open spec fn env_count(value: Option<Seq<char>>, default: usize) -> usize {
    match value {
        Some(v) => match parse_unsigned(v, usize::MAX as nat) {
            Some(n) => n as usize,
            None => default,
        },
        None => default,
    }
}

/// A count from an environment variable's value (see `env_count`).
pub fn read_env_usize(value: Option<String>, default: usize) -> (r: usize)
    ensures
        r == env_count(opt_view(value), default),
{
    match &value {
        Some(v) => match parse_usize(v.as_str()) {
            Some(n) => n,
            None => default,
        },
        None => default,
    }
}

pub open spec fn at_least_one(n: usize) -> usize {
    if n == 0 {
        1
    } else {
        n
    }
}

/// The page sizes that `VK_NORMALIZED_LOG_HISTORY_PAGE_SIZE` and
/// `VK_RAW_LOG_HISTORY_PAGE_SIZE` set, with their defaults, and at least one.
pub fn log_history_config(normalized_value: Option<String>, raw_value: Option<String>) -> (r: LogHistoryConfig)
    ensures
        r.normalized_page_size == at_least_one(
            env_count(opt_view(normalized_value), DEFAULT_NORMALIZED_HISTORY_PAGE_SIZE),
        ),
        r.raw_page_size == at_least_one(env_count(opt_view(raw_value), DEFAULT_RAW_HISTORY_PAGE_SIZE)),
{
    let normalized = read_env_usize(normalized_value, DEFAULT_NORMALIZED_HISTORY_PAGE_SIZE);
    let raw = read_env_usize(raw_value, DEFAULT_RAW_HISTORY_PAGE_SIZE);
    LogHistoryConfig {
        normalized_page_size: if normalized == 0 {
            1
        } else {
            normalized
        },
        raw_page_size: if raw == 0 {
            1
        } else {
            raw
        },
    }
}

/// How many entries a page holds: the query's limit, or the channel's default, kept between
/// one and the maximum.
pub open spec fn page_limit(config: LogHistoryConfig, channel: LogEntryChannel, limit: Option<usize>) -> usize {
    let default = match channel {
        LogEntryChannel::Raw => config.raw_page_size,
        LogEntryChannel::Normalized => config.normalized_page_size,
    };
    let wanted = match limit {
        Some(n) => n,
        None => default,
    };
    if wanted < 1 {
        1
    } else if wanted > MAX_HISTORY_PAGE_SIZE {
        MAX_HISTORY_PAGE_SIZE
    } else {
        wanted
    }
}

/// How many entries a page holds (see `page_limit`).
pub fn history_page_limit(config: &LogHistoryConfig, channel: LogEntryChannel, query: &LogHistoryQuery) -> (r: usize)
    ensures
        r == page_limit(*config, channel, query.limit),
        1 <= r <= MAX_HISTORY_PAGE_SIZE,
{
    let default = match channel {
        LogEntryChannel::Raw => config.raw_page_size,
        LogEntryChannel::Normalized => config.normalized_page_size,
    };
    let wanted = match query.limit {
        Some(n) => n,
        None => default,
    };
    if wanted < 1 {
        1
    } else if wanted > MAX_HISTORY_PAGE_SIZE {
        MAX_HISTORY_PAGE_SIZE
    } else {
        wanted
    }
}

/// A cursor as an entry index: none when absent or negative.
pub fn history_cursor(cursor: Option<i64>) -> (r: Option<usize>)
    ensures
        match cursor {
            Some(c) => if 0 <= c && c <= usize::MAX {
                r == Some(c as usize)
            } else {
                r is None
            },
            None => r is None,
        },
{
    match cursor {
        Some(c) => {
            if c >= 0 && (c as u64) <= (usize::MAX as u64) {
                Some(c as usize)
            } else {
                None
            }
        },
        None => None,
    }
}

/// Whether a page before `cursor` reaches below the oldest entry the live store still holds
/// (so the database must serve it): the cursor is at or below that entry, or the store
/// holds none.
pub fn cursor_before_min(cursor: Option<usize>, min_index: Option<usize>) -> (r: bool)
    ensures
        r == match (cursor, min_index) {
            (Some(c), Some(m)) => c <= m,
            (Some(_), None) => true,
            _ => false,
        },
{
    match (cursor, min_index) {
        (Some(c), Some(m)) => c <= m,
        (Some(_), None) => true,
        _ => false,
    }
}

/// Whether history was lost once the live store evicted entries: yes, unless the store still
/// knows its oldest entry and the database answered that it holds older ones.
pub fn history_truncated(min_index: Option<usize>, db_has_older: Option<bool>) -> (r: bool)
    ensures
        r == match (min_index, db_has_older) {
            (Some(_), Some(older)) => !older,
            _ => true,
        },
{
    match (min_index, db_has_older) {
        (Some(_), Some(older)) => !older,
        _ => true,
    }
}

/// One stored log entry.
#[derive(Debug)]
pub struct LogEntrySnapshot {
    pub entry_index: usize,
    pub entry_json: JsonValue,
}

/// A page of log history, oldest first.
#[derive(Debug)]
pub struct LogHistoryPageData {
    pub entries: Vec<LogEntrySnapshot>,
    pub has_more: bool,
    pub history_truncated: bool,
}

/// Where a page of log history is read from.
#[derive(Clone, Copy, Debug, PartialEq, Eq, Structural)]
pub enum HistorySource {
    /// The running process's in-memory store, which still holds its whole history.
    LiveStore,
    /// The stored log entries, falling back to the in-memory store when they cannot be read
    /// (the store has dropped the entries the cursor asks for).
    StoredThenLiveStore,
    /// The in-memory store, whose oldest entries were dropped; whether older entries exist
    /// is asked of the stored log entries.
    LiveStoreWithStoredOlder,
    /// The stored log entries, read after any missing ones are rebuilt (for a finished
    /// process) — what a process without an in-memory store is answered from.
    Stored,
}

/// The source of a history page: a running process with an in-memory store answers from
/// the store while it holds everything, else from the stored entries when the cursor lies
/// at or before the store's oldest entry (`cursor_before_min`), else from the store; any
/// other process from the stored entries.
pub open spec fn history_source_of(running_with_store: bool, store_evicted: bool, before_min: bool) -> HistorySource {
    if running_with_store {
        if !store_evicted {
            HistorySource::LiveStore
        } else if before_min {
            HistorySource::StoredThenLiveStore
        } else {
            HistorySource::LiveStoreWithStoredOlder
        }
    } else {
        HistorySource::Stored
    }
}

/// Chooses where a history page is read from (see `history_source_of`).
pub fn history_source(running_with_store: bool, store_evicted: bool, before_min: bool) -> (r: HistorySource)
    ensures
        r == history_source_of(running_with_store, store_evicted, before_min),
{
    if running_with_store {
        if !store_evicted {
            HistorySource::LiveStore
        } else if before_min {
            HistorySource::StoredThenLiveStore
        } else {
            HistorySource::LiveStoreWithStoredOlder
        }
    } else {
        HistorySource::Stored
    }
}

/// Where a process without a live store is answered from, once its stored entries are
/// complete: the stored entries when there are any, else an in-memory store if one exists,
/// else nothing.
#[derive(Clone, Copy, Debug, PartialEq, Eq, Structural)]
pub enum StoredHistorySource {
    Database,
    MemoryStore,
    Empty,
}

/// Chooses between the stored entries, an in-memory store and an empty page.
pub fn stored_history_source(db_has_entries: bool, store_present: bool) -> (r: StoredHistorySource)
    ensures
        db_has_entries ==> r == StoredHistorySource::Database,
        !db_has_entries && store_present ==> r == StoredHistorySource::MemoryStore,
        !db_has_entries && !store_present ==> r == StoredHistorySource::Empty,
{
    if db_has_entries {
        StoredHistorySource::Database
    } else if store_present {
        StoredHistorySource::MemoryStore
    } else {
        StoredHistorySource::Empty
    }
}

/// Where execution logs are written.
#[derive(Clone, Copy, Debug, PartialEq, Eq, Structural)]
pub enum LogPersistenceMode {
    LogEntriesOnly,
    LegacyJsonl,
}

/// The chosen mode, and whether the log entries table exists.
#[derive(Clone, Copy, Debug, PartialEq, Eq, Structural)]
pub struct LogPersistenceConfig {
    pub mode: LogPersistenceMode,
    pub log_entries_available: bool,
}

impl LogPersistenceConfig {
    /// Logs go to JSONL files in the legacy mode.
    pub fn write_jsonl(self) -> (r: bool)
        ensures
            r == (self.mode == LogPersistenceMode::LegacyJsonl),
    {
        match self.mode {
            LogPersistenceMode::LegacyJsonl => true,
            LogPersistenceMode::LogEntriesOnly => false,
        }
    }

    /// Logs go to the log entries table whenever it exists.
    pub fn write_log_entries(self) -> (r: bool)
        ensures
            r == self.log_entries_available,
    {
        self.log_entries_available
    }
}

/// The mode that `VK_LOG_PERSISTENCE_MODE` asks for (trimmed, in any case): log entries for
/// `log_entries`, `log-entries` or `entries`; JSONL for `legacy_jsonl`, `legacy-jsonl`,
/// `jsonl` or `legacy`; none when it is unset, blank, `auto` or anything else.
pub open spec fn persistence_mode(value: Option<Seq<char>>) -> Option<LogPersistenceMode> {
    match value {
        None => None,
        Some(v) => {
            let l = lower_codes(trim(v));
            if l == codes("log_entries"@) || l == codes("log-entries"@) || l == codes("entries"@) {
                Some(LogPersistenceMode::LogEntriesOnly)
            } else if l == codes("legacy_jsonl"@) || l == codes("legacy-jsonl"@) || l == codes("jsonl"@)
                || l == codes("legacy"@) {
                Some(LogPersistenceMode::LegacyJsonl)
            } else {
                None
            }
        },
    }
}

/// Reads the mode that `VK_LOG_PERSISTENCE_MODE` asks for (see `persistence_mode`).
pub fn parse_log_persistence_mode(value: Option<String>) -> (r: Option<LogPersistenceMode>)
    ensures
        r == persistence_mode(opt_view(value)),
{
    match &value {
        None => None,
        Some(v) => {
            let l = trimmed_lower_codes(v.as_str());
            if codes_eq(&l, &codes_of("log_entries")) || codes_eq(&l, &codes_of("log-entries"))
                || codes_eq(&l, &codes_of("entries")) {
                Some(LogPersistenceMode::LogEntriesOnly)
            } else if codes_eq(&l, &codes_of("legacy_jsonl")) || codes_eq(&l, &codes_of("legacy-jsonl"))
                || codes_eq(&l, &codes_of("jsonl")) || codes_eq(&l, &codes_of("legacy")) {
                Some(LogPersistenceMode::LegacyJsonl)
            } else {
                None
            }
        },
    }
}

/// The persistence in force: the requested mode, except that log entries cannot be forced
/// without their table; with no request, log entries when the table exists, else JSONL.
pub open spec fn resolved_mode(requested: Option<LogPersistenceMode>, available: bool) -> LogPersistenceMode {
    match requested {
        Some(LogPersistenceMode::LogEntriesOnly) => if available {
            LogPersistenceMode::LogEntriesOnly
        } else {
            LogPersistenceMode::LegacyJsonl
        },
        Some(m) => m,
        None => if available {
            LogPersistenceMode::LogEntriesOnly
        } else {
            LogPersistenceMode::LegacyJsonl
        },
    }
}

/// Log entries are written to the entries table only when it exists: without it the
/// persistence falls back to the legacy JSONL log, whatever was asked for.
pub proof fn law_entries_mode_needs_table(requested: Option<LogPersistenceMode>)
    ensures
        resolved_mode(requested, false) != LogPersistenceMode::LogEntriesOnly,
        resolved_mode(None, true) == LogPersistenceMode::LogEntriesOnly,
{
}

/// The persistence in force (see `resolved_mode`).
pub fn resolve_log_persistence_config(mode_value: Option<String>, log_entries_available: bool) -> (r: LogPersistenceConfig)
    ensures
        r.mode == resolved_mode(persistence_mode(opt_view(mode_value)), log_entries_available),
        r.log_entries_available == log_entries_available,
{
    let mode = match parse_log_persistence_mode(mode_value) {
        Some(LogPersistenceMode::LogEntriesOnly) => if log_entries_available {
            LogPersistenceMode::LogEntriesOnly
        } else {
            LogPersistenceMode::LegacyJsonl
        },
        Some(m) => m,
        None => if log_entries_available {
            LogPersistenceMode::LogEntriesOnly
        } else {
            LogPersistenceMode::LegacyJsonl
        },
    };
    LogPersistenceConfig { mode, log_entries_available }
}

/// How many executions are backfilled at once: `VK_LOG_BACKFILL_CONCURRENCY` (trimmed) when
/// it is a count, raised to one when zero; the default otherwise.
pub open spec fn backfill_concurrency(value: Option<Seq<char>>) -> usize {
    match value {
        Some(v) => match parse_unsigned(trim(v), usize::MAX as nat) {
            Some(n) => if n == 0 {
                1
            } else {
                n as usize
            },
            None => DEFAULT_LOG_BACKFILL_CONCURRENCY,
        },
        None => DEFAULT_LOG_BACKFILL_CONCURRENCY,
    }
}

/// How many executions are backfilled at once (see `backfill_concurrency`).
pub fn log_backfill_concurrency(value: Option<String>) -> (r: usize)
    ensures
        r == backfill_concurrency(opt_view(value)),
{
    match &value {
        Some(v) => {
            let t = crate::text::trimmed(v.as_str());
            match parse_usize(t.as_str()) {
                Some(0) => 1,
                Some(n) => n,
                None => DEFAULT_LOG_BACKFILL_CONCURRENCY,
            }
        },
        None => DEFAULT_LOG_BACKFILL_CONCURRENCY,
    }
}

/// Options of a diff stream: only statistics, and whether to stream a diff above the size
/// guard anyway.
#[derive(Clone, Copy, Debug, PartialEq, Eq, Structural)]
pub struct DiffStreamOptions {
    pub stats_only: bool,
    pub force: bool,
}

} // verus!
