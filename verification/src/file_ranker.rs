//! Ranking of file search results by git history, and the cache of per-repository history
//! statistics with its time to live and size budget.
use vstd::prelude::*;

use crate::sorting::{SortKey, seq_views, sort_by_key, sort_seq};
use crate::text::{index_in, lemma_index_in_is};

verus! {

/// Score of a match on the file name, the directory name, or the full path.
pub const BASE_MATCH_SCORE_FILENAME: i64 = 100;
pub const BASE_MATCH_SCORE_DIRNAME: i64 = 10;
pub const BASE_MATCH_SCORE_FULLPATH: i64 = 1;
pub const RECENCY_WEIGHT: i64 = 2;
pub const FREQUENCY_WEIGHT: i64 = 1;
/// How many commits the history statistics look back.
pub const DEFAULT_COMMIT_LIMIT: usize = 100;

/// Where a search matched.
#[derive(Clone, Copy, Debug, PartialEq, Eq, Structural)]
pub enum SearchMatchType {
    FileName,
    DirectoryName,
    FullPath,
}

/// A file search result.
#[derive(Clone, Debug)]
pub struct SearchResult {
    pub path: String,
    pub is_file: bool,
    pub match_type: SearchMatchType,
}

/// What the recent history says of one file.
#[derive(Clone, Copy, Debug, PartialEq, Eq, Structural)]
pub struct FileStat {
    /// Position in the history of the last commit that changed it (0 is HEAD).
    pub last_index: usize,
    /// How many recent commits changed it.
    pub commit_count: u32,
    /// When it last changed, in milliseconds since the Unix epoch.
    pub last_time_millis: i64,
}

/// Statistics per file path.
pub type FileStats = Vec<(String, FileStat)>;

/// The statistics of the first entry for `path`, if any.
pub open spec fn stat_of(stats: Seq<(String, FileStat)>, path: Seq<char>) -> Option<FileStat>
    decreases stats.len(),
{
    if stats.len() == 0 {
        None
    } else if stats[0].0@ == path {
        Some(stats[0].1)
    } else {
        stat_of(stats.drop_first(), path)
    }
}

pub open spec fn base_score(t: SearchMatchType) -> int {
    match t {
        SearchMatchType::FileName => BASE_MATCH_SCORE_FILENAME as int,
        SearchMatchType::DirectoryName => BASE_MATCH_SCORE_DIRNAME as int,
        SearchMatchType::FullPath => BASE_MATCH_SCORE_FULLPATH as int,
    }
}

/// The relevance of a result: its match kind times a thousand, plus ten times a recency
/// bonus (two points per commit closer to HEAD than the hundredth) and one point per recent
/// commit that changed it. Files without history get the first part only.
pub open spec fn score(match_type: SearchMatchType, stat: Option<FileStat>) -> int {
    match stat {
        Some(s) => {
            let idx = if s.last_index < 99 {
                s.last_index as int
            } else {
                99
            };
            base_score(match_type) * 1000 + (100 - idx) * RECENCY_WEIGHT * 10 + s.commit_count
                * FREQUENCY_WEIGHT
        },
        None => base_score(match_type) * 1000,
    }
}

/// The ranking service. It keeps no state of its own; the statistics come from git.
#[derive(Clone, Copy, Debug)]
pub struct FileRanker {}

/// A result with its score; results sort by score, highest first.
pub struct Scored {
    pub score: i64,
    pub result: SearchResult,
}

impl View for Scored {
    type V = (int, Seq<char>, bool, SearchMatchType);

    open spec fn view(&self) -> (int, Seq<char>, bool, SearchMatchType) {
        (self.score as int, self.result.path@, self.result.is_file, self.result.match_type)
    }
}

impl SortKey for Scored {
    open spec fn view_le(a: (int, Seq<char>, bool, SearchMatchType), b: (int, Seq<char>, bool, SearchMatchType)) -> bool {
        a.0 >= b.0
    }

    proof fn lemma_view_total(
        a: (int, Seq<char>, bool, SearchMatchType),
        b: (int, Seq<char>, bool, SearchMatchType),
    ) {
    }

    proof fn lemma_view_trans(
        a: (int, Seq<char>, bool, SearchMatchType),
        b: (int, Seq<char>, bool, SearchMatchType),
        c: (int, Seq<char>, bool, SearchMatchType),
    ) {
    }

    fn le(&self, other: &Self) -> (r: bool) {
        self.score >= other.score
    }
}

pub type ResultView = (Seq<char>, bool, SearchMatchType);

pub open spec fn result_view(r: SearchResult) -> ResultView {
    (r.path@, r.is_file, r.match_type)
}

pub open spec fn result_views(s: Seq<SearchResult>) -> Seq<ResultView> {
    s.map_values(|r: SearchResult| result_view(r))
}

pub open spec fn strip_scores(s: Seq<(int, Seq<char>, bool, SearchMatchType)>) -> Seq<ResultView> {
    s.map_values(|v: (int, Seq<char>, bool, SearchMatchType)| (v.1, v.2, v.3))
}

/// The results with their scores, in the order given.
pub open spec fn scored_views(
    results: Seq<SearchResult>,
    stats: Seq<(String, FileStat)>,
) -> Seq<(int, Seq<char>, bool, SearchMatchType)> {
    results.map_values(
        |r: SearchResult|
            (score(r.match_type, stat_of(stats, r.path@)), r.path@, r.is_file, r.match_type),
    )
}

/// The results ordered by score, highest first; equal scores keep their order.
pub open spec fn reranked(results: Seq<SearchResult>, stats: Seq<(String, FileStat)>) -> Seq<ResultView> {
    strip_scores(sort_seq::<Scored>(scored_views(results, stats)))
}

fn lookup_stat(stats: &FileStats, path: &String) -> (r: Option<FileStat>)
    ensures
        r == stat_of(stats@, path@),
{
    let mut i: usize = 0;
    proof {
        assert(stats@.skip(0) =~= stats@);
    }
    while i < stats.len()
        invariant
            i <= stats.len(),
            stat_of(stats@, path@) == stat_of(stats@.skip(i as int), path@),
        decreases stats.len() - i,
    {
        proof {
            assert(stats@.skip(i as int)[0] == stats@[i as int]);
            assert(stats@.skip(i as int).drop_first() =~= stats@.skip(i + 1));
        }
        if stats[i].0 == *path {
            return Some(stats[i].1);
        }
        i = i + 1;
    }
    None
}

impl FileRanker {
    pub fn new() -> (r: Self) {
        FileRanker {  }
    }

    /// The relevance of a result (see `score`).
    pub fn calculate_score(&self, result: &SearchResult, stats: &FileStats) -> (r: i64)
        ensures
            r == score(result.match_type, stat_of(stats@, result.path@)),
    {
        let base: i64 = match result.match_type {
            SearchMatchType::FileName => BASE_MATCH_SCORE_FILENAME,
            SearchMatchType::DirectoryName => BASE_MATCH_SCORE_DIRNAME,
            SearchMatchType::FullPath => BASE_MATCH_SCORE_FULLPATH,
        };
        match lookup_stat(stats, &result.path) {
            Some(stat) => {
                let idx: i64 = if stat.last_index < 99 {
                    stat.last_index as i64
                } else {
                    99
                };
                let recency_bonus = (100 - idx) * RECENCY_WEIGHT;
                let frequency_bonus = stat.commit_count as i64 * FREQUENCY_WEIGHT;
                base * 1000 + recency_bonus * 10 + frequency_bonus
            },
            None => base * 1000,
        }
    }

    /// Orders the results by score, highest first, keeping the order of equal scores.
    pub fn rerank(&self, results: &mut Vec<SearchResult>, stats: &FileStats)
        ensures
            result_views(final(results)@) == reranked(old(results)@, stats@),
    {
        let ghost orig = results@;
        let mut taken: Vec<SearchResult> = Vec::new();
        std::mem::swap(results, &mut taken);
        let mut scored: Vec<Scored> = Vec::new();
        let ghost sv = scored_views(orig, stats@);
        let n = taken.len();
        let mut i: usize = 0;
        proof {
            assert(orig.skip(0) =~= orig);
            assert(seq_views(scored@) =~= sv.take(0));
        }
        while taken.len() > 0
            invariant
                n == orig.len(),
                i <= n,
                sv == scored_views(orig, stats@),
                taken@ == orig.skip(i as int),
                seq_views(scored@) == sv.take(i as int),
            decreases taken.len(),
        {
            let r = taken.remove(0);
            proof {
                assert(r == orig[i as int]);
                assert(orig.skip(i as int).remove(0) =~= orig.skip(i + 1));
            }
            let sc = self.calculate_score(&r, stats);
            let ghost prev = seq_views(scored@);
            scored.push(Scored { score: sc, result: r });
            proof {
                assert(seq_views(scored@) =~= prev.push(sv[i as int]));
                assert(sv.take(i + 1) =~= sv.take(i as int).push(sv[i as int]));
            }
            i = i + 1;
        }
        proof {
            assert(sv.take(i as int) =~= sv);
        }
        let mut sorted = sort_by_key(scored);
        let ghost ss = seq_views(sorted@);
        let mut out: Vec<SearchResult> = Vec::new();
        let m = sorted.len();
        let mut j: usize = 0;
        proof {
            assert(sorted@.skip(0) =~= sorted@);
        }
        let ghost sorted0 = sorted@;
        while sorted.len() > 0
            invariant
                m == sorted0.len(),
                ss == seq_views(sorted0),
                j <= m,
                sorted@ == sorted0.skip(j as int),
                out@.len() == j,
                forall|k: int| 0 <= k < j ==> result_view(#[trigger] out@[k]) == (ss[k].1, ss[k].2, ss[k].3),
            decreases sorted.len(),
        {
            let s = sorted.remove(0);
            proof {
                assert(s == sorted0[j as int]);
                assert(sorted0.skip(j as int).remove(0) =~= sorted0.skip(j + 1));
                assert(ss[j as int] == s@);
            }
            out.push(s.result);
            j = j + 1;
        }
        proof {
            assert(result_views(out@) =~= strip_scores(ss));
        }
        *results = out;
    }
}

impl Default for FileRanker {
    fn default() -> (r: Self) {
        FileRanker::new()
    }
}

/// An entry of the statistics cache: the statistics of a repository at a given HEAD.
#[derive(Clone, Debug)]
pub struct RepoHistoryCache {
    pub head_sha: String,
    pub stats: FileStats,
    /// When the entry was stored, in nanoseconds on a monotonic clock.
    pub cached_at: u128,
}

/// An entry is expired when a time to live is set and more than it has passed since it was
/// stored (no time passes before it was stored).
pub open spec fn expired(cached_at: u128, ttl_nanos: u128, now: u128) -> bool {
    ttl_nanos != 0 && now > cached_at && now - cached_at > ttl_nanos
}

/// Whether an entry stored at `cached_at` is expired at `now` (see `expired`).
pub fn is_cache_entry_expired(cached_at: u128, ttl_nanos: u128, now: u128) -> (r: bool)
    ensures
        r == expired(cached_at, ttl_nanos, now),
{
    ttl_nanos != 0 && now > cached_at && now - cached_at > ttl_nanos
}

/// Per-repository history statistics; each repository appears once.
pub struct FileStatsCache {
    entries: Vec<(String, RepoHistoryCache)>,
}

/// The repositories and store times of a cache, in order.
pub open spec fn cache_keys(s: Seq<(String, RepoHistoryCache)>) -> Seq<(Seq<char>, u128)> {
    s.map_values(|e: (String, RepoHistoryCache)| (e.0@, e.1.cached_at))
}

/// The entries that are not expired, in order.
pub open spec fn unexpired(s: Seq<(Seq<char>, u128)>, ttl_nanos: u128, now: u128) -> Seq<(Seq<char>, u128)>
    decreases s.len(),
{
    if s.len() == 0 {
        s
    } else {
        let rest = unexpired(s.drop_last(), ttl_nanos, now);
        if expired(s.last().1, ttl_nanos, now) {
            rest
        } else {
            rest.push(s.last())
        }
    }
}

/// The position of the oldest entry; the first of equally old ones.
pub open spec fn oldest_index(s: Seq<(Seq<char>, u128)>) -> int
    decreases s.len(),
{
    if s.len() <= 1 {
        0
    } else {
        let j = oldest_index(s.drop_last());
        if s.last().1 < s[j].1 {
            s.len() - 1
        } else {
            j
        }
    }
}

/// The entries left once the `k` oldest are evicted, one at a time.
pub open spec fn evict_oldest(s: Seq<(Seq<char>, u128)>, k: nat) -> Seq<(Seq<char>, u128)>
    decreases k,
{
    if k == 0 || s.len() == 0 {
        s
    } else {
        evict_oldest(s.remove(oldest_index(s)), (k - 1) as nat)
    }
}

/// What pruning leaves: the unexpired entries, then, when a budget is set and they exceed
/// it, all but the `max` newest of them.
pub open spec fn pruned(s: Seq<(Seq<char>, u128)>, ttl_nanos: u128, max: usize, now: u128) -> Seq<(Seq<char>, u128)> {
    let live = unexpired(s, ttl_nanos, now);
    if max > 0 && live.len() > max {
        evict_oldest(live, (live.len() - max) as nat)
    } else {
        live
    }
}

proof fn lemma_oldest_index(s: Seq<(Seq<char>, u128)>)
    requires
        s.len() > 0,
    ensures
        0 <= oldest_index(s) < s.len(),
        forall|i: int| 0 <= i < s.len() ==> s[oldest_index(s)].1 <= #[trigger] s[i].1,
    decreases s.len(),
{
    if s.len() > 1 {
        lemma_oldest_index(s.drop_last());
        assert forall|i: int| 0 <= i < s.len() implies s[oldest_index(s)].1 <= #[trigger] s[i].1 by {
            if i < s.len() - 1 {
                assert(s.drop_last()[i] == s[i]);
            }
        }
    }
}

proof fn lemma_evict_len(s: Seq<(Seq<char>, u128)>, k: nat)
    requires
        k <= s.len(),
    ensures
        evict_oldest(s, k).len() == s.len() - k,
    decreases k,
{
    if k > 0 && s.len() > 0 {
        lemma_oldest_index(s);
        lemma_evict_len(s.remove(oldest_index(s)), (k - 1) as nat);
    }
}

proof fn lemma_unexpired(s: Seq<(Seq<char>, u128)>, ttl_nanos: u128, now: u128)
    ensures
        forall|i: int|
            0 <= i < unexpired(s, ttl_nanos, now).len() ==> !expired(
                (#[trigger] unexpired(s, ttl_nanos, now)[i]).1,
                ttl_nanos,
                now,
            ),
        unexpired(s, ttl_nanos, now).len() <= s.len(),
    decreases s.len(),
{
    if s.len() > 0 {
        lemma_unexpired(s.drop_last(), ttl_nanos, now);
    }
}

proof fn lemma_evict_subset(s: Seq<(Seq<char>, u128)>, k: nat)
    ensures
        forall|i: int|
            0 <= i < evict_oldest(s, k).len() ==> s.contains(#[trigger] evict_oldest(s, k)[i]),
    decreases k,
{
    if k > 0 && s.len() > 0 {
        lemma_oldest_index(s);
        let r = s.remove(oldest_index(s));
        lemma_evict_subset(r, (k - 1) as nat);
        assert forall|i: int| 0 <= i < evict_oldest(s, k).len() implies s.contains(
            #[trigger] evict_oldest(s, k)[i],
        ) by {
            assert(r.contains(evict_oldest(r, (k - 1) as nat)[i]));
            let q = choose|q: int| 0 <= q < r.len() && r[q] == evict_oldest(r, (k - 1) as nat)[i];
            if q < oldest_index(s) {
                assert(s[q] == r[q]);
            } else {
                assert(s[q + 1] == r[q]);
            }
        }
    }
}

/// The entries that are not expired, in order (see `unexpired`, its summary by keys).
pub open spec fn unexpired_entries(
    s: Seq<(String, RepoHistoryCache)>,
    ttl_nanos: u128,
    now: u128,
) -> Seq<(String, RepoHistoryCache)>
    decreases s.len(),
{
    if s.len() == 0 {
        s
    } else {
        let rest = unexpired_entries(s.drop_last(), ttl_nanos, now);
        if expired(s.last().1.cached_at, ttl_nanos, now) {
            rest
        } else {
            rest.push(s.last())
        }
    }
}

/// The position of the oldest entry; the first of equally old ones.
pub open spec fn oldest_entry(s: Seq<(String, RepoHistoryCache)>) -> int
    decreases s.len(),
{
    if s.len() <= 1 {
        0
    } else {
        let j = oldest_entry(s.drop_last());
        if s.last().1.cached_at < s[j].1.cached_at {
            s.len() - 1
        } else {
            j
        }
    }
}

/// The entries left once the `k` oldest are evicted, one at a time.
pub open spec fn evict_oldest_entries(s: Seq<(String, RepoHistoryCache)>, k: nat) -> Seq<(String, RepoHistoryCache)>
    decreases k,
{
    if k == 0 || s.len() == 0 {
        s
    } else {
        evict_oldest_entries(s.remove(oldest_entry(s)), (k - 1) as nat)
    }
}

/// What pruning leaves of the entries: the unexpired ones, then, when a budget is set and
/// they exceed it, all but the `max` newest of them; each kept entry unchanged.
pub open spec fn pruned_entries(
    s: Seq<(String, RepoHistoryCache)>,
    ttl_nanos: u128,
    max: usize,
    now: u128,
) -> Seq<(String, RepoHistoryCache)> {
    let live = unexpired_entries(s, ttl_nanos, now);
    if max > 0 && live.len() > max {
        evict_oldest_entries(live, (live.len() - max) as nat)
    } else {
        live
    }
}

proof fn lemma_keys_unexpired(s: Seq<(String, RepoHistoryCache)>, ttl_nanos: u128, now: u128)
    ensures
        cache_keys(unexpired_entries(s, ttl_nanos, now)) == unexpired(cache_keys(s), ttl_nanos, now),
    decreases s.len(),
{
    if s.len() > 0 {
        lemma_keys_unexpired(s.drop_last(), ttl_nanos, now);
        assert(cache_keys(s.drop_last()) =~= cache_keys(s).drop_last());
        let rest = unexpired_entries(s.drop_last(), ttl_nanos, now);
        assert(cache_keys(rest.push(s.last())) =~= cache_keys(rest).push(cache_keys(s).last()));
    } else {
        assert(cache_keys(s) =~= Seq::<(Seq<char>, u128)>::empty());
    }
}

proof fn lemma_keys_oldest(s: Seq<(String, RepoHistoryCache)>)
    ensures
        oldest_entry(s) == oldest_index(cache_keys(s)),
    decreases s.len(),
{
    if s.len() > 1 {
        lemma_keys_oldest(s.drop_last());
        assert(cache_keys(s.drop_last()) =~= cache_keys(s).drop_last());
        lemma_oldest_index(cache_keys(s.drop_last()));
        let j = oldest_entry(s.drop_last());
        assert(cache_keys(s)[j] == (s[j].0@, s[j].1.cached_at));
    }
}

proof fn lemma_oldest_entry_bounds(s: Seq<(String, RepoHistoryCache)>)
    requires
        s.len() > 0,
    ensures
        0 <= oldest_entry(s) < s.len(),
{
    lemma_keys_oldest(s);
    lemma_oldest_index(cache_keys(s));
}

proof fn lemma_keys_evict(s: Seq<(String, RepoHistoryCache)>, k: nat)
    ensures
        cache_keys(evict_oldest_entries(s, k)) == evict_oldest(cache_keys(s), k),
    decreases k,
{
    if k > 0 && s.len() > 0 {
        lemma_oldest_entry_bounds(s);
        lemma_keys_oldest(s);
        let i = oldest_entry(s);
        assert(cache_keys(s.remove(i)) =~= cache_keys(s).remove(i));
        lemma_keys_evict(s.remove(i), (k - 1) as nat);
    }
}

proof fn lemma_keys_pruned(s: Seq<(String, RepoHistoryCache)>, ttl_nanos: u128, max: usize, now: u128)
    ensures
        cache_keys(pruned_entries(s, ttl_nanos, max, now)) == pruned(cache_keys(s), ttl_nanos, max, now),
{
    lemma_keys_unexpired(s, ttl_nanos, now);
    let live = unexpired_entries(s, ttl_nanos, now);
    assert(cache_keys(live).len() == live.len());
    if max > 0 && live.len() > max {
        lemma_keys_evict(live, (live.len() - max) as nat);
    }
}

/// After pruning, no entry is expired and, when a budget is set, there are no more entries
/// than it allows.
pub proof fn law_pruned_within_budget(s: Seq<(Seq<char>, u128)>, ttl_nanos: u128, max: usize, now: u128)
    ensures
        forall|i: int|
            0 <= i < pruned(s, ttl_nanos, max, now).len() ==> !expired(
                (#[trigger] pruned(s, ttl_nanos, max, now)[i]).1,
                ttl_nanos,
                now,
            ),
        max > 0 ==> pruned(s, ttl_nanos, max, now).len() <= max,
{
    let live = unexpired(s, ttl_nanos, now);
    lemma_unexpired(s, ttl_nanos, now);
    if max > 0 && live.len() > max {
        let k = (live.len() - max) as nat;
        lemma_evict_len(live, k);
        lemma_evict_subset(live, k);
        assert forall|i: int| 0 <= i < pruned(s, ttl_nanos, max, now).len() implies !expired(
            (#[trigger] pruned(s, ttl_nanos, max, now)[i]).1,
            ttl_nanos,
            now,
        ) by {
            let e = evict_oldest(live, k)[i];
            assert(live.contains(e));
            let q = choose|q: int| 0 <= q < live.len() && live[q] == e;
            assert(!expired(live[q].1, ttl_nanos, now));
        }
    }
}

impl FileStatsCache {
    /// The repositories and store times of the entries, in order.
    pub closed spec fn keys(&self) -> Seq<(Seq<char>, u128)> {
        cache_keys(self.entries@)
    }

    /// An empty cache.
    pub fn new() -> (r: Self)
        ensures
            r.keys() == Seq::<(Seq<char>, u128)>::empty(),
            r.entries() == Seq::<(String, RepoHistoryCache)>::empty(),
    {
        FileStatsCache { entries: Vec::new() }
    }

    /// How many repositories have statistics.
    pub fn len(&self) -> (r: usize)
        ensures
            r == self.keys().len(),
            r == self.entries().len(),
    {
        self.entries.len()
    }

    /// Removes expired entries, then the oldest ones beyond the budget `max` (when it is not
    /// zero); the entries kept are unchanged and keep their order. Gives how many were
    /// expired and how many evicted.
    pub fn prune(&mut self, ttl_nanos: u128, max: usize, now: u128) -> (r: (usize, usize))
        ensures
            final(self).entries() == pruned_entries(old(self).entries(), ttl_nanos, max, now),
            final(self).keys() == pruned(old(self).keys(), ttl_nanos, max, now),
            r.0 == old(self).keys().len() - unexpired(old(self).keys(), ttl_nanos, now).len(),
            r.1 == unexpired(old(self).keys(), ttl_nanos, now).len() - final(self).keys().len(),
    {
        let ghost orig = self.entries@;
        let mut taken: Vec<(String, RepoHistoryCache)> = Vec::new();
        std::mem::swap(&mut self.entries, &mut taken);
        let mut live: Vec<(String, RepoHistoryCache)> = Vec::new();
        let n = taken.len();
        let mut i: usize = 0;
        proof {
            assert(orig.skip(0) =~= orig);
            assert(orig.take(0) =~= Seq::<(String, RepoHistoryCache)>::empty());
        }
        while taken.len() > 0
            invariant
                n == orig.len(),
                i <= n,
                taken@ == orig.skip(i as int),
                live@ == unexpired_entries(orig.take(i as int), ttl_nanos, now),
            decreases taken.len(),
        {
            let e = taken.remove(0);
            proof {
                assert(e == orig[i as int]);
                assert(orig.skip(i as int).remove(0) =~= orig.skip(i + 1));
                assert(orig.take(i + 1).drop_last() =~= orig.take(i as int));
                assert(orig.take(i + 1).last() == e);
            }
            if !is_cache_entry_expired(e.1.cached_at, ttl_nanos, now) {
                live.push(e);
            }
            i = i + 1;
        }
        proof {
            assert(orig.take(i as int) =~= orig);
            lemma_keys_unexpired(orig, ttl_nanos, now);
            lemma_unexpired(cache_keys(orig), ttl_nanos, now);
        }
        let expired_count = n - live.len();
        let live_len = live.len();
        let ghost lv = live@;
        let mut evicted: usize = 0;
        if max > 0 && live_len > max {
            let to_remove = live_len - max;
            while evicted < to_remove
                invariant
                    evicted <= to_remove,
                    to_remove == lv.len() - max,
                    max > 0,
                    live.len() == lv.len() - evicted,
                    evict_oldest_entries(lv, to_remove as nat) == evict_oldest_entries(
                        live@,
                        (to_remove - evicted) as nat,
                    ),
                decreases to_remove - evicted,
            {
                let mut oldest: usize = 0;
                let mut j: usize = 1;
                proof {
                    assert(live@.take(1).drop_last() =~= Seq::<(String, RepoHistoryCache)>::empty());
                }
                while j < live.len()
                    invariant
                        1 <= j <= live.len(),
                        oldest == oldest_entry(live@.take(j as int)),
                    decreases live.len() - j,
                {
                    proof {
                        assert(live@.take(j + 1).drop_last() =~= live@.take(j as int));
                        lemma_oldest_entry_bounds(live@.take(j as int));
                        assert(live@.take(j + 1)[oldest as int] == live@.take(j as int)[oldest as int]);
                        assert(live@.take(j + 1).last() == live@[j as int]);
                    }
                    if live[j].1.cached_at < live[oldest].1.cached_at {
                        oldest = j;
                    }
                    j = j + 1;
                }
                proof {
                    assert(live@.take(j as int) =~= live@);
                    lemma_oldest_entry_bounds(live@);
                }
                let ghost before = live@;
                live.remove(oldest);
                proof {
                    assert(live@ =~= before.remove(oldest as int));
                }
                evicted = evicted + 1;
            }
        }
        self.entries = live;
        proof {
            lemma_keys_pruned(orig, ttl_nanos, max, now);
        }
        (expired_count, evicted)
    }

    /// The entries, in order.
    pub closed spec fn entries(&self) -> Seq<(String, RepoHistoryCache)> {
        self.entries@
    }

    /// Removes the entry of `repo_path` when it is expired at `now`; says whether it did.
    pub fn remove_if_expired(&mut self, repo_path: &String, ttl_nanos: u128, now: u128) -> (r: bool)
        ensures
            ({
                let k = index_in(repo_names(old(self).entries()), repo_path@);
                if k < old(self).entries().len() && expired(
                    old(self).entries()[k].1.cached_at,
                    ttl_nanos,
                    now,
                ) {
                    r && final(self).entries() == old(self).entries().remove(k)
                } else {
                    !r && final(self).entries() == old(self).entries()
                }
            }),
    {
        let i = self.position(repo_path);
        if i < self.entries.len() && is_cache_entry_expired(self.entries[i].1.cached_at, ttl_nanos, now) {
            self.entries.remove(i);
            true
        } else {
            false
        }
    }

    /// The statistics of `repo_path` when they were taken at `head_sha`.
    pub fn stats_for_head(&self, repo_path: &String, head_sha: &String) -> (r: Option<&FileStats>)
        ensures
            ({
                let k = index_in(repo_names(self.entries()), repo_path@);
                if k < self.entries().len() && self.entries()[k].1.head_sha@ == head_sha@ {
                    r == Some(&self.entries()[k].1.stats)
                } else {
                    r is None
                }
            }),
    {
        let i = self.position(repo_path);
        if i < self.entries.len() && self.entries[i].1.head_sha == *head_sha {
            Some(&self.entries[i].1.stats)
        } else {
            None
        }
    }

    /// Stores the statistics of `repo_path`, replacing what was stored for it.
    pub fn insert(&mut self, repo_path: String, entry: RepoHistoryCache)
        ensures
            ({
                let k = index_in(repo_names(old(self).entries()), repo_path@);
                if k < old(self).entries().len() {
                    final(self).entries() == old(self).entries().update(k, (repo_path, entry))
                } else {
                    final(self).entries() == old(self).entries().push((repo_path, entry))
                }
            }),
    {
        let i = self.position(&repo_path);
        if i < self.entries.len() {
            self.entries.set(i, (repo_path, entry));
        } else {
            self.entries.push((repo_path, entry));
        }
    }

    fn position(&self, repo_path: &String) -> (r: usize)
        ensures
            r == index_in(repo_names(self.entries()), repo_path@),
            r <= self.entries().len(),
    {
        let ghost names = repo_names(self.entries@);
        let mut i: usize = 0;
        while i < self.entries.len()
            invariant
                i <= self.entries.len(),
                names == repo_names(self.entries@),
                forall|j: int| 0 <= j < i ==> names[j] != repo_path@,
            decreases self.entries.len() - i,
        {
            if self.entries[i].0 == *repo_path {
                proof {
                    lemma_index_in_is(names, repo_path@, i as int);
                }
                return i;
            }
            i = i + 1;
        }
        proof {
            lemma_index_in_is(names, repo_path@, i as int);
        }
        i
    }
}

/// The repositories of the entries, in order.
pub open spec fn repo_names(s: Seq<(String, RepoHistoryCache)>) -> Seq<Seq<char>> {
    s.map_values(|e: (String, RepoHistoryCache)| e.0@)
}

} // verus!
