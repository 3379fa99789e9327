//! The last dashboard grit read, kept so something can paint one without
//! waiting for git.
//!
//! A cache that can be subtly wrong is worse than none: a row for a repo
//! removed ten minutes ago is a lie, not a stale truth. So this one refuses
//! to answer rather than guess: [`StatusCache::matches`] compares the cached
//! rows with the live registry, and any difference at all makes the whole
//! cache unusable.
use vstd::prelude::*;

use crate::registry::model::{repo_views, Repo, RepoV, VcsKind};
use crate::text::{owned, views};
use crate::vcs::dolt::{compact_age, compact_age_of};
use crate::vcs::{opt_text, Snapshot, SnapshotV};

verus! {

/// Environment variable that overrides where the cache is written, the way
/// `GRIT_CONFIG` does for the registry.
pub const CACHE_ENV: &'static str = "GRIT_CACHE";

/// The shape of the cache this build writes; any other version reads as no
/// cache at all, which is the whole upgrade story a cache needs.
pub const CACHE_VERSION: u32 = 1;

/// One repo's last reading, or the message explaining why there was none.
#[derive(Debug, Clone, PartialEq, Eq)]
pub struct CachedRow {
    pub alias: String,
    pub path: String,
    pub kind: VcsKind,
    pub tags: Vec<String>,
    pub snapshot: Option<Snapshot>,
    pub error: Option<String>,
}

/// The readings of one registry, and when they were taken.
#[derive(Debug, Clone, PartialEq, Eq)]
pub struct StatusCache {
    pub version: u32,
    /// The registry these readings came from.
    pub config: String,
    /// When the readings were taken, in seconds since the Unix epoch.
    pub captured_at: i64,
    pub rows: Vec<CachedRow>,
}

/// `jiff::Timestamp::try_from` on `SystemTime::now()`, in whole seconds
/// since the Unix epoch: the current time, or `None` when the system clock
/// is outside the range a timestamp can hold. It is the clock, so nothing is
/// stated of it.
#[verifier::external_body]
fn now_seconds() -> (res: Option<i64>) {
    jiff::Timestamp::try_from(std::time::SystemTime::now()).ok().map(|t| t.as_second())
}

/// The cached rows still describe the registry's repos at `config`: the same
/// registry, the same number of repos, and pairwise the same alias, path and
/// backend.
pub open spec fn describes(cache: StatusCache, config: Seq<char>, repos: Seq<RepoV>) -> bool {
    &&& cache.config@ == config
    &&& cache.rows@.len() == repos.len()
    &&& forall|i: int|
        0 <= i < repos.len() ==> {
            let row = #[trigger] cache.rows@[i];
            &&& row.alias@ == repos[i].alias
            &&& row.path@ == repos[i].entry.path
            &&& row.kind == repos[i].entry.kind
        }
}

/// `a - b`, held to the range of an `i64`.
pub open spec fn clamped_diff(a: i64, b: i64) -> i64 {
    if a - b > i64::MAX {
        i64::MAX
    } else if a - b < i64::MIN {
        i64::MIN
    } else {
        (a - b) as i64
    }
}

impl StatusCache {
    /// Readings of the registry at `config`, taken now; none when the
    /// system clock cannot be read.
    pub fn new(config: &str, rows: Vec<CachedRow>) -> (res: Option<StatusCache>)
        ensures
            match res {
                Some(c) => c.version == CACHE_VERSION && c.config@ == config@ && c.rows == rows,
                None => true,
            },
    {
        match now_seconds() {
            Some(now) => Some(StatusCache { version: CACHE_VERSION, config: owned(config), captured_at: now, rows }),
            None => None,
        }
    }

    /// The cache, if this build can read its version.
    pub fn checked(self) -> (res: Option<StatusCache>)
        ensures
            self.version == CACHE_VERSION ==> res == Some(self),
            self.version != CACHE_VERSION ==> res is None,
    {
        if self.version == CACHE_VERSION {
            Some(self)
        } else {
            None
        }
    }

    /// Whether these readings still describe `repos` of the registry at
    /// `config`. Both sides are alphabetical by alias, so a pairwise walk is
    /// exact.
    pub fn matches(&self, config: &str, repos: &Vec<Repo>) -> (res: bool)
        ensures
            res == describes(*self, config@, repo_views(repos@)),
    {
        if !crate::text::same_text(self.config.as_str(), config) {
            return false;
        }
        let n = repos.len();
        if self.rows.len() != n {
            return false;
        }
        let mut i: usize = 0;
        while i < n
            invariant
                n == repos@.len(),
                n == self.rows@.len(),
                i <= n,
                forall|k: int|
                    0 <= k < i ==> {
                        let row = #[trigger] self.rows@[k];
                        &&& row.alias@ == repos@[k].alias@
                        &&& row.path@ == repos@[k].entry.path@
                        &&& row.kind == repos@[k].entry.kind
                    },
            decreases n - i,
        {
            let row = &self.rows[i];
            let repo = &repos[i];
            if !(row.alias == repo.alias && row.path == repo.entry.path && row.kind == repo.entry.kind) {
                return false;
            }
            i += 1;
        }
        true
    }

    /// How long before `now` these readings were taken; negative if the
    /// clock moved backwards.
    pub fn age_seconds_at(&self, now: i64) -> (res: i64)
        ensures
            res == clamped_diff(now, self.captured_at),
    {
        let d: i128 = (now as i128) - (self.captured_at as i128);
        if d > i64::MAX as i128 {
            i64::MAX
        } else if d < i64::MIN as i128 {
            i64::MIN
        } else {
            d as i64
        }
    }

    /// How long ago these readings were taken; none when the system clock
    /// cannot be read.
    pub fn age_seconds(&self) -> (res: Option<i64>)
        ensures
            match res {
                Some(a) => exists|now: i64| a == clamped_diff(now, self.captured_at),
                None => true,
            },
    {
        match now_seconds() {
            Some(now) => Some(self.age_seconds_at(now)),
            None => None,
        }
    }

    /// How long ago, in the compact spelling the age column uses: `3s`,
    /// `2m`, `4h`; none when the system clock cannot be read.
    pub fn age(&self) -> (res: Option<String>)
        ensures
            match res {
                Some(t) => exists|now: i64| t@ == compact_age_of(clamped_diff(now, self.captured_at) as int),
                None => true,
            },
    {
        match self.age_seconds() {
            Some(a) => Some(compact_age(a)),
            None => None,
        }
    }
}

} // verus!
