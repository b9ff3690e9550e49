//! How much space the archive takes.
use crate::text;
use vstd::prelude::*;
use vstd::string::*;

verus! {

/// How long sizes that were found are told again: five hours.
pub const STORAGE_CACHE_TTL_MS: u64 = 18_000_000;

/// How much space the archive takes, and how much its disk has. What is not
/// known of the disk is missing.
#[derive(Debug)]
pub struct StorageStats {
    pub root_path: String,
    pub total_bytes: u64,
    pub models_bytes: u64,
    pub images_bytes: u64,
    pub database_bytes: u64,
    pub other_bytes: u64,
    pub disk_total_bytes: Option<u64>,
    pub disk_available_bytes: Option<u64>,
    pub cached_at_ms: u64,
}

/// What the analysis tells.
#[derive(Debug)]
pub struct AnalysisOverview {
    pub storage: StorageStats,
}

/// Sizes that were found, and when, in milliseconds.
#[derive(Debug)]
pub struct StorageCache {
    pub cached_at: u64,
    pub stats: StorageStats,
}

/// The sizes that were found last.
#[derive(Debug)]
pub struct AnalysisState {
    pub storage_cache: Option<StorageCache>,
}

impl Default for AnalysisState {
    fn default() -> (result: Self)
        ensures
            result.storage_cache is None,
    {
        AnalysisState { storage_cache: None }
    }
}

/// The sum of sizes.
pub open spec fn sum_of(sizes: Seq<u64>) -> nat
    decreases sizes.len(),
{
    if sizes.len() == 0 {
        0
    } else {
        sum_of(sizes.drop_last()) + sizes.last() as nat
    }
}

proof fn lemma_sum_grows(sizes: Seq<u64>, n: int)
    requires
        0 <= n <= sizes.len(),
    ensures
        sum_of(sizes.take(n)) <= sum_of(sizes),
    decreases sizes.len() - n,
{
    if n < sizes.len() {
        assert(sizes.take(n + 1).drop_last() =~= sizes.take(n));
        lemma_sum_grows(sizes, n + 1);
    } else {
        assert(sizes.take(n) =~= sizes);
    }
}

/// The size of a directory, by the sizes of the files in it.
pub fn directory_size(sizes: &[u64]) -> (result: u64)
    requires
        sum_of(sizes@) <= u64::MAX,
    ensures
        result == sum_of(sizes@),
{
    let mut sum: u64 = 0;
    let mut i: usize = 0;
    while i < sizes.len()
        invariant
            i <= sizes@.len(),
            sum_of(sizes@) <= u64::MAX,
            sum == sum_of(sizes@.take(i as int)),
        decreases sizes@.len() - i,
    {
        proof {
            assert(sizes@.take(i + 1).drop_last() =~= sizes@.take(i as int));
            lemma_sum_grows(sizes@, i + 1);
        }
        sum = sum + sizes[i];
        i = i + 1;
    }
    assert(sizes@.take(sizes@.len() as int) =~= sizes@);
    sum
}

/// The sizes of what is in the archive; zero for what is not there.
#[derive(Debug, Clone, Copy, PartialEq, Eq, Structural)]
pub struct ArchiveSizes {
    pub models: u64,
    pub screenshots: u64,
    pub vectors: u64,
    pub database: u64,
    pub data_dir: u64,
}

/// A sum, up to the limit.
pub open spec fn capped(n: int) -> u64 {
    if n > u64::MAX {
        u64::MAX
    } else {
        n as u64
    }
}

/// All that the archive takes: its data and the models.
pub open spec fn total_of(sizes: ArchiveSizes) -> u64 {
    capped(sizes.data_dir + sizes.models)
}

/// What the parts that are told take.
pub open spec fn accounted_of(sizes: ArchiveSizes) -> u64 {
    capped(capped(sizes.models + sizes.screenshots) + sizes.vectors + sizes.database)
}

/// What the other parts take.
pub open spec fn other_of(sizes: ArchiveSizes) -> int {
    if total_of(sizes) < accounted_of(sizes) {
        0
    } else {
        total_of(sizes) - accounted_of(sizes)
    }
}

/// How much space the archive takes.
pub fn compute_storage_stats(root_path: &str, sizes: &ArchiveSizes, now_ms: u64) -> (result:
    StorageStats)
    requires
        sizes.vectors + sizes.database <= u64::MAX,
    ensures
        result.root_path@ == root_path@,
        result.models_bytes == sizes.models,
        result.images_bytes == sizes.screenshots,
        result.database_bytes == sizes.vectors + sizes.database,
        result.total_bytes == total_of(*sizes),
        result.other_bytes == other_of(*sizes),
        result.disk_total_bytes is None,
        result.disk_available_bytes is None,
        result.cached_at_ms == now_ms,
{
    let database_bytes: u64 = sizes.vectors + sizes.database;
    let total_bytes: u64 = sizes.data_dir.saturating_add(sizes.models);
    let accounted: u64 = sizes.models.saturating_add(sizes.screenshots).saturating_add(
        database_bytes,
    );
    StorageStats {
        root_path: root_path.to_owned(),
        total_bytes,
        models_bytes: sizes.models,
        images_bytes: sizes.screenshots,
        database_bytes,
        other_bytes: total_bytes.saturating_sub(accounted),
        disk_total_bytes: None,
        disk_available_bytes: None,
        cached_at_ms: now_ms,
    }
}

/// The parts are the whole, where what is told of the parts is not more than
/// the data directory holds.
pub proof fn law_sizes_add_up(sizes: ArchiveSizes)
    requires
        sizes.screenshots + sizes.vectors + sizes.database <= sizes.data_dir,
        sizes.data_dir + sizes.models <= u64::MAX,
    ensures
        sizes.models + sizes.screenshots + sizes.vectors + sizes.database + other_of(sizes)
            == total_of(sizes),
{
}

impl StorageStats {
    /// Both tell the same.
    pub open spec fn same(&self, other: StorageStats) -> bool {
        &&& self.root_path@ == other.root_path@
        &&& *self == (StorageStats { root_path: self.root_path, ..other })
    }

    /// A second copy.
    pub fn copy(&self) -> (result: StorageStats)
        ensures
            result.same(*self),
    {
        StorageStats {
            root_path: self.root_path.clone(),
            total_bytes: self.total_bytes,
            models_bytes: self.models_bytes,
            images_bytes: self.images_bytes,
            database_bytes: self.database_bytes,
            other_bytes: self.other_bytes,
            disk_total_bytes: self.disk_total_bytes,
            disk_available_bytes: self.disk_available_bytes,
            cached_at_ms: self.cached_at_ms,
        }
    }

    /// The sizes with what the disk told.
    pub open spec fn on_disk(&self, totals: Option<(u64, u64)>) -> StorageStats {
        StorageStats {
            disk_total_bytes: match totals {
                Some((total, _)) => Some(total),
                None => None,
            },
            disk_available_bytes: match totals {
                Some((_, available)) => Some(available),
                None => None,
            },
            ..*self
        }
    }

    /// Puts in what the disk told, if it told anything.
    pub fn attach_disk_totals(&mut self, totals: Option<(u64, u64)>)
        ensures
            *final(self) == old(self).on_disk(totals),
    {
        match totals {
            Some((total, available)) => {
                self.disk_total_bytes = Some(total);
                self.disk_available_bytes = Some(available);
            },
            None => {
                self.disk_total_bytes = None;
                self.disk_available_bytes = None;
            },
        }
    }
}

impl AnalysisState {
    /// There are sizes that are young enough.
    pub open spec fn fresh(&self, now: u64) -> bool {
        match self.storage_cache {
            Some(cache) => (if now < cache.cached_at {
                0
            } else {
                now - cache.cached_at
            }) < STORAGE_CACHE_TTL_MS,
            None => false,
        }
    }

    /// The sizes that were found last, if they are young enough.
    pub fn get_cached_storage_stats(&self, now: u64) -> (result: Option<StorageStats>)
        ensures
            match result {
                Some(stats) => self.fresh(now) && stats.same(self.storage_cache->0.stats),
                None => !self.fresh(now),
            },
    {
        match &self.storage_cache {
            Some(cache) => if now.saturating_sub(cache.cached_at) < STORAGE_CACHE_TTL_MS {
                Some(cache.stats.copy())
            } else {
                None
            },
            None => None,
        }
    }

    /// What can be told without looking at the archive, unless that is wanted.
    /// What the disk tells is always new.
    pub fn cached_overview(&self, force_storage: bool, now: u64, totals: Option<(u64, u64)>) -> (result:
        Option<AnalysisOverview>)
        ensures
            match result {
                Some(overview) => {
                    &&& !force_storage
                    &&& self.fresh(now)
                    &&& overview.storage.same(self.storage_cache->0.stats.on_disk(totals))
                },
                None => force_storage || !self.fresh(now),
            },
    {
        if force_storage {
            return None;
        }
        match self.get_cached_storage_stats(now) {
            Some(found) => {
                let mut stats = found;
                stats.attach_disk_totals(totals);
                Some(AnalysisOverview { storage: stats })
            },
            None => None,
        }
    }

    /// What is told once the archive was looked at. The sizes are kept for the
    /// next time.
    pub fn get_analysis_overview(
        &mut self,
        stats: StorageStats,
        now: u64,
        totals: Option<(u64, u64)>,
    ) -> (result: AnalysisOverview)
        ensures
            result.storage == stats.on_disk(totals),
            final(self).storage_cache matches Some(cache) && cache.cached_at == now
                && cache.stats.same(stats),
    {
        self.storage_cache = Some(StorageCache { cached_at: now, stats: stats.copy() });
        let mut shown = stats;
        shown.attach_disk_totals(totals);
        AnalysisOverview { storage: shown }
    }
}

/// The error of a task that broke off.
pub fn task_error(error: &str) -> (result: String)
    ensures
        result@ == "Storage task join error: "@ + error@,
{
    text::join2("Storage task join error: ", error)
}

/// What was measured is used for five hours, and not longer.
pub proof fn law_measurements_are_used_for_hours(state: AnalysisState, cache: StorageCache, now: u64)
    requires
        state.storage_cache == Some(cache),
    ensures
        state.fresh(now) <==> now < cache.cached_at + 5 * 60 * 60 * 1000,
{
}

/// The sizes of two directories add up.
pub proof fn law_directories_add_up(a: Seq<u64>, b: Seq<u64>)
    ensures
        sum_of(a + b) == sum_of(a) + sum_of(b),
    decreases b.len(),
{
    if b.len() == 0 {
        assert(a + b =~= a);
    } else {
        law_directories_add_up(a, b.drop_last());
        assert((a + b).drop_last() =~= a + b.drop_last());
        assert((a + b).last() == b.last());
    }
}

/// What is not accounted for is what the total has above the parts, and nothing
/// where the parts have more.
pub proof fn law_the_rest_is_not_negative(sizes: ArchiveSizes)
    requires
        sizes.data_dir + sizes.models <= u64::MAX,
        sizes.models + sizes.screenshots + sizes.vectors + sizes.database <= u64::MAX,
    ensures
        total_of(sizes) == sizes.data_dir + sizes.models,
        sizes.screenshots + sizes.vectors + sizes.database >= sizes.data_dir ==> other_of(sizes)
            == 0,
        sizes.screenshots + sizes.vectors + sizes.database < sizes.data_dir ==> other_of(sizes)
            == sizes.data_dir - sizes.screenshots - sizes.vectors - sizes.database,
{
}

} // verus!
