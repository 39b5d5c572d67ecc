//! The operations offered to the user interface, less the I/O around them.
use vstd::prelude::*;
use crate::cache::{apply_cache, cache_fresh, now_secs, CacheData, CACHE_MAX_AGE_SECS};
use crate::entry::{IndexProgress, IndexStatus};
use crate::fs::FileEntry;
use crate::index::{all_wf, is_search_result, lemma_batch_count, stored, IndexManager};
use crate::scanner::{lemma_tracks_kept, lemma_tracks_running_wf, ScanSession};
use crate::text::lower_of;

verus! {

/// Number of hits a search returns when the caller names no limit.
pub const DEFAULT_SEARCH_LIMIT: usize = 1000;

/// What the caller does after indexing was started.
#[derive(Clone, Copy, Debug, PartialEq, Eq, Structural)]
pub enum StartPlan {
    /// A usable snapshot filled the index: watch the roots for changes.
    Watch,
    /// Walk the roots from scratch, then save a snapshot and watch.
    Scan,
}

/// A snapshot that may replace the index at `now`: fresh, consistent, and
/// holding at least one entry.
pub open spec fn usable_snapshot(cache: Option<CacheData>, now: u64) -> bool {
    &&& cache is Some
    &&& cache_fresh(cache->0.timestamp, now)
    &&& all_wf(cache->0.entries@)
    &&& stored(Map::empty(), cache->0.entries@).len() > 0
}

/// Starts indexing at `now` with the snapshot read from disk, if any. A
/// usable snapshot replaces the index and sets the status to watching; any
/// other calls for a full scan and leaves the status as it was.
pub fn start_indexing_at(manager: &mut IndexManager, cache: Option<CacheData>, now: u64) -> (r:
    StartPlan)
    requires
        old(manager).wf(),
    ensures
        final(manager).wf(),
        final(manager).roots() == old(manager).roots(),
        final(manager).stop_requested() == old(manager).stop_requested(),
        final(manager).generation() == old(manager).generation(),
        r == StartPlan::Watch <==> usable_snapshot(cache, now),
        r == StartPlan::Watch ==> {
            &&& final(manager).index() == stored(Map::empty(), cache->0.entries@)
            &&& final(manager).status() == IndexStatus::Watching
        },
        r == StartPlan::Scan ==> {
            &&& final(manager).status() == old(manager).status()
            &&& final(manager).index().len() == 0 || final(manager).index() == old(manager).index()
        },
{
    let data = match cache {
        Some(d) => d,
        None => {
            return StartPlan::Scan;
        },
    };
    let ghost entries = data.entries@;
    proof {
        lemma_batch_count(Map::empty(), entries);
    }
    let loaded = apply_cache(manager, data, now);
    if loaded && manager.get_count() > 0 {
        manager.set_status(IndexStatus::Watching);
        StartPlan::Watch
    } else {
        StartPlan::Scan
    }
}

/// Starts indexing, as of now, with the snapshot read from disk, if any. A
/// consistent, non-empty snapshot taken within a day of the end of the
/// clock's range is always used; an inconsistent or empty one never is.
pub fn start_indexing(manager: &mut IndexManager, cache: Option<CacheData>) -> (r: StartPlan)
    requires
        old(manager).wf(),
    ensures
        final(manager).wf(),
        final(manager).roots() == old(manager).roots(),
        final(manager).stop_requested() == old(manager).stop_requested(),
        final(manager).generation() == old(manager).generation(),
        cache is None ==> r == StartPlan::Scan,
        cache is Some && (!all_wf(cache->0.entries@) || stored(Map::empty(), cache->0.entries@).len()
            == 0) ==> r == StartPlan::Scan,
        cache is Some && all_wf(cache->0.entries@) && stored(Map::empty(), cache->0.entries@).len()
            > 0 && cache->0.timestamp >= u64::MAX - CACHE_MAX_AGE_SECS ==> r == StartPlan::Watch,
        r == StartPlan::Watch ==> {
            &&& cache is Some
            &&& final(manager).index() == stored(Map::empty(), cache->0.entries@)
            &&& final(manager).index().len() > 0
            &&& final(manager).status() == IndexStatus::Watching
        },
        r == StartPlan::Scan ==> {
            &&& final(manager).status() == old(manager).status()
            &&& final(manager).index().len() == 0 || final(manager).index() == old(manager).index()
        },
{
    start_indexing_at(manager, cache, now_secs())
}

/// Searches the index; without a limit at most `DEFAULT_SEARCH_LIMIT` hits
/// are returned.
pub fn search_index(manager: &IndexManager, query: &str, limit: Option<usize>) -> (r: Vec<FileEntry>)
    requires
        manager.wf(),
    ensures
        is_search_result(
            manager.index(),
            lower_of(query@),
            match limit {
                Some(n) => n,
                None => DEFAULT_SEARCH_LIMIT,
            },
            r@,
        ),
        query@.len() == 0 ==> r@.len() == 0,
{
    let n = match limit {
        Some(n) => n,
        None => DEFAULT_SEARCH_LIMIT,
    };
    manager.search(query, n)
}

/// The status and count of the index, with no current path.
pub fn get_index_status(manager: &IndexManager) -> (r: IndexProgress)
    requires
        manager.wf(),
    ensures
        r.status == manager.status(),
        r.indexed_count == manager.index().len(),
        r.current_path is None,
{
    manager.progress(None)
}

/// Stops indexing: asks a running scan to stop and sets the status to idle.
pub fn stop_indexing(manager: &mut IndexManager)
    ensures
        final(manager).stop_requested(),
        final(manager).status() == IndexStatus::Idle,
        final(manager).index() == old(manager).index(),
        final(manager).roots() == old(manager).roots(),
        final(manager).generation() == old(manager).generation(),
        final(manager).wf() == old(manager).wf(),
{
    manager.request_stop();
    manager.set_status(IndexStatus::Idle);
}

/// A stop in the middle of a scan: after `stop_indexing` has turned `running`,
/// which the session `s` tracks, into `stopped`, the session is still
/// tracked but may not go on. So every later `visit` answers `Stopped` and
/// leaves the index and the idle status as they are, and `finish_scan`
/// reports an incomplete scan without moving the status to watching.
pub proof fn lemma_stop_settles_idle(s: &ScanSession, running: &IndexManager, stopped: &IndexManager)
    requires
        s.tracks(running),
        stopped.wf() == running.wf(),
        stopped.stop_requested(),
        stopped.status() == IndexStatus::Idle,
        stopped.index() == running.index(),
        stopped.generation() == running.generation(),
    ensures
        s.tracks(stopped),
        !s.may_continue(stopped),
{
    lemma_tracks_running_wf(s, running);
    lemma_tracks_kept(s, running, stopped);
}

} // verus!
