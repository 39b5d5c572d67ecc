//! The snapshot of the index kept on disk, and when it may be used. Reading
//! and writing the file is left to the caller; this module decides what a
//! snapshot holds and whether a loaded one replaces the index.
use vstd::prelude::*;
use crate::entry::IndexEntry;
use crate::index::{all_wf, lemma_listing_restores, stored, IndexManager};
use crate::text::lowercase;

verus! {

/// Name of the snapshot file.
pub const CACHE_FILE_NAME: &'static str = "file_index_cache.json";

/// A snapshot older than this many hours is not used.
pub const CACHE_MAX_AGE_HOURS: u64 = 24;

/// A snapshot older than this many seconds is not used.
pub const CACHE_MAX_AGE_SECS: u64 = 86400;

/// A snapshot of the index: when it was taken, in seconds since the epoch,
/// and the entries it holds.
pub struct CacheData {
    pub timestamp: u64,
    pub entries: Vec<(String, IndexEntry)>,
}

/// A snapshot taken at `timestamp` is still usable at `now`: it is at most a
/// day old. A timestamp in the future counts as age zero.
pub open spec fn cache_fresh(timestamp: u64, now: u64) -> bool {
    if now <= timestamp {
        true
    } else {
        now - timestamp <= CACHE_MAX_AGE_SECS
    }
}

/// Relies on `std::time::SystemTime::now`: seconds since the epoch, or zero
/// for a clock set before it. Nothing is known of the value.
#[verifier::external_body]
pub(crate) fn now_secs() -> (r: u64) {
    std::time::SystemTime::now()
        .duration_since(std::time::UNIX_EPOCH)
        .unwrap_or_default()
        .as_secs()
}

/// Whether a snapshot taken at `timestamp` may be used at `now`.
pub fn is_fresh(timestamp: u64, now: u64) -> (r: bool)
    ensures
        r == cache_fresh(timestamp, now),
{
    let age = now.saturating_sub(timestamp);
    age <= CACHE_MAX_AGE_HOURS * 3600
}

/// Whether every entry keeps its lowercase name in step with its name.
pub fn entries_consistent(entries: &Vec<(String, IndexEntry)>) -> (r: bool)
    ensures
        r == all_wf(entries@),
{
    let mut i: usize = 0;
    while i < entries.len()
        invariant
            i <= entries@.len(),
            forall|k: int| 0 <= k < i ==> (#[trigger] entries@[k]).1.wf(),
        decreases entries@.len() - i,
    {
        let lowered = lowercase(entries[i].1.name.as_str());
        if lowered != entries[i].1.name_lower {
            return false;
        }
        i = i + 1;
    }
    true
}

/// The snapshot of `manager` taken at `now`.
pub fn snapshot_at(manager: &IndexManager, now: u64) -> (r: CacheData)
    requires
        manager.wf(),
    ensures
        r.timestamp == now,
        stored(Map::empty(), r.entries@) == manager.index(),
        all_wf(r.entries@),
        r.entries@.len() == manager.index().len(),
        forall|i: int|
            0 <= i < r.entries@.len() ==> {
                &&& manager.index().contains_key(#[trigger] r.entries@[i].0@)
                &&& manager.index()[r.entries@[i].0@] == r.entries@[i].1
            },
        forall|i: int, j: int| 0 <= i < j < r.entries@.len() ==> r.entries@[i].0@ != r.entries@[j].0@,
{
    let entries = manager.get_index_clone();
    proof {
        manager.lemma_entries_wf();
        assert forall|i: int| 0 <= i < entries@.len() implies (#[trigger] entries@[i]).1.wf() by {
            assert(manager.index().contains_key(entries@[i].0@));
        };
    }
    CacheData { timestamp: now, entries }
}

/// The snapshot of `manager` as of now.
pub fn save_cache(manager: &IndexManager) -> (r: CacheData)
    requires
        manager.wf(),
    ensures
        stored(Map::empty(), r.entries@) == manager.index(),
        all_wf(r.entries@),
        r.entries@.len() == manager.index().len(),
        forall|i: int|
            0 <= i < r.entries@.len() ==> {
                &&& manager.index().contains_key(#[trigger] r.entries@[i].0@)
                &&& manager.index()[r.entries@[i].0@] == r.entries@[i].1
            },
        forall|i: int, j: int| 0 <= i < j < r.entries@.len() ==> r.entries@[i].0@ != r.entries@[j].0@,
{
    snapshot_at(manager, now_secs())
}

/// Uses the snapshot `data` at `now`: when it is fresh and consistent it
/// replaces the index and true is returned; otherwise the index is left as
/// it was and false is returned.
pub fn apply_cache(manager: &mut IndexManager, data: CacheData, now: u64) -> (r: bool)
    requires
        old(manager).wf(),
    ensures
        final(manager).wf(),
        r == (cache_fresh(data.timestamp, now) && all_wf(data.entries@)),
        r ==> final(manager).index() == stored(Map::empty(), data.entries@),
        !r ==> final(manager).index() == old(manager).index(),
        final(manager).status() == old(manager).status(),
        final(manager).roots() == old(manager).roots(),
        final(manager).stop_requested() == old(manager).stop_requested(),
        final(manager).generation() == old(manager).generation(),
{
    if !is_fresh(data.timestamp, now) || !entries_consistent(&data.entries) {
        return false;
    }
    manager.load_from_cache(data.entries);
    true
}

/// Uses the snapshot read from disk, if one could be read, as of now: a
/// consistent snapshot is used when it is at most a day old, which one taken
/// within a day of the end of the clock's range always is.
pub fn load_cache(manager: &mut IndexManager, data: Option<CacheData>) -> (r: bool)
    requires
        old(manager).wf(),
    ensures
        final(manager).wf(),
        data is None ==> !r,
        data is Some && !all_wf(data->0.entries@) ==> !r,
        data is Some && all_wf(data->0.entries@) && data->0.timestamp >= u64::MAX
            - CACHE_MAX_AGE_SECS ==> r,
        r ==> data is Some && final(manager).index() == stored(Map::empty(), data->0.entries@),
        !r ==> final(manager).index() == old(manager).index(),
        final(manager).status() == old(manager).status(),
        final(manager).roots() == old(manager).roots(),
        final(manager).stop_requested() == old(manager).stop_requested(),
        final(manager).generation() == old(manager).generation(),
{
    match data {
        Some(d) => apply_cache(manager, d, now_secs()),
        None => false,
    }
}

/// A snapshot is used for a day after it was taken, and not after: an hour
/// later it is fresh, twenty-five hours later it is not.
pub proof fn lemma_cache_age(t: u64)
    requires
        t + 25 * 3600 <= u64::MAX,
    ensures
        cache_fresh(t, (t + 3600) as u64),
        !cache_fresh(t, (t + 25 * 3600) as u64),
{
}

/// A snapshot of one index, loaded within a day into an index service,
/// reproduces the same paths with the same entries. `data` is what
/// `snapshot_at` gives for `saved`, and `loaded` what `apply_cache` leaves.
pub proof fn lemma_round_trip(saved: &IndexManager, data: CacheData, loaded: &IndexManager, now: u64)
    requires
        saved.wf(),
        all_wf(data.entries@),
        data.entries@.len() == saved.index().len(),
        forall|i: int|
            0 <= i < data.entries@.len() ==> {
                &&& saved.index().contains_key(#[trigger] data.entries@[i].0@)
                &&& saved.index()[data.entries@[i].0@] == data.entries@[i].1
            },
        forall|i: int, j: int|
            0 <= i < j < data.entries@.len() ==> data.entries@[i].0@ != data.entries@[j].0@,
        cache_fresh(data.timestamp, now),
        (cache_fresh(data.timestamp, now) && all_wf(data.entries@)) ==> loaded.index() == stored(
            Map::empty(),
            data.entries@,
        ),
    ensures
        loaded.index().dom() == saved.index().dom(),
        forall|p: Seq<char>| #[trigger] saved.index().contains_key(p) ==> loaded.index()[p] == saved.index()[p],
{
    saved.lemma_count_matches();
    lemma_listing_restores(saved.index(), data.entries@);
}

} // verus!
