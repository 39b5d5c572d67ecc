//! The index service: a map from path to entry, the status of the indexing
//! pipeline, its roots and its stop flag, with the search over the entries.
use vstd::prelude::*;
use vstd::hash_map::StringHashMap;
use vstd::pervasive::VecAdditionalExecFns;
use vstd::string::StrSliceExecFns;
use crate::entry::{IndexEntry, IndexProgress, IndexStatus};
use crate::fs::FileEntry;
use crate::text::{
    chars_of, contains_chars, contains_separator, has_separator, lower_of, lowercase, occurs_in,
};

verus! {

broadcast use vstd::hash_map::group_hash_map_axioms;

/// The index after the pairs of `batch` are stored in order, a later pair
/// replacing the entry that an earlier one stored under the same path.
pub open spec fn stored(
    m: Map<Seq<char>, IndexEntry>,
    batch: Seq<(String, IndexEntry)>,
) -> Map<Seq<char>, IndexEntry>
    decreases batch.len(),
{
    if batch.len() == 0 {
        m
    } else {
        stored(m, batch.drop_last()).insert(batch.last().0@, batch.last().1)
    }
}

/// The paths that a batch names.
pub open spec fn paths_of(batch: Seq<(String, IndexEntry)>) -> Set<Seq<char>> {
    batch.map_values(|pair: (String, IndexEntry)| pair.0@).to_set()
}

/// Every entry of a batch keeps its lowercase name in step with its name.
pub open spec fn all_wf(batch: Seq<(String, IndexEntry)>) -> bool {
    forall|i: int| 0 <= i < batch.len() ==> (#[trigger] batch[i]).1.wf()
}

/// Whether the entry stored under `path` answers the lowercase query `q`: a
/// query with a path separator is looked for in the lowercase path, any other
/// in the lowercase name.
pub open spec fn matches_query(q: Seq<char>, path: Seq<char>, e: IndexEntry) -> bool {
    if has_separator(q) {
        occurs_in(q, lower_of(path))
    } else {
        occurs_in(q, e.name_lower@)
    }
}

/// A name that starts with a dot is hidden.
pub open spec fn is_hidden_name(name: Seq<char>) -> bool {
    name.len() > 0 && name[0] == '.'
}

/// `f` shows the entry `e` stored under `path`.
pub open spec fn describes(f: FileEntry, path: Seq<char>, e: IndexEntry) -> bool {
    &&& f.path@ == path
    &&& f.name == e.name
    &&& f.extension == e.extension
    &&& f.size == e.size
    &&& f.modified == e.modified
    &&& f.is_dir == e.is_dir
    &&& f.is_hidden == is_hidden_name(e.name@)
    &&& !f.is_symlink
}

/// `r` answers the lowercase query `q` over `m` with at most `limit` hits: an
/// empty query has none; otherwise each hit shows a distinct matching entry,
/// and unless the limit was reached every matching entry is among them.
pub open spec fn is_search_result(
    m: Map<Seq<char>, IndexEntry>,
    q: Seq<char>,
    limit: usize,
    r: Seq<FileEntry>,
) -> bool {
    if q.len() == 0 {
        r.len() == 0
    } else {
        &&& r.len() <= limit
        &&& forall|i: int|
            0 <= i < r.len() ==> {
                &&& m.contains_key(#[trigger] r[i].path@)
                &&& matches_query(q, r[i].path@, m[r[i].path@])
                &&& describes(r[i], r[i].path@, m[r[i].path@])
            }
        &&& forall|i: int, j: int| 0 <= i < j < r.len() ==> r[i].path@ != r[j].path@
        &&& r.len() < limit ==> forall|p: Seq<char>|
            #[trigger] m.contains_key(p) && matches_query(q, p, m[p]) ==> exists|i: int|
                0 <= i < r.len() && r[i].path@ == p
    }
}

/// The index service.
pub struct IndexManager {
    slots: Vec<(String, IndexEntry)>,
    positions: StringHashMap<usize>,
    status: IndexStatus,
    roots: Vec<String>,
    stop_signal: bool,
    scan_generation: u64,
}

impl IndexManager {
    /// The entries held, by path.
    pub closed spec fn index(&self) -> Map<Seq<char>, IndexEntry> {
        self.positions@.map_values(|p: usize| self.slots@[p as int].1)
    }

    /// The status of the indexing pipeline.
    pub closed spec fn status(&self) -> IndexStatus {
        self.status
    }

    /// The roots being indexed.
    pub closed spec fn roots(&self) -> Seq<String> {
        self.roots@
    }

    /// Whether a running scan was asked to stop.
    pub closed spec fn stop_requested(&self) -> bool {
        self.stop_signal
    }

    /// How many scans were begun, counted modulo 2^64.
    pub closed spec fn generation(&self) -> u64 {
        self.scan_generation
    }

    /// Each path is stored once, at the slot that the position map names,
    /// and every entry keeps its lowercase name in step.
    pub closed spec fn wf(&self) -> bool {
        &&& self.positions@.dom().finite()
        &&& self.slots@.len() == self.positions@.len()
        &&& forall|k: Seq<char>| #[trigger]
            self.positions@.contains_key(k) ==> {
                &&& self.positions@[k] < self.slots@.len()
                &&& self.slots@[self.positions@[k] as int].0@ == k
            }
        &&& forall|i: int|
            0 <= i < self.slots@.len() ==> {
                &&& self.positions@.contains_key(#[trigger] self.slots@[i].0@)
                &&& self.positions@[self.slots@[i].0@] == i
                &&& self.slots@[i].1.wf()
            }
    }

    proof fn lemma_index_dom(&self)
        requires
            self.wf(),
        ensures
            self.index().dom() == self.positions@.dom(),
            self.index().dom().finite(),
            self.index().len() == self.slots@.len(),
            forall|k: Seq<char>| #[trigger]
                self.index().contains_key(k) ==> self.index()[k] == self.slots@[
                    self.positions@[k] as int
                ].1,
    {
        assert(self.index().dom() =~= self.positions@.dom());
    }

    /// The index holds finitely many entries.
    pub proof fn lemma_count_matches(&self)
        requires
            self.wf(),
        ensures
            self.index().dom().finite(),
    {
        self.lemma_index_dom();
    }

    /// The entries are all well formed.
    pub proof fn lemma_entries_wf(&self)
        requires
            self.wf(),
        ensures
            forall|k: Seq<char>| #[trigger] self.index().contains_key(k) ==> self.index()[k].wf(),
    {
        self.lemma_index_dom();
        assert forall|k: Seq<char>| #[trigger] self.index().contains_key(k) implies self.index()[
            k
        ].wf() by {
            let p = self.positions@[k] as int;
            assert(self.slots@[p].1.wf());
        };
    }

    /// An idle service with no entries, no roots and no stop requested.
    pub fn new() -> (r: Self)
        ensures
            r.wf(),
            r.index() == Map::<Seq<char>, IndexEntry>::empty(),
            r.status() == IndexStatus::Idle,
            r.roots().len() == 0,
            !r.stop_requested(),
    {
        let r = IndexManager {
            slots: Vec::new(),
            positions: StringHashMap::new(),
            status: IndexStatus::Idle,
            roots: Vec::new(),
            stop_signal: false,
            scan_generation: 0,
        };
        assert(r.index() =~= Map::<Seq<char>, IndexEntry>::empty());
        r
    }

    /// The status of the indexing pipeline.
    pub fn get_status(&self) -> (r: IndexStatus)
        ensures
            r == self.status(),
    {
        self.status
    }

    /// Sets the status of the indexing pipeline.
    pub fn set_status(&mut self, status: IndexStatus)
        ensures
            final(self).status() == status,
            final(self).index() == old(self).index(),
            final(self).roots() == old(self).roots(),
            final(self).stop_requested() == old(self).stop_requested(),
            final(self).generation() == old(self).generation(),
            final(self).wf() == old(self).wf(),
    {
        self.status = status;
    }

    /// The number of entries held.
    pub fn get_count(&self) -> (r: usize)
        requires
            self.wf(),
        ensures
            r == self.index().len(),
    {
        proof {
            self.lemma_index_dom();
        }
        self.slots.len()
    }

    /// Whether a running scan was asked to stop.
    pub fn should_stop(&self) -> (r: bool)
        ensures
            r == self.stop_requested(),
    {
        self.stop_signal
    }

    /// Asks a running scan to stop.
    pub fn request_stop(&mut self)
        ensures
            final(self).stop_requested(),
            final(self).generation() == old(self).generation(),
            final(self).index() == old(self).index(),
            final(self).status() == old(self).status(),
            final(self).roots() == old(self).roots(),
            final(self).wf() == old(self).wf(),
    {
        self.stop_signal = true;
    }

    /// Withdraws a request to stop.
    pub fn reset_stop(&mut self)
        ensures
            !final(self).stop_requested(),
            final(self).generation() == old(self).generation(),
            final(self).index() == old(self).index(),
            final(self).status() == old(self).status(),
            final(self).roots() == old(self).roots(),
            final(self).wf() == old(self).wf(),
    {
        self.stop_signal = false;
    }

    /// Records the roots being indexed.
    pub fn set_roots(&mut self, roots: Vec<String>)
        ensures
            final(self).roots() == roots@,
            final(self).index() == old(self).index(),
            final(self).status() == old(self).status(),
            final(self).stop_requested() == old(self).stop_requested(),
            final(self).generation() == old(self).generation(),
            final(self).wf() == old(self).wf(),
    {
        self.roots = roots;
    }

    /// A copy of the roots being indexed.
    pub fn get_roots(&self) -> (r: Vec<String>)
        ensures
            r@ == self.roots(),
    {
        let mut r: Vec<String> = Vec::new();
        let mut i: usize = 0;
        while i < self.roots.len()
            invariant
                i <= self.roots@.len(),
                r@ == self.roots@.take(i as int),
            decreases self.roots@.len() - i,
        {
            r.push(self.roots[i].clone());
            assert(r@ =~= self.roots@.take(i + 1));
            i = i + 1;
        }
        assert(r@ =~= self.roots@);
        r
    }

    /// Marks the start of a new scan: a scan begun earlier no longer counts.
    pub fn next_generation(&mut self) -> (g: u64)
        ensures
            g == final(self).generation(),
            g != old(self).generation(),
            final(self).index() == old(self).index(),
            final(self).status() == old(self).status(),
            final(self).roots() == old(self).roots(),
            final(self).stop_requested() == old(self).stop_requested(),
            final(self).wf() == old(self).wf(),
    {
        self.scan_generation = if self.scan_generation < u64::MAX {
            self.scan_generation + 1
        } else {
            0
        };
        self.scan_generation
    }

    /// The count of scans begun.
    pub fn get_generation(&self) -> (g: u64)
        ensures
            g == self.generation(),
    {
        self.scan_generation
    }

    /// Drops every entry.
    pub fn clear(&mut self)
        ensures
            final(self).wf(),
            final(self).index() == Map::<Seq<char>, IndexEntry>::empty(),
            final(self).status() == old(self).status(),
            final(self).roots() == old(self).roots(),
            final(self).stop_requested() == old(self).stop_requested(),
            final(self).generation() == old(self).generation(),
    {
        self.slots.clear();
        self.positions.clear();
        assert(self.index() =~= Map::<Seq<char>, IndexEntry>::empty());
    }

    /// The slot that holds `path`, if any.
    fn position_of(&self, path: &str) -> (r: Option<usize>)
        requires
            self.wf(),
        ensures
            match r {
                Some(p) => self.positions@.contains_key(path@) && p == self.positions@[path@],
                None => !self.positions@.contains_key(path@),
            },
    {
        match self.positions.get(path) {
            Some(p) => Some(*p),
            None => None,
        }
    }

    /// Stores `entry` under `path`, replacing any entry held there.
    pub fn insert(&mut self, path: String, entry: IndexEntry)
        requires
            old(self).wf(),
            entry.wf(),
        ensures
            final(self).wf(),
            final(self).index() == old(self).index().insert(path@, entry),
            final(self).status() == old(self).status(),
            final(self).roots() == old(self).roots(),
            final(self).stop_requested() == old(self).stop_requested(),
            final(self).generation() == old(self).generation(),
    {
        let ghost key = path@;
        match self.position_of(path.as_str()) {
            Some(p) => {
                self.slots.set(p, (path, entry));
                assert forall|i: int| 0 <= i < self.slots@.len() implies {
                    &&& self.positions@.contains_key(#[trigger] self.slots@[i].0@)
                    &&& self.positions@[self.slots@[i].0@] == i
                    &&& self.slots@[i].1.wf()
                } by {
                    if i != p {
                        assert(self.slots@[i] == old(self).slots@[i]);
                    }
                };
            },
            None => {
                let n = self.slots.len();
                self.positions.insert(path.clone(), n);
                self.slots.push((path, entry));
                assert forall|i: int| 0 <= i < self.slots@.len() implies {
                    &&& self.positions@.contains_key(#[trigger] self.slots@[i].0@)
                    &&& self.positions@[self.slots@[i].0@] == i
                    &&& self.slots@[i].1.wf()
                } by {
                    if i != n {
                        assert(self.slots@[i] == old(self).slots@[i]);
                        assert(old(self).slots@[i].0@ != key);
                    }
                };
            },
        }
        assert(self.index() =~= old(self).index().insert(key, entry));
    }

    /// Drops the entry held under `path`, if any.
    pub fn remove(&mut self, path: &str)
        requires
            old(self).wf(),
        ensures
            final(self).wf(),
            final(self).index() == old(self).index().remove(path@),
            final(self).status() == old(self).status(),
            final(self).roots() == old(self).roots(),
            final(self).stop_requested() == old(self).stop_requested(),
            final(self).generation() == old(self).generation(),
    {
        match self.position_of(path) {
            Some(p) => {
                let last = self.slots.len() - 1;
                self.positions.remove(path);
                if p != last {
                    let moved = self.slots[last].0.clone();
                    self.positions.insert(moved, p);
                }
                self.slots.swap_remove(p);
                assert forall|k: Seq<char>| #[trigger] self.positions@.contains_key(k) implies {
                    &&& self.positions@[k] < self.slots@.len()
                    &&& self.slots@[self.positions@[k] as int].0@ == k
                } by {
                    assert(old(self).positions@.contains_key(k));
                };
                assert forall|i: int| 0 <= i < self.slots@.len() implies {
                    &&& self.positions@.contains_key(#[trigger] self.slots@[i].0@)
                    &&& self.positions@[self.slots@[i].0@] == i
                    &&& self.slots@[i].1.wf()
                } by {
                    if i != p {
                        assert(self.slots@[i] == old(self).slots@[i]);
                    }
                };
                assert(self.index() =~= old(self).index().remove(path@));
            },
            None => {
                assert(self.index() =~= old(self).index().remove(path@));
            },
        }
    }

    /// Stores the pairs of `entries` in order, all in one call.
    pub fn insert_batch(&mut self, entries: Vec<(String, IndexEntry)>)
        requires
            old(self).wf(),
            all_wf(entries@),
        ensures
            final(self).wf(),
            final(self).index() == stored(old(self).index(), entries@),
            final(self).index().len() == old(self).index().len() + paths_of(entries@).difference(
                old(self).index().dom(),
            ).len(),
            final(self).status() == old(self).status(),
            final(self).roots() == old(self).roots(),
            final(self).stop_requested() == old(self).stop_requested(),
            final(self).generation() == old(self).generation(),
    {
        let ghost batch = entries@;
        for pair in it: entries
            invariant
                self.wf(),
                batch == it.seq(),
                all_wf(batch),
                self.index() == stored(old(self).index(), batch.take(it.index() as int)),
                self.status() == old(self).status(),
                self.roots() == old(self).roots(),
                self.stop_requested() == old(self).stop_requested(),
                self.generation() == old(self).generation(),
        {
            let ghost i = it.index() as int;
            proof {
                assert(batch.take(i + 1).drop_last() =~= batch.take(i));
                assert(batch[i].1.wf());
            }
            let (path, entry) = pair;
            self.insert(path, entry);
        }
        proof {
            assert(batch.take(batch.len() as int) =~= batch);
            old(self).lemma_index_dom();
            lemma_batch_count(old(self).index(), batch);
        }
    }

    /// A copy of the entries, one pair per path.
    pub fn get_index_clone(&self) -> (r: Vec<(String, IndexEntry)>)
        requires
            self.wf(),
        ensures
            r@.len() == self.index().len(),
            forall|i: int|
                0 <= i < r@.len() ==> {
                    &&& self.index().contains_key(#[trigger] r@[i].0@)
                    &&& self.index()[r@[i].0@] == r@[i].1
                },
            forall|i: int, j: int| 0 <= i < j < r@.len() ==> r@[i].0@ != r@[j].0@,
            stored(Map::empty(), r@) == self.index(),
    {
        proof {
            self.lemma_index_dom();
        }
        let mut r: Vec<(String, IndexEntry)> = Vec::new();
        let mut i: usize = 0;
        while i < self.slots.len()
            invariant
                self.wf(),
                i <= self.slots@.len(),
                r@.len() == i,
                forall|j: int| 0 <= j < i ==> #[trigger] r@[j] == self.slots@[j],
            decreases self.slots@.len() - i,
        {
            let pair = (self.slots[i].0.clone(), self.slots[i].1.duplicate());
            r.push(pair);
            i = i + 1;
        }
        proof {
            assert(r@ =~= self.slots@);
            assert forall|a: int, b: int| 0 <= a < b < r@.len() implies r@[a].0@ != r@[b].0@ by {
                assert(self.positions@[self.slots@[a].0@] == a);
                assert(self.positions@[self.slots@[b].0@] == b);
            };
            assert forall|a: int| 0 <= a < r@.len() implies {
                &&& self.index().contains_key(#[trigger] r@[a].0@)
                &&& self.index()[r@[a].0@] == r@[a].1
            } by {
                assert(self.positions@.contains_key(self.slots@[a].0@));
            };
            lemma_listing_restores(self.index(), r@);
        }
        r
    }

    /// Replaces every entry with those of `data`.
    pub fn load_from_cache(&mut self, data: Vec<(String, IndexEntry)>)
        requires
            old(self).wf(),
            all_wf(data@),
        ensures
            final(self).wf(),
            final(self).index() == stored(Map::empty(), data@),
            final(self).status() == old(self).status(),
            final(self).roots() == old(self).roots(),
            final(self).stop_requested() == old(self).stop_requested(),
            final(self).generation() == old(self).generation(),
    {
        self.clear();
        self.insert_batch(data);
    }

    /// The entries that answer `query`, compared without regard to case, at
    /// most `limit` of them; an empty query answers nothing.
    pub fn search(&self, query: &str, limit: usize) -> (r: Vec<FileEntry>)
        requires
            self.wf(),
        ensures
            is_search_result(self.index(), lower_of(query@), limit, r@),
            query@.len() == 0 ==> r@.len() == 0,
    {
        let query_lower = lowercase(query);
        self.search_lowered(query_lower.as_str(), limit)
    }

    /// The entries that answer the lowercase query `query_lower`, at most
    /// `limit` of them.
    pub fn search_lowered(&self, query_lower: &str, limit: usize) -> (r: Vec<FileEntry>)
        requires
            self.wf(),
        ensures
            is_search_result(self.index(), query_lower@, limit, r@),
    {
        let q = chars_of(query_lower);
        let mut results: Vec<FileEntry> = Vec::new();
        if q.len() == 0 || limit == 0 {
            return results;
        }
        let by_path = contains_separator(&q);
        let ghost qs = q@;
        let ghost mut src: Seq<int> = Seq::empty();
        proof {
            self.lemma_index_dom();
        }
        let mut j: usize = 0;
        while j < self.slots.len()
            invariant
                self.wf(),
                qs == query_lower@,
                q@ == qs,
                qs.len() > 0,
                by_path == has_separator(qs),
                j <= self.slots@.len(),
                results@.len() == src.len(),
                results@.len() < limit,
                self.index().dom() == self.positions@.dom(),
                forall|k: Seq<char>| #[trigger]
                    self.index().contains_key(k) ==> self.index()[k] == self.slots@[
                        self.positions@[k] as int
                    ].1,
                forall|i: int|
                    0 <= i < src.len() ==> {
                        &&& 0 <= #[trigger] src[i] < j
                        &&& matches_query(qs, self.slots@[src[i]].0@, self.slots@[src[i]].1)
                        &&& describes(results@[i], self.slots@[src[i]].0@, self.slots@[src[i]].1)
                    },
                forall|a: int, b: int| 0 <= a < b < src.len() ==> src[a] < src[b],
                forall|k: int|
                    0 <= k < j && matches_query(qs, self.slots@[k].0@, self.slots@[k].1)
                        ==> exists|i: int| 0 <= i < src.len() && #[trigger] src[i] == k,
            decreases self.slots@.len() - j,
        {
            let path = &self.slots[j].0;
            let entry = &self.slots[j].1;
            let hit = if by_path {
                let lowered = lowercase(path.as_str());
                contains_chars(&chars_of(lowered.as_str()), &q)
            } else {
                contains_chars(&chars_of(entry.name_lower.as_str()), &q)
            };
            assert(hit == matches_query(qs, self.slots@[j as int].0@, self.slots@[j as int].1));
            let ghost before = src;
            if hit {
                results.push(describe(path, entry));
                proof {
                    src = src.push(j as int);
                    assert(src[src.len() - 1] == j);
                }
            }
            proof {
                assert forall|k: int|
                    0 <= k < j + 1 && matches_query(qs, self.slots@[k].0@, self.slots@[k].1)
                        implies exists|i: int| 0 <= i < src.len() && #[trigger] src[i] == k by {
                    if k < j {
                        let i = choose|i: int| 0 <= i < before.len() && #[trigger] before[i] == k;
                        assert(src[i] == k);
                    } else {
                        assert(src[src.len() - 1] == k);
                    }
                };
            }
            if hit {
                if results.len() >= limit {
                    proof {
                        self.lemma_hits_are_results(qs, limit, results@, src, j as int + 1);
                    }
                    return results;
                }
            }
            j = j + 1;
        }
        proof {
            self.lemma_hits_are_results(qs, limit, results@, src, j as int);
        }
        results
    }

    /// The hits gathered from the first `j` slots, through their slot
    /// numbers `src`, answer the query as `is_search_result` asks.
    proof fn lemma_hits_are_results(
        &self,
        q: Seq<char>,
        limit: usize,
        r: Seq<FileEntry>,
        src: Seq<int>,
        j: int,
    )
        requires
            self.wf(),
            q.len() > 0,
            0 <= j <= self.slots@.len(),
            r.len() == src.len(),
            r.len() <= limit,
            forall|i: int|
                0 <= i < src.len() ==> {
                    &&& 0 <= #[trigger] src[i] < j
                    &&& matches_query(q, self.slots@[src[i]].0@, self.slots@[src[i]].1)
                    &&& describes(r[i], self.slots@[src[i]].0@, self.slots@[src[i]].1)
                },
            forall|a: int, b: int| 0 <= a < b < src.len() ==> src[a] < src[b],
            r.len() < limit ==> j == self.slots@.len(),
            forall|k: int|
                0 <= k < j && matches_query(q, self.slots@[k].0@, self.slots@[k].1) ==> exists|
                    i: int,
                | 0 <= i < src.len() && #[trigger] src[i] == k,
        ensures
            is_search_result(self.index(), q, limit, r),
    {
        self.lemma_index_dom();
        let m = self.index();
        assert forall|i: int| 0 <= i < r.len() implies {
            &&& m.contains_key(#[trigger] r[i].path@)
            &&& matches_query(q, r[i].path@, m[r[i].path@])
            &&& describes(r[i], r[i].path@, m[r[i].path@])
        } by {
            let s = src[i];
            assert(self.positions@.contains_key(self.slots@[s].0@));
        };
        assert forall|a: int, b: int| 0 <= a < b < r.len() implies r[a].path@ != r[b].path@ by {
            let sa = src[a];
            let sb = src[b];
            assert(self.positions@[self.slots@[sa].0@] == sa);
            assert(self.positions@[self.slots@[sb].0@] == sb);
        };
        if r.len() < limit {
            assert forall|p: Seq<char>| #[trigger]
                m.contains_key(p) && matches_query(q, p, m[p]) implies exists|i: int|
                0 <= i < r.len() && r[i].path@ == p by {
                let k = self.positions@[p] as int;
                assert(self.slots@[k].0@ == p);
                let i = choose|i: int| 0 <= i < src.len() && #[trigger] src[i] == k;
                assert(r[i].path@ == p);
            };
        }
    }
}

impl IndexManager {
    /// A progress report on the current status and count, with the path last
    /// visited, when there is one.
    pub fn progress(&self, current_path: Option<String>) -> (r: IndexProgress)
        requires
            self.wf(),
        ensures
            r.status == self.status(),
            r.indexed_count == self.index().len(),
            r.current_path == current_path,
    {
        IndexProgress {
            status: self.get_status(),
            indexed_count: self.get_count(),
            current_path,
        }
    }
}

/// The paths of a batch after one more pair joins it.
proof fn lemma_paths_of_push(batch: Seq<(String, IndexEntry)>)
    requires
        batch.len() > 0,
    ensures
        paths_of(batch) == paths_of(batch.drop_last()).insert(batch.last().0@),
{
    let f = |pair: (String, IndexEntry)| pair.0@;
    let all = batch.map_values(f);
    let front = batch.drop_last().map_values(f);
    assert(all.drop_last() =~= front);
    assert forall|p: Seq<char>| #[trigger] paths_of(batch).contains(p) <==> paths_of(
        batch.drop_last(),
    ).insert(batch.last().0@).contains(p) by {
        if all.contains(p) {
            let i = choose|i: int| 0 <= i < all.len() && all[i] == p;
            if i < all.len() - 1 {
                assert(front[i] == p);
            }
        }
        if front.contains(p) {
            let i = choose|i: int| 0 <= i < front.len() && front[i] == p;
            assert(all[i] == p);
        }
        if p == batch.last().0@ {
            assert(all[all.len() - 1] == p);
        }
    };
    assert(paths_of(batch) =~= paths_of(batch.drop_last()).insert(batch.last().0@));
}

/// Storing a batch leaves the paths held before and adds those of the batch.
pub proof fn lemma_stored_dom(m: Map<Seq<char>, IndexEntry>, batch: Seq<(String, IndexEntry)>)
    ensures
        stored(m, batch).dom() == m.dom() + paths_of(batch),
    decreases batch.len(),
{
    if batch.len() == 0 {
        assert(batch.map_values(|pair: (String, IndexEntry)| pair.0@) =~= Seq::empty());
        assert(paths_of(batch) =~= Set::empty());
        assert(m.dom() + paths_of(batch) =~= m.dom());
    } else {
        lemma_stored_dom(m, batch.drop_last());
        lemma_paths_of_push(batch);
        assert(stored(m, batch).dom() =~= m.dom() + paths_of(batch));
    }
}

/// Storing a batch raises the count of entries by the number of its paths
/// that the index did not hold before: a path already held, or named twice
/// in the batch, replaces an entry instead of adding one.
pub proof fn lemma_batch_count(m: Map<Seq<char>, IndexEntry>, batch: Seq<(String, IndexEntry)>)
    requires
        m.dom().finite(),
    ensures
        stored(m, batch).dom().finite(),
        stored(m, batch).len() == m.len() + paths_of(batch).difference(m.dom()).len(),
{
    lemma_stored_dom(m, batch);
    let fresh = paths_of(batch).difference(m.dom());
    vstd::seq_lib::seq_to_set_is_finite(batch.map_values(|pair: (String, IndexEntry)| pair.0@));
    assert(m.dom() + paths_of(batch) =~= m.dom() + fresh);
    assert(m.dom().disjoint(fresh));
    vstd::set_lib::lemma_set_disjoint_lens(m.dom(), fresh);
}

/// Storing a batch overwrites and never appends: a path that the batch names
/// holds the entry of the last pair for it, and every other path keeps what
/// it held, or stays absent.
pub proof fn lemma_stored_lookup(
    m: Map<Seq<char>, IndexEntry>,
    batch: Seq<(String, IndexEntry)>,
    p: Seq<char>,
)
    ensures
        paths_of(batch).contains(p) ==> exists|i: int|
            0 <= i < batch.len() && #[trigger] batch[i].0@ == p && (forall|j: int|
                i < j < batch.len() ==> batch[j].0@ != p) && stored(m, batch).contains_key(p)
                && stored(m, batch)[p] == batch[i].1,
        !paths_of(batch).contains(p) ==> {
            &&& stored(m, batch).contains_key(p) == m.contains_key(p)
            &&& m.contains_key(p) ==> stored(m, batch)[p] == m[p]
        },
    decreases batch.len(),
{
    if batch.len() == 0 {
        assert(batch.map_values(|pair: (String, IndexEntry)| pair.0@) =~= Seq::empty());
        assert(paths_of(batch) =~= Set::empty());
    } else {
        let front = batch.drop_last();
        let n = batch.len() - 1;
        lemma_paths_of_push(batch);
        lemma_stored_lookup(m, front, p);
        if batch[n].0@ == p {
            assert(batch[n].0@ == p);
        } else if paths_of(front).contains(p) {
            let i = choose|i: int|
                0 <= i < front.len() && #[trigger] front[i].0@ == p && (forall|j: int|
                    i < j < front.len() ==> front[j].0@ != p) && stored(m, front).contains_key(p)
                    && stored(m, front)[p] == front[i].1;
            assert(batch[i] == front[i]);
            assert forall|j: int| i < j < batch.len() implies batch[j].0@ != p by {
                if j < n {
                    assert(batch[j] == front[j]);
                }
            };
        }
    }
}

/// In a batch without repeated paths, each path ends up with its own entry.
proof fn lemma_stored_distinct_values(m: Map<Seq<char>, IndexEntry>, batch: Seq<(String, IndexEntry)>)
    requires
        forall|i: int, j: int| 0 <= i < j < batch.len() ==> batch[i].0@ != batch[j].0@,
    ensures
        forall|i: int|
            0 <= i < batch.len() ==> #[trigger] stored(m, batch)[batch[i].0@] == batch[i].1,
    decreases batch.len(),
{
    if batch.len() > 0 {
        let front = batch.drop_last();
        assert forall|i: int, j: int| 0 <= i < j < front.len() implies front[i].0@ != front[j].0@ by {
            assert(front[i] == batch[i] && front[j] == batch[j]);
        };
        lemma_stored_distinct_values(m, front);
        assert forall|i: int| 0 <= i < batch.len() implies #[trigger] stored(m, batch)[
            batch[i].0@
        ] == batch[i].1 by {
            if i < batch.len() - 1 {
                assert(front[i] == batch[i]);
                assert(batch[i].0@ != batch[batch.len() - 1].0@);
                assert(stored(m, front)[front[i].0@] == front[i].1);
            }
        };
    }
}

/// A listing of an index, one pair per path and as many pairs as the index
/// has entries, stored into an empty index gives that index back.
pub proof fn lemma_listing_restores(m: Map<Seq<char>, IndexEntry>, listing: Seq<(String, IndexEntry)>)
    requires
        m.dom().finite(),
        listing.len() == m.len(),
        forall|i: int|
            0 <= i < listing.len() ==> {
                &&& m.contains_key(#[trigger] listing[i].0@)
                &&& m[listing[i].0@] == listing[i].1
            },
        forall|i: int, j: int| 0 <= i < j < listing.len() ==> listing[i].0@ != listing[j].0@,
    ensures
        stored(Map::empty(), listing) == m,
{
    let empty = Map::<Seq<char>, IndexEntry>::empty();
    let back = stored(empty, listing);
    let paths = listing.map_values(|pair: (String, IndexEntry)| pair.0@);
    lemma_stored_dom(empty, listing);
    lemma_stored_distinct_values(empty, listing);
    assert(paths.no_duplicates());
    paths.unique_seq_to_set();
    assert(paths_of(listing).subset_of(m.dom())) by {
        assert forall|p: Seq<char>| paths_of(listing).contains(p) implies m.dom().contains(p) by {
            let i = choose|i: int| 0 <= i < paths.len() && paths[i] == p;
            assert(m.contains_key(listing[i].0@));
        };
    };
    vstd::set_lib::lemma_subset_equality(paths_of(listing), m.dom());
    assert(empty.dom() + paths_of(listing) =~= m.dom());
    assert forall|p: Seq<char>| #[trigger] m.contains_key(p) implies back[p] == m[p] by {
        assert(paths_of(listing).contains(p));
        let i = choose|i: int| 0 <= i < paths.len() && paths[i] == p;
        assert(back[listing[i].0@] == listing[i].1);
    };
    assert(back =~= m);
}

/// A search result holds no more hits than the index holds entries.
proof fn lemma_result_len(m: Map<Seq<char>, IndexEntry>, q: Seq<char>, limit: usize, r: Seq<FileEntry>)
    requires
        m.dom().finite(),
        q.len() > 0,
        is_search_result(m, q, limit, r),
    ensures
        r.len() <= m.len(),
{
    let paths = r.map_values(|f: FileEntry| f.path@);
    assert(paths.no_duplicates());
    paths.unique_seq_to_set();
    assert(paths.to_set().subset_of(m.dom())) by {
        assert forall|p: Seq<char>| paths.to_set().contains(p) implies m.dom().contains(p) by {
            let i = choose|i: int| 0 <= i < paths.len() && paths[i] == p;
            assert(m.contains_key(r[i].path@));
        };
    };
    vstd::set_lib::lemma_len_subset(paths.to_set(), m.dom());
}

/// A query without a path separator finds every entry whose name holds it,
/// whatever the case of either, when the limit exceeds the number of
/// entries.
pub proof fn lemma_name_query_finds(
    m: Map<Seq<char>, IndexEntry>,
    query: Seq<char>,
    limit: usize,
    r: Seq<FileEntry>,
    p: Seq<char>,
)
    requires
        m.dom().finite(),
        m.len() < limit,
        is_search_result(m, lower_of(query), limit, r),
        m.contains_key(p),
        m[p].wf(),
        lower_of(query).len() > 0,
        !has_separator(lower_of(query)),
        occurs_in(lower_of(query), lower_of(m[p].name@)),
    ensures
        exists|i: int| 0 <= i < r.len() && r[i].path@ == p && describes(r[i], p, m[p]),
{
    lemma_result_len(m, lower_of(query), limit, r);
    let i = choose|i: int| 0 <= i < r.len() && r[i].path@ == p;
    assert(describes(r[i], p, m[p]));
}

/// A query with a path separator finds an entry exactly when its lowercase
/// path holds the lowercase query, when the limit exceeds the number of
/// entries.
pub proof fn lemma_path_query_finds(
    m: Map<Seq<char>, IndexEntry>,
    query: Seq<char>,
    limit: usize,
    r: Seq<FileEntry>,
    p: Seq<char>,
)
    requires
        m.dom().finite(),
        m.len() < limit,
        is_search_result(m, lower_of(query), limit, r),
        m.contains_key(p),
        has_separator(lower_of(query)),
    ensures
        (exists|i: int| 0 <= i < r.len() && r[i].path@ == p) <==> occurs_in(
            lower_of(query),
            lower_of(p),
        ),
{
    let q = lower_of(query);
    assert(q.len() > 0) by {
        let k = choose|k: int| 0 <= k < q.len() && crate::text::is_separator(#[trigger] q[k]);
    };
    lemma_result_len(m, q, limit, r);
    if exists|i: int| 0 <= i < r.len() && r[i].path@ == p {
        let i = choose|i: int| 0 <= i < r.len() && r[i].path@ == p;
        assert(matches_query(q, r[i].path@, m[r[i].path@]));
    }
}

/// Whether a name starts with a dot.
fn starts_with_dot(name: &str) -> (r: bool)
    ensures
        r == is_hidden_name(name@),
{
    if name.is_empty() {
        false
    } else {
        name.get_char(0) == '.'
    }
}

/// The record shown for the entry `e` stored under `path`.
fn describe(path: &String, e: &IndexEntry) -> (f: FileEntry)
    ensures
        describes(f, path@, *e),
{
    let extension = match &e.extension {
        Some(x) => Some(x.clone()),
        None => None,
    };
    FileEntry {
        name: e.name.clone(),
        path: path.clone(),
        extension,
        size: e.size,
        modified: e.modified,
        is_dir: e.is_dir,
        is_hidden: starts_with_dot(e.name.as_str()),
        is_symlink: false,
    }
}

} // verus!
