//! The decisions of a full scan. The caller walks the roots and hands each
//! visited entry over; the scan buffers entries and commits them to the index
//! in batches, and stops as soon as a stop is requested or a newer scan of
//! the same index begins.
use vstd::prelude::*;
use crate::entry::{IndexEntry, IndexProgress, IndexStatus};
use crate::index::{all_wf, lemma_batch_count, paths_of, stored, IndexManager};

verus! {

/// Number of entries buffered before they are committed to the index.
pub const PROGRESS_BATCH_SIZE: usize = 5000;

/// A scan in progress: the entries visited but not yet committed.
pub struct ScanSession {
    generation: u64,
    batch: Vec<(String, IndexEntry)>,
    visited: Ghost<Seq<(String, IndexEntry)>>,
}

/// What became of one visited entry.
pub enum VisitOutcome {
    /// A stop was requested, or a newer scan has begun: the entry and the
    /// buffered batch are dropped and the walk should end.
    Stopped,
    /// The entry waits in the batch.
    Buffered,
    /// The batch, the entry with it, was committed; the progress is to be
    /// reported.
    Committed(IndexProgress),
}

impl ScanSession {
    /// The scan that this session belongs to.
    pub closed spec fn generation(&self) -> u64 {
        self.generation
    }

    /// No newer scan has begun on `manager` since this one.
    pub open spec fn is_current_in(&self, manager: &IndexManager) -> bool {
        self.generation() == manager.generation()
    }

    /// The session may go on: it is current and no stop was requested.
    pub open spec fn may_continue(&self, manager: &IndexManager) -> bool {
        self.is_current_in(manager) && !manager.stop_requested()
    }

    /// Every entry visited so far in this scan, in order.
    pub closed spec fn visited(&self) -> Seq<(String, IndexEntry)> {
        self.visited@
    }

    /// The entries visited but not yet committed.
    pub closed spec fn pending(&self) -> Seq<(String, IndexEntry)> {
        self.batch@
    }

    /// The index holds exactly what the scan committed, and the batch is the
    /// rest of what it visited.
    pub closed spec fn tracks(&self, manager: &IndexManager) -> bool {
        let n = self.visited@.len() - self.batch@.len();
        &&& manager.wf()
        &&& self.generation == manager.generation()
        &&& 0 <= n
        &&& self.batch@.len() < PROGRESS_BATCH_SIZE
        &&& self.batch@ == self.visited@.skip(n)
        &&& all_wf(self.visited@)
        &&& manager.index() == stored(Map::empty(), self.visited@.take(n))
    }
}

/// Starts a scan of `roots`: drops every entry, records the roots, clears the
/// stop flag and sets the status to scanning. A scan begun earlier on the
/// same index stops at its next step.
pub fn begin_scan(manager: &mut IndexManager, roots: Vec<String>) -> (s: ScanSession)
    requires
        old(manager).wf(),
    ensures
        final(manager).wf(),
        s.tracks(final(manager)),
        s.visited().len() == 0,
        s.is_current_in(final(manager)),
        final(manager).generation() != old(manager).generation(),
        final(manager).index() == Map::<Seq<char>, IndexEntry>::empty(),
        final(manager).roots() == roots@,
        !final(manager).stop_requested(),
        final(manager).status() == IndexStatus::Scanning,
{
    manager.clear();
    manager.set_roots(roots);
    manager.reset_stop();
    manager.set_status(IndexStatus::Scanning);
    let generation = manager.next_generation();
    let s = ScanSession { generation, batch: Vec::new(), visited: Ghost(Seq::empty()) };
    assert(s.visited@.take(0) =~= Seq::<(String, IndexEntry)>::empty());
    assert(s.batch@ =~= s.visited@.skip(0));
    s
}

/// Hands the scan one visited entry. Unless a stop was requested or a newer
/// scan has begun, the entry joins the batch, and a full batch is committed
/// in one call.
pub fn visit(
    manager: &mut IndexManager,
    session: &mut ScanSession,
    path: String,
    entry: IndexEntry,
) -> (r: VisitOutcome)
    requires
        old(manager).wf(),
        old(session).is_current_in(old(manager)) ==> old(session).tracks(old(manager)),
        entry.wf(),
    ensures
        final(manager).wf(),
        final(manager).generation() == old(manager).generation(),
        final(session).generation() == old(session).generation(),
        final(manager).status() == old(manager).status(),
        final(manager).roots() == old(manager).roots(),
        final(manager).stop_requested() == old(manager).stop_requested(),
        final(manager).generation() == old(manager).generation(),
        !old(session).may_continue(old(manager)) ==> {
            &&& r is Stopped
            &&& final(manager).index() == old(manager).index()
            &&& *final(manager) == *old(manager)
            &&& *final(session) == *old(session)
        },
        old(session).may_continue(old(manager)) ==> {
            &&& final(session).tracks(final(manager))
            &&& final(session).visited() == old(session).visited().push((path, entry))
            &&& if old(session).pending().len() + 1 >= PROGRESS_BATCH_SIZE {
                &&& final(manager).index() == stored(
                    old(manager).index(),
                    old(session).pending().push((path, entry)),
                )
                &&& final(session).pending().len() == 0
                &&& r matches VisitOutcome::Committed(p) && p.status == old(manager).status()
                    && p.indexed_count == final(manager).index().len() && p.current_path
                    == Some(path)
            } else {
                &&& final(manager).index() == old(manager).index()
                &&& final(session).pending() == old(session).pending().push((path, entry))
                &&& r is Buffered
            }
        },
{
    if manager.should_stop() || session.generation != manager.get_generation() {
        return VisitOutcome::Stopped;
    }
    let ghost old_visited = session.visited@;
    let ghost n = old_visited.len() - session.batch@.len();
    let ghost item = (path, entry);
    let shown = path.clone();
    session.batch.push((path, entry));
    session.visited = Ghost(old_visited.push(item));
    proof {
        assert(session.batch@ =~= session.visited@.skip(n));
        assert(session.visited@.take(n) =~= old_visited.take(n));
        assert forall|i: int| 0 <= i < session.visited@.len() implies (
        #[trigger] session.visited@[i]).1.wf() by {
            if i < old_visited.len() {
                assert(session.visited@[i] == old_visited[i]);
            }
        };
    }
    if session.batch.len() >= PROGRESS_BATCH_SIZE {
        let full = session.batch.split_off(0);
        proof {
            lemma_stored_concat(Map::empty(), session.visited@.take(n), full@);
            assert(session.visited@.take(n) + full@ =~= session.visited@);
            assert(session.visited@.skip(session.visited@.len() as int) =~= Seq::<
                (String, IndexEntry),
            >::empty());
            assert(session.visited@.take(session.visited@.len() as int) =~= session.visited@);
            assert forall|i: int| 0 <= i < full@.len() implies (#[trigger] full@[i]).1.wf() by {
                assert(full@[i] == session.visited@[n + i]);
            };
        }
        assert(full@ =~= old(session).pending().push(item));
        manager.insert_batch(full);
        assert(session.batch@ =~= session.visited@.skip(session.visited@.len() as int));
        assert(manager.index() == stored(Map::empty(), session.visited@.take(session.visited@.len() as int)));
        assert(session.tracks(manager));
        VisitOutcome::Committed(manager.progress(Some(shown)))
    } else {
        assert(session.tracks(manager));
        VisitOutcome::Buffered
    }
}

/// Ends the walk. Unless a stop was requested or a newer scan has begun, the
/// last batch is committed and the status becomes watching; otherwise the
/// batch is dropped and the status stays as it was. Returns whether the scan
/// ran to completion.
pub fn finish_scan(manager: &mut IndexManager, session: ScanSession) -> (done: bool)
    requires
        old(manager).wf(),
        session.is_current_in(old(manager)) ==> session.tracks(old(manager)),
    ensures
        final(manager).wf(),
        done == session.may_continue(old(manager)),
        final(manager).generation() == old(manager).generation(),
        final(manager).roots() == old(manager).roots(),
        final(manager).stop_requested() == old(manager).stop_requested(),
        final(manager).generation() == old(manager).generation(),
        done ==> final(manager).index() == stored(Map::empty(), session.visited()),
        done && (forall|i: int, j: int|
            0 <= i < j < session.visited().len() ==> session.visited()[i].0@
                != session.visited()[j].0@) ==> final(manager).index().len()
            == session.visited().len(),
        done ==> final(manager).status() == IndexStatus::Watching,
        !done ==> final(manager).index() == old(manager).index(),
        !done ==> final(manager).status() == old(manager).status(),
{
    if manager.should_stop() || session.generation != manager.get_generation() {
        return false;
    }
    let ghost visited = session.visited@;
    let ghost n = visited.len() - session.batch@.len();
    let rest = session.batch;
    proof {
        lemma_stored_concat(Map::empty(), visited.take(n), rest@);
        assert(visited.take(n) + rest@ =~= visited);
        assert forall|i: int| 0 <= i < rest@.len() implies (#[trigger] rest@[i]).1.wf() by {
            assert(rest@[i] == visited[n + i]);
        };
    }
    manager.insert_batch(rest);
    manager.set_status(IndexStatus::Watching);
    proof {
        if forall|i: int, j: int| 0 <= i < j < visited.len() ==> visited[i].0@ != visited[j].0@ {
            lemma_full_scan_count(visited);
        }
    }
    true
}

/// Storing two batches one after the other is storing their concatenation.
pub proof fn lemma_stored_concat(
    m: Map<Seq<char>, IndexEntry>,
    a: Seq<(String, IndexEntry)>,
    b: Seq<(String, IndexEntry)>,
)
    ensures
        stored(stored(m, a), b) == stored(m, a + b),
    decreases b.len(),
{
    if b.len() == 0 {
        assert(a + b =~= a);
    } else {
        lemma_stored_concat(m, a, b.drop_last());
        assert((a + b).drop_last() =~= a + b.drop_last());
    }
}

/// A scan that runs to completion over entries at distinct paths, however
/// many of them are files and how many directories, ends with exactly one
/// entry per visited path.
pub proof fn lemma_full_scan_count(visited: Seq<(String, IndexEntry)>)
    requires
        forall|i: int, j: int| 0 <= i < j < visited.len() ==> visited[i].0@ != visited[j].0@,
    ensures
        stored(Map::empty(), visited).len() == visited.len(),
{
    let empty = Map::<Seq<char>, IndexEntry>::empty();
    let paths = visited.map_values(|pair: (String, IndexEntry)| pair.0@);
    assert(paths.no_duplicates());
    paths.unique_seq_to_set();
    assert(paths_of(visited).difference(empty.dom()) =~= paths_of(visited));
    lemma_batch_count(empty, visited);
}

/// A session keeps tracking an index service that changed in neither its
/// entries nor its count of scans, such as one on which a stop was requested
/// or whose status was set.
pub proof fn lemma_tracks_kept(s: &ScanSession, m1: &IndexManager, m2: &IndexManager)
    requires
        s.tracks(m1),
        m2.wf(),
        m2.index() == m1.index(),
        m2.generation() == m1.generation(),
    ensures
        s.tracks(m2),
{
}

/// An index service that a session tracks is well formed.
pub proof fn lemma_tracks_running_wf(s: &ScanSession, m: &IndexManager)
    requires
        s.tracks(m),
    ensures
        m.wf(),
{
}

} // verus!
