//! How a filesystem change patches the index. The caller subscribes to the
//! notifications, reads the metadata of each changed path, and hands the
//! result over here.
use vstd::prelude::*;
use crate::entry::{IndexEntry, IndexProgress};
use crate::index::{describes, is_search_result, lemma_name_query_finds, IndexManager};
use crate::text::{has_separator, lower_of, occurs_in};
use crate::fs::FileEntry;

verus! {

/// Capacity of the queue between the notification source and the consumer.
pub const EVENT_QUEUE_CAPACITY: usize = 1000;

/// Interval, in milliseconds, at which the notification source polls.
pub const DEBOUNCE_MS: u64 = 300;

/// The kind of a filesystem change.
#[derive(Clone, Copy, Debug, PartialEq, Eq, Structural)]
pub enum ChangeKind {
    Create,
    Modify,
    Remove,
    Other,
}

/// The index after one changed path is handled. `entry` is the record built
/// from the path's metadata, absent when it could not be read.
pub open spec fn changed(
    m: Map<Seq<char>, IndexEntry>,
    kind: ChangeKind,
    path: Seq<char>,
    entry: Option<IndexEntry>,
) -> Map<Seq<char>, IndexEntry> {
    match kind {
        ChangeKind::Create | ChangeKind::Modify => match entry {
            Some(e) => m.insert(path, e),
            None => m,
        },
        ChangeKind::Remove => m.remove(path),
        ChangeKind::Other => m,
    }
}

/// The index after every path of one event is handled in order.
pub open spec fn changed_all(
    m: Map<Seq<char>, IndexEntry>,
    kind: ChangeKind,
    paths: Seq<(String, Option<IndexEntry>)>,
) -> Map<Seq<char>, IndexEntry>
    decreases paths.len(),
{
    if paths.len() == 0 {
        m
    } else {
        changed(changed_all(m, kind, paths.drop_last()), kind, paths.last().0@, paths.last().1)
    }
}

/// The records handed over with an event are well formed.
pub open spec fn changes_wf(paths: Seq<(String, Option<IndexEntry>)>) -> bool {
    forall|i: int|
        0 <= i < paths.len() ==> match (#[trigger] paths[i]).1 {
            Some(e) => e.wf(),
            None => true,
        }
}

/// Handles one filesystem event: a created or modified path whose metadata
/// was read is stored anew, a removed path is dropped, anything else is
/// ignored. Returns the progress to report afterwards.
pub fn handle_fs_event(
    manager: &mut IndexManager,
    kind: ChangeKind,
    paths: Vec<(String, Option<IndexEntry>)>,
) -> (r: IndexProgress)
    requires
        old(manager).wf(),
        changes_wf(paths@),
    ensures
        final(manager).wf(),
        final(manager).index() == changed_all(old(manager).index(), kind, paths@),
        final(manager).status() == old(manager).status(),
        final(manager).roots() == old(manager).roots(),
        final(manager).stop_requested() == old(manager).stop_requested(),
        final(manager).generation() == old(manager).generation(),
        r.status == final(manager).status(),
        r.indexed_count == final(manager).index().len(),
        r.current_path is None,
{
    let ghost all = paths@;
    for change in it: paths
        invariant
            manager.wf(),
            all == it.seq(),
            changes_wf(all),
            manager.index() == changed_all(old(manager).index(), kind, all.take(it.index() as int)),
            manager.status() == old(manager).status(),
            manager.roots() == old(manager).roots(),
            manager.stop_requested() == old(manager).stop_requested(),
            manager.generation() == old(manager).generation(),
    {
        let ghost i = it.index() as int;
        proof {
            assert(all.take(i + 1).drop_last() =~= all.take(i));
            assert(changes_wf(all) ==> match all[i].1 { Some(e) => e.wf(), None => true });
        }
        let (path, entry) = change;
        match kind {
            ChangeKind::Create | ChangeKind::Modify => {
                if let Some(e) = entry {
                    manager.insert(path, e);
                }
            },
            ChangeKind::Remove => {
                manager.remove(path.as_str());
            },
            ChangeKind::Other => {},
        }
    }
    proof {
        assert(all.take(all.len() as int) =~= all);
    }
    manager.progress(None)
}

/// After an event that creates or modifies paths, a path whose last
/// mention in the event came with a record holds that record.
pub proof fn lemma_event_stores(
    m: Map<Seq<char>, IndexEntry>,
    kind: ChangeKind,
    paths: Seq<(String, Option<IndexEntry>)>,
    k: int,
    e: IndexEntry,
)
    requires
        kind == ChangeKind::Create || kind == ChangeKind::Modify,
        0 <= k < paths.len(),
        paths[k].1 == Some(e),
        forall|j: int| k < j < paths.len() ==> paths[j].0@ != paths[k].0@,
    ensures
        changed_all(m, kind, paths).contains_key(paths[k].0@),
        changed_all(m, kind, paths)[paths[k].0@] == e,
    decreases paths.len(),
{
    let n = paths.len() - 1;
    if k < n {
        let front = paths.drop_last();
        assert(front[k] == paths[k]);
        assert forall|j: int| k < j < front.len() implies front[j].0@ != front[k].0@ by {
            assert(front[j] == paths[j]);
        };
        lemma_event_stores(m, kind, front, k, e);
        assert(paths[n].0@ != paths[k].0@);
    }
}

/// A file created under a watched root is found afterwards by a search for
/// its name, when the limit exceeds the number of entries. The event may
/// name other paths too; the file's last mention in it carries its record.
pub proof fn lemma_created_is_found(
    m: Map<Seq<char>, IndexEntry>,
    paths: Seq<(String, Option<IndexEntry>)>,
    k: int,
    e: IndexEntry,
    limit: usize,
    r: Seq<FileEntry>,
)
    requires
        0 <= k < paths.len(),
        paths[k].1 == Some(e),
        forall|j: int| k < j < paths.len() ==> paths[j].0@ != paths[k].0@,
        changed_all(m, ChangeKind::Create, paths).dom().finite(),
        changed_all(m, ChangeKind::Create, paths).len() < limit,
        e.wf(),
        lower_of(e.name@).len() > 0,
        !has_separator(lower_of(e.name@)),
        is_search_result(changed_all(m, ChangeKind::Create, paths), lower_of(e.name@), limit, r),
    ensures
        exists|i: int| 0 <= i < r.len() && r[i].path@ == paths[k].0@ && describes(r[i], paths[k].0@, e),
{
    let after = changed_all(m, ChangeKind::Create, paths);
    let q = lower_of(e.name@);
    let zero: int = 0;
    assert(q.subrange(zero, zero + q.len()) =~= q);
    assert(occurs_in(q, q));
    lemma_event_stores(m, ChangeKind::Create, paths, k, e);
    lemma_name_query_finds(after, e.name@, limit, r, paths[k].0@);
}

/// After a removal event, no path that it names is held.
pub proof fn lemma_event_removes(
    m: Map<Seq<char>, IndexEntry>,
    paths: Seq<(String, Option<IndexEntry>)>,
    k: int,
)
    requires
        0 <= k < paths.len(),
    ensures
        !changed_all(m, ChangeKind::Remove, paths).contains_key(paths[k].0@),
    decreases paths.len(),
{
    let n = paths.len() - 1;
    if k < n && paths[n].0@ != paths[k].0@ {
        let front = paths.drop_last();
        assert(front[k] == paths[k]);
        lemma_event_removes(m, front, k);
    }
}

/// A removed file is not found by any search afterwards. The event may name
/// other paths too.
pub proof fn lemma_removed_is_gone(
    m: Map<Seq<char>, IndexEntry>,
    paths: Seq<(String, Option<IndexEntry>)>,
    k: int,
    q: Seq<char>,
    limit: usize,
    r: Seq<FileEntry>,
)
    requires
        0 <= k < paths.len(),
        is_search_result(changed_all(m, ChangeKind::Remove, paths), q, limit, r),
    ensures
        forall|i: int| 0 <= i < r.len() ==> r[i].path@ != paths[k].0@,
{
    let after = changed_all(m, ChangeKind::Remove, paths);
    lemma_event_removes(m, paths, k);
    if q.len() > 0 {
        assert forall|i: int| 0 <= i < r.len() implies r[i].path@ != paths[k].0@ by {
            assert(after.contains_key(r[i].path@));
        };
    }
}

} // verus!
