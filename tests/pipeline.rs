use file_indexer::cache::{apply_cache, is_fresh, load_cache, save_cache, snapshot_at, CacheData};
use file_indexer::commands::{
    get_index_status, search_index, start_indexing, start_indexing_at, stop_indexing, StartPlan,
};
use file_indexer::entry::{IndexEntry, IndexStatus};
use file_indexer::fs::Config;
use file_indexer::index::IndexManager;
use file_indexer::scanner::{begin_scan, finish_scan, visit, VisitOutcome, PROGRESS_BATCH_SIZE};
use file_indexer::watcher::{handle_fs_event, ChangeKind};

fn file(name: &str) -> IndexEntry {
    IndexEntry::from_metadata(name.to_string(), true, false, Some(100), 7)
}

fn dir(name: &str) -> IndexEntry {
    IndexEntry::from_metadata(name.to_string(), false, true, Some(100), 0)
}

fn now() -> u64 {
    std::time::SystemTime::now()
        .duration_since(std::time::UNIX_EPOCH)
        .unwrap()
        .as_secs()
}

#[test]
fn full_scan_counts_files_and_directories() {
    let mut m = IndexManager::new();
    m.insert("/stale".to_string(), file("stale"));
    let mut s = begin_scan(&mut m, vec!["/root".to_string()]);
    assert_eq!(m.get_status(), IndexStatus::Scanning);
    assert_eq!(m.get_count(), 0);
    assert_eq!(m.get_roots(), vec!["/root".to_string()]);
    let dirs = ["/root", "/root/a", "/root/b"];
    let files = ["/root/a/1.txt", "/root/a/2.txt", "/root/b/3.rs", "/root/4.md"];
    for d in dirs {
        let name = d.rsplit('/').next().unwrap();
        assert!(matches!(visit(&mut m, &mut s, d.to_string(), dir(name)), VisitOutcome::Buffered));
    }
    for f in files {
        let name = f.rsplit('/').next().unwrap();
        assert!(matches!(visit(&mut m, &mut s, f.to_string(), file(name)), VisitOutcome::Buffered));
    }
    assert_eq!(m.get_count(), 0);
    assert!(finish_scan(&mut m, s));
    assert_eq!(m.get_count(), dirs.len() + files.len());
    assert_eq!(m.get_status(), IndexStatus::Watching);
    assert_eq!(m.search("3.rs", 10).len(), 1);
}

#[test]
fn full_batches_are_committed_with_progress() {
    let mut m = IndexManager::new();
    let mut s = begin_scan(&mut m, vec!["/big".to_string()]);
    let mut commits = 0;
    for i in 0..(PROGRESS_BATCH_SIZE * 2 + 3) {
        let path = format!("/big/f{}", i);
        match visit(&mut m, &mut s, path.clone(), file(&format!("f{}", i))) {
            VisitOutcome::Committed(p) => {
                commits += 1;
                assert_eq!(p.indexed_count, PROGRESS_BATCH_SIZE * commits);
                assert_eq!(p.status, IndexStatus::Scanning);
                assert_eq!(p.current_path.as_deref(), Some(path.as_str()));
            }
            VisitOutcome::Buffered => {}
            VisitOutcome::Stopped => panic!("no stop was requested"),
        }
    }
    assert_eq!(commits, 2);
    assert_eq!(m.get_count(), PROGRESS_BATCH_SIZE * 2);
    assert!(finish_scan(&mut m, s));
    assert_eq!(m.get_count(), PROGRESS_BATCH_SIZE * 2 + 3);
}

#[test]
fn stop_mid_scan_drops_batch_and_settles_idle() {
    let mut m = IndexManager::new();
    let mut s = begin_scan(&mut m, vec!["/r".to_string()]);
    for i in 0..(PROGRESS_BATCH_SIZE + 10) {
        visit(&mut m, &mut s, format!("/r/f{}", i), file("f"));
    }
    assert_eq!(m.get_count(), PROGRESS_BATCH_SIZE);
    stop_indexing(&mut m);
    assert!(m.should_stop());
    assert!(matches!(visit(&mut m, &mut s, "/r/late".to_string(), file("late")), VisitOutcome::Stopped));
    assert!(!finish_scan(&mut m, s));
    assert_eq!(m.get_count(), PROGRESS_BATCH_SIZE);
    assert_eq!(m.get_status(), IndexStatus::Idle);
    assert!(m.search("late", 10).is_empty());
}

#[test]
fn new_scan_resets_stop_flag() {
    let mut m = IndexManager::new();
    m.request_stop();
    let s = begin_scan(&mut m, vec![]);
    assert!(!m.should_stop());
    assert!(finish_scan(&mut m, s));
    assert_eq!(m.get_status(), IndexStatus::Watching);
}

#[test]
fn cache_age_limit() {
    let t = 1_000_000;
    assert!(is_fresh(t, t + 3600));
    assert!(is_fresh(t, t + 24 * 3600));
    assert!(!is_fresh(t, t + 24 * 3600 + 1));
    assert!(!is_fresh(t, t + 25 * 3600));
    assert!(is_fresh(t, t - 10));
}

#[test]
fn stale_cache_is_rejected_and_fresh_one_replaces() {
    let mut source = IndexManager::new();
    source.insert("/c/a".to_string(), file("a"));
    source.insert("/c/b".to_string(), dir("b"));
    let t = 5_000_000;
    let mut target = IndexManager::new();
    target.insert("/keep".to_string(), file("keep"));
    assert!(!apply_cache(&mut target, snapshot_at(&source, t), t + 25 * 3600));
    assert_eq!(target.get_count(), 1);
    assert_eq!(target.search("keep", 10).len(), 1);
    assert!(apply_cache(&mut target, snapshot_at(&source, t), t + 3600));
    assert_eq!(target.get_count(), 2);
    assert!(target.search("keep", 10).is_empty());
}

#[test]
fn inconsistent_cache_is_rejected() {
    let mut bad = IndexEntry::new("Name".to_string(), None, false, None, None);
    bad.name_lower = "other".to_string();
    let data = CacheData { timestamp: 10, entries: vec![("/p".to_string(), bad)] };
    let mut m = IndexManager::new();
    assert!(!apply_cache(&mut m, data, 20));
    assert_eq!(m.get_count(), 0);
}

#[test]
fn save_then_load_round_trip() {
    let mut source = IndexManager::new();
    source.insert("/r/Alpha.txt".to_string(), file("Alpha.txt"));
    source.insert("/r/sub".to_string(), dir("sub"));
    source.insert("/r/sub/.hidden".to_string(), file(".hidden"));
    let data = save_cache(&source);
    assert!(data.timestamp + 5 >= now());
    let mut fresh = IndexManager::new();
    assert!(load_cache(&mut fresh, Some(data)));
    assert_eq!(fresh.get_count(), 3);
    let mut before = source.get_index_clone();
    let mut after = fresh.get_index_clone();
    before.sort_by(|a, b| a.0.cmp(&b.0));
    after.sort_by(|a, b| a.0.cmp(&b.0));
    for (x, y) in before.iter().zip(after.iter()) {
        assert_eq!(x.0, y.0);
        assert_eq!(x.1.name, y.1.name);
        assert_eq!(x.1.name_lower, y.1.name_lower);
        assert_eq!(x.1.extension, y.1.extension);
        assert_eq!(x.1.is_dir, y.1.is_dir);
        assert_eq!(x.1.modified, y.1.modified);
        assert_eq!(x.1.size, y.1.size);
    }
}

#[test]
fn load_without_snapshot_or_when_stale() {
    let mut m = IndexManager::new();
    assert!(!load_cache(&mut m, None));
    let data = CacheData { timestamp: 0, entries: vec![("/a".to_string(), file("a"))] };
    assert!(!load_cache(&mut m, Some(data)));
    assert_eq!(m.get_count(), 0);
}

#[test]
fn watcher_create_then_remove() {
    let mut m = IndexManager::new();
    m.set_status(IndexStatus::Watching);
    let p = handle_fs_event(
        &mut m,
        ChangeKind::Create,
        vec![("/w/NewFile.txt".to_string(), Some(file("NewFile.txt")))],
    );
    assert_eq!(p.indexed_count, 1);
    assert_eq!(p.status, IndexStatus::Watching);
    assert!(p.current_path.is_none());
    let hits = m.search("NewFile.txt", 10);
    assert_eq!(hits.len(), 1);
    assert_eq!(hits[0].path, "/w/NewFile.txt");
    handle_fs_event(&mut m, ChangeKind::Remove, vec![("/w/NewFile.txt".to_string(), None)]);
    assert!(m.search("newfile", 10).is_empty());
    assert_eq!(m.get_count(), 0);
}

#[test]
fn watcher_modify_unreadable_and_other_events() {
    let mut m = IndexManager::new();
    handle_fs_event(&mut m, ChangeKind::Modify, vec![("/w/a".to_string(), Some(file("a")))]);
    handle_fs_event(&mut m, ChangeKind::Modify, vec![("/w/a".to_string(), Some(dir("a")))]);
    assert_eq!(m.get_count(), 1);
    assert!(m.search("a", 10)[0].is_dir);
    handle_fs_event(&mut m, ChangeKind::Create, vec![("/w/gone".to_string(), None)]);
    assert_eq!(m.get_count(), 1);
    handle_fs_event(&mut m, ChangeKind::Other, vec![("/w/a".to_string(), None)]);
    assert_eq!(m.get_count(), 1);
    let p = handle_fs_event(
        &mut m,
        ChangeKind::Create,
        vec![("/w/b".to_string(), Some(file("b"))), ("/w/c".to_string(), Some(file("c")))],
    );
    assert_eq!(p.indexed_count, 3);
}

#[test]
fn start_indexing_without_cache_asks_for_scan() {
    let mut m = IndexManager::new();
    assert_eq!(start_indexing(&mut m, None), StartPlan::Scan);
    assert_eq!(m.get_status(), IndexStatus::Idle);
}

#[test]
fn start_indexing_with_fresh_cache_watches() {
    let mut source = IndexManager::new();
    source.insert("/r/a".to_string(), file("a"));
    let data = save_cache(&source);
    let mut m = IndexManager::new();
    assert_eq!(start_indexing(&mut m, Some(data)), StartPlan::Watch);
    assert_eq!(m.get_status(), IndexStatus::Watching);
    assert_eq!(m.get_count(), 1);
    let empty = save_cache(&IndexManager::new());
    let mut m2 = IndexManager::new();
    assert_eq!(start_indexing(&mut m2, Some(empty)), StartPlan::Scan);
}

#[test]
fn status_and_default_search_limit() {
    let mut m = IndexManager::new();
    for i in 0..1100 {
        m.insert(format!("/r/x{}", i), file("x"));
    }
    assert_eq!(search_index(&m, "X", None).len(), 1000);
    assert_eq!(search_index(&m, "x", Some(3)).len(), 3);
    assert!(search_index(&m, "", Some(3)).is_empty());
    let st = get_index_status(&m);
    assert_eq!(st.indexed_count, 1100);
    assert_eq!(st.status, IndexStatus::Idle);
    assert!(st.current_path.is_none());
}

#[test]
fn config_defaults_for_home() {
    let c = Config::with_home("/home/me".to_string());
    assert_eq!(c.bookmarks.len(), 1);
    assert_eq!(c.bookmarks[0].name, "Home");
    assert_eq!(c.bookmarks[0].path, "/home/me");
    assert_eq!(c.bookmarks[0].shortcut, Some(1));
    assert_eq!(c.left_pane.path, "/home/me");
    assert_eq!(c.right_pane.sort_column, "name");
    assert!(c.left_pane.sort_ascending);
    assert_eq!(c.window.width, 1200);
    assert_eq!(c.window.height, 800);
    assert_eq!(c.window.x, None);
    assert!(!c.window.maximized);
    assert!(!c.show_hidden);
    assert!(c.recent_paths.is_empty());
    let d = Config::default();
    assert_eq!(d.bookmarks[0].path, d.left_pane.path);
    assert!(!d.left_pane.path.is_empty());
}

#[test]
fn newer_scan_supersedes_older_one() {
    let mut m = IndexManager::new();
    let mut old_scan = begin_scan(&mut m, vec!["/one".to_string()]);
    assert!(matches!(visit(&mut m, &mut old_scan, "/one/a".to_string(), file("a")), VisitOutcome::Buffered));
    let mut new_scan = begin_scan(&mut m, vec!["/two".to_string()]);
    assert!(matches!(visit(&mut m, &mut old_scan, "/one/b".to_string(), file("b")), VisitOutcome::Stopped));
    assert!(!finish_scan(&mut m, old_scan));
    assert_eq!(m.get_status(), IndexStatus::Scanning);
    assert!(matches!(visit(&mut m, &mut new_scan, "/two/c".to_string(), file("c")), VisitOutcome::Buffered));
    assert!(finish_scan(&mut m, new_scan));
    assert_eq!(m.get_count(), 1);
    assert_eq!(m.search("c", 10).len(), 1);
    assert!(m.search("a", 10).is_empty());
    assert_eq!(m.get_roots(), vec!["/two".to_string()]);
}

#[test]
fn start_indexing_at_uses_only_fresh_consistent_nonempty_snapshots() {
    let mut source = IndexManager::new();
    source.insert("/r/a".to_string(), file("a"));
    source.insert("/r/b".to_string(), dir("b"));
    let t = 2_000_000;

    let mut m = IndexManager::new();
    m.insert("/keep".to_string(), file("keep"));
    assert_eq!(start_indexing_at(&mut m, Some(snapshot_at(&source, t)), t + 25 * 3600), StartPlan::Scan);
    assert_eq!(m.get_status(), IndexStatus::Idle);
    assert_eq!(m.get_count(), 1);

    assert_eq!(start_indexing_at(&mut m, Some(snapshot_at(&source, t)), t + 3600), StartPlan::Watch);
    assert_eq!(m.get_status(), IndexStatus::Watching);
    assert_eq!(m.get_count(), 2);
    assert!(m.search("keep", 10).is_empty());

    let mut e = IndexManager::new();
    assert_eq!(start_indexing_at(&mut e, Some(snapshot_at(&IndexManager::new(), t)), t), StartPlan::Scan);
    assert_eq!(e.get_status(), IndexStatus::Idle);
    assert_eq!(start_indexing_at(&mut e, None, t), StartPlan::Scan);

    let mut bad = IndexEntry::new("X".to_string(), None, false, None, None);
    bad.name_lower = "y".to_string();
    let data = CacheData { timestamp: t, entries: vec![("/x".to_string(), bad)] };
    assert_eq!(start_indexing_at(&mut e, Some(data), t), StartPlan::Scan);
    assert_eq!(e.get_count(), 0);
}

#[test]
fn snapshot_at_end_of_clock_range_is_always_used() {
    let mut source = IndexManager::new();
    source.insert("/r/a".to_string(), file("a"));
    let mut m = IndexManager::new();
    assert_eq!(start_indexing(&mut m, Some(snapshot_at(&source, u64::MAX))), StartPlan::Watch);
    let mut m2 = IndexManager::new();
    assert!(load_cache(&mut m2, Some(snapshot_at(&source, u64::MAX - 10))));
    assert_eq!(m2.get_count(), 1);
}
