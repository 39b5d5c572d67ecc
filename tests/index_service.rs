use file_indexer::entry::{file_extension, IndexEntry, IndexStatus};
use file_indexer::index::IndexManager;
use file_indexer::text::{chars_of, contains_chars, contains_separator};

fn file(name: &str) -> IndexEntry {
    IndexEntry::from_metadata(name.to_string(), true, false, Some(1_700_000_000), 42)
}

fn dir(name: &str) -> IndexEntry {
    IndexEntry::from_metadata(name.to_string(), false, true, None, 4096)
}

fn paths_of(hits: &[file_indexer::fs::FileEntry]) -> Vec<String> {
    let mut v: Vec<String> = hits.iter().map(|h| h.path.clone()).collect();
    v.sort();
    v
}

#[test]
fn entry_new_keeps_lowercase_name() {
    let e = IndexEntry::new("ReadMe.MD".to_string(), Some("MD".to_string()), false, Some(5), Some(10));
    assert_eq!(e.name, "ReadMe.MD");
    assert_eq!(e.name_lower, "readme.md");
    assert_eq!(e.extension.as_deref(), Some("MD"));
    assert_eq!(e.modified, Some(5));
    assert_eq!(e.size, Some(10));
    assert!(!e.is_dir);
}

#[test]
fn entry_from_metadata_keeps_extension_and_size_for_files_only() {
    let f = file("archive.tar.gz");
    assert_eq!(f.extension.as_deref(), Some("gz"));
    assert_eq!(f.size, Some(42));
    assert_eq!(f.modified, Some(1_700_000_000));
    let d = dir("photos.2020");
    assert_eq!(d.extension, None);
    assert_eq!(d.size, None);
    assert!(d.is_dir);
    assert_eq!(d.modified, None);
}

#[test]
fn extension_follows_last_dot() {
    assert_eq!(file_extension("a.txt").as_deref(), Some("txt"));
    assert_eq!(file_extension("a.b.c").as_deref(), Some("c"));
    assert_eq!(file_extension("Makefile"), None);
    assert_eq!(file_extension(".bashrc"), None);
    assert_eq!(file_extension(".config.toml").as_deref(), Some("toml"));
    assert_eq!(file_extension("trailing.").as_deref(), Some(""));
    assert_eq!(file_extension(".."), None);
    assert_eq!(file_extension(""), None);
    assert_eq!(file_extension("résumé.pdf").as_deref(), Some("pdf"));
}

#[test]
fn substring_helpers() {
    let s = chars_of("hello world");
    assert_eq!(s.len(), 11);
    assert!(contains_chars(&s, &chars_of("lo w")));
    assert!(contains_chars(&s, &chars_of("")));
    assert!(contains_chars(&s, &chars_of("hello world")));
    assert!(!contains_chars(&s, &chars_of("world!")));
    assert!(!contains_chars(&s, &chars_of("wrld")));
    assert!(contains_separator(&chars_of("a/b")));
    assert!(contains_separator(&chars_of("a\\b")));
    assert!(!contains_separator(&chars_of("ab")));
}

#[test]
fn new_manager_is_idle_and_empty() {
    let m = IndexManager::new();
    assert_eq!(m.get_status(), IndexStatus::Idle);
    assert_eq!(m.get_count(), 0);
    assert!(!m.should_stop());
    assert!(m.get_roots().is_empty());
}

#[test]
fn status_stop_flag_and_roots() {
    let mut m = IndexManager::new();
    m.set_status(IndexStatus::Scanning);
    assert_eq!(m.get_status(), IndexStatus::Scanning);
    m.request_stop();
    assert!(m.should_stop());
    m.reset_stop();
    assert!(!m.should_stop());
    m.set_roots(vec!["/a".to_string(), "/b".to_string()]);
    assert_eq!(m.get_roots(), vec!["/a".to_string(), "/b".to_string()]);
}

#[test]
fn insert_overwrites_and_remove_drops() {
    let mut m = IndexManager::new();
    m.insert("/r/a.txt".to_string(), file("a.txt"));
    m.insert("/r/b.txt".to_string(), file("b.txt"));
    assert_eq!(m.get_count(), 2);
    m.insert("/r/a.txt".to_string(), file("a.txt"));
    assert_eq!(m.get_count(), 2);
    m.remove("/r/a.txt");
    assert_eq!(m.get_count(), 1);
    m.remove("/r/missing");
    assert_eq!(m.get_count(), 1);
    assert!(m.search("a.txt", 10).is_empty());
    assert_eq!(m.search("b.txt", 10).len(), 1);
    m.clear();
    assert_eq!(m.get_count(), 0);
}

#[test]
fn remove_keeps_other_entries_searchable() {
    let mut m = IndexManager::new();
    for i in 0..10 {
        m.insert(format!("/r/f{}.log", i), file(&format!("f{}.log", i)));
    }
    m.remove("/r/f0.log");
    m.remove("/r/f5.log");
    let hits = m.search(".log", 100);
    assert_eq!(hits.len(), 8);
    let got = paths_of(&hits);
    assert!(!got.contains(&"/r/f0.log".to_string()));
    assert!(!got.contains(&"/r/f5.log".to_string()));
    assert!(got.contains(&"/r/f9.log".to_string()));
}

#[test]
fn insert_batch_counts_only_new_paths() {
    let mut m = IndexManager::new();
    m.insert("/r/a".to_string(), file("a"));
    m.insert("/r/b".to_string(), file("b"));
    let batch = vec![
        ("/r/b".to_string(), file("b")),
        ("/r/c".to_string(), file("c")),
        ("/r/d".to_string(), file("d")),
        ("/r/c".to_string(), dir("c")),
    ];
    m.insert_batch(batch);
    assert_eq!(m.get_count(), 4);
    let hits = m.search("c", 10);
    assert_eq!(hits.len(), 1);
    assert!(hits[0].is_dir);
}

#[test]
fn search_by_name_is_case_insensitive_substring() {
    let mut m = IndexManager::new();
    m.insert("/home/u/Documents/Report2024.PDF".to_string(), file("Report2024.PDF"));
    m.insert("/home/u/notes.txt".to_string(), file("notes.txt"));
    let hits = m.search("rePORT", 10);
    assert_eq!(hits.len(), 1);
    let h = &hits[0];
    assert_eq!(h.path, "/home/u/Documents/Report2024.PDF");
    assert_eq!(h.name, "Report2024.PDF");
    assert_eq!(h.extension.as_deref(), Some("PDF"));
    assert_eq!(h.size, Some(42));
    assert!(!h.is_dir);
    assert!(!h.is_hidden);
    assert!(!h.is_symlink);
    assert!(m.search("2024.p", 10).len() == 1);
    assert!(m.search("documents", 10).is_empty());
}

#[test]
fn search_with_separator_matches_full_path() {
    let mut m = IndexManager::new();
    m.insert("/home/u/Documents/a.txt".to_string(), file("a.txt"));
    m.insert("/home/u/Music/b.txt".to_string(), file("b.txt"));
    m.insert("/home/u/documents.txt".to_string(), file("documents.txt"));
    let hits = m.search("DOCUMENTS/", 10);
    assert_eq!(paths_of(&hits), vec!["/home/u/Documents/a.txt".to_string()]);
    let hits = m.search("u/", 10);
    assert_eq!(hits.len(), 3);
    let hits = m.search("music\\b", 10);
    assert!(hits.is_empty());
}

#[test]
fn empty_query_returns_nothing() {
    let mut m = IndexManager::new();
    m.insert("/a".to_string(), file("a"));
    assert!(m.search("", 100).is_empty());
}

#[test]
fn search_respects_limit() {
    let mut m = IndexManager::new();
    for i in 0..20 {
        m.insert(format!("/r/item{}", i), file(&format!("item{}", i)));
    }
    assert_eq!(m.search("item", 5).len(), 5);
    assert_eq!(m.search("item", 0).len(), 0);
    assert_eq!(m.search("item", 100).len(), 20);
    let hits = m.search("item", 7);
    let got = paths_of(&hits);
    let mut dedup = got.clone();
    dedup.dedup();
    assert_eq!(got.len(), dedup.len());
}

#[test]
fn hidden_names_are_marked() {
    let mut m = IndexManager::new();
    m.insert("/h/.bashrc".to_string(), file(".bashrc"));
    let hits = m.search("bash", 10);
    assert_eq!(hits.len(), 1);
    assert!(hits[0].is_hidden);
    assert_eq!(hits[0].extension, None);
}

#[test]
fn index_clone_and_load_from_cache() {
    let mut m = IndexManager::new();
    m.insert("/x/one".to_string(), file("one"));
    m.insert("/x/two".to_string(), dir("two"));
    let copy = m.get_index_clone();
    assert_eq!(copy.len(), 2);
    let mut other = IndexManager::new();
    other.insert("/y/old".to_string(), file("old"));
    other.load_from_cache(copy);
    assert_eq!(other.get_count(), 2);
    assert!(other.search("old", 10).is_empty());
    assert_eq!(other.search("two", 10).len(), 1);
}

#[test]
fn progress_reports_status_and_count() {
    let mut m = IndexManager::new();
    m.insert("/a".to_string(), file("a"));
    m.set_status(IndexStatus::Watching);
    let p = m.progress(Some("/a".to_string()));
    assert_eq!(p.status, IndexStatus::Watching);
    assert_eq!(p.indexed_count, 1);
    assert_eq!(p.current_path.as_deref(), Some("/a"));
}
