use dirstamps::action::LogActionType;
use dirstamps::capture::{capture_at, save_dirs_props};
use dirstamps::error::EngineError;
use dirstamps::records::{DirectoryRecord, FileTimestampRecord};
use dirstamps::snapshot::{DirEntry, DirectorySnapshot, EntryKind};
use dirstamps::store::MetadataStore;
use dirstamps::timestamp::Timestamp;

fn cap_ts(secs: i64) -> Timestamp {
    Timestamp::new(secs, 0)
}

fn cap_file(name: &str, created: i64, modified: i64) -> DirEntry {
    DirEntry {
        name: Some(name.to_string()),
        path: Some(format!("/d/{}", name)),
        kind: EntryKind::RegularFile,
        created_at: cap_ts(created),
        modified_at: cap_ts(modified),
    }
}

fn cap_dir(path: &str, entries: Vec<DirEntry>) -> DirectorySnapshot {
    DirectorySnapshot { exists: true, path: Some(path.to_string()), entries }
}

fn cap_names(store: &MetadataStore) -> Vec<String> {
    store.files().iter().map(|row| row.name.clone()).collect()
}

#[test]
fn capture_writes_one_line_and_one_row_per_regular_file() {
    let mut store = MetadataStore::new();
    let mut entries = vec![cap_file("a", 1, 2), cap_file("b", 3, 4)];
    entries.push(DirEntry {
        name: Some("sub".to_string()),
        path: Some("/d/sub".to_string()),
        kind: EntryKind::Directory,
        created_at: cap_ts(5),
        modified_at: cap_ts(6),
    });
    entries.push(DirEntry {
        name: Some("link".to_string()),
        path: Some("/d/link".to_string()),
        kind: EntryKind::Other,
        created_at: cap_ts(7),
        modified_at: cap_ts(8),
    });
    let dir = cap_dir("/d", entries);
    assert_eq!(capture_at(&mut store, &dir, cap_ts(100)), Ok(()));
    assert_eq!(store.directories().len(), 1);
    assert_eq!(store.directories()[0].id, 1);
    assert_eq!(store.directories()[0].path, "/d");
    assert_eq!(store.log().len(), 1);
    assert_eq!(store.log()[0].directory_id, 1);
    assert_eq!(store.log()[0].action_kind, LogActionType::CacheDates);
    assert_eq!(store.log()[0].captured_at, cap_ts(100));
    assert_eq!(cap_names(&store), vec!["a".to_string(), "b".to_string()]);
    let a = &store.files()[0];
    assert_eq!((a.id, a.directory_id), (1, 1));
    assert_eq!(a.captured_at, cap_ts(100));
    assert_eq!(a.created_at, cap_ts(1));
    assert_eq!(a.modified_at, cap_ts(2));
    let b = &store.files()[1];
    assert_eq!((b.id, b.directory_id), (2, 1));
    assert_eq!(b.captured_at, cap_ts(100));
    assert_eq!(b.created_at, cap_ts(3));
    assert_eq!(b.modified_at, cap_ts(4));
}

#[test]
fn capture_of_empty_directory_writes_only_the_log_line() {
    let mut store = MetadataStore::new();
    assert_eq!(capture_at(&mut store, &cap_dir("/d", vec![]), cap_ts(100)), Ok(()));
    assert_eq!(store.log().len(), 1);
    assert!(store.files().is_empty());
}

#[test]
fn capture_fails_for_missing_directory() {
    let mut store = MetadataStore::new();
    let dir = DirectorySnapshot { exists: false, path: Some("/gone".to_string()), entries: vec![] };
    assert_eq!(capture_at(&mut store, &dir, cap_ts(100)), Err(EngineError::DirectoryNotFound));
    assert!(store.directories().is_empty());
    assert!(store.log().is_empty());
}

#[test]
fn capture_checks_existence_before_the_path() {
    let mut store = MetadataStore::new();
    let dir = DirectorySnapshot { exists: false, path: None, entries: vec![] };
    assert_eq!(capture_at(&mut store, &dir, cap_ts(100)), Err(EngineError::DirectoryNotFound));
}

#[test]
fn capture_fails_for_path_without_text() {
    let mut store = MetadataStore::new();
    let dir = DirectorySnapshot { exists: true, path: None, entries: vec![cap_file("a", 1, 2)] };
    assert_eq!(capture_at(&mut store, &dir, cap_ts(100)), Err(EngineError::PathEncoding));
    assert!(store.directories().is_empty());
    assert!(store.log().is_empty());
    assert!(store.files().is_empty());
}

#[test]
fn capture_is_idempotent_on_unchanged_directory() {
    let mut store = MetadataStore::new();
    let dir = cap_dir("/d", vec![cap_file("a", 1, 2), cap_file("b", 3, 4)]);
    assert_eq!(capture_at(&mut store, &dir, cap_ts(100)), Ok(()));
    let ids_before: Vec<i64> = store.files().iter().map(|row| row.id).collect();
    assert_eq!(capture_at(&mut store, &dir, cap_ts(200)), Ok(()));
    assert_eq!(store.directories().len(), 1);
    assert_eq!(store.log().len(), 2);
    assert_eq!(store.log()[1].captured_at, cap_ts(200));
    assert_eq!(cap_names(&store), vec!["a".to_string(), "b".to_string()]);
    let ids_after: Vec<i64> = store.files().iter().map(|row| row.id).collect();
    assert_eq!(ids_before, ids_after);
    for row in store.files().iter() {
        assert_eq!(row.captured_at, cap_ts(200));
    }
    assert_eq!(store.files()[0].modified_at, cap_ts(2));
    assert_eq!(store.files()[1].modified_at, cap_ts(4));
}

#[test]
fn capture_overwrites_timestamps_of_a_known_file() {
    let mut store = MetadataStore::new();
    capture_at(&mut store, &cap_dir("/d", vec![cap_file("a", 1, 2)]), cap_ts(100)).unwrap();
    capture_at(&mut store, &cap_dir("/d", vec![cap_file("a", 1, 9)]), cap_ts(200)).unwrap();
    assert_eq!(store.files().len(), 1);
    assert_eq!(store.files()[0].id, 1);
    assert_eq!(store.files()[0].captured_at, cap_ts(200));
    assert_eq!(store.files()[0].modified_at, cap_ts(9));
}

#[test]
fn capture_leaves_rows_of_vanished_files_stale() {
    let mut store = MetadataStore::new();
    capture_at(&mut store, &cap_dir("/d", vec![cap_file("f", 1, 2)]), cap_ts(100)).unwrap();
    capture_at(&mut store, &cap_dir("/d", vec![cap_file("g", 3, 4)]), cap_ts(200)).unwrap();
    assert_eq!(cap_names(&store), vec!["f".to_string(), "g".to_string()]);
    assert_eq!(store.files()[0].captured_at, cap_ts(100));
    assert_eq!(store.files()[1].captured_at, cap_ts(200));
}

#[test]
fn capture_fails_whole_pass_on_name_without_text() {
    let mut store = MetadataStore::new();
    capture_at(&mut store, &cap_dir("/d", vec![cap_file("a", 1, 2)]), cap_ts(100)).unwrap();
    let mut bad = cap_file("zzz", 5, 6);
    bad.name = None;
    let dir = cap_dir("/d", vec![cap_file("a", 1, 7), cap_file("b", 3, 4), bad]);
    assert_eq!(capture_at(&mut store, &dir, cap_ts(200)), Err(EngineError::NameEncoding));
    assert_eq!(store.log().len(), 1);
    assert_eq!(store.log()[0].captured_at, cap_ts(100));
    assert_eq!(store.files().len(), 1);
    assert_eq!(store.files()[0].captured_at, cap_ts(100));
    assert_eq!(store.files()[0].modified_at, cap_ts(2));
}

#[test]
fn failed_capture_of_new_directory_keeps_only_its_record() {
    let mut store = MetadataStore::new();
    let mut bad = cap_file("zzz", 5, 6);
    bad.name = None;
    let dir = cap_dir("/new", vec![cap_file("a", 1, 2), bad]);
    assert_eq!(capture_at(&mut store, &dir, cap_ts(200)), Err(EngineError::NameEncoding));
    assert_eq!(store.directories().len(), 1);
    assert_eq!(store.directories()[0].path, "/new");
    assert!(store.log().is_empty());
    assert!(store.files().is_empty());
}

#[test]
fn capture_skips_nameless_entries_that_are_no_regular_files() {
    let mut store = MetadataStore::new();
    let odd = DirEntry {
        name: None,
        path: None,
        kind: EntryKind::Directory,
        created_at: cap_ts(1),
        modified_at: cap_ts(2),
    };
    let other = DirEntry {
        name: None,
        path: None,
        kind: EntryKind::Other,
        created_at: cap_ts(1),
        modified_at: cap_ts(2),
    };
    let dir = cap_dir("/d", vec![odd, cap_file("a", 1, 2), other]);
    assert_eq!(capture_at(&mut store, &dir, cap_ts(100)), Ok(()));
    assert_eq!(cap_names(&store), vec!["a".to_string()]);
}

#[test]
fn capture_reports_when_no_file_identifier_is_left() {
    let rows = vec![FileTimestampRecord {
        id: i64::MAX - 1,
        directory_id: 1,
        name: "a".to_string(),
        captured_at: cap_ts(50),
        created_at: cap_ts(1),
        modified_at: cap_ts(2),
    }];
    let log = vec![dirstamps::records::CaptureLogEntry {
        directory_id: 1,
        action_kind: LogActionType::CacheDates,
        captured_at: cap_ts(50),
    }];
    let dirs = vec![DirectoryRecord { id: 1, path: "/d".to_string() }];
    let mut store = MetadataStore::from_rows(dirs, rows, log).ok().unwrap();
    let again = cap_dir("/d", vec![cap_file("a", 1, 8)]);
    assert_eq!(capture_at(&mut store, &again, cap_ts(100)), Ok(()));
    assert_eq!(store.files()[0].modified_at, cap_ts(8));
    let more = cap_dir("/d", vec![cap_file("a", 1, 9), cap_file("b", 1, 2)]);
    assert_eq!(capture_at(&mut store, &more, cap_ts(200)), Err(EngineError::Store));
    assert_eq!(store.log().len(), 2);
    assert_eq!(store.files().len(), 1);
    assert_eq!(store.files()[0].modified_at, cap_ts(8));
    assert_eq!(store.files()[0].captured_at, cap_ts(100));
}

#[test]
fn capture_keeps_directories_apart() {
    let mut store = MetadataStore::new();
    capture_at(&mut store, &cap_dir("/a", vec![cap_file("f", 1, 2)]), cap_ts(100)).unwrap();
    capture_at(&mut store, &cap_dir("/b", vec![cap_file("f", 3, 4)]), cap_ts(200)).unwrap();
    assert_eq!(store.directories().len(), 2);
    assert_eq!(store.files().len(), 2);
    assert_eq!(store.files()[0].directory_id, 1);
    assert_eq!(store.files()[0].captured_at, cap_ts(100));
    assert_eq!(store.files()[1].directory_id, 2);
    assert_eq!(store.files()[1].modified_at, cap_ts(4));
}

#[test]
fn capture_with_repeated_name_keeps_the_last_entry() {
    let mut store = MetadataStore::new();
    let dir = cap_dir("/d", vec![cap_file("a", 1, 2), cap_file("a", 3, 4)]);
    assert_eq!(capture_at(&mut store, &dir, cap_ts(100)), Ok(()));
    assert_eq!(store.files().len(), 1);
    assert_eq!(store.files()[0].created_at, cap_ts(3));
    assert_eq!(store.files()[0].modified_at, cap_ts(4));
}

#[test]
fn save_stamps_log_and_rows_with_one_clock_reading() {
    let mut store = MetadataStore::new();
    let dir = cap_dir("/d", vec![cap_file("a", 1, 2), cap_file("b", 3, 4)]);
    assert_eq!(save_dirs_props(&mut store, &dir), Ok(()));
    assert_eq!(store.log().len(), 1);
    let t = store.log()[0].captured_at;
    assert!(t.secs > 1_577_836_800);
    assert!(t.nanos < 2_000_000_000);
    assert_eq!(store.files().len(), 2);
    assert_eq!(store.files()[0].captured_at, t);
    assert_eq!(store.files()[1].captured_at, t);
}

#[test]
fn save_fails_like_capture_for_missing_directory() {
    let mut store = MetadataStore::new();
    let dir = DirectorySnapshot { exists: false, path: Some("/gone".to_string()), entries: vec![] };
    assert_eq!(save_dirs_props(&mut store, &dir), Err(EngineError::DirectoryNotFound));
    assert!(store.log().is_empty());
}
