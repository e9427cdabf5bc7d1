use dirstamps::action::LogActionType;
use dirstamps::error::EngineError;
use dirstamps::records::{CaptureLogEntry, DirectoryRecord, FileTimestampRecord};
use dirstamps::resolver::get_dir_prop_row_id;
use dirstamps::store::MetadataStore;
use dirstamps::timestamp::Timestamp;

fn store_ts(secs: i64) -> Timestamp {
    Timestamp::new(secs, 0)
}

fn store_dir(id: i64, path: &str) -> DirectoryRecord {
    DirectoryRecord { id, path: path.to_string() }
}

fn store_file(id: i64, dir: i64, name: &str, captured: i64) -> FileTimestampRecord {
    FileTimestampRecord {
        id,
        directory_id: dir,
        name: name.to_string(),
        captured_at: store_ts(captured),
        created_at: store_ts(1),
        modified_at: store_ts(2),
    }
}

fn store_line(dir: i64, captured: i64) -> CaptureLogEntry {
    CaptureLogEntry {
        directory_id: dir,
        action_kind: LogActionType::CacheDates,
        captured_at: store_ts(captured),
    }
}

#[test]
fn new_store_is_empty() {
    let store = MetadataStore::new();
    assert!(store.directories().is_empty());
    assert!(store.files().is_empty());
    assert!(store.log().is_empty());
}

#[test]
fn insert_directory_gives_ids_in_order() {
    let mut store = MetadataStore::new();
    assert_eq!(store.insert_directory(&"/a".to_string()), Ok(1));
    assert_eq!(store.insert_directory(&"/b".to_string()), Ok(2));
    assert_eq!(store.directories().len(), 2);
    assert_eq!(store.directories()[0].id, 1);
    assert_eq!(store.directories()[0].path, "/a");
    assert_eq!(store.directories()[1].id, 2);
    assert_eq!(store.directories()[1].path, "/b");
}

#[test]
fn insert_directory_refuses_known_path() {
    let mut store = MetadataStore::new();
    assert_eq!(store.insert_directory(&"/a".to_string()), Ok(1));
    assert_eq!(store.insert_directory(&"/a".to_string()), Err(EngineError::Store));
    assert_eq!(store.directories().len(), 1);
}

#[test]
fn find_directory_matches_exact_text() {
    let mut store = MetadataStore::new();
    store.insert_directory(&"/a".to_string()).unwrap();
    store.insert_directory(&"/a/".to_string()).unwrap();
    assert_eq!(store.find_directory(&"/a".to_string()), Some(1));
    assert_eq!(store.find_directory(&"/a/".to_string()), Some(2));
    assert_eq!(store.find_directory(&"/A".to_string()), None);
    assert!(store.has_directory_id(1));
    assert!(store.has_directory_id(2));
    assert!(!store.has_directory_id(3));
}

#[test]
fn append_capture_needs_known_directory() {
    let mut store = MetadataStore::new();
    assert_eq!(store.append_capture(1, store_ts(10)), Err(EngineError::Store));
    assert!(store.log().is_empty());
    store.insert_directory(&"/a".to_string()).unwrap();
    assert_eq!(store.append_capture(1, store_ts(10)), Ok(()));
    assert_eq!(store.log().len(), 1);
    assert_eq!(store.log()[0], store_line(1, 10));
    assert!(store.has_capture_at(1, store_ts(10)));
    assert!(!store.has_capture_at(1, store_ts(11)));
    assert!(!store.has_capture_at(2, store_ts(10)));
}

#[test]
fn upsert_file_inserts_then_updates_in_place() {
    let mut store = MetadataStore::new();
    store.insert_directory(&"/a".to_string()).unwrap();
    store.append_capture(1, store_ts(10)).unwrap();
    store.append_capture(1, store_ts(20)).unwrap();
    let name = "f".to_string();
    assert_eq!(store.upsert_file(1, &name, store_ts(10), store_ts(3), store_ts(4)), Ok(()));
    assert_eq!(store.upsert_file(1, &"g".to_string(), store_ts(10), store_ts(5), store_ts(6)), Ok(()));
    assert_eq!(store.files().len(), 2);
    assert_eq!(store.find_file(1, &name), Some(0));
    assert_eq!(store.upsert_file(1, &name, store_ts(20), store_ts(7), store_ts(8)), Ok(()));
    assert_eq!(store.files().len(), 2);
    let row = &store.files()[0];
    assert_eq!(row.id, 1);
    assert_eq!(row.directory_id, 1);
    assert_eq!(row.name, "f");
    assert_eq!(row.captured_at, store_ts(20));
    assert_eq!(row.created_at, store_ts(7));
    assert_eq!(row.modified_at, store_ts(8));
    let other = &store.files()[1];
    assert_eq!(other.id, 2);
    assert_eq!(other.captured_at, store_ts(10));
    assert_eq!(other.modified_at, store_ts(6));
}

#[test]
fn same_name_in_two_directories_gets_two_rows() {
    let mut store = MetadataStore::new();
    store.insert_directory(&"/a".to_string()).unwrap();
    store.insert_directory(&"/b".to_string()).unwrap();
    store.append_capture(1, store_ts(10)).unwrap();
    store.append_capture(2, store_ts(10)).unwrap();
    let name = "f".to_string();
    store.upsert_file(1, &name, store_ts(10), store_ts(3), store_ts(4)).unwrap();
    store.upsert_file(2, &name, store_ts(10), store_ts(3), store_ts(4)).unwrap();
    assert_eq!(store.files().len(), 2);
    assert_eq!(store.find_file(1, &name), Some(0));
    assert_eq!(store.find_file(2, &name), Some(1));
    assert_eq!(store.find_file(3, &name), None);
}

#[test]
fn latest_capture_is_the_greatest_time() {
    let mut store = MetadataStore::new();
    store.insert_directory(&"/a".to_string()).unwrap();
    store.insert_directory(&"/b".to_string()).unwrap();
    assert_eq!(store.latest_capture(1), None);
    store.append_capture(1, store_ts(30)).unwrap();
    store.append_capture(1, store_ts(50)).unwrap();
    store.append_capture(2, store_ts(90)).unwrap();
    store.append_capture(1, store_ts(40)).unwrap();
    store.append_capture(1, store_ts(50)).unwrap();
    assert_eq!(store.latest_capture(1), Some(store_ts(50)));
    assert_eq!(store.latest_capture(2), Some(store_ts(90)));
    assert_eq!(store.latest_capture(3), None);
}

#[test]
fn latest_capture_compares_nanoseconds() {
    let mut store = MetadataStore::new();
    store.insert_directory(&"/a".to_string()).unwrap();
    store.append_capture(1, Timestamp::new(5, 10)).unwrap();
    store.append_capture(1, Timestamp::new(5, 11)).unwrap();
    store.append_capture(1, Timestamp::new(5, 9)).unwrap();
    assert_eq!(store.latest_capture(1), Some(Timestamp::new(5, 11)));
}

#[test]
fn files_captured_at_selects_by_directory_and_time() {
    let mut store = MetadataStore::new();
    store.insert_directory(&"/a".to_string()).unwrap();
    store.insert_directory(&"/b".to_string()).unwrap();
    store.append_capture(1, store_ts(10)).unwrap();
    store.append_capture(1, store_ts(20)).unwrap();
    store.append_capture(2, store_ts(20)).unwrap();
    store.upsert_file(1, &"old".to_string(), store_ts(10), store_ts(1), store_ts(2)).unwrap();
    store.upsert_file(1, &"x".to_string(), store_ts(20), store_ts(1), store_ts(3)).unwrap();
    store.upsert_file(2, &"y".to_string(), store_ts(20), store_ts(1), store_ts(4)).unwrap();
    store.upsert_file(1, &"z".to_string(), store_ts(20), store_ts(1), store_ts(5)).unwrap();
    let rows = store.files_captured_at(1, store_ts(20));
    assert_eq!(rows.len(), 2);
    assert_eq!(rows[0].name, "x");
    assert_eq!(rows[0].modified_at, store_ts(3));
    assert_eq!(rows[0].id, 2);
    assert_eq!(rows[1].name, "z");
    assert_eq!(rows[1].modified_at, store_ts(5));
    assert!(store.files_captured_at(1, store_ts(30)).is_empty());
    assert_eq!(store.files_captured_at(2, store_ts(20)).len(), 1);
}

#[test]
fn working_copy_has_the_same_content_and_is_separate() {
    let mut store = MetadataStore::new();
    store.insert_directory(&"/a".to_string()).unwrap();
    store.append_capture(1, store_ts(10)).unwrap();
    store.upsert_file(1, &"f".to_string(), store_ts(10), store_ts(1), store_ts(2)).unwrap();
    let mut copy = store.working_copy();
    assert_eq!(copy.directories().len(), 1);
    assert_eq!(copy.directories()[0].path, "/a");
    assert_eq!(copy.files().len(), 1);
    assert_eq!(copy.files()[0].name, "f");
    assert_eq!(copy.log().len(), 1);
    copy.insert_directory(&"/b".to_string()).unwrap();
    assert_eq!(copy.directories().len(), 2);
    assert_eq!(store.directories().len(), 1);
    assert_eq!(store.insert_directory(&"/c".to_string()), Ok(2));
}

#[test]
fn from_rows_accepts_valid_tables() {
    let store = MetadataStore::from_rows(
        vec![store_dir(3, "/a"), store_dir(7, "/b")],
        vec![store_file(4, 3, "f", 10), store_file(2, 7, "f", 20)],
        vec![store_line(3, 10), store_line(7, 20)],
    );
    let mut store = store.ok().unwrap();
    assert_eq!(store.find_directory(&"/b".to_string()), Some(7));
    assert_eq!(store.latest_capture(3), Some(store_ts(10)));
    assert_eq!(store.insert_directory(&"/c".to_string()), Ok(8));
    store.append_capture(8, store_ts(30)).unwrap();
    store.upsert_file(8, &"g".to_string(), store_ts(30), store_ts(1), store_ts(2)).unwrap();
    assert_eq!(store.files()[2].id, 5);
}

#[test]
fn from_rows_of_nothing_is_the_empty_store() {
    let mut store = MetadataStore::from_rows(vec![], vec![], vec![]).ok().unwrap();
    assert_eq!(store.insert_directory(&"/a".to_string()), Ok(1));
}

#[test]
fn from_rows_refuses_repeated_path() {
    let r = MetadataStore::from_rows(vec![store_dir(1, "/a"), store_dir(2, "/a")], vec![], vec![]);
    assert_eq!(r.err(), Some(EngineError::Store));
}

#[test]
fn from_rows_refuses_repeated_directory_id() {
    let r = MetadataStore::from_rows(vec![store_dir(1, "/a"), store_dir(1, "/b")], vec![], vec![]);
    assert_eq!(r.err(), Some(EngineError::Store));
}

#[test]
fn from_rows_refuses_identifier_below_one() {
    let r = MetadataStore::from_rows(vec![store_dir(0, "/a")], vec![], vec![]);
    assert_eq!(r.err(), Some(EngineError::Store));
    let r = MetadataStore::from_rows(vec![store_dir(i64::MAX, "/a")], vec![], vec![]);
    assert_eq!(r.err(), Some(EngineError::Store));
}

#[test]
fn from_rows_refuses_two_rows_for_one_file() {
    let r = MetadataStore::from_rows(
        vec![store_dir(1, "/a")],
        vec![store_file(1, 1, "f", 10), store_file(2, 1, "f", 10)],
        vec![store_line(1, 10)],
    );
    assert_eq!(r.err(), Some(EngineError::Store));
}

#[test]
fn from_rows_refuses_repeated_file_id() {
    let r = MetadataStore::from_rows(
        vec![store_dir(1, "/a")],
        vec![store_file(1, 1, "f", 10), store_file(1, 1, "g", 10)],
        vec![store_line(1, 10)],
    );
    assert_eq!(r.err(), Some(EngineError::Store));
}

#[test]
fn from_rows_refuses_unknown_directory() {
    let r = MetadataStore::from_rows(vec![store_dir(1, "/a")], vec![], vec![store_line(2, 10)]);
    assert_eq!(r.err(), Some(EngineError::Store));
    let r = MetadataStore::from_rows(
        vec![store_dir(1, "/a")],
        vec![store_file(1, 2, "f", 10)],
        vec![store_line(1, 10)],
    );
    assert_eq!(r.err(), Some(EngineError::Store));
}

#[test]
fn from_rows_refuses_file_row_without_its_capture() {
    let r = MetadataStore::from_rows(
        vec![store_dir(1, "/a")],
        vec![store_file(1, 1, "f", 11)],
        vec![store_line(1, 10)],
    );
    assert_eq!(r.err(), Some(EngineError::Store));
}

#[test]
fn resolver_creates_once_and_finds_again() {
    let mut store = MetadataStore::new();
    let path = Some("/home/u/docs".to_string());
    assert_eq!(get_dir_prop_row_id(&mut store, &path), Ok(1));
    assert_eq!(get_dir_prop_row_id(&mut store, &path), Ok(1));
    assert_eq!(store.directories().len(), 1);
    assert_eq!(get_dir_prop_row_id(&mut store, &Some("/home/u".to_string())), Ok(2));
    assert_eq!(get_dir_prop_row_id(&mut store, &path), Ok(1));
    assert_eq!(store.directories().len(), 2);
}

#[test]
fn resolver_does_not_normalize_paths() {
    let mut store = MetadataStore::new();
    assert_eq!(get_dir_prop_row_id(&mut store, &Some("/a".to_string())), Ok(1));
    assert_eq!(get_dir_prop_row_id(&mut store, &Some("/a/".to_string())), Ok(2));
    assert_eq!(get_dir_prop_row_id(&mut store, &Some("/A".to_string())), Ok(3));
}

#[test]
fn resolver_fails_on_path_without_text() {
    let mut store = MetadataStore::new();
    assert_eq!(get_dir_prop_row_id(&mut store, &None), Err(EngineError::PathEncoding));
    assert!(store.directories().is_empty());
}

#[test]
fn resolver_reports_when_no_identifier_is_left() {
    let mut store =
        MetadataStore::from_rows(vec![store_dir(i64::MAX - 1, "/a")], vec![], vec![]).ok().unwrap();
    assert_eq!(get_dir_prop_row_id(&mut store, &Some("/a".to_string())), Ok(i64::MAX - 1));
    assert_eq!(get_dir_prop_row_id(&mut store, &Some("/b".to_string())), Err(EngineError::Store));
    assert_eq!(store.directories().len(), 1);
}
