use dirstamps::capture::capture_at;
use dirstamps::error::EngineError;
use dirstamps::restore::{apply_dirs_props, RestorePass, TimestampWrite};
use dirstamps::snapshot::{DirEntry, DirectorySnapshot, EntryKind};
use dirstamps::store::MetadataStore;
use dirstamps::timestamp::Timestamp;

fn res_ts(secs: i64) -> Timestamp {
    Timestamp::new(secs, 0)
}

fn res_file(name: &str, created: i64, modified: i64) -> DirEntry {
    DirEntry {
        name: Some(name.to_string()),
        path: Some(format!("/d/{}", name)),
        kind: EntryKind::RegularFile,
        created_at: res_ts(created),
        modified_at: res_ts(modified),
    }
}

fn res_dir(path: &str, entries: Vec<DirEntry>) -> DirectorySnapshot {
    DirectorySnapshot { exists: true, path: Some(path.to_string()), entries }
}

fn res_perform(dir: &mut DirectorySnapshot, writes: Vec<TimestampWrite>) -> Result<(), EngineError> {
    let mut pass = RestorePass::new(writes);
    loop {
        let next = match pass.pending() {
            Some(write) => (write.name.clone(), write.modified_at),
            None => return Ok(()),
        };
        dir.set_modified(&next.0, next.1);
        pass.settle(true)?;
    }
}

fn res_pairs(writes: &Vec<TimestampWrite>) -> Vec<(String, Timestamp)> {
    writes.iter().map(|w| (w.name.clone(), w.modified_at)).collect()
}

#[test]
fn restore_round_trip_gives_modification_time_back() {
    let mut store = MetadataStore::new();
    let captured = res_dir("/d", vec![res_file("f", 10, 20)]);
    capture_at(&mut store, &captured, res_ts(100)).unwrap();
    let mut now = res_dir("/d", vec![res_file("f", 11, 99)]);
    let writes = apply_dirs_props(&mut store, &now).unwrap();
    assert_eq!(res_pairs(&writes), vec![("f".to_string(), res_ts(20))]);
    assert_eq!(res_perform(&mut now, writes), Ok(()));
    assert_eq!(now.entries[0].modified_at, res_ts(20));
    assert_eq!(now.entries[0].created_at, res_ts(11));
}

#[test]
fn restore_of_never_captured_directory_does_nothing() {
    let mut store = MetadataStore::new();
    let mut dir = res_dir("/d", vec![res_file("f", 10, 20)]);
    let writes = apply_dirs_props(&mut store, &dir).unwrap();
    assert!(writes.is_empty());
    assert_eq!(res_perform(&mut dir, writes), Ok(()));
    assert_eq!(dir.entries[0].modified_at, res_ts(20));
    assert!(store.log().is_empty());
    assert!(store.files().is_empty());
}

#[test]
fn restore_records_a_directory_it_has_never_seen() {
    let mut store = MetadataStore::new();
    let dir = res_dir("/d", vec![]);
    assert!(apply_dirs_props(&mut store, &dir).unwrap().is_empty());
    assert_eq!(store.directories().len(), 1);
    assert_eq!(store.directories()[0].path, "/d");
}

#[test]
fn restore_ignores_captures_of_other_directories() {
    let mut store = MetadataStore::new();
    capture_at(&mut store, &res_dir("/other", vec![res_file("f", 1, 2)]), res_ts(100)).unwrap();
    let dir = res_dir("/d", vec![res_file("f", 10, 20)]);
    assert!(apply_dirs_props(&mut store, &dir).unwrap().is_empty());
}

#[test]
fn restore_after_upsert_touches_new_file_only() {
    let mut store = MetadataStore::new();
    capture_at(&mut store, &res_dir("/d", vec![res_file("f", 1, 2)]), res_ts(100)).unwrap();
    capture_at(&mut store, &res_dir("/d", vec![res_file("g", 3, 4)]), res_ts(200)).unwrap();
    let mut now = res_dir("/d", vec![res_file("f", 1, 50), res_file("g", 3, 60)]);
    let writes = apply_dirs_props(&mut store, &now).unwrap();
    assert_eq!(res_pairs(&writes), vec![("g".to_string(), res_ts(4))]);
    res_perform(&mut now, writes).unwrap();
    assert_eq!(now.entries[0].modified_at, res_ts(50));
    assert_eq!(now.entries[1].modified_at, res_ts(4));
}

#[test]
fn restore_skips_deleted_file_and_restores_the_rest() {
    let mut store = MetadataStore::new();
    let captured = res_dir("/d", vec![res_file("a", 1, 2), res_file("b", 3, 4), res_file("c", 5, 6)]);
    capture_at(&mut store, &captured, res_ts(100)).unwrap();
    let mut now = res_dir("/d", vec![res_file("c", 5, 70), res_file("a", 1, 80)]);
    let writes = apply_dirs_props(&mut store, &now).unwrap();
    assert_eq!(
        res_pairs(&writes),
        vec![("a".to_string(), res_ts(2)), ("c".to_string(), res_ts(6))]
    );
    assert_eq!(res_perform(&mut now, writes), Ok(()));
    assert_eq!(now.entries[0].modified_at, res_ts(6));
    assert_eq!(now.entries[1].modified_at, res_ts(2));
}

#[test]
fn restore_skips_name_that_is_no_regular_file_any_more() {
    let mut store = MetadataStore::new();
    capture_at(&mut store, &res_dir("/d", vec![res_file("a", 1, 2), res_file("b", 3, 4)]), res_ts(100))
        .unwrap();
    let mut turned = res_file("a", 1, 9);
    turned.kind = EntryKind::Directory;
    let mut link = res_file("b", 3, 9);
    link.kind = EntryKind::Other;
    let now = res_dir("/d", vec![turned, link]);
    assert!(apply_dirs_props(&mut store, &now).unwrap().is_empty());
}

#[test]
fn restore_uses_the_latest_capture_even_if_logged_earlier() {
    let mut store = MetadataStore::new();
    capture_at(&mut store, &res_dir("/d", vec![res_file("late", 1, 2)]), res_ts(300)).unwrap();
    capture_at(&mut store, &res_dir("/d", vec![res_file("early", 3, 4)]), res_ts(200)).unwrap();
    let now = res_dir("/d", vec![res_file("late", 1, 9), res_file("early", 3, 9)]);
    let writes = apply_dirs_props(&mut store, &now).unwrap();
    assert_eq!(res_pairs(&writes), vec![("late".to_string(), res_ts(2))]);
}

#[test]
fn restore_does_not_see_untouched_file_of_older_capture() {
    let mut store = MetadataStore::new();
    capture_at(&mut store, &res_dir("/d", vec![res_file("a", 1, 2), res_file("b", 3, 4)]), res_ts(100))
        .unwrap();
    capture_at(&mut store, &res_dir("/d", vec![res_file("b", 3, 5)]), res_ts(200)).unwrap();
    let now = res_dir("/d", vec![res_file("a", 1, 9), res_file("b", 3, 9)]);
    let writes = apply_dirs_props(&mut store, &now).unwrap();
    assert_eq!(res_pairs(&writes), vec![("b".to_string(), res_ts(5))]);
}

#[test]
fn restore_fails_for_missing_directory() {
    let mut store = MetadataStore::new();
    let dir = DirectorySnapshot { exists: false, path: Some("/gone".to_string()), entries: vec![] };
    assert_eq!(apply_dirs_props(&mut store, &dir).err(), Some(EngineError::DirectoryNotFound));
    assert!(store.directories().is_empty());
}

#[test]
fn restore_fails_for_path_without_text() {
    let mut store = MetadataStore::new();
    let dir = DirectorySnapshot { exists: true, path: None, entries: vec![] };
    assert_eq!(apply_dirs_props(&mut store, &dir).err(), Some(EngineError::PathEncoding));
}

#[test]
fn restore_changes_neither_log_nor_rows() {
    let mut store = MetadataStore::new();
    capture_at(&mut store, &res_dir("/d", vec![res_file("a", 1, 2)]), res_ts(100)).unwrap();
    let now = res_dir("/d", vec![res_file("a", 1, 9)]);
    apply_dirs_props(&mut store, &now).unwrap();
    apply_dirs_props(&mut store, &now).unwrap();
    assert_eq!(store.log().len(), 1);
    assert_eq!(store.files().len(), 1);
    assert_eq!(store.files()[0].modified_at, res_ts(2));
    assert_eq!(store.files()[0].captured_at, res_ts(100));
}

#[test]
fn restore_pass_hands_out_writes_in_order() {
    let writes = vec![
        TimestampWrite { name: "a".to_string(), modified_at: res_ts(1) },
        TimestampWrite { name: "b".to_string(), modified_at: res_ts(2) },
    ];
    let mut pass = RestorePass::new(writes);
    assert_eq!(pass.pending().map(|w| w.name.clone()), Some("a".to_string()));
    assert_eq!(pass.pending().map(|w| w.modified_at), Some(res_ts(1)));
    assert_eq!(pass.settle(true), Ok(()));
    assert_eq!(pass.pending().map(|w| w.name.clone()), Some("b".to_string()));
    assert_eq!(pass.settle(true), Ok(()));
    assert!(pass.pending().is_none());
    assert_eq!(pass.settle(true), Ok(()));
    assert_eq!(pass.settle(false), Ok(()));
    assert!(pass.pending().is_none());
}

#[test]
fn restore_pass_stops_at_first_failed_write() {
    let writes = vec![
        TimestampWrite { name: "a".to_string(), modified_at: res_ts(1) },
        TimestampWrite { name: "b".to_string(), modified_at: res_ts(2) },
        TimestampWrite { name: "c".to_string(), modified_at: res_ts(3) },
    ];
    let mut pass = RestorePass::new(writes);
    assert_eq!(pass.settle(true), Ok(()));
    assert_eq!(pass.settle(false), Err(EngineError::FileTimestampWrite));
    assert!(pass.pending().is_none());
    assert_eq!(pass.settle(true), Err(EngineError::FileTimestampWrite));
    assert!(pass.pending().is_none());
}

#[test]
fn restore_pass_with_no_writes_is_finished() {
    let mut pass = RestorePass::new(Vec::new());
    assert!(pass.pending().is_none());
    assert_eq!(pass.settle(true), Ok(()));
}
