//! The three kinds of record that the metadata store keeps.
use vstd::prelude::*;
use crate::action::LogActionType;
use crate::timestamp::Timestamp;

verus! {

/// A directory known to the store: its identifier and its path, as written.
#[derive(Debug)]
pub struct DirectoryRecord {
    pub id: i64,
    pub path: String,
}

/// The mathematical value of a [`DirectoryRecord`].
pub struct DirectoryRow {
    pub id: i64,
    pub path: Seq<char>,
}

impl View for DirectoryRecord {
    type V = DirectoryRow;

    open spec fn view(&self) -> DirectoryRow {
        DirectoryRow { id: self.id, path: self.path@ }
    }
}

/// The timestamps last captured for one file of one directory.
#[derive(Debug)]
pub struct FileTimestampRecord {
    pub id: i64,
    pub directory_id: i64,
    pub name: String,
    pub captured_at: Timestamp,
    pub created_at: Timestamp,
    pub modified_at: Timestamp,
}

/// The mathematical value of a [`FileTimestampRecord`].
pub struct FileRow {
    pub id: i64,
    pub directory_id: i64,
    pub name: Seq<char>,
    pub captured_at: Timestamp,
    pub created_at: Timestamp,
    pub modified_at: Timestamp,
}

impl View for FileTimestampRecord {
    type V = FileRow;

    open spec fn view(&self) -> FileRow {
        FileRow {
            id: self.id,
            directory_id: self.directory_id,
            name: self.name@,
            captured_at: self.captured_at,
            created_at: self.created_at,
            modified_at: self.modified_at,
        }
    }
}

/// One line of the capture log: at `captured_at`, `action_kind` was done to
/// the directory `directory_id`.
#[derive(Clone, Copy, Debug, PartialEq, Eq, Structural)]
pub struct CaptureLogEntry {
    pub directory_id: i64,
    pub action_kind: LogActionType,
    pub captured_at: Timestamp,
}

/// The values of a sequence of directory records, in order.
pub open spec fn directory_rows(records: Seq<DirectoryRecord>) -> Seq<DirectoryRow> {
    Seq::new(records.len(), |i: int| records[i]@)
}

/// The values of a sequence of file records, in order.
pub open spec fn file_rows(records: Seq<FileTimestampRecord>) -> Seq<FileRow> {
    Seq::new(records.len(), |i: int| records[i]@)
}

} // verus!
