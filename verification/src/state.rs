//! The mathematical state of the metadata store: three tables as sequences of
//! rows, the identifiers still to be given out, and what makes such a state
//! valid.
use vstd::prelude::*;
use crate::action::LogActionType;
use crate::records::{CaptureLogEntry, DirectoryRow, FileRow};
use crate::timestamp::Timestamp;

verus! {

/// The content of a store. Rows stand in the order in which they were
/// inserted; `next_dir_id` and `next_file_id` are the identifiers that the
/// next new directory and the next new file record will get.
pub struct StoreState {
    pub dirs: Seq<DirectoryRow>,
    pub files: Seq<FileRow>,
    pub log: Seq<CaptureLogEntry>,
    pub next_dir_id: i64,
    pub next_file_id: i64,
}

impl StoreState {
    /// The store that holds nothing yet.
    pub open spec fn empty() -> StoreState {
        StoreState {
            dirs: Seq::empty(),
            files: Seq::empty(),
            log: Seq::empty(),
            next_dir_id: 1,
            next_file_id: 1,
        }
    }

    /// Row `i` of the directory table has the path `path`.
    pub open spec fn dir_at(self, i: int, path: Seq<char>) -> bool {
        0 <= i < self.dirs.len() && self.dirs[i].path == path
    }

    /// Row `i` of the directory table has the identifier `id`.
    pub open spec fn dir_id_at(self, i: int, id: i64) -> bool {
        0 <= i < self.dirs.len() && self.dirs[i].id == id
    }

    /// Some directory record has exactly the path `path`.
    pub open spec fn has_path(self, path: Seq<char>) -> bool {
        exists|i: int| self.dir_at(i, path)
    }

    /// Some directory record has the identifier `id`.
    pub open spec fn has_directory_id(self, id: i64) -> bool {
        exists|i: int| self.dir_id_at(i, id)
    }

    /// The identifier of the directory recorded under `path`, if any.
    pub open spec fn directory_id(self, path: Seq<char>) -> Option<i64> {
        if self.has_path(path) {
            Some(self.dirs[choose|i: int| self.dir_at(i, path)].id)
        } else {
            None
        }
    }

    /// Row `i` of the file table is the record of `name` in `dir_id`.
    pub open spec fn file_at(self, i: int, dir_id: i64, name: Seq<char>) -> bool {
        0 <= i < self.files.len() && self.files[i].directory_id == dir_id && self.files[i].name
            == name
    }

    /// Where the record of `name` in `dir_id` stands in the file table, if
    /// there is one.
    pub open spec fn file_position(self, dir_id: i64, name: Seq<char>) -> Option<int> {
        if exists|i: int| self.file_at(i, dir_id, name) {
            Some(choose|i: int| self.file_at(i, dir_id, name))
        } else {
            None
        }
    }

    /// Line `i` of the log records a capture of `dir_id`.
    pub open spec fn capture_at(self, i: int, dir_id: i64) -> bool {
        0 <= i < self.log.len() && self.log[i].directory_id == dir_id && self.log[i].action_kind
            == LogActionType::CacheDates
    }

    /// The log records at least one capture of `dir_id`.
    pub open spec fn has_capture(self, dir_id: i64) -> bool {
        exists|i: int| self.capture_at(i, dir_id)
    }

    /// Line `i` of the log records a capture of `dir_id` at the instant `t`.
    pub open spec fn capture_at_time(self, i: int, dir_id: i64, t: Timestamp) -> bool {
        self.capture_at(i, dir_id) && self.log[i].captured_at == t
    }

    /// The log records a capture of `dir_id` at the instant `t`.
    pub open spec fn has_capture_at(self, dir_id: i64, t: Timestamp) -> bool {
        exists|i: int| self.capture_at_time(i, dir_id, t)
    }

    /// `t` is the time of a capture of `dir_id`, and no capture of `dir_id`
    /// is later.
    pub open spec fn is_latest_capture(self, dir_id: i64, t: Timestamp) -> bool {
        &&& exists|i: int| self.capture_at_time(i, dir_id, t)
        &&& forall|j: int| #[trigger]
            self.capture_at(j, dir_id) ==> self.log[j].captured_at.not_after(t)
    }

    /// The time of the most recent capture of `dir_id`, if it was ever
    /// captured. Captures at the same instant share that time, so equal
    /// times leave nothing to choose.
    pub open spec fn latest_capture(self, dir_id: i64) -> Option<Timestamp> {
        if self.has_capture(dir_id) {
            Some(choose|t: Timestamp| self.is_latest_capture(dir_id, t))
        } else {
            None
        }
    }

    /// The state is valid: identifiers are positive, below the next one to be
    /// given and used once; no path stands twice in the directory table; no
    /// directory has two records for one file name; every file record and
    /// log line speaks of a recorded directory; and every file record bears
    /// the time of a capture of its directory that the log records.
    pub open spec fn wf(self) -> bool {
        &&& 1 <= self.next_dir_id
        &&& 1 <= self.next_file_id
        &&& forall|i: int|
            0 <= i < self.dirs.len() ==> 1 <= (#[trigger] self.dirs[i]).id < self.next_dir_id
        &&& forall|i: int, j: int|
            0 <= i < j < self.dirs.len() ==> (#[trigger] self.dirs[i]).id != (
            #[trigger] self.dirs[j]).id && self.dirs[i].path != self.dirs[j].path
        &&& forall|i: int|
            0 <= i < self.files.len() ==> 1 <= (#[trigger] self.files[i]).id < self.next_file_id
                && self.has_directory_id(self.files[i].directory_id)
        &&& forall|i: int, j: int|
            0 <= i < j < self.files.len() ==> (#[trigger] self.files[i]).id != (
            #[trigger] self.files[j]).id && !(self.files[i].directory_id
                == self.files[j].directory_id && self.files[i].name == self.files[j].name)
        &&& forall|i: int|
            0 <= i < self.log.len() ==> self.has_directory_id((#[trigger] self.log[i]).directory_id)
        &&& forall|i: int|
            0 <= i < self.files.len() ==> self.has_capture_at(
                (#[trigger] self.files[i]).directory_id,
                self.files[i].captured_at,
            )
    }

    /// The state made of the given tables and next identifiers.
    pub open spec fn of_rows(
        dirs: Seq<DirectoryRow>,
        files: Seq<FileRow>,
        log: Seq<CaptureLogEntry>,
        next_dir_id: i64,
        next_file_id: i64,
    ) -> StoreState {
        StoreState { dirs, files, log, next_dir_id, next_file_id }
    }

    /// Row `i` of the file table has the identifier `id`.
    pub open spec fn file_id_at(self, i: int, id: i64) -> bool {
        0 <= i < self.files.len() && self.files[i].id == id
    }

    /// Some file row has the identifier `id`.
    pub open spec fn has_file_id(self, id: i64) -> bool {
        exists|i: int| self.file_id_at(i, id)
    }

    /// The next identifiers are the least that the rows allow: each is 1, or
    /// one more than an identifier in use.
    pub open spec fn next_ids_tight(self) -> bool {
        &&& self.next_dir_id == 1 || self.has_directory_id((self.next_dir_id - 1) as i64)
        &&& self.next_file_id == 1 || self.has_file_id((self.next_file_id - 1) as i64)
    }

    /// Every directory identifier is positive and below the greatest
    /// integer, and no identifier and no path stands twice.
    pub open spec fn directories_valid(self) -> bool {
        &&& forall|i: int|
            0 <= i < self.dirs.len() ==> 1 <= (#[trigger] self.dirs[i]).id < i64::MAX
        &&& forall|i: int, j: int|
            0 <= i < j < self.dirs.len() ==> (#[trigger] self.dirs[i]).id != (
            #[trigger] self.dirs[j]).id && self.dirs[i].path != self.dirs[j].path
    }

    /// Every file identifier is positive and below the greatest integer, no
    /// identifier stands twice, and no directory has two rows for one name.
    pub open spec fn files_valid(self) -> bool {
        &&& forall|i: int|
            0 <= i < self.files.len() ==> 1 <= (#[trigger] self.files[i]).id < i64::MAX
        &&& forall|i: int, j: int|
            0 <= i < j < self.files.len() ==> (#[trigger] self.files[i]).id != (
            #[trigger] self.files[j]).id && !(self.files[i].directory_id
                == self.files[j].directory_id && self.files[i].name == self.files[j].name)
    }

    /// Every file row and every log line speaks of a recorded directory, and
    /// every file row bears the time of a logged capture of its directory.
    pub open spec fn references_valid(self) -> bool {
        &&& forall|i: int|
            0 <= i < self.files.len() ==> self.has_directory_id(
                (#[trigger] self.files[i]).directory_id,
            ) && self.has_capture_at(self.files[i].directory_id, self.files[i].captured_at)
        &&& forall|i: int|
            0 <= i < self.log.len() ==> self.has_directory_id((#[trigger] self.log[i]).directory_id)
    }

    /// The tables can be those of a valid state.
    pub open spec fn rows_valid(self) -> bool {
        self.directories_valid() && self.files_valid() && self.references_valid()
    }

    /// The state after a record for `path` was added under the next free
    /// identifier.
    pub open spec fn with_directory(self, path: Seq<char>) -> StoreState {
        StoreState {
            dirs: self.dirs.push(DirectoryRow { id: self.next_dir_id, path }),
            next_dir_id: (self.next_dir_id + 1) as i64,
            ..self
        }
    }

    /// The state after a line for a capture of `dir_id` at `t` was appended
    /// to the log.
    pub open spec fn with_capture_logged(self, dir_id: i64, t: Timestamp) -> StoreState {
        StoreState { log: self.log.push(capture_line(dir_id, t)), ..self }
    }

    /// The state after the timestamps of `name` in `dir_id` were written:
    /// over the record that is there, which keeps its identifier and its
    /// place, or else into a new record at the end of the table.
    pub open spec fn with_file(
        self,
        dir_id: i64,
        name: Seq<char>,
        captured_at: Timestamp,
        created_at: Timestamp,
        modified_at: Timestamp,
    ) -> StoreState {
        match self.file_position(dir_id, name) {
            Some(i) => StoreState {
                files: self.files.update(
                    i,
                    FileRow {
                        id: self.files[i].id,
                        directory_id: dir_id,
                        name,
                        captured_at,
                        created_at,
                        modified_at,
                    },
                ),
                ..self
            },
            None => StoreState {
                files: self.files.push(
                    FileRow {
                        id: self.next_file_id,
                        directory_id: dir_id,
                        name,
                        captured_at,
                        created_at,
                        modified_at,
                    },
                ),
                next_file_id: (self.next_file_id + 1) as i64,
                ..self
            },
        }
    }

    /// Whether the store takes the write that [`StoreState::with_file`]
    /// describes: a new record needs a free identifier.
    pub open spec fn accepts_file(self, dir_id: i64, name: Seq<char>) -> bool {
        self.file_position(dir_id, name).is_some() || self.next_file_id < i64::MAX
    }
}

/// The log line that records a capture of `dir_id` at the instant `t`.
pub open spec fn capture_line(dir_id: i64, t: Timestamp) -> CaptureLogEntry {
    CaptureLogEntry { directory_id: dir_id, action_kind: LogActionType::CacheDates, captured_at: t }
}

/// The rows that were captured for `dir_id` at exactly the instant `t`.
pub open spec fn captured_in(dir_id: i64, t: Timestamp) -> spec_fn(FileRow) -> bool {
    |row: FileRow| row.directory_id == dir_id && row.captured_at == t
}

/// Which directories and which captures a state holds depends on its
/// directory table and its log alone.
pub proof fn lemma_same_tables(a: StoreState, b: StoreState)
    requires
        a.dirs == b.dirs,
        a.log == b.log,
    ensures
        forall|id: i64| a.has_directory_id(id) == b.has_directory_id(id),
        forall|id: i64, t: Timestamp| a.has_capture_at(id, t) == b.has_capture_at(id, t),
{
    assert forall|id: i64| a.has_directory_id(id) == b.has_directory_id(id) by {
        if a.has_directory_id(id) {
            let i = choose|i: int| a.dir_id_at(i, id);
            assert(b.dir_id_at(i, id));
        }
        if b.has_directory_id(id) {
            let i = choose|i: int| b.dir_id_at(i, id);
            assert(a.dir_id_at(i, id));
        }
    }
    assert forall|id: i64, t: Timestamp| a.has_capture_at(id, t) == b.has_capture_at(id, t) by {
        if a.has_capture_at(id, t) {
            let i = choose|i: int| a.capture_at_time(i, id, t);
            assert(b.capture_at_time(i, id, t));
        }
        if b.has_capture_at(id, t) {
            let i = choose|i: int| b.capture_at_time(i, id, t);
            assert(a.capture_at_time(i, id, t));
        }
    }
}

/// In a valid state a path names at most one directory: the row that holds
/// it gives the identifier.
pub proof fn lemma_directory_id_at(s: StoreState, i: int, path: Seq<char>)
    requires
        s.wf(),
        s.dir_at(i, path),
    ensures
        s.directory_id(path) == Some(s.dirs[i].id),
{
    let j = choose|j: int| s.dir_at(j, path);
    assert(s.dir_at(j, path));
    if i < j {
        assert(s.dirs[i].path != s.dirs[j].path);
    } else if j < i {
        assert(s.dirs[j].path != s.dirs[i].path);
    }
}

/// In a valid state a directory has at most one record for a file name: the
/// row that holds it is its position.
pub proof fn lemma_file_position_at(s: StoreState, i: int, dir_id: i64, name: Seq<char>)
    requires
        s.wf(),
        s.file_at(i, dir_id, name),
    ensures
        s.file_position(dir_id, name) == Some(i),
{
    let j = choose|j: int| s.file_at(j, dir_id, name);
    assert(s.file_at(j, dir_id, name));
    if i < j {
        assert(!(s.files[i].directory_id == s.files[j].directory_id && s.files[i].name
            == s.files[j].name));
    } else if j < i {
        assert(!(s.files[j].directory_id == s.files[i].directory_id && s.files[j].name
            == s.files[i].name));
    }
}

/// A directory has one latest capture time at most.
pub proof fn lemma_latest_capture_unique(s: StoreState, dir_id: i64, t: Timestamp, u: Timestamp)
    requires
        s.is_latest_capture(dir_id, t),
        s.is_latest_capture(dir_id, u),
    ensures
        t == u,
{
    let i = choose|i: int| s.capture_at_time(i, dir_id, t);
    let j = choose|j: int| s.capture_at_time(j, dir_id, u);
    assert(s.capture_at(i, dir_id));
    assert(s.capture_at(j, dir_id));
    assert(t.not_after(u));
    assert(u.not_after(t));
}

/// Among the first `n` lines of the log, a directory that has a capture
/// there has a latest one.
proof fn lemma_latest_among(s: StoreState, dir_id: i64, n: int) -> (t: Timestamp)
    requires
        0 <= n <= s.log.len(),
        exists|i: int| i < n && s.capture_at(i, dir_id),
    ensures
        exists|i: int| i < n && s.capture_at_time(i, dir_id, t),
        forall|j: int| j < n && #[trigger] s.capture_at(j, dir_id) ==> s.log[j].captured_at.not_after(t),
    decreases n,
{
    let last = n - 1;
    if exists|i: int| i < last && s.capture_at(i, dir_id) {
        let before = lemma_latest_among(s, dir_id, last);
        if s.capture_at(last, dir_id) && before.precedes(s.log[last].captured_at) {
            let t = s.log[last].captured_at;
            assert(s.capture_at_time(last, dir_id, t));
            assert forall|j: int| j < n && #[trigger] s.capture_at(j, dir_id) implies s.log[j].captured_at.not_after(t) by {
                if j < last {
                    assert(s.log[j].captured_at.not_after(before));
                }
            }
            t
        } else {
            let i = choose|i: int| i < last && s.capture_at_time(i, dir_id, before);
            assert(i < n && s.capture_at_time(i, dir_id, before));
            before
        }
    } else {
        let i = choose|i: int| i < n && s.capture_at(i, dir_id);
        assert(i == last);
        let t = s.log[last].captured_at;
        assert(s.capture_at_time(last, dir_id, t));
        t
    }
}

/// What [`StoreState::latest_capture`] gives is a latest capture time, and it
/// gives one whenever the directory has a capture.
pub proof fn lemma_latest_capture(s: StoreState, dir_id: i64)
    ensures
        match s.latest_capture(dir_id) {
            Some(t) => s.is_latest_capture(dir_id, t),
            None => !s.has_capture(dir_id),
        },
{
    if s.has_capture(dir_id) {
        let i = choose|i: int| s.capture_at(i, dir_id);
        assert(i < s.log.len() && s.capture_at(i, dir_id));
        let t = lemma_latest_among(s, dir_id, s.log.len() as int);
        let k = choose|k: int| k < s.log.len() && s.capture_at_time(k, dir_id, t);
        assert(s.capture_at_time(k, dir_id, t));
        assert(s.is_latest_capture(dir_id, t));
    }
}

} // verus!
