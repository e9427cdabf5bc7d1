//! The metadata store: directory records, one timestamp record per file of a
//! directory, and an append-only log of captures.
use vstd::prelude::*;
use crate::action::LogActionType;
use crate::error::EngineError;
use crate::records::{CaptureLogEntry, DirectoryRecord, DirectoryRow, FileTimestampRecord, directory_rows, file_rows};
use crate::state::{StoreState, captured_in, lemma_directory_id_at, lemma_file_position_at, lemma_latest_capture_unique, lemma_same_tables};
use crate::timestamp::Timestamp;

verus! {

/// The store, held in memory. Its value is a [`StoreState`]; every operation
/// takes a valid store and leaves a valid store.
pub struct MetadataStore {
    dirs: Vec<DirectoryRecord>,
    files: Vec<FileTimestampRecord>,
    log: Vec<CaptureLogEntry>,
    next_dir_id: i64,
    next_file_id: i64,
}

impl View for MetadataStore {
    type V = StoreState;

    closed spec fn view(&self) -> StoreState {
        StoreState {
            dirs: directory_rows(self.dirs@),
            files: file_rows(self.files@),
            log: self.log@,
            next_dir_id: self.next_dir_id,
            next_file_id: self.next_file_id,
        }
    }
}

impl MetadataStore {
    /// The store's state is valid.
    pub open spec fn wf(&self) -> bool {
        self@.wf()
    }

    /// A store that holds nothing.
    pub fn new() -> (store: MetadataStore)
        ensures
            store@ == StoreState::empty(),
            store.wf(),
    {
        let store = MetadataStore {
            dirs: Vec::new(),
            files: Vec::new(),
            log: Vec::new(),
            next_dir_id: 1,
            next_file_id: 1,
        };
        assert(store@.dirs =~= Seq::empty());
        assert(store@.files =~= Seq::empty());
        store
    }

    /// The directory records, in the order in which they were added.
    pub fn directories(&self) -> (records: &Vec<DirectoryRecord>)
        ensures
            directory_rows(records@) == self@.dirs,
    {
        &self.dirs
    }

    /// The file timestamp records, in the order in which they were added.
    pub fn files(&self) -> (records: &Vec<FileTimestampRecord>)
        ensures
            file_rows(records@) == self@.files,
    {
        &self.files
    }

    /// The capture log, oldest line first.
    pub fn log(&self) -> (entries: &Vec<CaptureLogEntry>)
        ensures
            entries@ == self@.log,
    {
        &self.log
    }

    /// The store that holds the given tables, as they were read from where
    /// they are kept. The rows must make a valid state: where they do not,
    /// whatever the next identifiers, the store refuses them. The next
    /// identifiers are the least that the rows allow.
    pub fn from_rows(
        dirs: Vec<DirectoryRecord>,
        files: Vec<FileTimestampRecord>,
        log: Vec<CaptureLogEntry>,
    ) -> (result: Result<MetadataStore, EngineError>)
        ensures
            match result {
                Ok(store) => {
                    &&& store.wf()
                    &&& store@.dirs == directory_rows(dirs@)
                    &&& store@.files == file_rows(files@)
                    &&& store@.log == log@
                    &&& store@.next_ids_tight()
                },
                Err(e) => {
                    &&& e == EngineError::Store
                    &&& forall|next_dir_id: i64, next_file_id: i64|
                        !(#[trigger] StoreState::of_rows(
                            directory_rows(dirs@),
                            file_rows(files@),
                            log@,
                            next_dir_id,
                            next_file_id,
                        )).wf()
                },
            },
    {
        let mut store = MetadataStore { dirs, files, log, next_dir_id: 1, next_file_id: 1 };
        let ghost rows = store@;
        assert(rows == StoreState::of_rows(
            directory_rows(dirs@),
            file_rows(files@),
            log@,
            1,
            1,
        ));
        if !(store.directories_valid() && store.files_valid() && store.references_valid()) {
            proof {
                assert forall|next_dir_id: i64, next_file_id: i64|
                    !(#[trigger] StoreState::of_rows(
                        rows.dirs,
                        rows.files,
                        rows.log,
                        next_dir_id,
                        next_file_id,
                    )).wf() by {
                    let st = StoreState::of_rows(
                        rows.dirs,
                        rows.files,
                        rows.log,
                        next_dir_id,
                        next_file_id,
                    );
                    if st.wf() {
                        lemma_valid_rows(st);
                        lemma_same_tables(st, rows);
                        assert(st.directories_valid());
                        assert forall|i: int| 0 <= i < rows.dirs.len() implies 1 <= (
                        #[trigger] rows.dirs[i]).id < i64::MAX by {
                            assert(1 <= st.dirs[i].id < i64::MAX);
                        }
                        assert forall|i: int, j: int| 0 <= i < j < rows.dirs.len() implies (
                        #[trigger] rows.dirs[i]).id != (#[trigger] rows.dirs[j]).id
                            && rows.dirs[i].path != rows.dirs[j].path by {
                            assert(st.dirs[i].id != st.dirs[j].id);
                        }
                        assert(rows.directories_valid());
                        assert(st.files_valid());
                        assert forall|i: int, j: int| 0 <= i < j < rows.files.len() implies (
                        #[trigger] rows.files[i]).id != (#[trigger] rows.files[j]).id && !(
                        rows.files[i].directory_id == rows.files[j].directory_id
                            && rows.files[i].name == rows.files[j].name) by {
                            assert(st.files[i].id != st.files[j].id);
                        }
                        assert forall|i: int| 0 <= i < rows.files.len() implies 1 <= (
                        #[trigger] rows.files[i]).id < i64::MAX by {
                            assert(1 <= st.files[i].id < i64::MAX);
                        }
                        assert(rows.files_valid());
                        assert forall|i: int| 0 <= i < rows.files.len() implies rows.has_directory_id(
                            (#[trigger] rows.files[i]).directory_id,
                        ) && rows.has_capture_at(
                            rows.files[i].directory_id,
                            rows.files[i].captured_at,
                        ) by {
                            assert(st.has_directory_id(st.files[i].directory_id));
                            assert(st.has_capture_at(
                                st.files[i].directory_id,
                                st.files[i].captured_at,
                            ));
                        }
                        assert forall|i: int| 0 <= i < rows.log.len() implies rows.has_directory_id(
                            (#[trigger] rows.log[i]).directory_id,
                        ) by {
                            assert(st.has_directory_id(st.log[i].directory_id));
                        }
                        assert(rows.references_valid());
                    }
                }
            }
            return Err(EngineError::Store);
        }
        let next_dir_id = store.next_directory_id();
        let next_file_id = store.next_file_id();
        store.next_dir_id = next_dir_id;
        store.next_file_id = next_file_id;
        proof {
            let st = store@;
            assert(st.dirs == rows.dirs && st.files == rows.files && st.log == rows.log);
            lemma_same_tables(st, rows);
            assert forall|i: int| 0 <= i < st.files.len() implies 1 <= (#[trigger] st.files[i]).id
                < st.next_file_id && st.has_directory_id(st.files[i].directory_id) by {
                assert(rows.has_directory_id(rows.files[i].directory_id));
            }
            assert forall|i: int| 0 <= i < st.log.len() implies st.has_directory_id(
                (#[trigger] st.log[i]).directory_id,
            ) by {
                assert(rows.has_directory_id(rows.log[i].directory_id));
            }
            assert forall|i: int| 0 <= i < st.files.len() implies st.has_capture_at(
                (#[trigger] st.files[i]).directory_id,
                st.files[i].captured_at,
            ) by {
                assert(rows.has_capture_at(rows.files[i].directory_id, rows.files[i].captured_at));
            }
            if st.next_file_id != 1 {
                let id = (st.next_file_id - 1) as i64;
                let k = choose|k: int| rows.file_id_at(k, id);
                assert(st.file_id_at(k, id));
            }
            assert(st.wf());
        }
        Ok(store)
    }

    /// Every directory identifier is positive and below the greatest
    /// integer, and no identifier and no path stands twice.
    fn directories_valid(&self) -> (ok: bool)
        ensures
            ok == self@.directories_valid(),
    {
        let mut j: usize = 0;
        while j < self.dirs.len()
            invariant
                j <= self.dirs@.len(),
                forall|b: int| 0 <= b < j ==> 1 <= (#[trigger] self@.dirs[b]).id < i64::MAX,
                forall|a: int, b: int|
                    0 <= a < b < j ==> (#[trigger] self@.dirs[a]).id != (
                    #[trigger] self@.dirs[b]).id && self@.dirs[a].path != self@.dirs[b].path,
            decreases self.dirs@.len() - j,
        {
            let later = &self.dirs[j];
            if later.id < 1 || later.id == i64::MAX {
                assert(!(1 <= self@.dirs[j as int].id < i64::MAX));
                return false;
            }
            let mut i: usize = 0;
            while i < j
                invariant
                    i <= j < self.dirs@.len(),
                    later@ == self@.dirs[j as int],
                    forall|a: int|
                        0 <= a < i ==> (#[trigger] self@.dirs[a]).id != later@.id
                            && self@.dirs[a].path != later@.path,
                decreases j - i,
            {
                let earlier = &self.dirs[i];
                if earlier.id == later.id || earlier.path == later.path {
                    assert(!(self@.dirs[i as int].id != self@.dirs[j as int].id
                        && self@.dirs[i as int].path != self@.dirs[j as int].path));
                    return false;
                }
                i += 1;
            }
            j += 1;
        }
        true
    }

    /// Every file identifier is positive and below the greatest integer, no
    /// identifier stands twice, and no directory has two rows for one name.
    fn files_valid(&self) -> (ok: bool)
        ensures
            ok == self@.files_valid(),
    {
        let mut j: usize = 0;
        while j < self.files.len()
            invariant
                j <= self.files@.len(),
                forall|b: int| 0 <= b < j ==> 1 <= (#[trigger] self@.files[b]).id < i64::MAX,
                forall|a: int, b: int|
                    0 <= a < b < j ==> (#[trigger] self@.files[a]).id != (
                    #[trigger] self@.files[b]).id && !(self@.files[a].directory_id
                        == self@.files[b].directory_id && self@.files[a].name
                        == self@.files[b].name),
            decreases self.files@.len() - j,
        {
            let later = &self.files[j];
            if later.id < 1 || later.id == i64::MAX {
                assert(!(1 <= self@.files[j as int].id < i64::MAX));
                return false;
            }
            let mut i: usize = 0;
            while i < j
                invariant
                    i <= j < self.files@.len(),
                    later@ == self@.files[j as int],
                    forall|a: int|
                        0 <= a < i ==> (#[trigger] self@.files[a]).id != later@.id && !(
                        self@.files[a].directory_id == later@.directory_id && self@.files[a].name
                            == later@.name),
                decreases j - i,
            {
                let earlier = &self.files[i];
                if earlier.id == later.id || (earlier.directory_id == later.directory_id
                    && earlier.name == later.name) {
                    assert(!(self@.files[i as int].id != self@.files[j as int].id && !(
                    self@.files[i as int].directory_id == self@.files[j as int].directory_id
                        && self@.files[i as int].name == self@.files[j as int].name)));
                    return false;
                }
                i += 1;
            }
            j += 1;
        }
        true
    }

    /// Whether the log holds a capture of `dir_id` at the instant `t`.
    pub fn has_capture_at(&self, dir_id: i64, t: Timestamp) -> (found: bool)
        ensures
            found == self@.has_capture_at(dir_id, t),
    {
        let mut i: usize = 0;
        while i < self.log.len()
            invariant
                i <= self.log@.len(),
                forall|k: int| 0 <= k < i ==> !self@.capture_at_time(k, dir_id, t),
            decreases self.log@.len() - i,
        {
            let entry = self.log[i];
            if entry.directory_id == dir_id && entry.action_kind == LogActionType::CacheDates
                && entry.captured_at == t {
                assert(self@.capture_at_time(i as int, dir_id, t));
                return true;
            }
            i += 1;
        }
        false
    }

    /// Every file row and every log line speaks of a recorded directory, and
    /// every file row bears the time of a logged capture of its directory.
    fn references_valid(&self) -> (ok: bool)
        ensures
            ok == self@.references_valid(),
    {
        let mut i: usize = 0;
        while i < self.files.len()
            invariant
                i <= self.files@.len(),
                forall|k: int|
                    0 <= k < i ==> self@.has_directory_id((#[trigger] self@.files[k]).directory_id)
                        && self@.has_capture_at(
                        self@.files[k].directory_id,
                        self@.files[k].captured_at,
                    ),
            decreases self.files@.len() - i,
        {
            let row = &self.files[i];
            assert(row@ == self@.files[i as int]);
            if !self.has_directory_id(row.directory_id) || !self.has_capture_at(
                row.directory_id,
                row.captured_at,
            ) {
                return false;
            }
            i += 1;
        }
        let mut j: usize = 0;
        while j < self.log.len()
            invariant
                j <= self.log@.len(),
                forall|k: int|
                    0 <= k < j ==> self@.has_directory_id((#[trigger] self@.log[k]).directory_id),
            decreases self.log@.len() - j,
        {
            if !self.has_directory_id(self.log[j].directory_id) {
                return false;
            }
            j += 1;
        }
        true
    }

    /// The least identifier above those of all directory rows.
    fn next_directory_id(&self) -> (next: i64)
        requires
            forall|i: int| 0 <= i < self@.dirs.len() ==> 1 <= (#[trigger] self@.dirs[i]).id < i64::MAX,
        ensures
            1 <= next,
            forall|i: int| 0 <= i < self@.dirs.len() ==> (#[trigger] self@.dirs[i]).id < next,
            next == 1 || self@.has_directory_id((next - 1) as i64),
    {
        let mut next: i64 = 1;
        let mut i: usize = 0;
        while i < self.dirs.len()
            invariant
                i <= self.dirs@.len(),
                1 <= next,
                forall|k: int|
                    0 <= k < self@.dirs.len() ==> 1 <= (#[trigger] self@.dirs[k]).id < i64::MAX,
                forall|k: int| 0 <= k < i ==> (#[trigger] self@.dirs[k]).id < next,
                next == 1 || self@.has_directory_id((next - 1) as i64),
            decreases self.dirs@.len() - i,
        {
            let id = self.dirs[i].id;
            assert(self@.dirs[i as int].id == id);
            if id >= next {
                next = id + 1;
                assert(self@.dir_id_at(i as int, (next - 1) as i64));
            }
            i += 1;
        }
        next
    }

    /// The least identifier above those of all file rows.
    fn next_file_id(&self) -> (next: i64)
        requires
            forall|i: int|
                0 <= i < self@.files.len() ==> 1 <= (#[trigger] self@.files[i]).id < i64::MAX,
        ensures
            1 <= next,
            forall|i: int| 0 <= i < self@.files.len() ==> (#[trigger] self@.files[i]).id < next,
            next == 1 || self@.has_file_id((next - 1) as i64),
    {
        let mut next: i64 = 1;
        let mut i: usize = 0;
        while i < self.files.len()
            invariant
                i <= self.files@.len(),
                1 <= next,
                forall|k: int|
                    0 <= k < self@.files.len() ==> 1 <= (#[trigger] self@.files[k]).id < i64::MAX,
                forall|k: int| 0 <= k < i ==> (#[trigger] self@.files[k]).id < next,
                next == 1 || self@.has_file_id((next - 1) as i64),
            decreases self.files@.len() - i,
        {
            let id = self.files[i].id;
            assert(self@.files[i as int].id == id);
            if id >= next {
                next = id + 1;
                assert(self@.file_id_at(i as int, (next - 1) as i64));
            }
            i += 1;
        }
        next
    }

    /// A second store with the same content, to work on while this one stays
    /// as it is.
    pub fn working_copy(&self) -> (copy: MetadataStore)
        ensures
            copy@ == self@,
    {
        let mut dirs: Vec<DirectoryRecord> = Vec::new();
        let mut i: usize = 0;
        while i < self.dirs.len()
            invariant
                i <= self.dirs@.len(),
                directory_rows(dirs@) =~= directory_rows(self.dirs@).take(i as int),
            decreases self.dirs@.len() - i,
        {
            let record = &self.dirs[i];
            let ghost copied = directory_rows(dirs@);
            dirs.push(DirectoryRecord { id: record.id, path: record.path.clone() });
            assert(directory_rows(dirs@) =~= copied.push(record@));
            assert(directory_rows(self.dirs@).take(i + 1) =~= copied.push(record@));
            i += 1;
        }
        let mut files: Vec<FileTimestampRecord> = Vec::new();
        let mut j: usize = 0;
        while j < self.files.len()
            invariant
                j <= self.files@.len(),
                file_rows(files@) =~= file_rows(self.files@).take(j as int),
            decreases self.files@.len() - j,
        {
            let record = &self.files[j];
            let ghost copied = file_rows(files@);
            files.push(
                FileTimestampRecord {
                    id: record.id,
                    directory_id: record.directory_id,
                    name: record.name.clone(),
                    captured_at: record.captured_at,
                    created_at: record.created_at,
                    modified_at: record.modified_at,
                },
            );
            assert(file_rows(files@) =~= copied.push(record@));
            assert(file_rows(self.files@).take(j + 1) =~= copied.push(record@));
            j += 1;
        }
        let mut log: Vec<CaptureLogEntry> = Vec::new();
        let mut k: usize = 0;
        while k < self.log.len()
            invariant
                k <= self.log@.len(),
                log@ =~= self.log@.take(k as int),
            decreases self.log@.len() - k,
        {
            log.push(self.log[k]);
            k += 1;
        }
        let copy = MetadataStore {
            dirs,
            files,
            log,
            next_dir_id: self.next_dir_id,
            next_file_id: self.next_file_id,
        };
        proof {
            assert(copy@.dirs =~= self@.dirs);
            assert(copy@.files =~= self@.files);
            assert(copy@.log =~= self@.log);
        }
        copy
    }

    /// The identifier recorded for exactly the path `path`, if there is one.
    pub fn find_directory(&self, path: &String) -> (found: Option<i64>)
        requires
            self.wf(),
        ensures
            found == self@.directory_id(path@),
    {
        let mut i: usize = 0;
        while i < self.dirs.len()
            invariant
                self.wf(),
                i <= self.dirs@.len(),
                forall|k: int| 0 <= k < i ==> !self@.dir_at(k, path@),
            decreases self.dirs@.len() - i,
        {
            if self.dirs[i].path == *path {
                proof {
                    assert(self@.dir_at(i as int, path@));
                    lemma_directory_id_at(self@, i as int, path@);
                }
                return Some(self.dirs[i].id);
            }
            i += 1;
        }
        None
    }

    /// Whether a directory is recorded under the identifier `id`.
    pub fn has_directory_id(&self, id: i64) -> (found: bool)
        ensures
            found == self@.has_directory_id(id),
    {
        let mut i: usize = 0;
        while i < self.dirs.len()
            invariant
                i <= self.dirs@.len(),
                forall|k: int| 0 <= k < i ==> !self@.dir_id_at(k, id),
            decreases self.dirs@.len() - i,
        {
            if self.dirs[i].id == id {
                assert(self@.dir_id_at(i as int, id));
                return true;
            }
            i += 1;
        }
        false
    }

    /// Adds a record for `path` under the next free identifier and returns
    /// that identifier. The store refuses a path that it already holds, and
    /// it refuses when no identifier is left; it is then unchanged.
    pub fn insert_directory(&mut self, path: &String) -> (result: Result<i64, EngineError>)
        requires
            old(self).wf(),
        ensures
            final(self).wf(),
            match result {
                Ok(id) => {
                    &&& !old(self)@.has_path(path@)
                    &&& old(self)@.next_dir_id < i64::MAX
                    &&& id == old(self)@.next_dir_id
                    &&& final(self)@ == old(self)@.with_directory(path@)
                },
                Err(e) => {
                    &&& e == EngineError::Store
                    &&& old(self)@.has_path(path@) || old(self)@.next_dir_id == i64::MAX
                    &&& final(self)@ == old(self)@
                },
            },
    {
        if self.next_dir_id == i64::MAX {
            return Err(EngineError::Store);
        }
        match self.find_directory(path) {
            Some(_) => Err(EngineError::Store),
            None => {
                let id = self.next_dir_id;
                let ghost before = self@;
                self.dirs.push(DirectoryRecord { id, path: path.clone() });
                self.next_dir_id = id + 1;
                proof {
                    let after = self@;
                    assert(after.dirs =~= before.dirs.push(
                        DirectoryRow { id, path: path@ },
                    ));
                    assert(after == before.with_directory(path@));
                    lemma_with_directory_wf(before, path@);
                }
                Ok(id)
            },
        }
    }

    /// Appends to the log that `dir_id` was captured at `captured_at`. The
    /// store refuses a directory that it does not hold, and is then
    /// unchanged.
    pub fn append_capture(&mut self, dir_id: i64, captured_at: Timestamp) -> (result: Result<
        (),
        EngineError,
    >)
        requires
            old(self).wf(),
        ensures
            final(self).wf(),
            match result {
                Ok(_) => old(self)@.has_directory_id(dir_id) && final(self)@
                    == old(self)@.with_capture_logged(dir_id, captured_at),
                Err(e) => e == EngineError::Store && !old(self)@.has_directory_id(dir_id)
                    && final(self)@ == old(self)@,
            },
    {
        if !self.has_directory_id(dir_id) {
            return Err(EngineError::Store);
        }
        let ghost before = self@;
        self.log.push(
            CaptureLogEntry {
                directory_id: dir_id,
                action_kind: LogActionType::CacheDates,
                captured_at,
            },
        );
        proof {
            assert(self@ == before.with_capture_logged(dir_id, captured_at));
            lemma_with_capture_logged_wf(before, dir_id, captured_at);
        }
        Ok(())
    }

    /// Where the record of `name` in `dir_id` stands, if there is one.
    pub fn find_file(&self, dir_id: i64, name: &String) -> (found: Option<usize>)
        requires
            self.wf(),
        ensures
            match found {
                Some(i) => self@.file_position(dir_id, name@) == Some(i as int) && i
                    < self@.files.len(),
                None => self@.file_position(dir_id, name@).is_none(),
            },
    {
        let mut i: usize = 0;
        while i < self.files.len()
            invariant
                self.wf(),
                i <= self.files@.len(),
                forall|k: int| 0 <= k < i ==> !self@.file_at(k, dir_id, name@),
            decreases self.files@.len() - i,
        {
            if self.files[i].directory_id == dir_id && self.files[i].name == *name {
                proof {
                    assert(self@.file_at(i as int, dir_id, name@));
                    lemma_file_position_at(self@, i as int, dir_id, name@);
                }
                return Some(i);
            }
            i += 1;
        }
        None
    }

    /// Writes the timestamps of the file `name` of `dir_id`, as captured at
    /// `captured_at`: over its record where it has one, else into a new
    /// record. The log must hold that capture already. The store refuses a
    /// new record when no identifier is left; it is then unchanged.
    pub fn upsert_file(
        &mut self,
        dir_id: i64,
        name: &String,
        captured_at: Timestamp,
        created_at: Timestamp,
        modified_at: Timestamp,
    ) -> (result: Result<(), EngineError>)
        requires
            old(self).wf(),
            old(self)@.has_capture_at(dir_id, captured_at),
        ensures
            final(self).wf(),
            match result {
                Ok(_) => old(self)@.accepts_file(dir_id, name@) && final(self)@
                    == old(self)@.with_file(dir_id, name@, captured_at, created_at, modified_at),
                Err(e) => e == EngineError::Store && !old(self)@.accepts_file(dir_id, name@)
                    && final(self)@ == old(self)@,
            },
    {
        let ghost before = self@;
        match self.find_file(dir_id, name) {
            Some(i) => {
                let id = self.files[i].id;
                let record = FileTimestampRecord {
                    id,
                    directory_id: dir_id,
                    name: name.clone(),
                    captured_at,
                    created_at,
                    modified_at,
                };
                self.files.set(i, record);
                proof {
                    assert(self@.files =~= before.files.update(i as int, record@));
                    assert(self@ == before.with_file(
                        dir_id,
                        name@,
                        captured_at,
                        created_at,
                        modified_at,
                    ));
                    lemma_with_file_wf(before, dir_id, name@, captured_at, created_at, modified_at);
                }
                Ok(())
            },
            None => {
                if self.next_file_id == i64::MAX {
                    return Err(EngineError::Store);
                }
                let id = self.next_file_id;
                let record = FileTimestampRecord {
                    id,
                    directory_id: dir_id,
                    name: name.clone(),
                    captured_at,
                    created_at,
                    modified_at,
                };
                self.files.push(record);
                self.next_file_id = id + 1;
                proof {
                    assert(self@.files =~= before.files.push(record@));
                    assert(self@ == before.with_file(
                        dir_id,
                        name@,
                        captured_at,
                        created_at,
                        modified_at,
                    ));
                    lemma_with_file_wf(before, dir_id, name@, captured_at, created_at, modified_at);
                }
                Ok(())
            },
        }
    }

    /// The time of the most recent capture of `dir_id`, or `None` where the
    /// log holds no capture of it.
    pub fn latest_capture(&self, dir_id: i64) -> (latest: Option<Timestamp>)
        ensures
            latest == self@.latest_capture(dir_id),
    {
        let mut best: Option<Timestamp> = None;
        let mut i: usize = 0;
        while i < self.log.len()
            invariant
                i <= self.log@.len(),
                match best {
                    Some(t) => {
                        &&& exists|k: int| k < i && self@.capture_at_time(k, dir_id, t)
                        &&& forall|j: int|
                            j < i && #[trigger] self@.capture_at(j, dir_id)
                                ==> self@.log[j].captured_at.not_after(t)
                    },
                    None => forall|j: int| j < i ==> !self@.capture_at(j, dir_id),
                },
            decreases self.log@.len() - i,
        {
            let entry = self.log[i];
            let ghost prior = best;
            if entry.directory_id == dir_id && entry.action_kind == LogActionType::CacheDates {
                let later = match best {
                    Some(t) => t.is_before(&entry.captured_at),
                    None => true,
                };
                if later {
                    best = Some(entry.captured_at);
                }
            }
            proof {
                let n = i as int;
                if let Some(t) = best {
                    if prior == best {
                        let k = choose|k: int| k < n && self@.capture_at_time(k, dir_id, t);
                        assert(k < n + 1 && self@.capture_at_time(k, dir_id, t));
                    } else {
                        assert(n < n + 1 && self@.capture_at_time(n, dir_id, t));
                    }
                    assert forall|j: int| j < n + 1 && #[trigger] self@.capture_at(j, dir_id) implies self@.log[j].captured_at.not_after(t) by {
                        if j < n {
                            if let Some(u) = prior {
                                assert(self@.log[j].captured_at.not_after(u));
                            }
                        }
                    }
                }
            }
            i += 1;
        }
        proof {
            match best {
                Some(t) => {
                    let k = choose|k: int| k < i && self@.capture_at_time(k, dir_id, t);
                    assert(self@.capture_at_time(k, dir_id, t));
                    assert(self@.capture_at(k, dir_id));
                    assert(self@.is_latest_capture(dir_id, t));
                    let u = choose|u: Timestamp| self@.is_latest_capture(dir_id, u);
                    lemma_latest_capture_unique(self@, dir_id, t, u);
                },
                None => {},
            }
        }
        best
    }

    /// Copies of the records that were captured for `dir_id` at exactly the
    /// instant `t`, in the order of the table.
    pub fn files_captured_at(&self, dir_id: i64, t: Timestamp) -> (records: Vec<
        FileTimestampRecord,
    >)
        ensures
            file_rows(records@) == self@.files.filter(captured_in(dir_id, t)),
    {
        let mut records: Vec<FileTimestampRecord> = Vec::new();
        let mut i: usize = 0;
        proof {
            reveal(Seq::filter);
            assert(self@.files.take(0) =~= Seq::empty());
            assert(file_rows(records@) =~= Seq::empty());
        }
        while i < self.files.len()
            invariant
                i <= self.files@.len(),
                file_rows(records@) == self@.files.take(i as int).filter(captured_in(dir_id, t)),
            decreases self.files@.len() - i,
        {
            let row = &self.files[i];
            let ghost kept = file_rows(records@);
            proof {
                reveal(Seq::filter);
                assert(self@.files.take(i + 1).drop_last() =~= self@.files.take(i as int));
                assert(self@.files.take(i + 1).last() == row@);
            }
            if row.directory_id == dir_id && row.captured_at == t {
                let copy = FileTimestampRecord {
                    id: row.id,
                    directory_id: row.directory_id,
                    name: row.name.clone(),
                    captured_at: row.captured_at,
                    created_at: row.created_at,
                    modified_at: row.modified_at,
                };
                records.push(copy);
                assert(file_rows(records@) =~= kept.push(row@));
            }
            i += 1;
        }
        assert(self@.files.take(i as int) =~= self@.files);
        records
    }
}

/// The tables of a valid state are valid tables.
pub proof fn lemma_valid_rows(s: StoreState)
    requires
        s.wf(),
    ensures
        s.rows_valid(),
{
    assert forall|i: int| 0 <= i < s.dirs.len() implies 1 <= (#[trigger] s.dirs[i]).id
        < i64::MAX by {
        assert(s.dirs[i].id < s.next_dir_id);
    }
    assert forall|i: int| 0 <= i < s.files.len() implies 1 <= (#[trigger] s.files[i]).id
        < i64::MAX by {
        assert(s.files[i].id < s.next_file_id);
    }
}

/// Adding a directory that is not yet recorded, while an identifier is left,
/// keeps the state valid.
pub proof fn lemma_with_directory_wf(s: StoreState, path: Seq<char>)
    requires
        s.wf(),
        !s.has_path(path),
        s.next_dir_id < i64::MAX,
    ensures
        s.with_directory(path).wf(),
{
    let r = s.with_directory(path);
    assert forall|i: int, j: int| 0 <= i < j < r.dirs.len() implies (#[trigger] r.dirs[i]).id != (
    #[trigger] r.dirs[j]).id && r.dirs[i].path != r.dirs[j].path by {
        if j == s.dirs.len() {
            assert(!s.dir_at(i, path));
            assert(r.dirs[i] == s.dirs[i]);
        } else {
            assert(r.dirs[i] == s.dirs[i]);
            assert(r.dirs[j] == s.dirs[j]);
        }
    }
    assert forall|id: i64| s.has_directory_id(id) implies r.has_directory_id(id) by {
        let k = choose|k: int| s.dir_id_at(k, id);
        assert(r.dir_id_at(k, id));
    }
    assert forall|i: int| 0 <= i < r.dirs.len() implies 1 <= (#[trigger] r.dirs[i]).id
        < r.next_dir_id by {
        if i < s.dirs.len() {
            assert(r.dirs[i] == s.dirs[i]);
        }
    }
    assert forall|i: int| 0 <= i < r.files.len() implies r.has_capture_at(
        (#[trigger] r.files[i]).directory_id,
        r.files[i].captured_at,
    ) by {
        let row = s.files[i];
        let j = choose|j: int| s.capture_at_time(j, row.directory_id, row.captured_at);
        assert(r.capture_at_time(j, row.directory_id, row.captured_at));
    }
}

/// Logging a capture of a recorded directory keeps the state valid.
pub proof fn lemma_with_capture_logged_wf(s: StoreState, dir_id: i64, t: Timestamp)
    requires
        s.wf(),
        s.has_directory_id(dir_id),
    ensures
        s.with_capture_logged(dir_id, t).wf(),
{
    let r = s.with_capture_logged(dir_id, t);
    assert forall|id: i64| s.has_directory_id(id) implies r.has_directory_id(id) by {
        let k = choose|k: int| s.dir_id_at(k, id);
        assert(r.dir_id_at(k, id));
    }
    assert forall|i: int| 0 <= i < r.log.len() implies r.has_directory_id(
        (#[trigger] r.log[i]).directory_id,
    ) by {
        if i < s.log.len() {
            assert(r.log[i] == s.log[i]);
        }
    }
    assert forall|i: int| 0 <= i < r.files.len() implies r.has_capture_at(
        (#[trigger] r.files[i]).directory_id,
        r.files[i].captured_at,
    ) by {
        let row = s.files[i];
        let j = choose|j: int| s.capture_at_time(j, row.directory_id, row.captured_at);
        assert(r.capture_at_time(j, row.directory_id, row.captured_at));
    }
}

/// Writing a file's timestamps, where the store accepts the write, keeps the
/// state valid.
pub proof fn lemma_with_file_wf(
    s: StoreState,
    dir_id: i64,
    name: Seq<char>,
    captured_at: Timestamp,
    created_at: Timestamp,
    modified_at: Timestamp,
)
    requires
        s.wf(),
        s.has_capture_at(dir_id, captured_at),
        s.accepts_file(dir_id, name),
    ensures
        s.with_file(dir_id, name, captured_at, created_at, modified_at).wf(),
{
    let r = s.with_file(dir_id, name, captured_at, created_at, modified_at);
    assert forall|id: i64| s.has_directory_id(id) implies r.has_directory_id(id) by {
        let k = choose|k: int| s.dir_id_at(k, id);
        assert(r.dir_id_at(k, id));
    }
    assert forall|d: i64, t: Timestamp| s.has_capture_at(d, t) implies r.has_capture_at(d, t) by {
        let j = choose|j: int| s.capture_at_time(j, d, t);
        assert(r.capture_at_time(j, d, t));
    }
    let logged = choose|j: int| s.capture_at_time(j, dir_id, captured_at);
    assert(s.capture_at_time(logged, dir_id, captured_at));
    assert(s.has_directory_id(s.log[logged].directory_id));
    assert forall|i: int| 0 <= i < r.files.len() implies r.has_capture_at(
        (#[trigger] r.files[i]).directory_id,
        r.files[i].captured_at,
    ) by {
        if i < s.files.len() && r.files[i] == s.files[i] {
            assert(s.has_capture_at(s.files[i].directory_id, s.files[i].captured_at));
        }
    }
    match s.file_position(dir_id, name) {
        Some(p) => {
            assert(s.file_at(p, dir_id, name));
            assert forall|i: int| 0 <= i < r.files.len() implies 1 <= (#[trigger] r.files[i]).id
                < r.next_file_id && r.has_directory_id(r.files[i].directory_id) by {
                assert(1 <= s.files[i].id < s.next_file_id);
                assert(s.has_directory_id(s.files[i].directory_id));
            }
            assert forall|i: int, j: int| 0 <= i < j < r.files.len() implies (
            #[trigger] r.files[i]).id != (#[trigger] r.files[j]).id && !(r.files[i].directory_id
                == r.files[j].directory_id && r.files[i].name == r.files[j].name) by {
                assert(s.files[i].id != s.files[j].id);
                assert(!(s.files[i].directory_id == s.files[j].directory_id && s.files[i].name
                    == s.files[j].name));
            }
        },
        None => {
            assert forall|i: int| 0 <= i < r.files.len() implies 1 <= (#[trigger] r.files[i]).id
                < r.next_file_id && r.has_directory_id(r.files[i].directory_id) by {
                if i < s.files.len() {
                    assert(r.files[i] == s.files[i]);
                    assert(s.has_directory_id(s.files[i].directory_id));
                }
            }
            assert forall|i: int, j: int| 0 <= i < j < r.files.len() implies (
            #[trigger] r.files[i]).id != (#[trigger] r.files[j]).id && !(r.files[i].directory_id
                == r.files[j].directory_id && r.files[i].name == r.files[j].name) by {
                assert(r.files[i] == s.files[i]);
                if j == s.files.len() {
                    assert(!s.file_at(i, dir_id, name));
                } else {
                    assert(r.files[j] == s.files[j]);
                }
            }
        },
    }
}

} // verus!
