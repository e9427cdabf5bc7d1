//! The restore engine: finds the latest capture of a directory and says which
//! files are to get which modification time back.
use vstd::prelude::*;
use crate::error::EngineError;
use crate::records::{FileRow, FileTimestampRecord, file_rows};
use crate::resolver::{get_dir_prop_row_id, resolve};
use crate::snapshot::{DirectorySnapshot, SnapshotView};
use crate::state::{StoreState, captured_in};
use crate::store::MetadataStore;
use crate::timestamp::Timestamp;

verus! {

/// An order to set the modification time of the file `name` to
/// `modified_at`. A file's creation time is never written.
#[derive(Debug)]
pub struct TimestampWrite {
    pub name: String,
    pub modified_at: Timestamp,
}

/// The mathematical value of a [`TimestampWrite`].
pub struct WriteView {
    pub name: Seq<char>,
    pub modified_at: Timestamp,
}

impl View for TimestampWrite {
    type V = WriteView;

    open spec fn view(&self) -> WriteView {
        WriteView { name: self.name@, modified_at: self.modified_at }
    }
}

/// The values of a sequence of writes, in order.
pub open spec fn write_views(writes: Seq<TimestampWrite>) -> Seq<WriteView> {
    Seq::new(writes.len(), |i: int| writes[i]@)
}

/// The rows whose file is, in `d`, a regular file still.
pub open spec fn still_present(d: SnapshotView) -> spec_fn(FileRow) -> bool {
    |row: FileRow| d.has_regular_file(row.name)
}

/// For each row the write that gives its file the recorded modification time
/// back.
pub open spec fn writes_for(rows: Seq<FileRow>) -> Seq<WriteView> {
    Seq::new(rows.len(), |i: int| WriteView { name: rows[i].name, modified_at: rows[i].modified_at })
}

/// The writes that restore the directory `dir_id`, seen as `d`: none where
/// the directory was never captured; else one for every record that was
/// written by the latest capture and whose file is a regular file in `d`, in
/// the order of the file table.
pub open spec fn planned_writes(s: StoreState, dir_id: i64, d: SnapshotView) -> Seq<WriteView> {
    match s.latest_capture(dir_id) {
        None => Seq::empty(),
        Some(t) => writes_for(s.files.filter(captured_in(dir_id, t)).filter(still_present(d))),
    }
}

/// What a restore of the directory `d` does to the state `s`, and what it
/// gives: an error where the directory does not exist or its path cannot be
/// resolved, else the writes to perform. Resolving may record the directory;
/// nothing else in the store changes.
pub open spec fn restore_outcome(s: StoreState, d: SnapshotView) -> (
    StoreState,
    Result<Seq<WriteView>, EngineError>,
) {
    if !d.exists {
        (s, Err(EngineError::DirectoryNotFound))
    } else {
        match resolve(s, d.path) {
            (resolved, Ok(id)) => (resolved, Ok(planned_writes(resolved, id, d))),
            (resolved, Err(e)) => (resolved, Err(e)),
        }
    }
}

/// The directory `d` after `writes` were performed on its files, one after
/// the other.
pub open spec fn after_writes(d: SnapshotView, writes: Seq<WriteView>) -> SnapshotView
    decreases writes.len(),
{
    if writes.len() == 0 {
        d
    } else {
        after_writes(d, writes.drop_last()).with_modified(
            writes.last().name,
            writes.last().modified_at,
        )
    }
}

/// Of `rows`, the writes for those whose file is a regular file in `dir`.
fn writes_for_present(rows: &Vec<FileTimestampRecord>, dir: &DirectorySnapshot) -> (writes: Vec<
    TimestampWrite,
>)
    ensures
        write_views(writes@) == writes_for(file_rows(rows@).filter(still_present(dir@))),
{
    let mut writes: Vec<TimestampWrite> = Vec::new();
    let ghost all = file_rows(rows@);
    let mut i: usize = 0;
    proof {
        reveal(Seq::filter);
        assert(all.take(0) =~= Seq::empty());
        assert(write_views(writes@) =~= writes_for(all.take(0).filter(still_present(dir@))));
    }
    while i < rows.len()
        invariant
            i <= rows@.len(),
            all == file_rows(rows@),
            write_views(writes@) == writes_for(all.take(i as int).filter(still_present(dir@))),
        decreases rows@.len() - i,
    {
        let row = &rows[i];
        let ghost kept = all.take(i as int).filter(still_present(dir@));
        let ghost written = write_views(writes@);
        proof {
            reveal(Seq::filter);
            assert(all.take(i + 1).drop_last() =~= all.take(i as int));
            assert(all.take(i + 1).last() == row@);
        }
        if dir.has_regular_file(&row.name) {
            let write = TimestampWrite { name: row.name.clone(), modified_at: row.modified_at };
            writes.push(write);
            proof {
                assert(all.take(i + 1).filter(still_present(dir@)) == kept.push(row@));
                assert(write_views(writes@) =~= written.push(write@));
                assert(writes_for(kept.push(row@)) =~= written.push(write@));
            }
        } else {
            assert(all.take(i + 1).filter(still_present(dir@)) == kept);
        }
        i += 1;
    }
    proof {
        assert(all.take(i as int) =~= all);
    }
    writes
}

/// Says how to restore the directory `dir`: the writes that give every file
/// of the latest capture that is still a regular file in `dir` its recorded
/// modification time back. A directory that was never captured gives no
/// writes, and that is no error.
///
/// Fails with `DirectoryNotFound` where the directory does not exist, with
/// `PathEncoding` where its path has no text form, and with `Store` where
/// the directory is new to the store and no identifier is left for it.
pub fn apply_dirs_props(store: &mut MetadataStore, dir: &DirectorySnapshot) -> (result: Result<
    Vec<TimestampWrite>,
    EngineError,
>)
    requires
        old(store).wf(),
    ensures
        final(store).wf(),
        final(store)@ == restore_outcome(old(store)@, dir@).0,
        match result {
            Ok(writes) => restore_outcome(old(store)@, dir@).1 == Ok::<
                Seq<WriteView>,
                EngineError,
            >(write_views(writes@)),
            Err(e) => restore_outcome(old(store)@, dir@).1 == Err::<Seq<WriteView>, EngineError>(e),
        },
{
    if !dir.exists {
        return Err(EngineError::DirectoryNotFound);
    }
    let id = match get_dir_prop_row_id(store, &dir.path) {
        Ok(id) => id,
        Err(e) => {
            return Err(e);
        },
    };
    match store.latest_capture(id) {
        None => {
            let writes: Vec<TimestampWrite> = Vec::new();
            assert(write_views(writes@) =~= Seq::empty());
            Ok(writes)
        },
        Some(t) => {
            let rows = store.files_captured_at(id, t);
            Ok(writes_for_present(&rows, dir))
        },
    }
}

/// How far a restore has come: the writes to perform, how many of them were
/// performed, and whether one failed.
pub struct PassState {
    pub writes: Seq<WriteView>,
    pub done: int,
    pub failed: bool,
}

impl PassState {
    /// As many writes are done as there can be.
    pub open spec fn wf(self) -> bool {
        0 <= self.done <= self.writes.len()
    }

    /// The write to perform next. There is none once a write has failed or
    /// all are done.
    pub open spec fn pending(self) -> Option<WriteView> {
        if !self.failed && self.done < self.writes.len() {
            Some(self.writes[self.done])
        } else {
            None
        }
    }

    /// The state after the pending write was tried, `written` saying whether
    /// it was performed, and what the pass has to report. A write that was
    /// performed is counted. A write that failed ends the pass: no later
    /// write becomes pending, and the pass reports the failure from then on.
    /// With nothing pending the state stays as it is.
    pub open spec fn settled(self, written: bool) -> (PassState, Result<(), EngineError>) {
        if self.failed {
            (self, Err(EngineError::FileTimestampWrite))
        } else if self.done >= self.writes.len() {
            (self, Ok(()))
        } else if written {
            (PassState { done: self.done + 1, ..self }, Ok(()))
        } else {
            (PassState { failed: true, ..self }, Err(EngineError::FileTimestampWrite))
        }
    }
}

/// A restore in progress. The caller performs the pending write and reports
/// how it went, until nothing is pending.
pub struct RestorePass {
    writes: Vec<TimestampWrite>,
    done: usize,
    failed: bool,
}

impl View for RestorePass {
    type V = PassState;

    closed spec fn view(&self) -> PassState {
        PassState { writes: write_views(self.writes@), done: self.done as int, failed: self.failed }
    }
}

impl RestorePass {
    /// The pass is valid.
    pub open spec fn wf(&self) -> bool {
        self@.wf()
    }

    /// A pass that has all of `writes` still to perform.
    pub fn new(writes: Vec<TimestampWrite>) -> (pass: RestorePass)
        ensures
            pass.wf(),
            pass@ == (PassState { writes: write_views(writes@), done: 0, failed: false }),
    {
        RestorePass { writes, done: 0, failed: false }
    }

    /// The write to perform next, if there is one.
    pub fn pending(&self) -> (next: Option<&TimestampWrite>)
        requires
            self.wf(),
        ensures
            match next {
                Some(write) => self@.pending() == Some(write@),
                None => self@.pending().is_none(),
            },
    {
        if !self.failed && self.done < self.writes.len() {
            Some(&self.writes[self.done])
        } else {
            None
        }
    }

    /// Takes note of how the pending write went.
    pub fn settle(&mut self, written: bool) -> (result: Result<(), EngineError>)
        requires
            old(self).wf(),
        ensures
            final(self).wf(),
            (final(self)@, result) == old(self)@.settled(written),
    {
        if self.failed {
            Err(EngineError::FileTimestampWrite)
        } else if self.done >= self.writes.len() {
            Ok(())
        } else if written {
            self.done = self.done + 1;
            Ok(())
        } else {
            self.failed = true;
            Err(EngineError::FileTimestampWrite)
        }
    }
}

} // verus!
