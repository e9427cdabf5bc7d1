//! The capture engine: records the timestamps of the regular files that
//! stand directly in a directory.
use vstd::prelude::*;
use crate::clock::now;
use crate::error::EngineError;
use crate::resolver::{get_dir_prop_row_id, lemma_resolve_settles, resolve};
use crate::snapshot::{DirEntry, DirectorySnapshot, EntryKind, EntryView, SnapshotView};
use crate::state::StoreState;
use crate::store::{MetadataStore, lemma_with_file_wf};
use crate::timestamp::Timestamp;

verus! {

/// What one entry adds to a capture of `dir_id` at `t`. An entry that is no
/// regular file adds nothing. A regular file without a name in text fails the
/// pass. Any other regular file has its timestamps written under its name,
/// with `t` as the time of capture, unless the store refuses the write.
pub open spec fn capture_entry(s: StoreState, dir_id: i64, t: Timestamp, e: EntryView) -> Result<
    StoreState,
    EngineError,
> {
    if e.kind != EntryKind::RegularFile {
        Ok(s)
    } else {
        match e.name {
            None => Err(EngineError::NameEncoding),
            Some(name) => if s.accepts_file(dir_id, name) {
                Ok(s.with_file(dir_id, name, t, e.created_at, e.modified_at))
            } else {
                Err(EngineError::Store)
            },
        }
    }
}

/// The state after `entries` were captured one after the other, or the first
/// failure among them.
pub open spec fn capture_entries(
    s: StoreState,
    dir_id: i64,
    t: Timestamp,
    entries: Seq<EntryView>,
) -> Result<StoreState, EngineError>
    decreases entries.len(),
{
    if entries.len() == 0 {
        Ok(s)
    } else {
        match capture_entries(s, dir_id, t, entries.drop_last()) {
            Ok(before) => capture_entry(before, dir_id, t, entries.last()),
            Err(e) => Err(e),
        }
    }
}

/// What a capture of the directory `d` at the instant `t` does to the state
/// `s`, and how it ends.
///
/// A directory that does not exist is an error and leaves the state as it
/// was. Otherwise the directory's path is resolved, which may record the
/// directory. Then one log line for `t` and the timestamps of every regular
/// file are written together: where an entry fails, neither the log line nor
/// any timestamp of this pass is kept.
pub open spec fn capture_outcome(s: StoreState, d: SnapshotView, t: Timestamp) -> (
    StoreState,
    Result<(), EngineError>,
) {
    if !d.exists {
        (s, Err(EngineError::DirectoryNotFound))
    } else {
        match resolve(s, d.path) {
            (resolved, Ok(id)) => match capture_entries(
                resolved.with_capture_logged(id, t),
                id,
                t,
                d.entries,
            ) {
                Ok(captured) => (captured, Ok(())),
                Err(e) => (resolved, Err(e)),
            },
            (resolved, Err(e)) => (resolved, Err(e)),
        }
    }
}

/// Capturing an entry keeps a valid state valid, and touches neither the
/// directory table nor the log.
pub proof fn lemma_capture_entry_keeps(s: StoreState, dir_id: i64, t: Timestamp, e: EntryView)
    requires
        s.wf(),
        s.has_capture_at(dir_id, t),
    ensures
        capture_entry(s, dir_id, t, e) matches Ok(after) ==> after.wf() && after.dirs == s.dirs
            && after.log == s.log && after.next_dir_id == s.next_dir_id,
{
    if e.kind == EntryKind::RegularFile {
        if let Some(name) = e.name {
            if s.accepts_file(dir_id, name) {
                lemma_with_file_wf(s, dir_id, name, t, e.created_at, e.modified_at);
            }
        }
    }
}

/// Capturing a sequence of entries keeps a valid state valid, and touches
/// neither the directory table nor the log.
pub proof fn lemma_capture_entries_keeps(
    s: StoreState,
    dir_id: i64,
    t: Timestamp,
    entries: Seq<EntryView>,
)
    requires
        s.wf(),
        s.has_capture_at(dir_id, t),
    ensures
        capture_entries(s, dir_id, t, entries) matches Ok(after) ==> after.wf() && after.dirs
            == s.dirs && after.log == s.log && after.next_dir_id == s.next_dir_id,
    decreases entries.len(),
{
    if entries.len() > 0 {
        lemma_capture_entries_keeps(s, dir_id, t, entries.drop_last());
        if let Ok(before) = capture_entries(s, dir_id, t, entries.drop_last()) {
            let logged = choose|j: int| s.capture_at_time(j, dir_id, t);
            assert(before.capture_at_time(logged, dir_id, t));
            lemma_capture_entry_keeps(before, dir_id, t, entries.last());
        }
    }
}

/// A failure among the first `k` entries is the failure of the whole
/// sequence.
proof fn lemma_capture_failure_stays(
    s: StoreState,
    dir_id: i64,
    t: Timestamp,
    entries: Seq<EntryView>,
    k: int,
)
    requires
        0 <= k <= entries.len(),
        capture_entries(s, dir_id, t, entries.take(k)) is Err,
    ensures
        capture_entries(s, dir_id, t, entries) == capture_entries(s, dir_id, t, entries.take(k)),
    decreases entries.len() - k,
{
    if k < entries.len() {
        assert(entries.take(k + 1).drop_last() =~= entries.take(k));
        lemma_capture_failure_stays(s, dir_id, t, entries, k + 1);
    } else {
        assert(entries.take(k) =~= entries);
    }
}

/// Captures `entries` into `store` for the directory `dir_id` at the
/// instant `t`, one after the other, and stops at the first that fails.
/// After a failure the content of `store` is of no use.
fn capture_pass(store: &mut MetadataStore, dir_id: i64, t: Timestamp, entries: &Vec<DirEntry>) -> (result:
    Result<(), EngineError>)
    requires
        old(store).wf(),
        old(store)@.has_capture_at(dir_id, t),
    ensures
        final(store).wf(),
        match result {
            Ok(_) => capture_entries(
                old(store)@,
                dir_id,
                t,
                Seq::new(entries@.len(), |i: int| entries@[i]@),
            ) == Ok::<StoreState, EngineError>(final(store)@),
            Err(e) => capture_entries(
                old(store)@,
                dir_id,
                t,
                Seq::new(entries@.len(), |i: int| entries@[i]@),
            ) == Err::<StoreState, EngineError>(e),
        },
{
    let ghost start = store@;
    let ghost all = Seq::new(entries@.len(), |i: int| entries@[i]@);
    let mut i: usize = 0;
    proof {
        assert(all.take(0) =~= Seq::empty());
    }
    while i < entries.len()
        invariant
            i <= entries@.len(),
            store.wf(),
            store@.log == start.log,
            start.has_capture_at(dir_id, t),
            start == old(store)@,
            all == Seq::new(entries@.len(), |i: int| entries@[i]@),
            capture_entries(start, dir_id, t, all.take(i as int)) == Ok::<StoreState, EngineError>(
                store@,
            ),
        decreases entries@.len() - i,
    {
        let entry = &entries[i];
        proof {
            assert(all.take(i + 1).drop_last() =~= all.take(i as int));
            assert(all.take(i + 1).last() == entry@);
            let logged = choose|j: int| start.capture_at_time(j, dir_id, t);
            assert(store@.capture_at_time(logged, dir_id, t));
            lemma_capture_entry_keeps(store@, dir_id, t, entry@);
        }
        if entry.kind == EntryKind::RegularFile {
            match &entry.name {
                None => {
                    proof {
                        assert(capture_entry(store@, dir_id, t, entry@) == Err::<
                            StoreState,
                            EngineError,
                        >(EngineError::NameEncoding));
                        assert(capture_entries(start, dir_id, t, all.take(i + 1)) == Err::<
                            StoreState,
                            EngineError,
                        >(EngineError::NameEncoding));
                        lemma_capture_failure_stays(start, dir_id, t, all, i + 1);
                    }
                    return Err(EngineError::NameEncoding);
                },
                Some(name) => {
                    match store.upsert_file(dir_id, name, t, entry.created_at, entry.modified_at) {
                        Ok(_) => {},
                        Err(e) => {
                            proof {
                                assert(capture_entry(store@, dir_id, t, entry@) == Err::<
                                    StoreState,
                                    EngineError,
                                >(e));
                                assert(capture_entries(start, dir_id, t, all.take(i + 1)) == Err::<
                                    StoreState,
                                    EngineError,
                                >(e));
                                lemma_capture_failure_stays(start, dir_id, t, all, i + 1);
                            }
                            return Err(e);
                        },
                    }
                },
            }
        }
        i += 1;
    }
    proof {
        assert(all.take(i as int) =~= all);
    }
    Ok(())
}

/// Captures the directory `dir` at the instant `now`: resolves its path, and
/// then writes, all or nothing, one log line and the timestamps of every
/// regular file in `dir`, each under `now` as its time of capture.
///
/// Fails with `DirectoryNotFound` where the directory does not exist, with
/// `PathEncoding` where its path has no text form, with `NameEncoding` where
/// a regular file's name has none, and with `Store` where the store has no
/// identifier left.
pub fn capture_at(store: &mut MetadataStore, dir: &DirectorySnapshot, now: Timestamp) -> (result:
    Result<(), EngineError>)
    requires
        old(store).wf(),
    ensures
        final(store).wf(),
        (final(store)@, result) == capture_outcome(old(store)@, dir@, now),
{
    if !dir.exists {
        return Err(EngineError::DirectoryNotFound);
    }
    proof {
        lemma_resolve_settles(store@, dir@.path);
    }
    let id = match get_dir_prop_row_id(store, &dir.path) {
        Ok(id) => id,
        Err(e) => {
            return Err(e);
        },
    };
    let mut pass = store.working_copy();
    match pass.append_capture(id, now) {
        Ok(_) => {},
        Err(e) => {
            return Err(e);
        },
    }
    assert(pass@.capture_at_time(pass@.log.len() - 1, id, now));
    match capture_pass(&mut pass, id, now, &dir.entries) {
        Ok(_) => {
            *store = pass;
            Ok(())
        },
        Err(e) => Err(e),
    }
}

/// Captures the directory `dir` at the instant that the system clock shows
/// when the call is made. Whatever that instant is, the capture is the one
/// that [`capture_at`] makes for it.
pub fn save_dirs_props(store: &mut MetadataStore, dir: &DirectorySnapshot) -> (result: Result<
    (),
    EngineError,
>)
    requires
        old(store).wf(),
    ensures
        final(store).wf(),
        exists|t: Timestamp| (final(store)@, result) == #[trigger] capture_outcome(old(store)@, dir@, t),
{
    let t = now();
    capture_at(store, dir, t)
}

} // verus!
