//! What holds of captures and restores, whatever the store and the directory.
use vstd::prelude::*;
use crate::capture::{capture_entries, capture_entry, capture_outcome, lemma_capture_entries_keeps};
use crate::error::EngineError;
use crate::records::FileRow;
use crate::resolver::{lemma_resolve_settles, resolve};
use crate::restore::{WriteView, after_writes, restore_outcome, still_present, writes_for};
use crate::snapshot::{EntryKind, EntryView, SnapshotView};
use crate::state::{StoreState, capture_line, captured_in, lemma_directory_id_at, lemma_file_position_at, lemma_latest_capture, lemma_latest_capture_unique};
use crate::store::lemma_with_capture_logged_wf;
use crate::timestamp::Timestamp;

verus! {

/// The position of the last entry that is a regular file called `name`, or
/// -1 where no entry is.
pub open spec fn last_regular(entries: Seq<EntryView>, name: Seq<char>) -> int
    decreases entries.len(),
{
    if entries.len() == 0 {
        -1
    } else if entries.last().is_regular_named(name) {
        entries.len() - 1
    } else {
        last_regular(entries.drop_last(), name)
    }
}

/// [`last_regular`] gives the position of a regular file of that name after
/// which no other stands, and gives -1 only where there is none.
pub proof fn lemma_last_regular(entries: Seq<EntryView>, name: Seq<char>)
    ensures
        -1 <= last_regular(entries, name) < entries.len(),
        last_regular(entries, name) >= 0 ==> entries[last_regular(entries, name)].is_regular_named(
            name,
        ),
        forall|k: int|
            last_regular(entries, name) < k < entries.len() ==> !(
            #[trigger] entries[k]).is_regular_named(name),
    decreases entries.len(),
{
    if entries.len() > 0 && !entries.last().is_regular_named(name) {
        lemma_last_regular(entries.drop_last(), name);
        let init = entries.drop_last();
        assert forall|k: int| last_regular(entries, name) < k < entries.len() implies !(
        #[trigger] entries[k]).is_regular_named(name) by {
            if k < init.len() {
                assert(init[k] == entries[k]);
            }
        }
    }
}

/// A directory has a regular file called `name` exactly where
/// [`last_regular`] finds one.
pub proof fn lemma_has_regular_file(d: SnapshotView, name: Seq<char>)
    ensures
        d.has_regular_file(name) <==> last_regular(d.entries, name) >= 0,
{
    lemma_last_regular(d.entries, name);
    if d.has_regular_file(name) {
        let i = choose|i: int| 0 <= i < d.entries.len() && (#[trigger] d.entries[i]).is_regular_named(name);
        assert(d.entries[i].is_regular_named(name));
    }
}

/// Two rows are records of the same file: they agree in identifier,
/// directory and name.
pub open spec fn same_file(a: FileRow, b: FileRow) -> bool {
    a.id == b.id && a.directory_id == b.directory_id && a.name == b.name
}

/// What a capture of `entries` for `dir_id` at `t` leaves in a row that now
/// stands at position `i`: the timestamps of the last regular file of the
/// row's name, under `t`, where the row belongs to `dir_id` and there is
/// such a file; else the row that stood there before.
pub open spec fn row_after_capture(
    before: Seq<FileRow>,
    row: FileRow,
    i: int,
    dir_id: i64,
    t: Timestamp,
    entries: Seq<EntryView>,
) -> bool {
    let k = last_regular(entries, row.name);
    if row.directory_id == dir_id && k >= 0 {
        row.captured_at == t && row.created_at == entries[k].created_at && row.modified_at
            == entries[k].modified_at
    } else {
        i < before.len() && row == before[i]
    }
}

/// The state after `entries` were captured, where that succeeds.
pub open spec fn captured(s: StoreState, dir_id: i64, t: Timestamp, entries: Seq<EntryView>) -> StoreState {
    match capture_entries(s, dir_id, t, entries) {
        Ok(after) => after,
        Err(_) => s,
    }
}

/// Writing one file's timestamps changes one row, at the position that is
/// returned, and leaves every other row as it was.
pub proof fn lemma_with_file_rows(
    s: StoreState,
    dir_id: i64,
    name: Seq<char>,
    t: Timestamp,
    created_at: Timestamp,
    modified_at: Timestamp,
) -> (p: int)
    requires
        s.wf(),
    ensures
        ({
            let r = s.with_file(dir_id, name, t, created_at, modified_at);
            &&& 0 <= p < r.files.len()
            &&& r.file_at(p, dir_id, name)
            &&& r.files[p].captured_at == t
            &&& r.files[p].created_at == created_at
            &&& r.files[p].modified_at == modified_at
            &&& s.files.len() <= r.files.len()
            &&& p < s.files.len() ==> r.files.len() == s.files.len() && same_file(
                r.files[p],
                s.files[p],
            ) && r.next_file_id == s.next_file_id
            &&& p >= s.files.len() ==> s.file_position(dir_id, name).is_none()
            &&& forall|i: int|
                0 <= i < r.files.len() && i != p ==> i < s.files.len() && (#[trigger] r.files[i])
                    == s.files[i] && !(r.files[i].directory_id == dir_id && r.files[i].name
                    == name)
        }),
{
    let r = s.with_file(dir_id, name, t, created_at, modified_at);
    match s.file_position(dir_id, name) {
        Some(q) => {
            assert(s.file_at(q, dir_id, name));
            assert forall|i: int| 0 <= i < r.files.len() && i != q implies i < s.files.len() && (
            #[trigger] r.files[i]) == s.files[i] && !(r.files[i].directory_id == dir_id
                && r.files[i].name == name) by {
                if s.file_at(i, dir_id, name) {
                    lemma_file_position_at(s, i, dir_id, name);
                }
            }
            q
        },
        None => {
            let q = s.files.len() as int;
            assert forall|i: int| 0 <= i < r.files.len() && i != q implies i < s.files.len() && (
            #[trigger] r.files[i]) == s.files[i] && !(r.files[i].directory_id == dir_id
                && r.files[i].name == name) by {
                assert(!s.file_at(i, dir_id, name));
            }
            q
        },
    }
}

/// What a successful capture of `entries` leaves in the file table. Rows
/// keep their place, their identifier, their directory and their name. A row
/// of `dir_id` named like a regular file among `entries` holds the
/// timestamps of the last such file under `t`; every other row is as it was.
/// Every regular file among `entries` has a name and has a row.
pub proof fn lemma_capture_entries_rows(
    s: StoreState,
    dir_id: i64,
    t: Timestamp,
    entries: Seq<EntryView>,
)
    requires
        s.wf(),
        s.has_capture_at(dir_id, t),
        capture_entries(s, dir_id, t, entries) is Ok,
    ensures
        ({
            let r = captured(s, dir_id, t, entries);
            &&& r.wf()
            &&& r.dirs == s.dirs
            &&& r.log == s.log
            &&& r.next_dir_id == s.next_dir_id
            &&& s.files.len() <= r.files.len()
            &&& forall|i: int|
                0 <= i < s.files.len() ==> same_file(#[trigger] r.files[i], s.files[i])
            &&& forall|i: int|
                0 <= i < r.files.len() ==> row_after_capture(
                    s.files,
                    #[trigger] r.files[i],
                    i,
                    dir_id,
                    t,
                    entries,
                )
            &&& forall|n: Seq<char>| #[trigger]
                last_regular(entries, n) >= 0 ==> r.file_position(dir_id, n).is_some()
            &&& forall|k: int|
                0 <= k < entries.len() && (#[trigger] entries[k]).kind == EntryKind::RegularFile
                    ==> entries[k].name.is_some()
        }),
    decreases entries.len(),
{
    let r = captured(s, dir_id, t, entries);
    lemma_capture_entries_keeps(s, dir_id, t, entries);
    if entries.len() == 0 {
        assert forall|i: int| 0 <= i < r.files.len() implies row_after_capture(
            s.files,
            #[trigger] r.files[i],
            i,
            dir_id,
            t,
            entries,
        ) by {}
    } else {
        let init = entries.drop_last();
        let e = entries.last();
        let mid = captured(s, dir_id, t, init);
        lemma_capture_entries_rows(s, dir_id, t, init);
        assert(capture_entry(mid, dir_id, t, e) == Ok::<StoreState, EngineError>(r));
        assert forall|k: int|
            0 <= k < entries.len() && (#[trigger] entries[k]).kind
                == EntryKind::RegularFile implies entries[k].name.is_some() by {
            if k < init.len() {
                assert(init[k] == entries[k]);
            }
        }
        if e.kind != EntryKind::RegularFile {
            assert(r == mid);
            assert forall|n: Seq<char>| last_regular(entries, n) == last_regular(init, n) by {}
            assert forall|i: int| 0 <= i < r.files.len() implies row_after_capture(
                s.files,
                #[trigger] r.files[i],
                i,
                dir_id,
                t,
                entries,
            ) by {
                assert(row_after_capture(s.files, mid.files[i], i, dir_id, t, init));
                let k = last_regular(init, r.files[i].name);
                lemma_last_regular(init, r.files[i].name);
                if k >= 0 {
                    assert(init[k] == entries[k]);
                }
            }
        } else {
            let name = e.name.unwrap();
            let p = lemma_with_file_rows(mid, dir_id, name, t, e.created_at, e.modified_at);
            assert(r == mid.with_file(dir_id, name, t, e.created_at, e.modified_at));
            assert forall|n: Seq<char>| n != name implies last_regular(entries, n) == last_regular(
                init,
                n,
            ) by {}
            assert(last_regular(entries, name) == entries.len() - 1);
            assert forall|i: int| 0 <= i < s.files.len() implies same_file(
                #[trigger] r.files[i],
                s.files[i],
            ) by {
                assert(same_file(mid.files[i], s.files[i]));
                if i != p {
                    assert(r.files[i] == mid.files[i]);
                } else {
                    assert(same_file(r.files[p], mid.files[p]));
                }
            }
            assert forall|i: int| 0 <= i < r.files.len() implies row_after_capture(
                s.files,
                #[trigger] r.files[i],
                i,
                dir_id,
                t,
                entries,
            ) by {
                if i != p {
                    assert(r.files[i] == mid.files[i]);
                    assert(row_after_capture(s.files, mid.files[i], i, dir_id, t, init));
                    let row = r.files[i];
                    let k = last_regular(init, row.name);
                    lemma_last_regular(init, row.name);
                    if row.directory_id == dir_id {
                        assert(row.name != name);
                        assert(last_regular(entries, row.name) == k);
                    }
                    if k >= 0 {
                        assert(init[k] == entries[k]);
                    }
                }
            }
            assert forall|n: Seq<char>| #[trigger]
                last_regular(entries, n) >= 0 implies r.file_position(dir_id, n).is_some() by {
                if n == name {
                    assert(r.file_at(p, dir_id, n));
                } else {
                    assert(last_regular(init, n) >= 0);
                    let q = mid.file_position(dir_id, n).unwrap();
                    assert(mid.file_at(q, dir_id, n));
                    if q != p {
                        assert(r.files[q] == mid.files[q]);
                    }
                    assert(r.file_at(q, dir_id, n));
                }
            }
        }
    }
}

/// Where every regular file among `entries` has a name and a row already, a
/// capture of them succeeds and adds no row.
pub proof fn lemma_recapture_adds_no_row(
    s: StoreState,
    dir_id: i64,
    t: Timestamp,
    entries: Seq<EntryView>,
)
    requires
        s.wf(),
        s.has_capture_at(dir_id, t),
        forall|k: int|
            0 <= k < entries.len() && (#[trigger] entries[k]).kind == EntryKind::RegularFile
                ==> entries[k].name.is_some() && s.file_position(
                dir_id,
                entries[k].name.unwrap(),
            ).is_some(),
    ensures
        capture_entries(s, dir_id, t, entries) is Ok,
        captured(s, dir_id, t, entries).files.len() == s.files.len(),
        captured(s, dir_id, t, entries).next_file_id == s.next_file_id,
    decreases entries.len(),
{
    if entries.len() > 0 {
        let init = entries.drop_last();
        let e = entries.last();
        assert forall|k: int|
            0 <= k < init.len() && (#[trigger] init[k]).kind
                == EntryKind::RegularFile implies init[k].name.is_some() && s.file_position(
            dir_id,
            init[k].name.unwrap(),
        ).is_some() by {
            assert(init[k] == entries[k]);
        }
        lemma_recapture_adds_no_row(s, dir_id, t, init);
        lemma_capture_entries_rows(s, dir_id, t, init);
        let mid = captured(s, dir_id, t, init);
        if e.kind == EntryKind::RegularFile {
            assert(entries[entries.len() - 1] == e);
            let name = e.name.unwrap();
            let q = s.file_position(dir_id, name).unwrap();
            assert(s.file_at(q, dir_id, name));
            assert(same_file(mid.files[q], s.files[q]));
            assert(mid.file_at(q, dir_id, name));
            lemma_with_file_rows(mid, dir_id, name, t, e.created_at, e.modified_at);
        }
    }
}

/// The identifier under which `s` holds the directory that `d` shows. It
/// means something only where `s` holds that directory.
pub open spec fn id_of(s: StoreState, d: SnapshotView) -> i64 {
    s.directory_id(d.path.unwrap()).unwrap()
}

/// After a capture succeeded, the store holds the directory, and the rows
/// of the file table are those that capturing the entries leaves.
pub proof fn lemma_capture_succeeded(s: StoreState, d: SnapshotView, t: Timestamp)
    requires
        s.wf(),
        capture_outcome(s, d, t).1 is Ok,
    ensures
        ({
            let after = capture_outcome(s, d, t).0;
            let id = id_of(after, d);
            let opened = resolve(s, d.path).0.with_capture_logged(id, t);
            &&& d.exists
            &&& d.path.is_some()
            &&& resolve(s, d.path).1 == Ok::<i64, EngineError>(id)
            &&& after.wf()
            &&& after.has_path(d.path.unwrap())
            &&& after.has_directory_id(id)
            &&& resolve(after, d.path) == (after, Ok::<i64, EngineError>(id))
            &&& opened.wf()
            &&& opened.has_capture_at(id, t)
            &&& opened.files == s.files
            &&& opened.log == s.log.push(capture_line(id, t))
            &&& capture_entries(opened, id, t, d.entries) == Ok::<StoreState, EngineError>(after)
            &&& after.log == opened.log
            &&& after.dirs == opened.dirs
            &&& after.next_dir_id == opened.next_dir_id
        }),
{
    let after = capture_outcome(s, d, t).0;
    lemma_resolve_settles(s, d.path);
    let resolved = resolve(s, d.path).0;
    let id = resolve(s, d.path).1.unwrap();
    let p = d.path.unwrap();
    let opened = resolved.with_capture_logged(id, t);
    lemma_with_capture_logged_wf(resolved, id, t);
    assert(opened.capture_at_time(opened.log.len() - 1, id, t));
    lemma_capture_entries_keeps(opened, id, t, d.entries);
    let i = choose|i: int| resolved.dir_at(i, p);
    assert(resolved.dir_at(i, p));
    assert(after.dir_at(i, p));
    lemma_directory_id_at(resolved, i, p);
    lemma_directory_id_at(after, i, p);
    assert(after.dir_id_at(i, id));
}

/// What a successful capture leaves in the store. The log has one line
/// more, for the directory at `t`. Every regular file of the directory has a
/// row, which bears `t` and the creation and modification time that the
/// capture saw. Every other row is as it was, and no row has changed its
/// place, its identifier, its directory or its name.
pub proof fn lemma_capture_records(s: StoreState, d: SnapshotView, t: Timestamp)
    requires
        s.wf(),
        capture_outcome(s, d, t).1 is Ok,
    ensures
        ({
            let after = capture_outcome(s, d, t).0;
            let id = id_of(after, d);
            &&& after.log == s.log.push(capture_line(id, t))
            &&& s.files.len() <= after.files.len()
            &&& forall|i: int|
                0 <= i < s.files.len() ==> same_file(#[trigger] after.files[i], s.files[i])
            &&& forall|n: Seq<char>| #[trigger]
                d.has_regular_file(n) ==> {
                    let row = after.files[after.file_position(id, n).unwrap()];
                    let seen = d.entries[last_regular(d.entries, n)];
                    &&& after.file_position(id, n).is_some()
                    &&& row.captured_at == t
                    &&& row.created_at == seen.created_at
                    &&& row.modified_at == seen.modified_at
                }
            &&& forall|i: int|
                0 <= i < after.files.len() && !((#[trigger] after.files[i]).directory_id == id
                    && d.has_regular_file(after.files[i].name)) ==> i < s.files.len()
                    && after.files[i] == s.files[i]
        }),
{
    let after = capture_outcome(s, d, t).0;
    lemma_capture_succeeded(s, d, t);
    let id = id_of(after, d);
    let opened = resolve(s, d.path).0.with_capture_logged(id, t);
    lemma_capture_entries_rows(opened, id, t, d.entries);
    assert forall|n: Seq<char>| #[trigger] d.has_regular_file(n) implies {
        let row = after.files[after.file_position(id, n).unwrap()];
        let seen = d.entries[last_regular(d.entries, n)];
        &&& after.file_position(id, n).is_some()
        &&& row.captured_at == t
        &&& row.created_at == seen.created_at
        &&& row.modified_at == seen.modified_at
    } by {
        lemma_has_regular_file(d, n);
        assert(last_regular(d.entries, n) >= 0);
        let p = after.file_position(id, n).unwrap();
        assert(after.file_at(p, id, n));
        assert(row_after_capture(opened.files, after.files[p], p, id, t, d.entries));
    }
    assert forall|i: int|
        0 <= i < after.files.len() && !((#[trigger] after.files[i]).directory_id == id
            && d.has_regular_file(after.files[i].name)) implies i < s.files.len()
        && after.files[i] == s.files[i] by {
        lemma_has_regular_file(d, after.files[i].name);
        assert(row_after_capture(opened.files, after.files[i], i, id, t, d.entries));
    }
}

/// Capturing a directory again, unchanged, adds nothing but one line to the
/// log. The second capture succeeds. The directory table is as it was. The
/// file table has the same rows for the same files; those of the directory's
/// regular files bear the time of the second capture, and every other row
/// is as it was.
pub proof fn lemma_capture_twice(s: StoreState, d: SnapshotView, t1: Timestamp, t2: Timestamp)
    requires
        s.wf(),
        capture_outcome(s, d, t1).1 is Ok,
    ensures
        ({
            let first = capture_outcome(s, d, t1).0;
            let second = capture_outcome(first, d, t2).0;
            let id = id_of(first, d);
            &&& capture_outcome(first, d, t2).1 is Ok
            &&& second.dirs == first.dirs
            &&& second.next_dir_id == first.next_dir_id
            &&& second.log == first.log.push(capture_line(id, t2))
            &&& second.files.len() == first.files.len()
            &&& second.next_file_id == first.next_file_id
            &&& forall|i: int|
                0 <= i < first.files.len() ==> same_file(#[trigger] second.files[i], first.files[i])
            &&& forall|i: int|
                0 <= i < first.files.len() ==> if (#[trigger] second.files[i]).directory_id == id
                    && d.has_regular_file(second.files[i].name) {
                    second.files[i].captured_at == t2
                } else {
                    second.files[i] == first.files[i]
                }
        }),
{
    let first = capture_outcome(s, d, t1).0;
    lemma_capture_succeeded(s, d, t1);
    let id = id_of(first, d);
    let opened1 = resolve(s, d.path).0.with_capture_logged(id, t1);
    lemma_capture_entries_rows(opened1, id, t1, d.entries);
    let opened2 = first.with_capture_logged(id, t2);
    lemma_with_capture_logged_wf(first, id, t2);
    assert(opened2.capture_at_time(opened2.log.len() - 1, id, t2));
    assert forall|k: int|
        0 <= k < d.entries.len() && (#[trigger] d.entries[k]).kind
            == EntryKind::RegularFile implies d.entries[k].name.is_some() && opened2.file_position(
        id,
        d.entries[k].name.unwrap(),
    ).is_some() by {
        let n = d.entries[k].name.unwrap();
        lemma_last_regular(d.entries, n);
        assert(d.entries[k].is_regular_named(n));
        assert(last_regular(d.entries, n) >= 0);
        let q = first.file_position(id, n).unwrap();
        assert(first.file_at(q, id, n));
        assert(opened2.file_at(q, id, n));
    }
    lemma_recapture_adds_no_row(opened2, id, t2, d.entries);
    lemma_capture_entries_rows(opened2, id, t2, d.entries);
    let second = captured(opened2, id, t2, d.entries);
    assert(capture_outcome(first, d, t2) == (second, Ok::<(), EngineError>(())));
    assert forall|i: int| 0 <= i < first.files.len() implies if (
    #[trigger] second.files[i]).directory_id == id && d.has_regular_file(second.files[i].name) {
        second.files[i].captured_at == t2
    } else {
        second.files[i] == first.files[i]
    } by {
        lemma_has_regular_file(d, second.files[i].name);
        assert(row_after_capture(opened2.files, second.files[i], i, id, t2, d.entries));
    }
}

/// A capture that fails leaves no trace of the pass: the log and the file
/// table are as they were, line for line and row for row. The one thing a
/// failed capture may leave is the record of a directory that the store
/// did not hold before; where the store held the directory, or the
/// directory does not exist or has no path in text, the whole state is as it
/// was.
pub proof fn lemma_failed_capture_writes_nothing(s: StoreState, d: SnapshotView, t: Timestamp)
    requires
        s.wf(),
        capture_outcome(s, d, t).1 is Err,
    ensures
        capture_outcome(s, d, t).0.wf(),
        capture_outcome(s, d, t).0.log == s.log,
        capture_outcome(s, d, t).0.files == s.files,
        capture_outcome(s, d, t).0.next_file_id == s.next_file_id,
        capture_outcome(s, d, t).0 == if d.exists {
            resolve(s, d.path).0
        } else {
            s
        },
        !d.exists || d.path.is_none() || s.has_path(d.path.unwrap()) ==> capture_outcome(s, d, t).0
            == s,
{
    lemma_resolve_settles(s, d.path);
}

/// Restoring a directory that was never captured asks for no write and is
/// no error, whether the store held the directory before or not.
pub proof fn lemma_restore_without_capture(s: StoreState, d: SnapshotView)
    requires
        s.wf(),
        d.exists,
        d.path.is_some(),
        s.has_path(d.path.unwrap()) || s.next_dir_id < i64::MAX,
        s.has_path(d.path.unwrap()) ==> !s.has_capture(id_of(s, d)),
    ensures
        restore_outcome(s, d).1 == Ok::<Seq<WriteView>, EngineError>(Seq::empty()),
        restore_outcome(s, d).0.files == s.files,
        restore_outcome(s, d).0.log == s.log,
{
    lemma_resolve_settles(s, d.path);
    let resolved = resolve(s, d.path).0;
    let id = resolve(s, d.path).1.unwrap();
    if resolved.has_capture(id) {
        let j = choose|j: int| resolved.capture_at(j, id);
        assert(resolved.capture_at(j, id));
        assert(s.capture_at(j, id));
        assert(s.has_directory_id(s.log[j].directory_id));
        if !s.has_path(d.path.unwrap()) {
            let k = choose|k: int| s.dir_id_at(k, id);
            assert(s.dirs[k].id < s.next_dir_id);
        }
    }
}

/// No two rows are records of the same file of the same directory.
pub open spec fn one_row_per_file(rows: Seq<FileRow>) -> bool {
    forall|i: int, j: int|
        0 <= i < j < rows.len() ==> !((#[trigger] rows[i]).directory_id == (
        #[trigger] rows[j]).directory_id && rows[i].name == rows[j].name)
}

/// Filtering rows keeps exactly the rows that pass, and keeps them one per
/// file where they were so.
pub proof fn lemma_filter_rows(rows: Seq<FileRow>, pred: spec_fn(FileRow) -> bool)
    requires
        one_row_per_file(rows),
    ensures
        one_row_per_file(rows.filter(pred)),
        forall|x: int|
            0 <= x < rows.filter(pred).len() ==> rows.contains(#[trigger] rows.filter(pred)[x])
                && pred(rows.filter(pred)[x]),
        forall|i: int|
            0 <= i < rows.len() && pred(rows[i]) ==> rows.filter(pred).contains(#[trigger] rows[i]),
    decreases rows.len(),
{
    reveal(Seq::filter);
    if rows.len() > 0 {
        let init = rows.drop_last();
        let last = rows.last();
        assert forall|i: int, j: int| 0 <= i < j < init.len() implies !((
        #[trigger] init[i]).directory_id == (#[trigger] init[j]).directory_id && init[i].name
            == init[j].name) by {
            assert(init[i] == rows[i] && init[j] == rows[j]);
        }
        lemma_filter_rows(init, pred);
        let kept = init.filter(pred);
        let out = rows.filter(pred);
        assert forall|x: int| 0 <= x < out.len() implies rows.contains(#[trigger] out[x]) && pred(
            out[x],
        ) by {
            if x < kept.len() {
                assert(out[x] == kept[x]);
                assert(init.contains(kept[x]));
                let i = choose|i: int| 0 <= i < init.len() && init[i] == kept[x];
                assert(rows[i] == out[x]);
            } else {
                assert(out[x] == last);
                assert(rows[rows.len() - 1] == last);
            }
        }
        assert forall|i: int| 0 <= i < rows.len() && pred(rows[i]) implies out.contains(
            #[trigger] rows[i],
        ) by {
            if i < init.len() {
                assert(init[i] == rows[i]);
                assert(kept.contains(init[i]));
                let x = choose|x: int| 0 <= x < kept.len() && kept[x] == init[i];
                assert(out[x] == rows[i]);
            } else {
                assert(out[out.len() - 1] == rows[i]);
            }
        }
        assert forall|x: int, y: int| 0 <= x < y < out.len() implies !((
        #[trigger] out[x]).directory_id == (#[trigger] out[y]).directory_id && out[x].name
            == out[y].name) by {
            if y < kept.len() {
                assert(out[x] == kept[x] && out[y] == kept[y]);
            } else {
                assert(out[y] == last);
                assert(out[x] == kept[x]);
                assert(init.contains(kept[x]));
                let i = choose|i: int| 0 <= i < init.len() && init[i] == kept[x];
                assert(rows[i] == out[x]);
                assert(rows[rows.len() - 1] == last);
            }
        }
    }
}

/// Every capture of the directory at `path` that the log of `s` holds was
/// made before the instant `t`.
pub open spec fn later_than_captures_of(s: StoreState, path: Option<Seq<char>>, t: Timestamp) -> bool {
    forall|j: int|
        0 <= j < s.log.len() && path.is_some() && s.directory_id(path.unwrap()) == Some(
            (#[trigger] s.log[j]).directory_id,
        ) ==> s.log[j].captured_at.precedes(t)
}

/// Write `x` of `writes` is for the file `name`.
pub open spec fn writes_to(writes: Seq<WriteView>, x: int, name: Seq<char>) -> bool {
    0 <= x < writes.len() && writes[x].name == name
}

/// The writes that a restore asks for after a capture at `t` of the
/// directory shown by `d`, when the directory is seen as `d2`, where it
/// succeeds.
pub open spec fn restored_writes(s: StoreState, d: SnapshotView, t: Timestamp, d2: SnapshotView) -> Seq<
    WriteView,
> {
    match restore_outcome(capture_outcome(s, d, t).0, d2).1 {
        Ok(writes) => writes,
        Err(_) => Seq::empty(),
    }
}

/// After a capture that is later than every earlier capture of the
/// directory, a restore succeeds, changes nothing in the store, and asks for
/// exactly one write for each file that was a regular file of the directory
/// when it was captured and is one still: the write gives the file the
/// modification time that the capture saw. A file that was not there at the
/// capture gets no write, whatever the store held of it before, and a file
/// that has gone since is passed over.
pub proof fn lemma_restore_after_capture(
    s: StoreState,
    d: SnapshotView,
    t: Timestamp,
    d2: SnapshotView,
)
    requires
        s.wf(),
        capture_outcome(s, d, t).1 is Ok,
        later_than_captures_of(s, d.path, t),
        d2.exists,
        d2.path == d.path,
    ensures
        ({
            let after = capture_outcome(s, d, t).0;
            let writes = restored_writes(s, d, t, d2);
            &&& restore_outcome(after, d2) == (after, Ok::<Seq<WriteView>, EngineError>(writes))
            &&& forall|x: int|
                0 <= x < writes.len() ==> d.has_regular_file((#[trigger] writes[x]).name)
                    && d2.has_regular_file(writes[x].name) && writes[x].modified_at
                    == d.entries[last_regular(d.entries, writes[x].name)].modified_at
            &&& forall|n: Seq<char>|
                d.has_regular_file(n) && #[trigger] d2.has_regular_file(n) ==> exists|x: int|
                    writes_to(writes, x, n)
            &&& forall|x: int, y: int|
                0 <= x < y < writes.len() ==> (#[trigger] writes[x]).name != (
                #[trigger] writes[y]).name
        }),
{
    let after = capture_outcome(s, d, t).0;
    lemma_capture_succeeded(s, d, t);
    let id = id_of(after, d);
    let resolved = resolve(s, d.path).0;
    let opened = resolved.with_capture_logged(id, t);
    lemma_capture_entries_rows(opened, id, t, d.entries);
    lemma_resolve_settles(s, d.path);
    // The capture at `t` is the latest of the directory.
    let last_line = after.log.len() - 1;
    assert(after.capture_at_time(last_line, id, t));
    assert forall|j: int| #[trigger] after.capture_at(j, id) implies after.log[j].captured_at.not_after(t) by {
        if j < last_line {
            assert(after.log[j] == s.log[j]);
            assert(s.has_directory_id(id));
            assert(resolved == s);
            assert(s.directory_id(d.path.unwrap()) == Some(s.log[j].directory_id));
        }
    }
    assert(after.is_latest_capture(id, t));
    assert(after.capture_at(last_line, id));
    lemma_latest_capture(after, id);
    lemma_latest_capture_unique(after, id, t, after.latest_capture(id).unwrap());
    // The rows of that capture are the rows of the regular files in `d`.
    let chosen = after.files.filter(captured_in(id, t));
    let present = chosen.filter(still_present(d2));
    assert(one_row_per_file(after.files));
    lemma_filter_rows(after.files, captured_in(id, t));
    lemma_filter_rows(chosen, still_present(d2));
    let writes = writes_for(present);
    assert(restore_outcome(after, d2).1 == Ok::<Seq<WriteView>, EngineError>(writes));
    assert forall|x: int| 0 <= x < writes.len() implies d.has_regular_file(
        (#[trigger] writes[x]).name,
    ) && d2.has_regular_file(writes[x].name) && writes[x].modified_at
        == d.entries[last_regular(d.entries, writes[x].name)].modified_at by {
        let row = present[x];
        assert(chosen.contains(row));
        let c = choose|c: int| 0 <= c < chosen.len() && chosen[c] == row;
        assert(after.files.contains(chosen[c]));
        let i = choose|i: int| 0 <= i < after.files.len() && after.files[i] == row;
        assert(captured_in(id, t)(chosen[c]));
        assert(still_present(d2)(present[x]));
        assert(row_after_capture(opened.files, after.files[i], i, id, t, d.entries));
        lemma_has_regular_file(d, row.name);
        if last_regular(d.entries, row.name) < 0 {
            assert(s.files[i] == row);
            let j = choose|j: int| s.capture_at_time(j, id, t);
            assert(s.capture_at_time(j, id, t));
            assert(s.has_directory_id(s.log[j].directory_id));
            assert(resolved == s);
            assert(s.directory_id(d.path.unwrap()) == Some(s.log[j].directory_id));
            assert(s.log[j].captured_at.precedes(t));
        }
    }
    assert forall|n: Seq<char>|
        d.has_regular_file(n) && #[trigger] d2.has_regular_file(n) implies exists|x: int|
        writes_to(writes, x, n) by {
        lemma_has_regular_file(d, n);
        assert(last_regular(d.entries, n) >= 0);
        let i = after.file_position(id, n).unwrap();
        assert(after.file_at(i, id, n));
        assert(row_after_capture(opened.files, after.files[i], i, id, t, d.entries));
        assert(captured_in(id, t)(after.files[i]));
        assert(chosen.contains(after.files[i]));
        let c = choose|c: int| 0 <= c < chosen.len() && chosen[c] == after.files[i];
        assert(still_present(d2)(chosen[c]));
        assert(present.contains(chosen[c]));
        let x = choose|x: int| 0 <= x < present.len() && present[x] == chosen[c];
        assert(writes_to(writes, x, n));
    }
    assert forall|x: int, y: int| 0 <= x < y < writes.len() implies (#[trigger] writes[x]).name
        != (#[trigger] writes[y]).name by {
        let a = present[x];
        let b = present[y];
        assert(chosen.contains(a));
        assert(chosen.contains(b));
        let ca = choose|c: int| 0 <= c < chosen.len() && chosen[c] == a;
        let cb = choose|c: int| 0 <= c < chosen.len() && chosen[c] == b;
        assert(captured_in(id, t)(chosen[ca]));
        assert(captured_in(id, t)(chosen[cb]));
    }
}

/// Writes change modification times and nothing else: the directory keeps
/// its entries, and each entry its name, its path, its kind and its
/// creation time.
pub proof fn lemma_writes_keep_entries(d: SnapshotView, writes: Seq<WriteView>)
    ensures
        after_writes(d, writes).exists == d.exists,
        after_writes(d, writes).path == d.path,
        after_writes(d, writes).entries.len() == d.entries.len(),
        forall|i: int|
            0 <= i < d.entries.len() ==> {
                let e = #[trigger] after_writes(d, writes).entries[i];
                e.name == d.entries[i].name && e.path == d.entries[i].path && e.kind
                    == d.entries[i].kind && e.created_at == d.entries[i].created_at
            },
    decreases writes.len(),
{
    if writes.len() > 0 {
        lemma_writes_keep_entries(d, writes.drop_last());
    }
}

/// An entry for which there is no write is as it was after the writes.
pub proof fn lemma_writes_pass_over(d: SnapshotView, writes: Seq<WriteView>, i: int)
    requires
        0 <= i < d.entries.len(),
        forall|x: int|
            0 <= x < writes.len() ==> !d.entries[i].is_regular_named((#[trigger] writes[x]).name),
    ensures
        after_writes(d, writes).entries[i] == d.entries[i],
    decreases writes.len(),
{
    if writes.len() > 0 {
        let init = writes.drop_last();
        assert forall|x: int| 0 <= x < init.len() implies !d.entries[i].is_regular_named(
            (#[trigger] init[x]).name,
        ) by {
            assert(init[x] == writes[x]);
        }
        lemma_writes_pass_over(d, init, i);
        lemma_writes_keep_entries(d, init);
        assert(writes[writes.len() - 1] == writes.last());
    }
}

/// A regular file for which there is exactly one write has, after the
/// writes, the modification time of that write.
pub proof fn lemma_writes_reach(d: SnapshotView, writes: Seq<WriteView>, i: int, x: int)
    requires
        0 <= i < d.entries.len(),
        0 <= x < writes.len(),
        d.entries[i].is_regular_named(writes[x].name),
        forall|y: int| 0 <= y < writes.len() && y != x ==> (#[trigger] writes[y]).name != writes[x].name,
    ensures
        after_writes(d, writes).entries[i].modified_at == writes[x].modified_at,
    decreases writes.len(),
{
    let init = writes.drop_last();
    lemma_writes_keep_entries(d, init);
    if x == writes.len() - 1 {
    } else {
        assert(init[x] == writes[x]);
        assert forall|y: int| 0 <= y < init.len() && y != x implies (#[trigger] init[y]).name
            != init[x].name by {
            assert(init[y] == writes[y]);
        }
        lemma_writes_reach(d, init, i, x);
        assert(writes[writes.len() - 1] == writes.last());
    }
}

/// `later` shows the same directory as `earlier` with the same entries,
/// which may have other timestamps.
pub open spec fn same_entries(earlier: SnapshotView, later: SnapshotView) -> bool {
    &&& later.exists == earlier.exists
    &&& later.path == earlier.path
    &&& later.entries.len() == earlier.entries.len()
    &&& forall|i: int|
        0 <= i < earlier.entries.len() ==> (#[trigger] later.entries[i]).name
            == earlier.entries[i].name && later.entries[i].kind == earlier.entries[i].kind
}

/// Capture, change, restore: the files get their modification times back.
///
/// Let a directory be captured, at an instant later than its earlier
/// captures, when it looks like `d`; let its files' timestamps change
/// afterwards, so that it looks like `d2`; and let the writes of a restore
/// be performed on it. Then every regular file has the modification time
/// that it had in `d`, every other entry is as in `d2`, and no creation
/// time has changed from `d2`.
pub proof fn lemma_round_trip(s: StoreState, d: SnapshotView, t: Timestamp, d2: SnapshotView)
    requires
        s.wf(),
        d.names_distinct(),
        capture_outcome(s, d, t).1 is Ok,
        later_than_captures_of(s, d.path, t),
        same_entries(d, d2),
    ensures
        ({
            let after = capture_outcome(s, d, t).0;
            let writes = restored_writes(s, d, t, d2);
            let restored = after_writes(d2, writes);
            &&& restore_outcome(after, d2) == (after, Ok::<Seq<WriteView>, EngineError>(writes))
            &&& restored.entries.len() == d.entries.len()
            &&& forall|i: int|
                0 <= i < d.entries.len() ==> (#[trigger] restored.entries[i]).created_at
                    == d2.entries[i].created_at && restored.entries[i].name == d2.entries[i].name
                    && restored.entries[i].kind == d2.entries[i].kind
            &&& forall|i: int|
                0 <= i < d.entries.len() ==> if d.entries[i].kind == EntryKind::RegularFile {
                    (#[trigger] restored.entries[i]).modified_at == d.entries[i].modified_at
                } else {
                    restored.entries[i] == d2.entries[i]
                }
        }),
{
    lemma_capture_succeeded(s, d, t);
    lemma_restore_after_capture(s, d, t, d2);
    let after = capture_outcome(s, d, t).0;
    let id = id_of(after, d);
    let opened = resolve(s, d.path).0.with_capture_logged(id, t);
    lemma_capture_entries_rows(opened, id, t, d.entries);
    let writes = restored_writes(s, d, t, d2);
    let restored = after_writes(d2, writes);
    lemma_writes_keep_entries(d2, writes);
    assert forall|i: int| 0 <= i < d.entries.len() implies if d.entries[i].kind
        == EntryKind::RegularFile {
        (#[trigger] restored.entries[i]).modified_at == d.entries[i].modified_at
    } else {
        restored.entries[i] == d2.entries[i]
    } by {
        if d.entries[i].kind == EntryKind::RegularFile {
            let n = d.entries[i].name.unwrap();
            assert(d.entries[i].is_regular_named(n));
            assert(d2.entries[i].is_regular_named(n));
            assert(d.has_regular_file(n));
            assert(d2.has_regular_file(n));
            let x = choose|x: int| writes_to(writes, x, n);
            assert(writes_to(writes, x, n));
            lemma_last_regular(d.entries, n);
            let k = last_regular(d.entries, n);
            if k < i {
                assert(d.entries[k].name != d.entries[i].name);
            } else if i < k {
                assert(d.entries[i].name != d.entries[k].name);
            }
            lemma_writes_reach(d2, writes, i, x);
        } else {
            lemma_writes_pass_over(d2, writes, i);
        }
    }
}

} // verus!
