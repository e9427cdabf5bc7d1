//! What was observed of a directory on disk, as plain values.
use vstd::prelude::*;
use crate::timestamp::Timestamp;

verus! {

/// What kind of thing a directory entry is.
#[derive(Clone, Copy, Debug, PartialEq, Eq, Structural)]
pub enum EntryKind {
    RegularFile,
    Directory,
    Other,
}

/// One entry of a directory as it was observed. `name` is the entry's base
/// name and `path` its full path; either is `None` when it has no text form.
#[derive(Debug)]
pub struct DirEntry {
    pub name: Option<String>,
    pub path: Option<String>,
    pub kind: EntryKind,
    pub created_at: Timestamp,
    pub modified_at: Timestamp,
}

/// The mathematical value of a [`DirEntry`].
pub struct EntryView {
    pub name: Option<Seq<char>>,
    pub path: Option<Seq<char>>,
    pub kind: EntryKind,
    pub created_at: Timestamp,
    pub modified_at: Timestamp,
}

/// The text behind an optional string.
pub open spec fn text_of(s: Option<String>) -> Option<Seq<char>> {
    match s {
        Some(t) => Some(t@),
        None => None,
    }
}

impl View for DirEntry {
    type V = EntryView;

    open spec fn view(&self) -> EntryView {
        EntryView {
            name: text_of(self.name),
            path: text_of(self.path),
            kind: self.kind,
            created_at: self.created_at,
            modified_at: self.modified_at,
        }
    }
}

impl EntryView {
    /// The entry is a regular file called `name`.
    pub open spec fn is_regular_named(self, name: Seq<char>) -> bool {
        self.kind == EntryKind::RegularFile && self.name == Some(name)
    }

    /// The entry after the modification time of the regular file `name` was
    /// set to `t`: changed in that one field if it is that file, else as it
    /// was.
    pub open spec fn with_modified(self, name: Seq<char>, t: Timestamp) -> EntryView {
        if self.is_regular_named(name) {
            EntryView { modified_at: t, ..self }
        } else {
            self
        }
    }
}

/// A copy of an optional string.
pub fn copy_text(s: &Option<String>) -> (copy: Option<String>)
    ensures
        text_of(copy) == text_of(*s),
{
    match s {
        Some(t) => Some(t.clone()),
        None => None,
    }
}

/// A directory as it was observed at one moment: whether it exists, its path
/// (`None` when the path has no text form) and its entries in the order in
/// which the system listed them. A directory that does not exist has no
/// entries worth reading.
#[derive(Debug)]
pub struct DirectorySnapshot {
    pub exists: bool,
    pub path: Option<String>,
    pub entries: Vec<DirEntry>,
}

/// The mathematical value of a [`DirectorySnapshot`].
pub struct SnapshotView {
    pub exists: bool,
    pub path: Option<Seq<char>>,
    pub entries: Seq<EntryView>,
}

impl View for DirectorySnapshot {
    type V = SnapshotView;

    open spec fn view(&self) -> SnapshotView {
        SnapshotView {
            exists: self.exists,
            path: text_of(self.path),
            entries: Seq::new(self.entries@.len(), |i: int| self.entries@[i]@),
        }
    }
}

impl SnapshotView {
    /// Some entry is a regular file called `name`.
    pub open spec fn has_regular_file(self, name: Seq<char>) -> bool {
        exists|i: int| 0 <= i < self.entries.len() && (#[trigger] self.entries[i]).is_regular_named(name)
    }

    /// The directory after the modification time of the regular file `name`
    /// was set to `t`. Nothing but that one time changes.
    pub open spec fn with_modified(self, name: Seq<char>, t: Timestamp) -> SnapshotView {
        SnapshotView {
            entries: Seq::new(self.entries.len(), |i: int| self.entries[i].with_modified(name, t)),
            ..self
        }
    }

    /// No two entries that have a name have the same one.
    pub open spec fn names_distinct(self) -> bool {
        forall|i: int, j: int|
            0 <= i < j < self.entries.len() && (#[trigger] self.entries[i]).name.is_some()
                ==> self.entries[i].name != (#[trigger] self.entries[j]).name
    }
}

impl DirectorySnapshot {
    /// Whether some entry is a regular file called `name`.
    pub fn has_regular_file(&self, name: &String) -> (found: bool)
        ensures
            found == self@.has_regular_file(name@),
    {
        let mut i: usize = 0;
        while i < self.entries.len()
            invariant
                i <= self.entries@.len(),
                forall|k: int| 0 <= k < i ==> !(#[trigger] self@.entries[k]).is_regular_named(name@),
            decreases self.entries@.len() - i,
        {
            let entry = &self.entries[i];
            assert(self@.entries[i as int] == entry@);
            if entry.kind == EntryKind::RegularFile {
                match &entry.name {
                    Some(n) => {
                        if *n == *name {
                            assert(self@.entries[i as int].is_regular_named(name@));
                            return true;
                        }
                    },
                    None => {},
                }
            }
            i += 1;
        }
        false
    }

    /// Sets the modification time of the regular file `name` to `t` in this
    /// picture of the directory, as a write to the file itself would.
    pub fn set_modified(&mut self, name: &String, t: Timestamp)
        ensures
            final(self)@ == old(self)@.with_modified(name@, t),
    {
        let mut i: usize = 0;
        while i < self.entries.len()
            invariant
                i <= self.entries@.len(),
                self.exists == old(self).exists,
                self.path == old(self).path,
                self.entries@.len() == old(self).entries@.len(),
                forall|k: int| 0 <= k < i ==> (#[trigger] self@.entries[k]) == old(self)@.entries[k].with_modified(name@, t),
                forall|k: int| i <= k < self.entries@.len() ==> (#[trigger] self@.entries[k]) == old(self)@.entries[k],
            decreases self.entries@.len() - i,
        {
            let entry = &self.entries[i];
            assert(self@.entries[i as int] == entry@);
            let mut hit = false;
            if entry.kind == EntryKind::RegularFile {
                match &entry.name {
                    Some(n) => {
                        hit = *n == *name;
                    },
                    None => {},
                }
            }
            if hit {
                let changed = DirEntry {
                    name: copy_text(&entry.name),
                    path: copy_text(&entry.path),
                    kind: entry.kind,
                    created_at: entry.created_at,
                    modified_at: t,
                };
                let ghost before = self@;
                self.entries.set(i, changed);
                assert forall|k: int| 0 <= k < self.entries@.len() && k != i implies (
                #[trigger] self@.entries[k]) == before.entries[k] by {}
                assert(self@.entries[i as int] == changed@);
            }
            i += 1;
        }
        assert(self@.entries =~= old(self)@.with_modified(name@, t).entries);
    }
}

} // verus!
