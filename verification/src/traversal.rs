//! The traversal driver: which directories a capture visits, and in what
//! order.
use vstd::prelude::*;
use crate::capture::{capture_at, capture_outcome};
use crate::clock::now;
use crate::error::EngineError;
use crate::snapshot::{DirectorySnapshot, EntryKind, EntryView, SnapshotView, copy_text, text_of};
use crate::state::StoreState;
use crate::store::MetadataStore;
use crate::timestamp::Timestamp;

verus! {

/// The entries that are directories.
pub open spec fn is_directory() -> spec_fn(EntryView) -> bool {
    |e: EntryView| e.kind == EntryKind::Directory
}

/// The paths of `entries`, in order.
pub open spec fn paths_of(entries: Seq<EntryView>) -> Seq<Option<Seq<char>>> {
    Seq::new(entries.len(), |i: int| entries[i].path)
}

/// The paths of the directories that stand directly in `d`, in the order in
/// which `d` lists them.
pub open spec fn subdirectories(d: SnapshotView) -> Seq<Option<Seq<char>>> {
    paths_of(d.entries.filter(is_directory()))
}

/// Where a traversal stands: whether it descends into subdirectories, and
/// the paths still to visit, the next one first. A path is `None` where it
/// has no text form.
pub struct TraversalState {
    pub recursive: bool,
    pub pending: Seq<Option<Seq<char>>>,
}

impl TraversalState {
    /// The state in which nothing is left to visit.
    pub open spec fn stopped(self) -> TraversalState {
        TraversalState { pending: Seq::empty(), ..self }
    }

    /// Takes the next directory to visit: `Ok(None)` where none is left, the
    /// path where it has a text form. A path without one ends the traversal
    /// with `PathEncoding`.
    pub open spec fn advanced(self) -> (TraversalState, Result<Option<Seq<char>>, EngineError>) {
        if self.pending.len() == 0 {
            (self, Ok(None))
        } else {
            match self.pending[0] {
                Some(path) => (
                    TraversalState { pending: self.pending.skip(1), ..self },
                    Ok(Some(path)),
                ),
                None => (self.stopped(), Err(EngineError::PathEncoding)),
            }
        }
    }

    /// Visits the directory `d` at the instant `t`: captures it into `s`
    /// and, in a recursive traversal, puts its subdirectories before all
    /// that was pending, so that the tree is walked depth first. A capture
    /// that fails ends the traversal.
    pub open spec fn visited(self, s: StoreState, d: SnapshotView, t: Timestamp) -> (
        TraversalState,
        StoreState,
        Result<(), EngineError>,
    ) {
        match capture_outcome(s, d, t) {
            (after, Ok(_)) => (
                if self.recursive {
                    TraversalState { pending: subdirectories(d) + self.pending, ..self }
                } else {
                    self
                },
                after,
                Ok(()),
            ),
            (after, Err(e)) => (self.stopped(), after, Err(e)),
        }
    }
}

/// A traversal in progress. The caller asks for the next directory, reads
/// it, and hands what it read to [`Traversal::visit`], until no directory is
/// left.
pub struct Traversal {
    recursive: bool,
    pending: Vec<Option<String>>,
}

/// The texts behind a sequence of optional strings.
pub open spec fn texts_of(paths: Seq<Option<String>>) -> Seq<Option<Seq<char>>> {
    Seq::new(paths.len(), |i: int| text_of(paths[i]))
}

impl View for Traversal {
    type V = TraversalState;

    closed spec fn view(&self) -> TraversalState {
        TraversalState { recursive: self.recursive, pending: texts_of(self.pending@) }
    }
}

/// The paths of the directories that stand directly in `dir`.
fn subdirectory_paths(dir: &DirectorySnapshot) -> (paths: Vec<Option<String>>)
    ensures
        texts_of(paths@) == subdirectories(dir@),
{
    let mut paths: Vec<Option<String>> = Vec::new();
    let ghost all = dir@.entries;
    let mut i: usize = 0;
    proof {
        reveal(Seq::filter);
        assert(all.take(0) =~= Seq::empty());
        assert(texts_of(paths@) =~= paths_of(all.take(0).filter(is_directory())));
    }
    while i < dir.entries.len()
        invariant
            i <= dir.entries@.len(),
            all == dir@.entries,
            texts_of(paths@) == paths_of(all.take(i as int).filter(is_directory())),
        decreases dir.entries@.len() - i,
    {
        let entry = &dir.entries[i];
        let ghost kept = all.take(i as int).filter(is_directory());
        let ghost found = texts_of(paths@);
        proof {
            reveal(Seq::filter);
            assert(all.take(i + 1).drop_last() =~= all.take(i as int));
            assert(all.take(i + 1).last() == entry@);
        }
        if entry.kind == EntryKind::Directory {
            let path = copy_text(&entry.path);
            paths.push(path);
            proof {
                assert(all.take(i + 1).filter(is_directory()) == kept.push(entry@));
                assert(texts_of(paths@) =~= found.push(entry@.path));
                assert(paths_of(kept.push(entry@)) =~= found.push(entry@.path));
            }
        } else {
            assert(all.take(i + 1).filter(is_directory()) == kept);
        }
        i += 1;
    }
    proof {
        assert(all.take(i as int) =~= all);
    }
    paths
}

impl Traversal {
    /// A traversal that starts at `root`. With `recursive` it goes on into
    /// every subdirectory; without, it visits `root` alone.
    pub fn new(root: String, recursive: bool) -> (traversal: Traversal)
        ensures
            traversal@ == (TraversalState { recursive, pending: seq![Some(root@)] }),
    {
        let mut pending: Vec<Option<String>> = Vec::new();
        pending.push(Some(root));
        let traversal = Traversal { recursive, pending };
        assert(traversal@.pending =~= seq![Some(root@)]);
        traversal
    }

    /// Takes the next directory to visit off the list.
    pub fn next_directory(&mut self) -> (result: Result<Option<String>, EngineError>)
        ensures
            final(self)@ == old(self)@.advanced().0,
            match result {
                Ok(Some(path)) => old(self)@.advanced().1 == Ok::<
                    Option<Seq<char>>,
                    EngineError,
                >(Some(path@)),
                Ok(None) => old(self)@.advanced().1 == Ok::<Option<Seq<char>>, EngineError>(None),
                Err(e) => old(self)@.advanced().1 == Err::<Option<Seq<char>>, EngineError>(e),
            },
    {
        if self.pending.len() == 0 {
            return Ok(None);
        }
        let first = self.pending.remove(0);
        match first {
            Some(path) => {
                assert(self@.pending =~= old(self)@.pending.skip(1));
                Ok(Some(path))
            },
            None => {
                self.pending.clear();
                assert(self@.pending =~= Seq::empty());
                Err(EngineError::PathEncoding)
            },
        }
    }

    /// Visits the directory `dir` at the instant `now`: captures it into
    /// `store` and, in a recursive traversal, lists its subdirectories to
    /// be visited next.
    pub fn visit_at(&mut self, store: &mut MetadataStore, dir: &DirectorySnapshot, now: Timestamp) -> (result:
        Result<(), EngineError>)
        requires
            old(store).wf(),
        ensures
            final(store).wf(),
            (final(self)@, final(store)@, result) == old(self)@.visited(old(store)@, dir@, now),
    {
        match capture_at(store, dir, now) {
            Ok(_) => {
                if self.recursive {
                    let mut next = subdirectory_paths(dir);
                    next.append(&mut self.pending);
                    self.pending = next;
                    assert(self@.pending =~= subdirectories(dir@) + old(self)@.pending);
                }
                Ok(())
            },
            Err(e) => {
                self.pending.clear();
                assert(self@.pending =~= Seq::empty());
                Err(e)
            },
        }
    }

    /// Visits the directory `dir` at the instant that the system clock shows
    /// when the call is made. Whatever that instant is, the visit is the one
    /// that [`Traversal::visit_at`] makes for it.
    pub fn visit(&mut self, store: &mut MetadataStore, dir: &DirectorySnapshot) -> (result: Result<
        (),
        EngineError,
    >)
        requires
            old(store).wf(),
        ensures
            final(store).wf(),
            exists|t: Timestamp|
                (final(self)@, final(store)@, result) == #[trigger] old(self)@.visited(
                    old(store)@,
                    dir@,
                    t,
                ),
    {
        let t = now();
        self.visit_at(store, dir, t)
    }
}

} // verus!
