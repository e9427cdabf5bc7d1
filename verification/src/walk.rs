//! A whole traversal: which directories a walk over a directory tree
//! captures, and in what order.
use vstd::prelude::*;
use crate::capture::capture_outcome;
use crate::error::EngineError;
use crate::snapshot::SnapshotView;
use crate::state::StoreState;
use crate::timestamp::Timestamp;
use crate::traversal::{TraversalState, subdirectories};

verus! {

/// A directory tree as it stands on disk: what is seen of a directory, and
/// the trees of its subdirectories.
pub struct TreeView {
    pub dir: SnapshotView,
    pub subtrees: Seq<TreeView>,
}

/// The paths of the roots of `trees`, in order.
pub open spec fn root_paths(trees: Seq<TreeView>) -> Seq<Option<Seq<char>>> {
    Seq::new(trees.len(), |i: int| trees[i].dir.path)
}

/// The tree is what a reader of the disk finds: under each directory stand
/// the trees of exactly the subdirectories that its listing shows, in the
/// order of the listing, and each of them exists.
pub open spec fn tree_wf(tree: TreeView) -> bool
    decreases tree,
{
    &&& root_paths(tree.subtrees) == subdirectories(tree.dir)
    &&& forall|i: int|
        0 <= i < tree.subtrees.len() ==> (#[trigger] tree.subtrees[i]).dir.exists && tree_wf(
            tree.subtrees[i],
        )
}

/// Every tree is as a reader finds it, and each root exists or at least has
/// a path in text.
pub open spec fn forest_wf(trees: Seq<TreeView>) -> bool {
    forall|i: int|
        0 <= i < trees.len() ==> tree_wf(#[trigger] trees[i]) && (trees[i].dir.exists
            || trees[i].dir.path.is_some())
}

/// How many directories the tree holds.
pub open spec fn tree_size(tree: TreeView) -> nat
    decreases tree, 1nat,
{
    1 + forest_size(tree.subtrees)
}

/// How many directories the trees hold together.
pub open spec fn forest_size(trees: Seq<TreeView>) -> nat
    decreases trees, 0nat,
{
    if trees.len() == 0 {
        0
    } else {
        tree_size(trees[0]) + forest_size(trees.skip(1))
    }
}

/// The directories of the tree, each before its subdirectories, and the
/// subdirectories in the order of the listing with all that stands below
/// one before the next.
pub open spec fn preorder(tree: TreeView) -> Seq<SnapshotView>
    decreases tree, 1nat,
{
    seq![tree.dir] + preorder_all(tree.subtrees)
}

/// The directories of the trees, tree after tree, each in [`preorder`].
pub open spec fn preorder_all(trees: Seq<TreeView>) -> Seq<SnapshotView>
    decreases trees, 0nat,
{
    if trees.len() == 0 {
        Seq::empty()
    } else {
        preorder(trees[0]) + preorder_all(trees.skip(1))
    }
}

/// Captures `dirs` one after the other, the first at the instant
/// `clock(tick)`, the next at `clock(tick + 1)` and so on, and stops at the
/// first capture that fails.
pub open spec fn capture_all(
    s: StoreState,
    dirs: Seq<SnapshotView>,
    clock: spec_fn(int) -> Timestamp,
    tick: int,
) -> (StoreState, Result<(), EngineError>)
    decreases dirs.len(),
{
    if dirs.len() == 0 {
        (s, Ok(()))
    } else {
        match capture_outcome(s, dirs[0], clock(tick)) {
            (after, Ok(_)) => capture_all(after, dirs.skip(1), clock, tick + 1),
            (after, Err(e)) => (after, Err(e)),
        }
    }
}

/// A walk: as long as the traversal names a next directory, that directory
/// is read and visited, at the instants `clock(tick)`, `clock(tick + 1)`
/// and so on. `trees` are the trees that stand on disk under the pending
/// paths. The walk ends when no directory is pending, at the first
/// failure, or after `limit` visits.
pub open spec fn walk(
    traversal: TraversalState,
    s: StoreState,
    trees: Seq<TreeView>,
    clock: spec_fn(int) -> Timestamp,
    tick: int,
    limit: nat,
) -> (StoreState, Result<(), EngineError>)
    decreases limit,
{
    match traversal.advanced() {
        (_, Err(e)) => (s, Err(e)),
        (_, Ok(None)) => (s, Ok(())),
        (taken, Ok(Some(_))) => if limit == 0 || trees.len() == 0 {
            (s, Ok(()))
        } else {
            match taken.visited(s, trees[0].dir, clock(tick)) {
                (_, after, Err(e)) => (after, Err(e)),
                (listed, after, Ok(_)) => walk(
                    listed,
                    after,
                    if traversal.recursive {
                        trees[0].subtrees + trees.skip(1)
                    } else {
                        trees.skip(1)
                    },
                    clock,
                    tick + 1,
                    (limit - 1) as nat,
                ),
            }
        },
    }
}

/// The directories of two rows of trees are those of the first row, then
/// those of the second, and their number is the sum.
pub proof fn lemma_forest_append(a: Seq<TreeView>, b: Seq<TreeView>)
    ensures
        preorder_all(a + b) == preorder_all(a) + preorder_all(b),
        forest_size(a + b) == forest_size(a) + forest_size(b),
    decreases a.len(),
{
    if a.len() == 0 {
        assert(a + b =~= b);
        assert(preorder_all(a) + preorder_all(b) =~= preorder_all(b));
    } else {
        assert((a + b)[0] == a[0]);
        assert((a + b).skip(1) =~= a.skip(1) + b);
        lemma_forest_append(a.skip(1), b);
        assert(preorder_all(a + b) =~= preorder_all(a) + preorder_all(b));
    }
}

/// A recursive walk captures the directories of the trees depth first:
/// every directory before its subdirectories, these in the order of the
/// listing, each with all that stands below it before the next. It ends
/// with the first capture that fails, and the store is then as that capture
/// left it.
pub proof fn lemma_walk_captures_preorder(
    traversal: TraversalState,
    s: StoreState,
    trees: Seq<TreeView>,
    clock: spec_fn(int) -> Timestamp,
    tick: int,
    limit: nat,
)
    requires
        traversal.recursive,
        traversal.pending == root_paths(trees),
        forest_wf(trees),
        limit >= forest_size(trees),
    ensures
        walk(traversal, s, trees, clock, tick, limit) == capture_all(
            s,
            preorder_all(trees),
            clock,
            tick,
        ),
    decreases limit,
{
    if trees.len() == 0 {
        assert(traversal.pending.len() == 0);
    } else {
        let tree = trees[0];
        let rest = trees.skip(1);
        let dirs = preorder_all(trees);
        let below = preorder_all(tree.subtrees);
        assert(preorder(tree) == seq![tree.dir] + below);
        assert(dirs == preorder(tree) + preorder_all(rest));
        assert(dirs[0] == tree.dir);
        assert(dirs.skip(1) =~= below + preorder_all(rest));
        assert(forest_size(trees) == tree_size(tree) + forest_size(rest));
        assert(tree_size(tree) == 1 + forest_size(tree.subtrees));
        assert(traversal.pending[0] == tree.dir.path);
        assert(tree_wf(tree));
        if tree.dir.path.is_some() {
            let taken = traversal.advanced().0;
            assert(taken.pending =~= root_paths(rest));
            let outcome = capture_outcome(s, tree.dir, clock(tick));
            if outcome.1 is Ok {
                let listed = taken.visited(s, tree.dir, clock(tick)).0;
                let next = tree.subtrees + rest;
                assert(listed.pending =~= root_paths(next));
                assert forall|i: int| 0 <= i < next.len() implies tree_wf(#[trigger] next[i]) && (
                next[i].dir.exists || next[i].dir.path.is_some()) by {
                    if i < tree.subtrees.len() {
                        assert(next[i] == tree.subtrees[i]);
                    } else {
                        assert(next[i] == trees[i - tree.subtrees.len() + 1]);
                    }
                }
                lemma_forest_append(tree.subtrees, rest);
                lemma_walk_captures_preorder(
                    listed,
                    outcome.0,
                    next,
                    clock,
                    tick + 1,
                    (limit - 1) as nat,
                );
                assert(dirs.skip(1) =~= preorder_all(next));
            }
        }
    }
}

/// A walk that does not descend captures the directory it starts at, and
/// nothing else.
pub proof fn lemma_plain_walk_captures_root(
    traversal: TraversalState,
    s: StoreState,
    tree: TreeView,
    clock: spec_fn(int) -> Timestamp,
    tick: int,
    limit: nat,
)
    requires
        !traversal.recursive,
        traversal.pending == seq![tree.dir.path],
        tree.dir.path.is_some(),
        limit >= 1,
    ensures
        walk(traversal, s, seq![tree], clock, tick, limit) == (
            capture_outcome(s, tree.dir, clock(tick)).0,
            capture_outcome(s, tree.dir, clock(tick)).1,
        ),
{
    let taken = traversal.advanced().0;
    assert(taken.pending =~= Seq::empty());
    let outcome = capture_outcome(s, tree.dir, clock(tick));
    assert(seq![tree][0] == tree);
    assert(traversal.pending[0] == tree.dir.path);
    if outcome.1 is Ok {
        let listed = taken.visited(s, tree.dir, clock(tick)).0;
        assert(listed == taken);
        assert(listed.advanced().1 == Ok::<Option<Seq<char>>, EngineError>(None));
        assert(walk(listed, outcome.0, seq![tree].skip(1), clock, tick + 1, (limit - 1) as nat) == (
            outcome.0,
            Ok::<(), EngineError>(()),
        ));
    }
}

} // verus!
