//! The display tree and its index as plain values: what it means for them
//! to be in step with the cache, and what each operation of the engine makes
//! of them.

use vstd::prelude::*;
use crate::cache::listed;
use crate::row::{row_of, Row, RowView};
use crate::task::{Error, Task};
use crate::text::canonical_text;

verus! {

/// One node of the display tree. Its handle is its position in the tree's
/// list of nodes; a node that was removed keeps its place and is marked.
pub struct Node {
    pub uuid: u128,
    pub parent: Option<usize>,
    pub row: Row,
    pub present: bool,
}

/// A node with its row as plain text.
pub struct NodeView {
    pub uuid: u128,
    pub parent: Option<usize>,
    pub row: RowView,
    pub present: bool,
}

impl Node {
    pub open spec fn view(&self) -> NodeView {
        NodeView { uuid: self.uuid, parent: self.parent, row: self.row@, present: self.present }
    }
}

/// The display tree and the index into it.
pub struct Forest {
    pub nodes: Seq<NodeView>,
    pub index: Map<u128, usize>,
}

/// The index and the tree tell the same story: the indexed identifiers are
/// exactly those of the nodes present, each entry points at the node of its
/// identifier, every indexed identifier has a record, the row of a node
/// present shows the canonical text of the node's identifier, and the parent
/// of a node present is present and was inserted before it.
pub open spec fn coherent(cache: Map<u128, Task>, forest: Forest) -> bool {
    &&& forall|uuid: u128| #[trigger]
        forest.index.contains_key(uuid) ==> {
            &&& cache.contains_key(uuid)
            &&& (forest.index[uuid] as int) < forest.nodes.len()
            &&& forest.nodes[forest.index[uuid] as int].present
            &&& forest.nodes[forest.index[uuid] as int].uuid == uuid
        }
    &&& forall|h: int|
        0 <= h < forest.nodes.len() && (#[trigger] forest.nodes[h]).present ==> {
            &&& forest.index.contains_key(forest.nodes[h].uuid)
            &&& forest.index[forest.nodes[h].uuid] as int == h
            &&& forest.nodes[h].row.uuid == canonical_text(forest.nodes[h].uuid)
            &&& forest.nodes[h].parent matches Some(p) ==> p < h && forest.nodes[p as int].present
        }
}

/// The tree follows the records: a node whose record names a parent hangs
/// under the node of that parent, and one whose record names none is a root.
pub open spec fn linked(cache: Map<u128, Task>, forest: Forest) -> bool {
    forall|uuid: u128| #[trigger]
        forest.index.contains_key(uuid) && cache.contains_key(uuid) ==> match cache[uuid].partof {
            Some(p) => forest.index.contains_key(p) && forest.nodes[forest.index[uuid] as int].parent
                == Some(forest.index[p]),
            None => forest.nodes[forest.index[uuid] as int].parent.is_none(),
        }
}

/// The identifiers that have to be inserted to show one: the identifier
/// itself and its ancestors up to the first one that is shown already or has
/// no parent, the identifier first. `visited` holds what was passed so far.
/// An identifier without a record is not found; a chain that comes back to an
/// identifier it passed, or that is longer than `fuel` allows, is a cycle.
pub open spec fn climb(
    cache: Map<u128, Task>,
    shown: Set<u128>,
    uuid: u128,
    visited: Seq<u128>,
    fuel: nat,
) -> Result<Seq<u128>, Error>
    decreases fuel,
{
    if shown.contains(uuid) {
        Ok(visited)
    } else if !cache.contains_key(uuid) {
        Err(Error::NotFound)
    } else if fuel == 0 || visited.contains(uuid) {
        Err(Error::CycleDetected)
    } else {
        match cache[uuid].partof {
            None => Ok(visited.push(uuid)),
            Some(p) => climb(cache, shown, p, visited.push(uuid), (fuel - 1) as nat),
        }
    }
}

/// The forest with one more node, for `uuid`, under the node of the parent
/// that its record names.
pub open spec fn with_node(cache: Map<u128, Task>, forest: Forest, uuid: u128) -> Forest {
    Forest {
        nodes: forest.nodes.push(
            NodeView {
                uuid,
                parent: match cache[uuid].partof {
                    Some(p) => Some(forest.index[p]),
                    None => None,
                },
                row: row_of(cache[uuid]),
                present: true,
            },
        ),
        index: forest.index.insert(uuid, forest.nodes.len() as usize),
    }
}

/// The forest after the identifiers of a path were inserted, the last of the
/// path first.
pub open spec fn grown(cache: Map<u128, Task>, forest: Forest, path: Seq<u128>) -> Forest
    decreases path.len(),
{
    if path.len() == 0 {
        forest
    } else {
        grown(cache, with_node(cache, forest, path.last()), path.drop_last())
    }
}

/// The forest after an identifier was shown, or why it cannot be shown.
pub open spec fn materialized(cache: Map<u128, Task>, forest: Forest, uuid: u128) -> Result<
    Forest,
    Error,
> {
    match climb(cache, forest.index.dom(), uuid, Seq::empty(), cache.len()) {
        Ok(path) => Ok(grown(cache, forest, path)),
        Err(e) => Err(e),
    }
}

/// A path as the climb builds it: records for all of it, none of it shown,
/// nothing twice, and each identifier the parent of the one before.
pub open spec fn is_chain(cache: Map<u128, Task>, shown: Set<u128>, path: Seq<u128>) -> bool {
    &&& forall|i: int|
        0 <= i < path.len() ==> cache.contains_key(#[trigger] path[i]) && !shown.contains(path[i])
    &&& forall|i: int, j: int| 0 <= i < j < path.len() ==> path[i] != path[j]
    &&& forall|i: int|
        0 <= i < path.len() - 1 ==> (#[trigger] cache[path[i]]).partof == Some(path[i + 1])
}

/// The forest with no node and no index entry.
pub open spec fn empty_forest() -> Forest {
    Forest { nodes: Seq::empty(), index: Map::empty() }
}

/// The forest after each of a list of identifiers was shown in turn, or the
/// first failure.
pub open spec fn shown_all(cache: Map<u128, Task>, forest: Forest, ids: Seq<u128>) -> Result<
    Forest,
    Error,
>
    decreases ids.len(),
{
    if ids.len() == 0 {
        Ok(forest)
    } else {
        match materialized(cache, forest, ids.first()) {
            Err(e) => Err(e),
            Ok(next) => shown_all(cache, next, ids.drop_first()),
        }
    }
}

/// The forest that a refresh builds from an empty one, given the cache and
/// the store's reply to the query for the identifiers to list.
pub open spec fn rebuilt(cache: Map<u128, Task>, listing: Option<&str>) -> Result<Forest, Error> {
    match listed(listing) {
        Err(e) => Err(e),
        Ok(ids) => shown_all(cache, empty_forest(), ids),
    }
}

/// The identifier shown at a handle; a handle without a node present is a
/// desynchronisation.
pub open spec fn shown_at(forest: Forest, handle: usize) -> Result<u128, Error> {
    if handle < forest.nodes.len() && forest.nodes[handle as int].present {
        Ok(forest.nodes[handle as int].uuid)
    } else {
        Err(Error::DesyncError)
    }
}

/// The identifier of the visual parent of the node at a handle.
pub open spec fn observed_parent(forest: Forest, handle: usize) -> Result<Option<u128>, Error> {
    if handle < forest.nodes.len() && forest.nodes[handle as int].present {
        match forest.nodes[handle as int].parent {
            Some(p) => Ok(Some(forest.nodes[p as int].uuid)),
            None => Ok(None),
        }
    } else {
        Err(Error::DesyncError)
    }
}

/// What a change of place of the node at a handle asks for: nothing where the
/// observed parent is the recorded one, else the identifier and its observed
/// parent, which the store has to be given.
pub open spec fn reparenting(cache: Map<u128, Task>, forest: Forest, handle: usize) -> Result<
    Option<(u128, Option<u128>)>,
    Error,
> {
    match (shown_at(forest, handle), observed_parent(forest, handle)) {
        (Ok(uuid), Ok(observed)) => if !cache.contains_key(uuid) {
            Err(Error::NotFound)
        } else if cache[uuid].partof == observed {
            Ok(None)
        } else {
            Ok(Some((uuid, observed)))
        },
        _ => Err(Error::DesyncError),
    }
}

/// Whether a handle lies in the subtree of `root`: it is `root`, or its node
/// hangs under a node that lies in that subtree.
pub open spec fn under(nodes: Seq<NodeView>, h: int, root: int) -> bool
    decreases h,
{
    h == root || (0 <= h < nodes.len() && match nodes[h].parent {
        Some(p) => p < h && under(nodes, p as int, root),
        None => false,
    })
}

/// The indexed identifiers whose nodes lie in the subtree of `root` and
/// before the handle `bound`.
pub open spec fn swept(forest: Forest, root: int, bound: int) -> Set<u128> {
    Set::new(
        |uuid: u128|
            forest.index.contains_key(uuid) && forest.index[uuid] < bound && under(
                forest.nodes,
                forest.index[uuid] as int,
                root,
            ),
    )
}

/// The forest without the subtree of `root`: the nodes of the subtree are
/// marked as removed and their identifiers leave the index.
pub open spec fn pruned(forest: Forest, root: int) -> Forest {
    Forest {
        nodes: Seq::new(
            forest.nodes.len(),
            |h: int|
                NodeView {
                    uuid: forest.nodes[h].uuid,
                    parent: forest.nodes[h].parent,
                    row: forest.nodes[h].row,
                    present: forest.nodes[h].present && !under(forest.nodes, h, root),
                },
        ),
        index: forest.index.remove_keys(swept(forest, root, forest.nodes.len() as int)),
    }
}

/// The forest after the node at a handle was moved under a new parent, or a
/// desynchronisation where the handle holds no node present or the parent is
/// not a node present outside the subtree that moves.
pub open spec fn relocated(
    cache: Map<u128, Task>,
    forest: Forest,
    handle: usize,
    parent: Option<usize>,
) -> Result<Forest, Error> {
    if !(handle < forest.nodes.len() && forest.nodes[handle as int].present) {
        Err(Error::DesyncError)
    } else if parent matches Some(p) && !(p < forest.nodes.len() && forest.nodes[p as int].present
        && !under(forest.nodes, p as int, handle as int)) {
        Err(Error::DesyncError)
    } else {
        let cut = pruned(forest, handle as int);
        let uuid = forest.nodes[handle as int].uuid;
        Ok(
            Forest {
                nodes: cut.nodes.push(
                    NodeView { uuid, parent, row: row_of(cache[uuid]), present: true },
                ),
                index: cut.index.insert(uuid, cut.nodes.len() as usize),
            },
        )
    }
}

/// Whether the node at a handle is present and is the node of an identifier.
pub open spec fn names(forest: Forest, handle: usize, uuid: u128) -> bool {
    handle < forest.nodes.len() && forest.nodes[handle as int].present
        && forest.nodes[handle as int].uuid == uuid
}

/// Whether the node at a handle hangs where the record of an identifier says.
pub open spec fn agrees(cache: Map<u128, Task>, forest: Forest, uuid: u128, handle: usize) -> bool {
    cache.contains_key(uuid) && handle < forest.nodes.len() && match cache[uuid].partof {
        Some(p) => forest.index.contains_key(p) && forest.nodes[handle as int].parent == Some(
            forest.index[p],
        ),
        None => forest.nodes[handle as int].parent.is_none(),
    }
}

/// The forest after one record was reconciled against a cache that holds its
/// new state, and how the reconciliation ends.
pub open spec fn reconciled(
    cache: Map<u128, Task>,
    forest: Forest,
    uuid: u128,
    new_handle: Option<usize>,
) -> (Forest, Result<(), Error>) {
    match new_handle {
        Some(handle) => if names(forest, handle, uuid) {
            (forest, Ok(()))
        } else {
            (forest, Err(Error::DesyncError))
        },
        None => if !forest.index.contains_key(uuid) {
            (forest, Err(Error::DesyncError))
        } else {
            let cleared = pruned(forest, forest.index[uuid] as int);
            match materialized(cache, cleared, uuid) {
                Ok(rebuilt) => (rebuilt, Ok(())),
                Err(e) => (cleared, Err(e)),
            }
        },
    }
}

/// A handle in the subtree of `root` is `root` or comes after it.
pub proof fn lemma_under_is_later(nodes: Seq<NodeView>, h: int, root: int)
    ensures
        under(nodes, h, root) ==> h >= root,
    decreases h,
{
    if h != root && 0 <= h < nodes.len() {
        if let Some(p) = nodes[h].parent {
            if p < h {
                lemma_under_is_later(nodes, p as int, root);
            }
        }
    }
}

/// Pruning the subtree of a node present keeps the forest coherent, keeps it
/// linked where it was, and takes the node's identifier out of the index.
pub proof fn lemma_pruned(cache: Map<u128, Task>, forest: Forest, root: int)
    requires
        coherent(cache, forest),
        0 <= root < forest.nodes.len(),
        forest.nodes[root].present,
    ensures
        coherent(cache, pruned(forest, root)),
        linked(cache, forest) ==> linked(cache, pruned(forest, root)),
        !pruned(forest, root).index.contains_key(forest.nodes[root].uuid),
{
    let after = pruned(forest, root);
    assert forall|uuid: u128| #[trigger] after.index.contains_key(uuid) implies {
        &&& cache.contains_key(uuid)
        &&& (after.index[uuid] as int) < after.nodes.len()
        &&& after.nodes[after.index[uuid] as int].present
        &&& after.nodes[after.index[uuid] as int].uuid == uuid
    } by {
        assert(forest.index.contains_key(uuid));
    }
    assert forall|h: int| 0 <= h < after.nodes.len() && (#[trigger] after.nodes[h]).present implies {
        &&& after.index.contains_key(after.nodes[h].uuid)
        &&& after.index[after.nodes[h].uuid] as int == h
        &&& after.nodes[h].row.uuid == canonical_text(after.nodes[h].uuid)
        &&& after.nodes[h].parent matches Some(p) ==> p < h && after.nodes[p as int].present
    } by {
        assert(forest.nodes[h].present);
    }
    if linked(cache, forest) {
        assert forall|uuid: u128| #[trigger]
            after.index.contains_key(uuid) && cache.contains_key(uuid) implies match cache[uuid].partof {
            Some(p) => after.index.contains_key(p) && after.nodes[after.index[uuid] as int].parent
                == Some(after.index[p]),
            None => after.nodes[after.index[uuid] as int].parent.is_none(),
        } by {
            assert(forest.index.contains_key(uuid));
        }
    }
    assert(forest.index.contains_key(forest.nodes[root].uuid));
}

/// After the record of a node changed, pruning the node's subtree leaves a
/// forest that is linked under the new cache where the old forest was linked
/// under the old one.
pub proof fn lemma_pruned_forgets(
    before: Map<u128, Task>,
    after: Map<u128, Task>,
    forest: Forest,
    root: int,
)
    requires
        coherent(before, forest),
        0 <= root < forest.nodes.len(),
        forest.nodes[root].present,
        before.contains_key(forest.nodes[root].uuid),
        after == before.insert(forest.nodes[root].uuid, after[forest.nodes[root].uuid]),
    ensures
        linked(before, forest) ==> linked(after, pruned(forest, root)),
{
    lemma_pruned(before, forest, root);
    if linked(before, forest) {
        let cut = pruned(forest, root);
        assert forall|uuid: u128| #[trigger]
            cut.index.contains_key(uuid) && after.contains_key(uuid) implies match after[uuid].partof {
            Some(p) => cut.index.contains_key(p) && cut.nodes[cut.index[uuid] as int].parent == Some(
                cut.index[p],
            ),
            None => cut.nodes[cut.index[uuid] as int].parent.is_none(),
        } by {
            assert(uuid != forest.nodes[root].uuid);
            assert(after[uuid] == before[uuid]);
        }
    }
}

} // verus!
