//! The engine: the cache, the display tree and the index from identifiers to
//! nodes, and the operations that keep the three in step.

use std::collections::HashMap;
use vstd::prelude::*;
use crate::cache::{fetched, get_tasks, lemma_first_record_uuid, listed, merged, TaskCache};
use crate::forest::{
    agrees, climb, coherent, empty_forest, grown, is_chain, lemma_pruned, lemma_pruned_forgets,
    lemma_under_is_later, linked, materialized, names, observed_parent, pruned, rebuilt,
    reconciled, relocated, reparenting, shown_all, shown_at, swept, under, with_node, Forest,
    Node,
};
use crate::row::make_row;
use crate::task::{Error, Task};

verus! {

broadcast use vstd::std_specs::hash::group_hash_axioms;

/// Whether a list of identifiers holds one.
fn holds(path: &Vec<u128>, uuid: u128) -> (found: bool)
    ensures
        found == path@.contains(uuid),
{
    let mut i: usize = 0;
    while i < path.len()
        invariant
            i <= path.len(),
            forall|j: int| 0 <= j < i ==> path@[j] != uuid,
        decreases path.len() - i,
    {
        if path[i] == uuid {
            return true;
        }
        i += 1;
    }
    false
}

/// The cache, the display tree and the index from identifiers to handles.
pub struct TaskTreeState {
    pub treestore: Vec<Node>,
    pub tasks: TaskCache,
    pub positions: HashMap<u128, usize>,
}

impl TaskTreeState {
    /// The tree and the index as plain values.
    pub open spec fn forest(&self) -> Forest {
        Forest { nodes: self.treestore@.map_values(|n: Node| n@), index: self.positions@ }
    }

    /// The cache is well formed, and the index and the tree are coherent.
    pub open spec fn wf(&self) -> bool {
        self.tasks.wf() && coherent(self.tasks@, self.forest())
    }

    /// The tree follows the part-of relation of the records.
    pub open spec fn is_linked(&self) -> bool {
        linked(self.tasks@, self.forest())
    }

    /// An engine with an empty cache and an empty tree.
    pub fn new() -> (state: Self)
        ensures
            state.wf(),
            state.is_linked(),
            state.tasks@ == Map::<u128, Task>::empty(),
            state.forest().nodes.len() == 0,
            state.forest().index == Map::<u128, usize>::empty(),
    {
        TaskTreeState { treestore: Vec::new(), tasks: TaskCache::new(), positions: HashMap::new() }
    }

    /// The chain of identifiers that showing `uuid` has to insert, and the
    /// handle under which the topmost of them goes.
    fn climb_from(&self, uuid: u128) -> (found: Result<(Vec<u128>, Option<usize>), Error>)
        requires
            self.wf(),
            !self.positions@.contains_key(uuid),
        ensures
            match climb(self.tasks@, self.positions@.dom(), uuid, Seq::empty(), self.tasks@.len()) {
                Err(e) => found == Err::<(Vec<u128>, Option<usize>), Error>(e),
                Ok(path) => found.is_ok() && found.unwrap().0@ == path && path.len() > 0 && path[0]
                    == uuid && is_chain(self.tasks@, self.positions@.dom(), path)
                    && match self.tasks@[path.last()].partof {
                    None => found.unwrap().1.is_none(),
                    Some(p) => self.positions@.contains_key(p) && found.unwrap().1 == Some(
                        self.positions@[p],
                    ),
                },
            },
    {
        let ghost cache = self.tasks@;
        let ghost shown = self.positions@.dom();
        let ghost goal = climb(cache, shown, uuid, Seq::empty(), cache.len());
        let mut path: Vec<u128> = Vec::new();
        let mut cur: u128 = uuid;
        let mut fuel: usize = self.tasks.tasks.len();
        let mut anchor: Option<usize> = None;
        let mut done: bool = false;
        while !done
            invariant
                cache == self.tasks@,
                shown == self.positions@.dom(),
                goal == climb(cache, shown, uuid, Seq::empty(), cache.len()),
                is_chain(cache, shown, path@),
                path@.len() == 0 ==> cur == uuid,
                path@.len() > 0 ==> path@[0] == uuid,
                !done ==> goal == climb(cache, shown, cur, path@, fuel as nat),
                !done && path@.len() > 0 ==> cache[path@.last()].partof == Some(cur),
                !done && path@.len() == 0 ==> !shown.contains(cur),
                done ==> goal == Ok::<Seq<u128>, Error>(path@) && path@.len() > 0
                    && match cache[path@.last()].partof {
                    None => anchor.is_none(),
                    Some(p) => self.positions@.contains_key(p) && anchor == Some(
                        self.positions@[p],
                    ),
                },
            decreases fuel + (if done { 0int } else { 1int }),
        {
            match self.positions.get(&cur) {
                Some(handle) => {
                    anchor = Some(*handle);
                    done = true;
                },
                None => {
                    let task = match self.tasks.get_task(cur) {
                        Ok(task) => task,
                        Err(e) => {
                            return Err(e);
                        },
                    };
                    if fuel == 0 || holds(&path, cur) {
                        return Err(Error::CycleDetected);
                    }
                    path.push(cur);
                    match task.partof {
                        None => {
                            anchor = None;
                            done = true;
                        },
                        Some(p) => {
                            cur = p;
                            fuel -= 1;
                        },
                    }
                },
            }
        }
        Ok((path, anchor))
    }

    /// Makes sure that a task is shown, inserting its ancestors first where
    /// they are not shown yet, and returns the handle of its node. A task that
    /// is shown already keeps its node and nothing changes.
    pub fn show_task(&mut self, uuid: u128) -> (shown: Result<usize, Error>)
        requires
            old(self).wf(),
        ensures
            final(self).wf(),
            final(self).tasks == old(self).tasks,
            old(self).is_linked() ==> final(self).is_linked(),
            match materialized(old(self).tasks@, old(self).forest(), uuid) {
                Ok(forest) => shown == Ok::<usize, Error>(forest.index[uuid]) && final(
                    self
                ).forest() == forest,
                Err(e) => shown == Err::<usize, Error>(e) && final(self).forest() == old(
                    self
                ).forest(),
            },
    {
        if let Some(handle) = self.positions.get(&uuid) {
            return Ok(*handle);
        }
        let (path, anchor) = match self.climb_from(uuid) {
            Ok(found) => found,
            Err(e) => {
                return Err(e);
            },
        };
        let ghost cache = self.tasks@;
        let ghost start = self.forest();
        let mut above: Option<usize> = anchor;
        let mut handle: usize = 0;
        let mut i: usize = path.len();
        proof {
            assert(path@.take(i as int) =~= path@);
        }
        while i > 0
            invariant
                i <= path.len(),
                path@.len() > 0,
                path@[0] == uuid,
                self.tasks == old(self).tasks,
                self.wf(),
                cache == self.tasks@,
                is_chain(cache, start.index.dom(), path@),
                old(self).is_linked() ==> self.is_linked(),
                grown(cache, start, path@) == grown(cache, self.forest(), path@.take(i as int)),
                forall|k: int| 0 <= k < i ==> !self.positions@.contains_key(#[trigger] path@[k]),
                i > 0 ==> match cache[path@[i - 1]].partof {
                    None => above.is_none(),
                    Some(p) => self.positions@.contains_key(p) && above == Some(self.positions@[p]),
                },
                i < path.len() ==> self.positions@.contains_key(path@[i as int]) && handle
                    == self.positions@[path@[i as int]] && above == Some(handle),
            decreases i,
        {
            let ghost before = self.forest();
            i -= 1;
            let id = path[i];
            let task = match self.tasks.get_task(id) {
                Ok(task) => task,
                Err(e) => {
                    return Err(e);
                },
            };
            let row = make_row(task);
            handle = self.treestore.len();
            self.treestore.push(Node { uuid: id, parent: above, row, present: true });
            self.positions.insert(id, handle);
            above = Some(handle);
            proof {
                let after = self.forest();
                assert(path@.take(i + 1).last() == id);
                assert(path@.take(i + 1).drop_last() =~= path@.take(i as int));
                assert(after.nodes =~= with_node(cache, before, id).nodes);
                assert(after.index =~= with_node(cache, before, id).index);
                assert(after == with_node(cache, before, id));
                assert forall|h: int| 0 <= h < before.nodes.len() implies after.nodes[h]
                    == before.nodes[h] by {}
                assert(coherent(cache, after));
                if old(self).is_linked() {
                    assert(linked(cache, after));
                }
            }
        }
        proof {
            assert(path@.take(0) =~= Seq::<u128>::empty());
        }
        Ok(handle)
    }

    /// Empties the tree and the index.
    fn clear(&mut self)
        ensures
            final(self).tasks == old(self).tasks,
            final(self).forest() == empty_forest(),
    {
        self.positions.clear();
        self.treestore.clear();
        proof {
            assert(self.forest().nodes =~= empty_forest().nodes);
        }
    }

    /// Rebuilds the tree from the store's replies to a bulk export and to the
    /// query for the identifiers to list. The tree and the index are emptied,
    /// the export is merged into the cache, and each listed identifier is
    /// shown, which brings in its ancestors. Where any step fails, the tree and
    /// the index are left empty.
    pub fn refresh(&mut self, exported: Option<Vec<Task>>, listing: Option<&str>) -> (done: Result<
        (),
        Error,
    >)
        requires
            old(self).wf(),
        ensures
            final(self).wf(),
            final(self).is_linked(),
            match exported {
                None => done == Err::<(), Error>(Error::StoreError) && final(self).tasks@ == old(
                    self,
                ).tasks@ && final(self).forest() == empty_forest(),
                Some(records) => final(self).tasks@ == merged(old(self).tasks@, records@)
                    && match rebuilt(final(self).tasks@, listing) {
                    Ok(forest) => done.is_ok() && final(self).forest() == forest,
                    Err(e) => done == Err::<(), Error>(e) && final(self).forest() == empty_forest(),
                },
            },
    {
        self.clear();
        match self.tasks.refresh(exported) {
            Ok(()) => {},
            Err(e) => {
                return Err(e);
            },
        }
        let text = match listing {
            Some(text) => text,
            None => {
                return Err(Error::StoreError);
            },
        };
        let ids = match get_tasks(text) {
            Ok(ids) => ids,
            Err(e) => {
                return Err(e);
            },
        };
        let ghost cache = self.tasks@;
        let mut i: usize = 0;
        proof {
            assert(ids@.skip(0) =~= ids@);
        }
        while i < ids.len()
            invariant
                i <= ids.len(),
                self.wf(),
                self.is_linked(),
                self.tasks@ == cache,
                exported.is_some(),
                cache == merged(old(self).tasks@, exported.unwrap()@),
                listed(listing) == Ok::<Seq<u128>, Error>(ids@),
                shown_all(cache, empty_forest(), ids@) == shown_all(
                    cache,
                    self.forest(),
                    ids@.skip(i as int),
                ),
            decreases ids.len() - i,
        {
            proof {
                assert(ids@.skip(i as int).drop_first() =~= ids@.skip(i + 1));
            }
            match self.show_task(ids[i]) {
                Ok(_) => {},
                Err(e) => {
                    self.clear();
                    return Err(e);
                },
            }
            i += 1;
        }
        Ok(())
    }

    /// The identifier shown at a handle.
    pub fn uuid_at(&self, handle: usize) -> (found: Result<u128, Error>)
        ensures
            found == shown_at(self.forest(), handle),
    {
        if handle < self.treestore.len() && self.treestore[handle].present {
            proof {
                assert(self.forest().nodes[handle as int] == self.treestore@[handle as int]@);
            }
            Ok(self.treestore[handle].uuid)
        } else {
            proof {
                if handle < self.treestore.len() {
                    assert(self.forest().nodes[handle as int] == self.treestore@[handle as int]@);
                }
            }
            Err(Error::DesyncError)
        }
    }

    /// The identifier of the visual parent of the node at a handle, read off
    /// the tree.
    pub fn parent_at(&self, handle: usize) -> (found: Result<Option<u128>, Error>)
        requires
            self.wf(),
        ensures
            found == observed_parent(self.forest(), handle),
    {
        if handle < self.treestore.len() && self.treestore[handle].present {
            proof {
                assert(self.forest().nodes[handle as int] == self.treestore@[handle as int]@);
            }
            match self.treestore[handle].parent {
                Some(p) => {
                    proof {
                        assert(self.forest().nodes[p as int] == self.treestore@[p as int]@);
                    }
                    Ok(Some(self.treestore[p].uuid))
                },
                None => Ok(None),
            }
        } else {
            proof {
                if handle < self.treestore.len() {
                    assert(self.forest().nodes[handle as int] == self.treestore@[handle as int]@);
                }
            }
            Err(Error::DesyncError)
        }
    }

    /// Answers a notice that the node at a handle changed its place: reads the
    /// node's identifier and the identifier of its visual parent off the tree
    /// and holds the latter against the record. Where they agree there is
    /// nothing to do. Where they differ, the result names the identifier and
    /// the parent that the store has to be given for it.
    pub fn row_changed(&self, handle: usize) -> (plan: Result<Option<(u128, Option<u128>)>, Error>)
        requires
            self.wf(),
        ensures
            plan == reparenting(self.tasks@, self.forest(), handle),
    {
        let uuid = match self.uuid_at(handle) {
            Ok(uuid) => uuid,
            Err(e) => {
                return Err(e);
            },
        };
        let observed = match self.parent_at(handle) {
            Ok(observed) => observed,
            Err(e) => {
                return Err(e);
            },
        };
        let task = match self.tasks.get_task(uuid) {
            Ok(task) => task,
            Err(e) => {
                return Err(e);
            },
        };
        if same_parent(task.partof, observed) {
            Ok(None)
        } else {
            Ok(Some((uuid, observed)))
        }
    }

    /// Removes a node and every node below it from the tree and from the
    /// index.
    fn remove_subtree(&mut self, handle: usize)
        requires
            old(self).wf(),
            handle < old(self).treestore.len(),
            old(self).treestore@[handle as int].present,
        ensures
            final(self).tasks == old(self).tasks,
            final(self).forest() == pruned(old(self).forest(), handle as int),
            final(self).wf(),
            old(self).is_linked() ==> final(self).is_linked(),
            !final(self).positions@.contains_key(old(self).treestore@[handle as int].uuid),
    {
        let ghost start = self.forest();
        let ghost goal = pruned(start, handle as int);
        let ghost root = handle as int;
        let mut h: usize = handle;
        proof {
            assert forall|j: int| 0 <= j < handle implies start.nodes[j] == goal.nodes[j] by {
                lemma_under_is_later(start.nodes, j, root);
            }
            assert(self.positions@ =~= start.index.remove_keys(swept(start, root, h as int)));
        }
        while h < self.treestore.len()
            invariant
                handle <= h <= self.treestore.len(),
                self.treestore.len() == start.nodes.len(),
                self.tasks == old(self).tasks,
                start == old(self).forest(),
                goal == pruned(start, root),
                root == handle,
                coherent(self.tasks@, start),
                start.nodes[root].present,
                forall|j: int| 0 <= j < h ==> (#[trigger] self.forest().nodes[j]) == goal.nodes[j],
                forall|j: int|
                    h <= j < start.nodes.len() ==> (#[trigger] self.forest().nodes[j])
                        == start.nodes[j],
                self.positions@ == start.index.remove_keys(swept(start, root, h as int)),
            decreases self.treestore.len() - h,
        {
            let ghost mid = self.forest();
            proof {
                assert(mid.nodes[h as int] == start.nodes[h as int]);
                assert(mid.nodes[h as int] == self.treestore@[h as int]@);
            }
            let gone = if h == handle {
                true
            } else if !self.treestore[h].present {
                false
            } else {
                match self.treestore[h].parent {
                    Some(p) => !self.treestore[p].present,
                    None => false,
                }
            };
            proof {
                if start.nodes[h as int].present {
                    if let Some(p) = start.nodes[h as int].parent {
                        assert(mid.nodes[p as int] == goal.nodes[p as int]);
                        assert(mid.nodes[p as int] == self.treestore@[p as int]@);
                    }
                }
                assert(gone == (start.nodes[h as int].present && under(start.nodes, h as int, root)));
            }
            if gone {
                let id = self.treestore[h].uuid;
                self.treestore[h].present = false;
                self.positions.remove(&id);
            }
            proof {
                assert(self.forest().nodes[h as int] == goal.nodes[h as int]);
                assert forall|j: int| 0 <= j < h + 1 implies (#[trigger] self.forest().nodes[j])
                    == goal.nodes[j] by {
                    if j < h {
                        assert(self.forest().nodes[j] == self.treestore@[j]@);
                        assert(mid.nodes[j] == goal.nodes[j]);
                    }
                }
                assert forall|j: int| h + 1 <= j < start.nodes.len() implies (
                #[trigger] self.forest().nodes[j]) == start.nodes[j] by {
                    assert(self.forest().nodes[j] == self.treestore@[j]@);
                    assert(mid.nodes[j] == start.nodes[j]);
                }
                assert(self.positions@ =~= start.index.remove_keys(swept(start, root, h + 1)));
            }
            h += 1;
        }
        proof {
            assert(self.forest().nodes =~= goal.nodes);
            assert(self.positions@ =~= goal.index);
            lemma_pruned(self.tasks@, start, root);
        }
    }

    /// Whether the node at a handle lies in the subtree of the node at `root`.
    fn is_under(&self, handle: usize, root: usize) -> (below: bool)
        requires
            self.wf(),
            handle < self.treestore.len(),
            self.treestore@[handle as int].present,
        ensures
            below == under(self.forest().nodes, handle as int, root as int),
    {
        let ghost nodes = self.forest().nodes;
        let mut cur: usize = handle;
        proof {
            assert(nodes[cur as int] == self.treestore@[cur as int]@);
        }
        while cur > root
            invariant
                self.wf(),
                nodes == self.forest().nodes,
                cur < self.treestore.len(),
                nodes[cur as int].present,
                under(nodes, handle as int, root as int) == under(nodes, cur as int, root as int),
            decreases cur,
        {
            proof {
                assert(nodes[cur as int] == self.treestore@[cur as int]@);
            }
            match self.treestore[cur].parent {
                Some(p) => {
                    cur = p;
                },
                None => {
                    return false;
                },
            }
        }
        proof {
            lemma_under_is_later(nodes, cur as int, root as int);
        }
        cur == root
    }

    /// Moves the node at a handle to a new place in the tree, as a drag in the
    /// display does: the node and what hangs below it leave the tree, and a
    /// new node for the same task is inserted under the given parent, or as a
    /// root. The index follows. The record is not touched, so the tree may no
    /// longer follow the records until the move is reconciled. A handle
    /// without a node present, or a parent inside the subtree that moves, is a
    /// desynchronisation and changes nothing.
    pub fn relocate(&mut self, handle: usize, parent: Option<usize>) -> (moved: Result<usize, Error>)
        requires
            old(self).wf(),
        ensures
            final(self).wf(),
            final(self).tasks == old(self).tasks,
            match relocated(old(self).tasks@, old(self).forest(), handle, parent) {
                Ok(forest) => moved == Ok::<usize, Error>(old(self).forest().nodes.len() as usize)
                    && final(self).forest() == forest,
                Err(e) => moved == Err::<usize, Error>(e) && final(self).forest() == old(
                    self,
                ).forest(),
            },
    {
        let ghost before = self.forest();
        if !(handle < self.treestore.len()) {
            return Err(Error::DesyncError);
        }
        proof {
            assert(before.nodes[handle as int] == self.treestore@[handle as int]@);
        }
        if !self.treestore[handle].present {
            return Err(Error::DesyncError);
        }
        if let Some(p) = parent {
            if !(p < self.treestore.len()) {
                return Err(Error::DesyncError);
            }
            proof {
                assert(before.nodes[p as int] == self.treestore@[p as int]@);
            }
            if !self.treestore[p].present || self.is_under(p, handle) {
                return Err(Error::DesyncError);
            }
        }
        let uuid = self.treestore[handle].uuid;
        self.remove_subtree(handle);
        let ghost cut = self.forest();
        let task = match self.tasks.get_task(uuid) {
            Ok(task) => task,
            Err(e) => {
                return Err(e);
            },
        };
        let row = make_row(task);
        let place = self.treestore.len();
        self.treestore.push(Node { uuid, parent, row, present: true });
        self.positions.insert(uuid, place);
        proof {
            let goal = relocated(old(self).tasks@, before, handle, parent).unwrap();
            let after = self.forest();
            assert(after.nodes =~= goal.nodes);
            assert(after.index =~= goal.index);
            assert forall|h: int| 0 <= h < cut.nodes.len() implies after.nodes[h] == cut.nodes[h] by {}
            assert(coherent(self.tasks@, after));
        }
        Ok(place)
    }

    /// Reconciles one record after an edit, given the store's reply to the
    /// export of that record. The reply is stored in the cache. With a handle,
    /// the node at that handle is taken to show the new state already: it has
    /// to be the node of the identifier, and the index is pointed at it.
    /// Without one, the node of the identifier is removed, together with what
    /// hangs below it, and the identifier is shown anew.
    pub fn update(&mut self, uuid: u128, new_handle: Option<usize>, reply: Option<Vec<Task>>) -> (done:
        Result<(), Error>)
        requires
            old(self).wf(),
        ensures
            final(self).wf(),
            match fetched(uuid, reply) {
                Err(e) => done == Err::<(), Error>(e) && final(self).tasks@ == old(self).tasks@
                    && final(self).forest() == old(self).forest(),
                Ok(task) => final(self).tasks@ == old(self).tasks@.insert(uuid, task)
                    && match reconciled(final(self).tasks@, old(self).forest(), uuid, new_handle) {
                    (forest, outcome) => done == outcome && final(self).forest() == forest,
                },
            },
            old(self).is_linked() && (new_handle matches Some(h) ==> names(old(self).forest(), h, uuid)
                && agrees(final(self).tasks@, old(self).forest(), uuid, h))
                ==> final(self).is_linked(),
    {
        proof {
            lemma_first_record_uuid(reply, uuid);
        }
        let ghost before = self.forest();
        let ghost cache_before = self.tasks@;
        match self.tasks.update(uuid, reply) {
            Ok(_) => {},
            Err(e) => {
                return Err(e);
            },
        }
        proof {
            assert(self.forest() == before);
            assert(coherent(self.tasks@, before));
        }
        match new_handle {
            Some(handle) => {
                if handle < self.treestore.len() && self.treestore[handle].present
                    && self.treestore[handle].uuid == uuid {
                    proof {
                        assert(before.nodes[handle as int] == self.treestore@[handle as int]@);
                    }
                    self.positions.insert(uuid, handle);
                    proof {
                        assert(self.positions@ =~= before.index);
                        if old(self).is_linked() && agrees(self.tasks@, before, uuid, handle) {
                            assert(linked(self.tasks@, before));
                        }
                    }
                    Ok(())
                } else {
                    proof {
                        if handle < self.treestore.len() {
                            assert(before.nodes[handle as int] == self.treestore@[handle as int]@);
                        }
                    }
                    Err(Error::DesyncError)
                }
            },
            None => {
                let handle = match self.positions.get(&uuid) {
                    Some(handle) => *handle,
                    None => {
                        proof {
                            if old(self).is_linked() {
                                assert(linked(self.tasks@, before));
                            }
                        }
                        return Err(Error::DesyncError);
                    },
                };
                proof {
                    assert(before.nodes[handle as int] == self.treestore@[handle as int]@);
                    lemma_pruned_forgets(cache_before, self.tasks@, before, handle as int);
                }
                self.remove_subtree(handle);
                proof {
                    if old(self).is_linked() {
                        assert(self.is_linked());
                    }
                }
                match self.show_task(uuid) {
                    Ok(_) => Ok(()),
                    Err(e) => Err(e),
                }
            },
        }
    }
}

/// Whether two optional identifiers are the same.
fn same_parent(a: Option<u128>, b: Option<u128>) -> (same: bool)
    ensures
        same == (a == b),
{
    match (a, b) {
        (Some(x), Some(y)) => x == y,
        (None, None) => true,
        _ => false,
    }
}

} // verus!
