//! What holds of the engine as a whole, proved from the definitions that the
//! contracts of its operations use.

use vstd::prelude::*;
use crate::cache::{keyed, merged};
use crate::task::{Error, Task};
use crate::forest::{
    climb, coherent, grown, is_chain, linked, materialized, observed_parent, reparenting,
    shown_at, with_node, Forest,
};

verus! {

/// The identifiers of the nodes that are present in the tree.
pub open spec fn visible(forest: Forest) -> Set<u128> {
    Set::new(
        |uuid: u128|
            exists|h: int|
                0 <= h < forest.nodes.len() && (#[trigger] forest.nodes[h]).present
                    && forest.nodes[h].uuid == uuid,
    )
}

/// In a coherent forest the identifiers with an index entry are exactly the
/// identifiers with a node present.
pub proof fn law_index_matches_tree(cache: Map<u128, Task>, forest: Forest)
    requires
        coherent(cache, forest),
    ensures
        forest.index.dom() == visible(forest),
{
    assert forall|uuid: u128| forest.index.dom().contains(uuid) == visible(forest).contains(
        uuid,
    ) by {
        if forest.index.contains_key(uuid) {
            assert(forest.nodes[forest.index[uuid] as int].present);
        }
    }
    assert(forest.index.dom() =~= visible(forest));
}

/// In a coherent and linked forest the node of a task hangs under the node of
/// the parent that its record names, and that node was inserted before it.
pub proof fn law_ancestor_first(cache: Map<u128, Task>, forest: Forest, uuid: u128, parent: u128)
    requires
        coherent(cache, forest),
        linked(cache, forest),
        forest.index.contains_key(uuid),
        cache[uuid].partof == Some(parent),
    ensures
        forest.index.contains_key(parent),
        forest.index[parent] < forest.index[uuid],
        forest.nodes[forest.index[uuid] as int].parent == Some(forest.index[parent]),
{
    assert(forest.nodes[forest.index[uuid] as int].present);
}

/// A path that the climb returns starts with what was visited, goes on with
/// the identifier it was asked for, and stops without it only where that
/// identifier is shown.
pub proof fn lemma_climb_extends(
    cache: Map<u128, Task>,
    shown: Set<u128>,
    uuid: u128,
    visited: Seq<u128>,
    fuel: nat,
)
    ensures
        climb(cache, shown, uuid, visited, fuel) matches Ok(path) ==> {
            &&& visited.len() <= path.len()
            &&& path.take(visited.len() as int) == visited
            &&& shown.contains(uuid) <==> path.len() == visited.len()
            &&& path.len() > visited.len() ==> path[visited.len() as int] == uuid
        },
    decreases fuel,
{
    if let Ok(path) = climb(cache, shown, uuid, visited, fuel) {
        if shown.contains(uuid) {
            assert(path.take(visited.len() as int) =~= visited);
        } else {
            let next = visited.push(uuid);
            match cache[uuid].partof {
                None => {
                    assert(path.take(visited.len() as int) =~= visited);
                },
                Some(p) => {
                    lemma_climb_extends(cache, shown, p, next, (fuel - 1) as nat);
                    assert(path.take(next.len() as int) == next);
                    assert(path.take(visited.len() as int) =~= next.take(visited.len() as int));
                    assert(next.take(visited.len() as int) =~= visited);
                    assert(path[visited.len() as int] == next[visited.len() as int]);
                },
            }
        }
    }
}

/// Growing a forest by a path leaves the first identifier of the path in the
/// index, at the handle of the node inserted last.
pub proof fn lemma_grown_ends_with_first(cache: Map<u128, Task>, forest: Forest, path: Seq<u128>)
    requires
        path.len() > 0,
    ensures
        grown(cache, forest, path).index.contains_key(path[0]),
        grown(cache, forest, path).nodes.len() == forest.nodes.len() + path.len(),
        grown(cache, forest, path).index[path[0]] == (forest.nodes.len() + path.len() - 1) as usize,
    decreases path.len(),
{
    let next = with_node(cache, forest, path.last());
    if path.len() == 1 {
        assert(path.drop_last().len() == 0);
        assert(grown(cache, next, path.drop_last()) == next);
    } else {
        lemma_grown_ends_with_first(cache, next, path.drop_last());
        assert(path.drop_last()[0] == path[0]);
    }
}

/// Whether the node of `child` hangs under the node of `parent`, which was
/// inserted before it.
pub open spec fn hangs_under(forest: Forest, child: u128, parent: u128) -> bool {
    &&& forest.index.contains_key(parent)
    &&& forest.index[parent] < forest.index[child]
    &&& forest.nodes[forest.index[child] as int].parent == Some(forest.index[parent])
}

/// Whether every shown task whose record names a parent hangs under the node
/// of that parent, inserted before its own.
pub open spec fn ancestors_first(cache: Map<u128, Task>, forest: Forest) -> bool {
    forall|child: u128| #[trigger]
        forest.index.contains_key(child) && cache[child].partof.is_some() ==> hangs_under(
            forest,
            child,
            cache[child].partof.unwrap(),
        )
}

/// Whether the topmost identifier of a path can be hung into a forest: its
/// record names no parent, or one that is shown.
pub open spec fn anchored(cache: Map<u128, Task>, shown: Set<u128>, path: Seq<u128>) -> bool {
    path.len() > 0 ==> match cache[path.last()].partof {
        None => true,
        Some(p) => shown.contains(p),
    }
}

/// A path that the climb returns is a chain that can be hung into the forest,
/// given that what was visited is a chain that leads to the identifier asked
/// for.
pub proof fn lemma_climb_is_chain(
    cache: Map<u128, Task>,
    shown: Set<u128>,
    uuid: u128,
    visited: Seq<u128>,
    fuel: nat,
)
    requires
        is_chain(cache, shown, visited),
        visited.len() > 0 ==> cache[visited.last()].partof == Some(uuid),
    ensures
        climb(cache, shown, uuid, visited, fuel) matches Ok(path) ==> is_chain(cache, shown, path)
            && anchored(cache, shown, path),
    decreases fuel,
{
    if let Ok(path) = climb(cache, shown, uuid, visited, fuel) {
        if !shown.contains(uuid) {
            let next = visited.push(uuid);
            assert(is_chain(cache, shown, next));
            if let Some(p) = cache[uuid].partof {
                lemma_climb_is_chain(cache, shown, p, next, (fuel - 1) as nat);
            }
        }
    }
}

/// Inserting one more node, for a task that has a record and is not shown,
/// under the node of its parent where its record names one that is shown,
/// keeps the forest coherent, and linked where it was.
pub proof fn lemma_with_node_keeps(cache: Map<u128, Task>, forest: Forest, uuid: u128)
    requires
        keyed(cache),
        coherent(cache, forest),
        forest.nodes.len() < usize::MAX,
        cache.contains_key(uuid),
        !forest.index.contains_key(uuid),
        cache[uuid].partof matches Some(p) ==> forest.index.contains_key(p),
    ensures
        coherent(cache, with_node(cache, forest, uuid)),
        linked(cache, forest) ==> linked(cache, with_node(cache, forest, uuid)),
{
    let after = with_node(cache, forest, uuid);
    assert forall|h: int| 0 <= h < forest.nodes.len() implies after.nodes[h] == forest.nodes[h] by {}
    assert(coherent(cache, after));
    if linked(cache, forest) {
        assert(linked(cache, after));
    }
}

/// Growing a coherent forest by a chain that can be hung into it keeps it
/// coherent, and linked where it was; what was in the forest stays where it
/// was, and every identifier of the chain is shown afterwards.
pub proof fn lemma_grown_keeps(cache: Map<u128, Task>, forest: Forest, path: Seq<u128>)
    requires
        keyed(cache),
        coherent(cache, forest),
        forest.nodes.len() + path.len() <= usize::MAX,
        is_chain(cache, forest.index.dom(), path),
        anchored(cache, forest.index.dom(), path),
    ensures
        coherent(cache, grown(cache, forest, path)),
        linked(cache, forest) ==> linked(cache, grown(cache, forest, path)),
        forall|uuid: u128| #[trigger]
            forest.index.contains_key(uuid) ==> grown(cache, forest, path).index.contains_key(uuid)
                && grown(cache, forest, path).index[uuid] == forest.index[uuid],
        forall|i: int|
            0 <= i < path.len() ==> grown(cache, forest, path).index.contains_key(#[trigger] path[i]),
    decreases path.len(),
{
    if path.len() > 0 {
        let top = path.last();
        let next = with_node(cache, forest, top);
        let rest = path.drop_last();
        assert(cache.contains_key(path[path.len() - 1]));
        lemma_with_node_keeps(cache, forest, top);
        assert(is_chain(cache, next.index.dom(), rest)) by {
            assert forall|i: int| 0 <= i < rest.len() implies cache.contains_key(#[trigger] rest[i])
                && !next.index.dom().contains(rest[i]) by {
                assert(rest[i] == path[i]);
            }
            assert forall|i: int| 0 <= i < rest.len() - 1 implies (#[trigger] cache[rest[i]]).partof
                == Some(rest[i + 1]) by {
                assert(rest[i] == path[i]);
                assert(rest[i + 1] == path[i + 1]);
            }
        }
        assert(anchored(cache, next.index.dom(), rest)) by {
            if rest.len() > 0 {
                assert(rest.last() == path[path.len() - 2]);
                assert(cache[path[path.len() - 2]].partof == Some(path[path.len() - 2 + 1]));
            }
        }
        lemma_grown_keeps(cache, next, rest);
        assert forall|uuid: u128| #[trigger] forest.index.contains_key(uuid) implies grown(
            cache,
            forest,
            path,
        ).index.contains_key(uuid) && grown(cache, forest, path).index[uuid]
            == forest.index[uuid] by {
            assert(uuid != top);
            assert(next.index.contains_key(uuid));
        }
        assert forall|i: int| 0 <= i < path.len() implies grown(
            cache,
            forest,
            path,
        ).index.contains_key(#[trigger] path[i]) by {
            if i < rest.len() {
                assert(rest[i] == path[i]);
            } else {
                assert(next.index.contains_key(top));
            }
        }
    }
}

/// Showing a task keeps a coherent forest coherent and a linked one linked,
/// and leaves the task shown. So after it every shown task whose record names
/// a parent hangs under the node of that parent, which was inserted before
/// its own.
pub proof fn law_show_keeps_ancestors_first(cache: Map<u128, Task>, forest: Forest, uuid: u128)
    requires
        keyed(cache),
        coherent(cache, forest),
        materialized(cache, forest, uuid).is_ok(),
        materialized(cache, forest, uuid).unwrap().nodes.len() <= usize::MAX,
    ensures
        coherent(cache, materialized(cache, forest, uuid).unwrap()),
        materialized(cache, forest, uuid).unwrap().index.contains_key(uuid),
        linked(cache, forest) ==> linked(cache, materialized(cache, forest, uuid).unwrap()),
        linked(cache, forest) ==> ancestors_first(
            cache,
            materialized(cache, forest, uuid).unwrap(),
        ),
{
    let shown = forest.index.dom();
    let path = climb(cache, shown, uuid, Seq::empty(), cache.len()).unwrap();
    let after = grown(cache, forest, path);
    lemma_climb_is_chain(cache, shown, uuid, Seq::empty(), cache.len());
    lemma_grown_grows(cache, forest, path);
    lemma_grown_keeps(cache, forest, path);
    law_show_is_memoized(cache, forest, uuid);
    if linked(cache, forest) {
        assert forall|child: u128| #[trigger]
            after.index.contains_key(child) && cache[child].partof.is_some() implies hangs_under(
            after,
            child,
            cache[child].partof.unwrap(),
        ) by {
            law_ancestor_first(cache, after, child, cache[child].partof.unwrap());
        }
    }
}

/// Growing a forest by a path adds one node for each identifier of the path.
pub proof fn lemma_grown_grows(cache: Map<u128, Task>, forest: Forest, path: Seq<u128>)
    ensures
        grown(cache, forest, path).nodes.len() == forest.nodes.len() + path.len(),
    decreases path.len(),
{
    if path.len() > 0 {
        lemma_grown_grows(cache, with_node(cache, forest, path.last()), path.drop_last());
    }
}

/// Showing a task a second time, with nothing in between, changes nothing and
/// gives the same handle: the forest after the first showing is also the
/// forest after the second.
pub proof fn law_show_is_memoized(cache: Map<u128, Task>, forest: Forest, uuid: u128)
    requires
        materialized(cache, forest, uuid).is_ok(),
    ensures
        materialized(cache, forest, uuid).unwrap().index.contains_key(uuid),
        materialized(cache, materialized(cache, forest, uuid).unwrap(), uuid) == materialized(
            cache,
            forest,
            uuid,
        ),
{
    let path = climb(cache, forest.index.dom(), uuid, Seq::empty(), cache.len()).unwrap();
    let after = grown(cache, forest, path);
    lemma_climb_extends(cache, forest.index.dom(), uuid, Seq::empty(), cache.len());
    if path.len() > 0 {
        lemma_grown_ends_with_first(cache, forest, path);
    }
    assert(after.index.contains_key(uuid));
    assert(climb(cache, after.index.dom(), uuid, Seq::empty(), cache.len()) == Ok::<
        Seq<u128>,
        Error,
    >(Seq::empty()));
}

/// A task that has a record and is not shown yet, and whose record names a
/// parent that is shown, can be shown: it gets the next handle, hangs under
/// the node of that parent, and nothing else changes.
pub proof fn law_show_under_shown_parent(
    cache: Map<u128, Task>,
    forest: Forest,
    uuid: u128,
    parent: u128,
)
    requires
        cache.dom().finite(),
        cache.contains_key(uuid),
        cache[uuid].partof == Some(parent),
        !forest.index.contains_key(uuid),
        forest.index.contains_key(parent),
    ensures
        materialized(cache, forest, uuid) == Ok::<Forest, Error>(with_node(cache, forest, uuid)),
        with_node(cache, forest, uuid).nodes.last().parent == Some(forest.index[parent]),
        with_node(cache, forest, uuid).nodes.last().uuid == uuid,
{
    let shown = forest.index.dom();
    let start = Seq::<u128>::empty();
    assert(cache.dom().contains(uuid));
    assert(cache.len() > 0);
    assert(climb(cache, shown, parent, start.push(uuid), (cache.len() - 1) as nat) == Ok::<
        Seq<u128>,
        Error,
    >(start.push(uuid)));
    let path = start.push(uuid);
    assert(path.drop_last() =~= start);
    assert(path.last() == uuid);
    assert(grown(cache, with_node(cache, forest, uuid), start) == with_node(cache, forest, uuid));
    assert(grown(cache, forest, path) == with_node(cache, forest, uuid));
}

/// The climb needs no more steps than the cache has records: a chain is never
/// longer than the cache.
pub proof fn lemma_chain_fits(cache: Map<u128, Task>, shown: Set<u128>, path: Seq<u128>)
    requires
        cache.dom().finite(),
        is_chain(cache, shown, path),
    ensures
        path.len() <= cache.len(),
{
    assert(path.no_duplicates());
    path.unique_seq_to_set();
    assert(path.to_set().subset_of(cache.dom())) by {
        assert forall|uuid: u128| path.to_set().contains(uuid) implies cache.dom().contains(
            uuid,
        ) by {
            let i = choose|i: int| 0 <= i < path.len() && path[i] == uuid;
            assert(cache.contains_key(path[i]));
        }
    }
    vstd::set_lib::lemma_len_subset(path.to_set(), cache.dom());
}

/// From any place on a chain that can be hung into the forest, with what
/// comes before it visited and enough fuel for what is left, the climb
/// returns the chain.
pub proof fn lemma_climb_follows(
    cache: Map<u128, Task>,
    shown: Set<u128>,
    path: Seq<u128>,
    k: int,
    fuel: nat,
)
    requires
        is_chain(cache, shown, path),
        anchored(cache, shown, path),
        0 <= k < path.len(),
        fuel >= path.len() - k,
    ensures
        climb(cache, shown, path[k], path.take(k), fuel) == Ok::<Seq<u128>, Error>(path),
    decreases path.len() - k,
{
    let visited = path.take(k);
    assert(!visited.contains(path[k])) by {
        if visited.contains(path[k]) {
            let i = choose|i: int| 0 <= i < visited.len() && visited[i] == path[k];
            assert(path[i] == path[k]);
        }
    }
    assert(visited.push(path[k]) =~= path.take(k + 1));
    assert(cache.contains_key(path[k]) && !shown.contains(path[k]));
    if k == path.len() - 1 {
        assert(path.take(k + 1) =~= path);
        assert(path.last() == path[k]);
        if let Some(p) = cache[path[k]].partof {
            assert(shown.contains(p));
            assert(climb(cache, shown, p, path, (fuel - 1) as nat) == Ok::<Seq<u128>, Error>(path));
        }
    } else {
        assert(cache[path[k]].partof == Some(path[k + 1]));
        lemma_climb_follows(cache, shown, path, k + 1, (fuel - 1) as nat);
    }
}

/// Showing succeeds wherever it can: where the task and its ancestors, up to
/// the first one that is shown or has no parent, all have records and none of
/// them comes twice, the task is shown and exactly these are inserted.
pub proof fn law_show_succeeds_on_chain(
    cache: Map<u128, Task>,
    forest: Forest,
    uuid: u128,
    path: Seq<u128>,
)
    requires
        cache.dom().finite(),
        path.len() > 0,
        path[0] == uuid,
        is_chain(cache, forest.index.dom(), path),
        anchored(cache, forest.index.dom(), path),
    ensures
        materialized(cache, forest, uuid) == Ok::<Forest, Error>(grown(cache, forest, path)),
{
    lemma_chain_fits(cache, forest.index.dom(), path);
    assert(path.take(0) =~= Seq::<u128>::empty());
    lemma_climb_follows(cache, forest.index.dom(), path, 0, cache.len());
}

/// Merging a reply keeps every record that the reply does not name: its
/// identifier stays in the cache with the record it had.
pub proof fn law_merge_retains(base: Map<u128, Task>, records: Seq<Task>, uuid: u128)
    requires
        forall|i: int| 0 <= i < records.len() ==> (#[trigger] records[i]).uuid != uuid,
    ensures
        merged(base, records).contains_key(uuid) == base.contains_key(uuid),
        base.contains_key(uuid) ==> merged(base, records)[uuid] == base[uuid],
    decreases records.len(),
{
    if records.len() > 0 {
        law_merge_retains(base, records.drop_last(), uuid);
        assert(records.last() == records[records.len() - 1]);
    }
}

/// Merging a reply stores, for every identifier that the reply names, the
/// last record of the reply that carries it.
pub proof fn law_merge_replaces(base: Map<u128, Task>, records: Seq<Task>, i: int)
    requires
        0 <= i < records.len(),
        forall|j: int| i < j < records.len() ==> (#[trigger] records[j]).uuid != records[i].uuid,
    ensures
        merged(base, records).contains_key(records[i].uuid),
        merged(base, records)[records[i].uuid] == records[i],
    decreases records.len(),
{
    if i < records.len() - 1 {
        law_merge_replaces(base, records.drop_last(), i);
        assert(records.last() == records[records.len() - 1]);
    }
}

/// Merging keeps the cache well formed: every record stands under its own
/// identifier.
pub proof fn law_merge_keys(base: Map<u128, Task>, records: Seq<Task>)
    requires
        keyed(base),
    ensures
        keyed(merged(base, records)),
    decreases records.len(),
{
    if records.len() > 0 {
        law_merge_keys(base, records.drop_last());
    }
}

/// A notice about a node whose visual parent is the parent that its record
/// names asks for nothing: no mutation is sent to the store.
pub proof fn law_same_parent_is_no_op(cache: Map<u128, Task>, forest: Forest, handle: usize)
    requires
        shown_at(forest, handle) matches Ok(uuid) && cache.contains_key(uuid) && observed_parent(
            forest,
            handle,
        ) == Ok::<Option<u128>, Error>(cache[uuid].partof),
    ensures
        reparenting(cache, forest, handle) == Ok::<Option<(u128, Option<u128>)>, Error>(None),
{
}

/// In a coherent and linked forest every node hangs where its record says, so
/// a notice about any node present asks for nothing.
pub proof fn law_linked_forest_is_settled(cache: Map<u128, Task>, forest: Forest, handle: usize)
    requires
        coherent(cache, forest),
        linked(cache, forest),
        shown_at(forest, handle).is_ok(),
    ensures
        reparenting(cache, forest, handle) == Ok::<Option<(u128, Option<u128>)>, Error>(None),
{
    let uuid = forest.nodes[handle as int].uuid;
    assert(forest.index.contains_key(uuid));
    if let Some(p) = cache[uuid].partof {
        assert(forest.nodes[forest.index[p] as int].uuid == p);
    }
}

} // verus!
