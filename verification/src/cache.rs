//! The in-memory mirror of the store's records, keyed by identifier.

use std::collections::HashMap;
use vstd::prelude::*;
use crate::task::{Error, Task};
use crate::text::{
    find_leftmost, leftmost_match, parsed_uuid, split_words, texts, uuid_from_text, uuid_pattern,
    words,
};

verus! {

broadcast use vstd::std_specs::hash::group_hash_axioms;

/// The records of the store as last seen, each under its own identifier.
pub struct TaskCache {
    pub tasks: HashMap<u128, Task>,
}

/// Every record of a cache stands under its own identifier.
pub open spec fn keyed(cache: Map<u128, Task>) -> bool {
    forall|uuid: u128| #[trigger] cache.contains_key(uuid) ==> cache[uuid].uuid == uuid
}

/// A cache after a bulk reply was merged into it: each record of the reply is
/// stored under its identifier, a later one over an earlier one, and what the
/// reply does not name stays.
pub open spec fn merged(base: Map<u128, Task>, records: Seq<Task>) -> Map<u128, Task>
    decreases records.len(),
{
    if records.len() == 0 {
        base
    } else {
        merged(base, records.drop_last()).insert(records.last().uuid, records.last())
    }
}

/// The first record of a reply that carries the identifier.
pub open spec fn first_record(records: Seq<Task>, uuid: u128) -> Option<Task>
    decreases records.len(),
{
    if records.len() == 0 {
        None
    } else if records.first().uuid == uuid {
        Some(records.first())
    } else {
        first_record(records.drop_first(), uuid)
    }
}

/// What a single-record reply of the store means for the identifier asked
/// for: no reply is a store error, a reply without the record is not found.
pub open spec fn fetched(uuid: u128, reply: Option<Vec<Task>>) -> Result<Task, Error> {
    match reply {
        None => Err(Error::StoreError),
        Some(records) => match first_record(records@, uuid) {
            None => Err(Error::NotFound),
            Some(task) => Ok(task),
        },
    }
}

/// The identifier that an acknowledgement of the store names: the leftmost
/// part of it that has the shape of an identifier, read as one.
pub open spec fn acknowledged_id(acknowledgement: Seq<char>) -> Option<u128> {
    match leftmost_match(
        "[0-9a-f]{8}-[0-9a-f]{4}-[0-9a-f]{4}-[0-9a-f]{4}-[0-9a-f]{12}"@,
        acknowledgement,
    ) {
        Some(part) => parsed_uuid(part),
        None => None,
    }
}

/// What creating a task comes to, given the store's acknowledgement and its
/// reply to the export of the record that the acknowledgement names.
pub open spec fn created(acknowledgement: Option<&str>, reply: Option<Vec<Task>>) -> Result<
    Task,
    Error,
> {
    match acknowledgement {
        None => Err(Error::StoreError),
        Some(text) => match acknowledged_id(text@) {
            None => Err(Error::CreationFailed),
            Some(uuid) => fetched(uuid, reply),
        },
    }
}

/// What a listing of identifiers holds, given its words: the identifier that
/// each word reads as, in the order of the words; nothing where a word does
/// not read as an identifier.
pub open spec fn listed_ids(parts: Seq<Seq<char>>) -> Option<Seq<u128>> {
    if forall|i: int| 0 <= i < parts.len() ==> parsed_uuid(#[trigger] parts[i]).is_some() {
        Some(Seq::new(parts.len(), |i: int| parsed_uuid(parts[i]).unwrap()))
    } else {
        None
    }
}

/// What the store's reply to a query for identifiers means: no reply, or one
/// with a word that is no identifier, is a store error.
pub open spec fn listed(listing: Option<&str>) -> Result<Seq<u128>, Error> {
    match listing {
        None => Err(Error::StoreError),
        Some(text) => match listed_ids(words(text@)) {
            None => Err(Error::StoreError),
            Some(ids) => Ok(ids),
        },
    }
}

/// Reads the identifiers out of the store's reply to a query: the words of
/// the reply, each read as an identifier.
pub fn get_tasks(listing: &str) -> (ids: Result<Vec<u128>, Error>)
    ensures
        match listed_ids(words(listing@)) {
            Some(expected) => ids.is_ok() && ids.unwrap()@ == expected,
            None => ids == Err::<Vec<u128>, Error>(Error::StoreError),
        },
{
    let parts = split_words(listing);
    let ghost all = words(listing@);
    let mut ids: Vec<u128> = Vec::new();
    let mut i: usize = 0;
    while i < parts.len()
        invariant
            i <= parts.len(),
            all == words(listing@),
            texts(parts@) == all,
            ids@.len() == i,
            forall|j: int| 0 <= j < i ==> parsed_uuid(#[trigger] all[j]) == Some(ids@[j]),
        decreases parts.len() - i,
    {
        proof {
            assert(all[i as int] == parts@[i as int]@);
        }
        match uuid_from_text(parts[i].as_str()) {
            Some(uuid) => ids.push(uuid),
            None => {
                proof {
                    assert(parsed_uuid(all[i as int]).is_none());
                }
                return Err(Error::StoreError);
            },
        }
        i += 1;
    }
    proof {
        assert(all.len() == parts@.len());
        assert(ids@ =~= listed_ids(all).unwrap());
    }
    Ok(ids)
}

/// The position of the first record of a reply that carries the identifier.
fn find_record(records: &Vec<Task>, uuid: u128) -> (found: Option<usize>)
    ensures
        match found {
            Some(i) => i < records.len() && records@[i as int].uuid == uuid && first_record(
                records@,
                uuid,
            ) == Some(records@[i as int]),
            None => first_record(records@, uuid).is_none(),
        },
{
    let mut i: usize = 0;
    proof {
        assert(records@.skip(0) =~= records@);
    }
    while i < records.len()
        invariant
            i <= records.len(),
            first_record(records@, uuid) == first_record(records@.skip(i as int), uuid),
        decreases records.len() - i,
    {
        proof {
            assert(records@.skip(i as int).drop_first() =~= records@.skip(i as int + 1));
        }
        if records[i].uuid == uuid {
            return Some(i);
        }
        i += 1;
    }
    None
}

impl TaskCache {
    /// The records by identifier.
    pub open spec fn view(&self) -> Map<u128, Task> {
        self.tasks@
    }

    /// Every record is stored under its own identifier.
    pub open spec fn wf(&self) -> bool {
        keyed(self@)
    }

    /// An empty cache.
    pub fn new() -> (cache: Self)
        ensures
            cache@ == Map::<u128, Task>::empty(),
            cache.wf(),
    {
        TaskCache { tasks: HashMap::new() }
    }

    /// The record of an identifier, read from memory.
    pub fn get_task(&self, uuid: u128) -> (found: Result<&Task, Error>)
        ensures
            match found {
                Ok(task) => self@.contains_key(uuid) && *task == self@[uuid],
                Err(e) => e == Error::NotFound && !self@.contains_key(uuid),
            },
    {
        match self.tasks.get(&uuid) {
            Some(task) => Ok(task),
            None => Err(Error::NotFound),
        }
    }

    /// Takes the store's reply to a bulk export. Without a reply the cache is
    /// left as it was; with one, its records are merged in.
    pub fn refresh(&mut self, reply: Option<Vec<Task>>) -> (done: Result<(), Error>)
        requires
            old(self).wf(),
        ensures
            final(self).wf(),
            match reply {
                None => done == Err::<(), Error>(Error::StoreError) && final(self)@ == old(self)@,
                Some(records) => done.is_ok() && final(self)@ == merged(old(self)@, records@),
            },
    {
        match reply {
            None => Err(Error::StoreError),
            Some(records) => {
                let ghost all = records@;
                let mut rest = records;
                let mut stack: Vec<Task> = Vec::new();
                while rest.len() > 0
                    invariant
                        rest@.len() + stack@.len() == all.len(),
                        rest@ == all.take(rest@.len() as int),
                        forall|j: int|
                            0 <= j < stack@.len() ==> #[trigger] stack@[j] == all[all.len() - 1 - j],
                    decreases rest@.len(),
                {
                    if let Some(task) = rest.pop() {
                        stack.push(task);
                    }
                }
                let ghost base = self@;
                while stack.len() > 0
                    invariant
                        stack@.len() <= all.len(),
                        forall|j: int|
                            0 <= j < stack@.len() ==> #[trigger] stack@[j] == all[all.len() - 1 - j],
                        self@ == merged(base, all.take(all.len() - stack@.len())),
                        self.wf(),
                    decreases stack@.len(),
                {
                    let ghost k = all.len() - stack@.len();
                    if let Some(task) = stack.pop() {
                        proof {
                            assert(task == all[k]);
                            assert(all.take(k + 1).drop_last() =~= all.take(k));
                            assert(all.take(k + 1).last() == all[k]);
                        }
                        self.tasks.insert(task.uuid, task);
                    }
                }
                proof {
                    assert(all.take(all.len() as int) =~= all);
                }
                Ok(())
            },
        }
    }

    /// Takes the store's reply to the export of one record and stores that
    /// record over what the cache held for the identifier.
    pub fn update(&mut self, uuid: u128, reply: Option<Vec<Task>>) -> (stored: Result<&Task, Error>)
        requires
            old(self).wf(),
        ensures
            final(self).wf(),
            match fetched(uuid, reply) {
                Ok(task) => stored.is_ok() && *stored.unwrap() == task && final(self)@ == old(self)@.insert(uuid, task),
                Err(e) => stored.is_err() && stored.unwrap_err() == e && final(self)@ == old(self)@,
            },
    {
        match reply {
            None => Err(Error::StoreError),
            Some(records) => {
                let mut records = records;
                match find_record(&records, uuid) {
                    None => Err(Error::NotFound),
                    Some(i) => {
                        let task = records.swap_remove(i);
                        self.tasks.insert(uuid, task);
                        self.get_task(uuid)
                    },
                }
            },
        }
    }

    /// The identifier that the store's acknowledgement of a creation names.
    pub fn new_task_id(acknowledgement: &str) -> (named: Result<u128, Error>)
        ensures
            match acknowledged_id(acknowledgement@) {
                Some(uuid) => named == Ok::<u128, Error>(uuid),
                None => named == Err::<u128, Error>(Error::CreationFailed),
            },
    {
        match find_leftmost(uuid_pattern(), acknowledgement) {
            None => Err(Error::CreationFailed),
            Some(part) => match uuid_from_text(part.as_str()) {
                None => Err(Error::CreationFailed),
                Some(uuid) => Ok(uuid),
            },
        }
    }

    /// Completes a creation: reads the new identifier out of the store's
    /// acknowledgement and stores the record that the store exported for it.
    pub fn create(&mut self, acknowledgement: Option<&str>, reply: Option<Vec<Task>>) -> (stored:
        Result<&Task, Error>)
        requires
            old(self).wf(),
        ensures
            final(self).wf(),
            match created(acknowledgement, reply) {
                Ok(task) => stored.is_ok() && *stored.unwrap() == task && final(self)@ == old(self)@.insert(task.uuid, task),
                Err(e) => stored.is_err() && stored.unwrap_err() == e && final(self)@ == old(self)@,
            },
    {
        match acknowledgement {
            None => Err(Error::StoreError),
            Some(text) => match Self::new_task_id(text) {
                Err(e) => Err(e),
                Ok(uuid) => {
                    proof {
                        lemma_first_record_uuid(reply, uuid);
                    }
                    self.update(uuid, reply)
                },
            },
        }
    }
}

/// A record found for an identifier carries that identifier.
pub proof fn lemma_first_record_uuid(reply: Option<Vec<Task>>, uuid: u128)
    ensures
        fetched(uuid, reply) matches Ok(task) ==> task.uuid == uuid,
{
    if let Some(records) = reply {
        lemma_first_record_in(records@, uuid);
    }
}

/// The first record with an identifier is one of the records and carries it.
pub proof fn lemma_first_record_in(records: Seq<Task>, uuid: u128)
    ensures
        first_record(records, uuid) matches Some(task) ==> task.uuid == uuid && records.contains(
            task,
        ),
    decreases records.len(),
{
    if records.len() > 0 && records.first().uuid != uuid {
        lemma_first_record_in(records.drop_first(), uuid);
        if let Some(task) = first_record(records, uuid) {
            let i = choose|i: int| 0 <= i < records.drop_first().len() && records.drop_first()[i] == task;
            assert(records[i + 1] == task);
        }
    } else if records.len() > 0 {
        assert(records[0] == records.first());
    }
}

} // verus!
