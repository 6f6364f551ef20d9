//! The requests that the engine makes of the store, each as the list of
//! arguments that the `task` program is run with.

use vstd::prelude::*;
use vstd::string::StringExecFns;
use crate::text::{canonical_text, texts, uuid_to_text};

verus! {

/// The argument that selects one record: `uuid:` and the identifier.
pub open spec fn selector(uuid: u128) -> Seq<char> {
    "uuid:"@ + canonical_text(uuid)
}

/// The argument that sets the parent of a record: `partof:` and the parent's
/// identifier, or nothing after the colon to take the parent away.
pub open spec fn parent_setting(partof: Option<u128>) -> Seq<char> {
    match partof {
        Some(parent) => "partof:"@ + canonical_text(parent),
        None => "partof:"@,
    }
}

/// The argument that sets a description, which goes between double quotes.
pub open spec fn description_setting(description: Seq<char>) -> Seq<char> {
    "description:\""@ + description + "\""@
}

/// The arguments that ask for every record.
pub open spec fn export_all_args() -> Seq<Seq<char>> {
    seq!["export"@]
}

/// The arguments that ask for the record of one identifier.
pub open spec fn export_one_args(uuid: u128) -> Seq<Seq<char>> {
    seq!["export"@, selector(uuid)]
}

/// The arguments that ask for the identifiers that match a filter.
pub open spec fn query_args(filter: Seq<char>) -> Seq<Seq<char>> {
    seq!["_uuid"@, filter]
}

/// The arguments that ask for a new task, whose identifier the store is to
/// name in its acknowledgement.
pub open spec fn add_args(description: Seq<char>, partof: Option<u128>) -> Seq<Seq<char>> {
    match partof {
        Some(parent) => seq!["add"@, "rc.verbose=new-uuid"@, description, parent_setting(partof)],
        None => seq!["add"@, "rc.verbose=new-uuid"@, description],
    }
}

/// The arguments that mark a task as done.
pub open spec fn done_args(uuid: u128) -> Seq<Seq<char>> {
    seq![selector(uuid), "done"@]
}

/// The arguments that delete a task without asking back.
pub open spec fn delete_args(uuid: u128) -> Seq<Seq<char>> {
    seq![selector(uuid), "delete"@, "rc.confirmation:0"@]
}

/// The arguments that make a task pending again.
pub open spec fn pending_args(uuid: u128) -> Seq<Seq<char>> {
    seq![selector(uuid), "mod"@, "status:pending"@]
}

/// The arguments that give a task a parent or take it away.
pub open spec fn partof_args(uuid: u128, partof: Option<u128>) -> Seq<Seq<char>> {
    seq![selector(uuid), "mod"@, parent_setting(partof)]
}

/// The arguments that give a task a description.
pub open spec fn set_description_args(uuid: u128, description: Seq<char>) -> Seq<Seq<char>> {
    seq![selector(uuid), "mod"@, description_setting(description)]
}

fn select(uuid: u128) -> (arg: String)
    ensures
        arg@ == selector(uuid),
{
    let id = uuid_to_text(uuid);
    "uuid:".to_owned().concat(id.as_str())
}

fn set_parent(partof: Option<u128>) -> (arg: String)
    ensures
        arg@ == parent_setting(partof),
{
    match partof {
        Some(parent) => {
            let id = uuid_to_text(parent);
            "partof:".to_owned().concat(id.as_str())
        },
        None => "partof:".to_owned(),
    }
}

/// A list of one, two or three arguments.
fn list(first: String, second: Option<String>, third: Option<String>) -> (args: Vec<String>)
    ensures
        texts(args@) == match (second, third) {
            (Some(s), Some(t)) => seq![first@, s@, t@],
            (Some(s), None) => seq![first@, s@],
            (None, Some(t)) => seq![first@, t@],
            (None, None) => seq![first@],
        },
{
    let mut args: Vec<String> = Vec::new();
    args.push(first);
    if let Some(s) = second {
        args.push(s);
    }
    if let Some(t) = third {
        args.push(t);
    }
    proof {
        assert(texts(args@) =~= match (second, third) {
            (Some(s), Some(t)) => seq![first@, s@, t@],
            (Some(s), None) => seq![first@, s@],
            (None, Some(t)) => seq![first@, t@],
            (None, None) => seq![first@],
        });
    }
    args
}

/// The request for every record.
pub fn export_all() -> (args: Vec<String>)
    ensures
        texts(args@) == export_all_args(),
{
    list("export".to_owned(), None, None)
}

/// The request for the record of one identifier.
pub fn export_one(uuid: u128) -> (args: Vec<String>)
    ensures
        texts(args@) == export_one_args(uuid),
{
    list("export".to_owned(), Some(select(uuid)), None)
}

/// The request for the identifiers that match a filter.
pub fn query(filter: &str) -> (args: Vec<String>)
    ensures
        texts(args@) == query_args(filter@),
{
    list("_uuid".to_owned(), Some(filter.to_owned()), None)
}

/// The request for a new task with a description, under a parent or at the
/// top.
pub fn add(description: &str, partof: Option<u128>) -> (args: Vec<String>)
    ensures
        texts(args@) == add_args(description@, partof),
{
    let mut args = list(
        "add".to_owned(),
        Some("rc.verbose=new-uuid".to_owned()),
        Some(description.to_owned()),
    );
    if partof.is_some() {
        let ghost before = args@;
        args.push(set_parent(partof));
        proof {
            assert(texts(args@) =~= texts(before).push(parent_setting(partof)));
            assert(texts(args@) =~= add_args(description@, partof));
        }
    }
    args
}

/// The request to mark a task as done.
pub fn done(uuid: u128) -> (args: Vec<String>)
    ensures
        texts(args@) == done_args(uuid),
{
    list(select(uuid), Some("done".to_owned()), None)
}

/// The request to delete a task.
pub fn delete(uuid: u128) -> (args: Vec<String>)
    ensures
        texts(args@) == delete_args(uuid),
{
    list(select(uuid), Some("delete".to_owned()), Some("rc.confirmation:0".to_owned()))
}

/// The request to make a task pending again.
pub fn pending(uuid: u128) -> (args: Vec<String>)
    ensures
        texts(args@) == pending_args(uuid),
{
    list(select(uuid), Some("mod".to_owned()), Some("status:pending".to_owned()))
}

/// The request to give a task a parent, or to take its parent away.
pub fn partof(uuid: u128, parent: Option<u128>) -> (args: Vec<String>)
    ensures
        texts(args@) == partof_args(uuid, parent),
{
    list(select(uuid), Some("mod".to_owned()), Some(set_parent(parent)))
}

/// The request to give a task a description.
pub fn set_description(uuid: u128, description: &str) -> (args: Vec<String>)
    ensures
        texts(args@) == set_description_args(uuid, description@),
{
    let setting = "description:\"".to_owned().concat(description).concat("\"");
    list(select(uuid), Some("mod".to_owned()), Some(setting))
}

} // verus!
