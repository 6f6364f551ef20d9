use tasktree::cache::{get_tasks, TaskCache};
use tasktree::task::{
    delete_toggle, done_toggle, status_name, Error, Mutation, Task, TaskStatus,
};
use tasktree::row::make_row;
use tasktree::tree::TaskTreeState;

const A: u128 = 0x0123456789abcdef0123456789abcdef;
const B: u128 = 0x11111111222233334444555555555555;
const C: u128 = 0xaaaaaaaabbbbccccddddeeeeeeeeeeee;
const D: u128 = 0x00000000000000000000000000000001;

const A_TEXT: &str = "01234567-89ab-cdef-0123-456789abcdef";
const B_TEXT: &str = "11111111-2222-3333-4444-555555555555";

fn task(uuid: u128, status: TaskStatus, description: &str, partof: Option<u128>) -> Task {
    Task {
        status,
        uuid,
        entry: 0,
        description: description.to_string(),
        partof,
        annotations: None,
        due: None,
        modified: None,
        project: None,
        tags: None,
        wait: None,
    }
}

fn pending(uuid: u128, partof: Option<u128>) -> Task {
    task(uuid, TaskStatus::Pending, "something to do", partof)
}

fn present(state: &TaskTreeState) -> Vec<u128> {
    let mut ids: Vec<u128> = state.treestore.iter().filter(|n| n.present).map(|n| n.uuid).collect();
    ids.sort();
    ids
}

fn indexed(state: &TaskTreeState) -> Vec<u128> {
    let mut ids: Vec<u128> = state.positions.keys().copied().collect();
    ids.sort();
    ids
}

fn sorted(mut ids: Vec<u128>) -> Vec<u128> {
    ids.sort();
    ids
}

#[test]
fn refresh_builds_tree_of_listed_tasks() {
    let mut state = TaskTreeState::new();
    let exported = vec![
        pending(B, Some(A)),
        pending(A, None),
        task(C, TaskStatus::Completed, "finished", None),
    ];
    let listing = format!("{}\n{}\n", A_TEXT, B_TEXT);
    assert_eq!(state.refresh(Some(exported), Some(&listing)), Ok(()));
    assert_eq!(state.treestore.len(), 2);
    assert_eq!(state.treestore[0].uuid, A);
    assert_eq!(state.treestore[0].parent, None);
    assert_eq!(state.treestore[1].uuid, B);
    assert_eq!(state.treestore[1].parent, Some(0));
    assert!(state.treestore[0].present && state.treestore[1].present);
    assert_eq!(indexed(&state), sorted(vec![A, B]));
    assert!(!state.positions.contains_key(&C));
    assert!(state.tasks.get_task(C).is_ok());
}

#[test]
fn refresh_pulls_in_unlisted_ancestors() {
    let mut state = TaskTreeState::new();
    let exported = vec![
        task(A, TaskStatus::Completed, "root", None),
        pending(B, Some(A)),
        pending(C, Some(B)),
    ];
    let listing = format!("{:032x}", C);
    assert_eq!(state.refresh(Some(exported), Some(&listing)), Ok(()));
    assert_eq!(state.treestore.len(), 3);
    assert_eq!(state.treestore[0].uuid, A);
    assert_eq!(state.treestore[1].uuid, B);
    assert_eq!(state.treestore[2].uuid, C);
    assert_eq!(state.treestore[1].parent, Some(0));
    assert_eq!(state.treestore[2].parent, Some(1));
    assert_eq!(state.treestore[0].row.status, "COMPLETED");
}

#[test]
fn refresh_without_export_fails_empty() {
    let mut state = TaskTreeState::new();
    assert_eq!(
        state.refresh(Some(vec![pending(A, None)]), Some(A_TEXT)),
        Ok(())
    );
    assert_eq!(state.treestore.len(), 1);
    assert_eq!(state.refresh(None, Some(A_TEXT)), Err(Error::StoreError));
    assert_eq!(state.treestore.len(), 0);
    assert!(state.positions.is_empty());
    assert!(state.tasks.get_task(A).is_ok());
}

#[test]
fn refresh_with_unreadable_listing_fails_empty() {
    let mut state = TaskTreeState::new();
    let listing = format!("{} not-an-identifier", A_TEXT);
    assert_eq!(
        state.refresh(Some(vec![pending(A, None)]), Some(&listing)),
        Err(Error::StoreError)
    );
    assert_eq!(state.treestore.len(), 0);
    assert!(state.positions.is_empty());
    assert_eq!(
        state.refresh(Some(vec![pending(A, None)]), None),
        Err(Error::StoreError)
    );
    assert!(state.tasks.get_task(A).is_ok());
}

#[test]
fn refresh_with_missing_ancestor_fails_empty() {
    let mut state = TaskTreeState::new();
    let exported = vec![pending(A, None), pending(B, Some(C))];
    let listing = format!("{} {}", A_TEXT, B_TEXT);
    assert_eq!(
        state.refresh(Some(exported), Some(&listing)),
        Err(Error::NotFound)
    );
    assert_eq!(state.treestore.len(), 0);
    assert!(state.positions.is_empty());
}

#[test]
fn show_inserts_ancestors_first() {
    let mut state = TaskTreeState::new();
    assert_eq!(
        state.tasks.refresh(Some(vec![
            pending(C, Some(B)),
            pending(B, Some(A)),
            pending(A, None),
            pending(D, Some(A)),
        ])),
        Ok(())
    );
    assert_eq!(state.show_task(C), Ok(2));
    assert_eq!(state.positions[&A], 0);
    assert_eq!(state.positions[&B], 1);
    assert_eq!(state.positions[&C], 2);
    assert_eq!(state.treestore[2].parent, Some(1));
    assert_eq!(state.treestore[1].parent, Some(0));
    assert_eq!(state.treestore[0].parent, None);
    assert_eq!(state.show_task(D), Ok(3));
    assert_eq!(state.treestore[3].parent, Some(0));
    assert_eq!(state.treestore.len(), 4);
}

#[test]
fn show_twice_gives_the_same_handle() {
    let mut state = TaskTreeState::new();
    assert_eq!(
        state.tasks.refresh(Some(vec![pending(A, None), pending(B, Some(A))])),
        Ok(())
    );
    let first = state.show_task(B);
    assert_eq!(first, Ok(1));
    let second = state.show_task(B);
    assert_eq!(second, first);
    assert_eq!(state.treestore.len(), 2);
    assert_eq!(state.show_task(A), Ok(0));
    assert_eq!(state.treestore.len(), 2);
}

#[test]
fn show_of_unknown_task_is_not_found() {
    let mut state = TaskTreeState::new();
    assert_eq!(state.show_task(A), Err(Error::NotFound));
    assert_eq!(state.tasks.refresh(Some(vec![pending(B, Some(A))])), Ok(()));
    assert_eq!(state.show_task(B), Err(Error::NotFound));
    assert_eq!(state.treestore.len(), 0);
    assert!(state.positions.is_empty());
}

#[test]
fn show_on_a_cycle_is_detected() {
    let mut state = TaskTreeState::new();
    assert_eq!(
        state.tasks.refresh(Some(vec![
            pending(A, Some(B)),
            pending(B, Some(A)),
            pending(C, Some(C)),
        ])),
        Ok(())
    );
    assert_eq!(state.show_task(A), Err(Error::CycleDetected));
    assert_eq!(state.show_task(C), Err(Error::CycleDetected));
    assert_eq!(state.treestore.len(), 0);
    assert!(state.positions.is_empty());
}

#[test]
fn index_and_tree_name_the_same_tasks() {
    let mut state = TaskTreeState::new();
    let exported = vec![pending(A, None), pending(B, Some(A)), pending(C, Some(B)), pending(D, None)];
    let listing = format!("{:032x} {:032x}", C, D);
    assert_eq!(state.refresh(Some(exported), Some(&listing)), Ok(()));
    assert_eq!(indexed(&state), present(&state));
    assert_eq!(indexed(&state), sorted(vec![A, B, C, D]));
    assert_eq!(state.update(B, None, Some(vec![pending(B, None)])), Ok(()));
    assert_eq!(indexed(&state), present(&state));
    assert_eq!(indexed(&state), sorted(vec![A, B, D]));
    let handle = state.positions[&D];
    assert_eq!(
        state.update(D, Some(handle), Some(vec![pending(D, None)])),
        Ok(())
    );
    assert_eq!(indexed(&state), present(&state));
}

#[test]
fn toggling_done_rebuilds_the_node() {
    let mut state = TaskTreeState::new();
    assert_eq!(
        state.refresh(Some(vec![pending(A, None)]), Some(A_TEXT)),
        Ok(())
    );
    assert_eq!(state.treestore[0].row.status, "PENDING");
    assert!(!state.treestore[0].row.completed);
    let status = state.tasks.get_task(A).unwrap().status;
    assert_eq!(done_toggle(status), Some(Mutation::Done));
    let reply = vec![task(A, TaskStatus::Completed, "something to do", None)];
    assert_eq!(state.update(A, None, Some(reply)), Ok(()));
    assert!(!state.treestore[0].present);
    let handle = state.positions[&A];
    assert_eq!(handle, 1);
    assert!(state.treestore[1].present);
    assert_eq!(state.treestore[1].row.status, "COMPLETED");
    assert!(state.treestore[1].row.completed);
    assert!(!state.treestore[1].row.deleted);
    assert_eq!(state.tasks.get_task(A).unwrap().status, TaskStatus::Completed);
}

#[test]
fn update_without_position_is_a_desync() {
    let mut state = TaskTreeState::new();
    let reply = vec![task(A, TaskStatus::Completed, "something to do", None)];
    assert_eq!(state.update(A, None, Some(reply)), Err(Error::DesyncError));
    assert_eq!(state.treestore.len(), 0);
    assert!(state.tasks.get_task(A).is_ok());
}

#[test]
fn update_failures_leave_the_tree_alone() {
    let mut state = TaskTreeState::new();
    assert_eq!(
        state.refresh(Some(vec![pending(A, None)]), Some(A_TEXT)),
        Ok(())
    );
    assert_eq!(state.update(A, None, None), Err(Error::StoreError));
    assert_eq!(state.update(A, None, Some(vec![])), Err(Error::NotFound));
    assert_eq!(
        state.update(A, None, Some(vec![pending(B, None)])),
        Err(Error::NotFound)
    );
    assert_eq!(state.treestore.len(), 1);
    assert!(state.treestore[0].present);
    assert_eq!(state.positions[&A], 0);
}

#[test]
fn update_with_handle_keeps_the_node() {
    let mut state = TaskTreeState::new();
    let listing = format!("{} {}", A_TEXT, B_TEXT);
    assert_eq!(
        state.refresh(Some(vec![pending(A, None), pending(B, Some(A))]), Some(&listing)),
        Ok(())
    );
    let reply = vec![task(B, TaskStatus::Pending, "renamed", Some(A))];
    assert_eq!(state.update(B, Some(1), Some(reply)), Ok(()));
    assert_eq!(state.treestore.len(), 2);
    assert_eq!(state.positions[&B], 1);
    assert_eq!(state.treestore[1].row.description, "something to do");
    assert_eq!(state.tasks.get_task(B).unwrap().description, "renamed");
    let reply = vec![task(B, TaskStatus::Pending, "renamed", Some(A))];
    assert_eq!(state.update(B, Some(0), Some(reply)), Err(Error::DesyncError));
    let reply = vec![task(B, TaskStatus::Pending, "renamed", Some(A))];
    assert_eq!(state.update(B, Some(7), Some(reply)), Err(Error::DesyncError));
    assert_eq!(state.positions[&B], 1);
}

#[test]
fn update_removes_what_hangs_below() {
    let mut state = TaskTreeState::new();
    let exported = vec![pending(A, None), pending(B, Some(A)), pending(C, Some(B)), pending(D, Some(A))];
    let listing = format!("{:032x} {:032x}", C, D);
    assert_eq!(state.refresh(Some(exported), Some(&listing)), Ok(()));
    assert_eq!(state.treestore.len(), 4);
    assert_eq!(state.update(B, None, Some(vec![pending(B, Some(D))])), Ok(()));
    assert!(state.treestore[0].present);
    assert!(!state.treestore[1].present);
    assert!(!state.treestore[2].present);
    assert!(state.treestore[3].present);
    assert_eq!(state.positions[&B], 4);
    assert_eq!(state.treestore[4].parent, Some(3));
    assert!(!state.positions.contains_key(&C));
    assert_eq!(state.show_task(C), Ok(5));
    assert_eq!(state.treestore[5].parent, Some(4));
}

#[test]
fn unchanged_parent_asks_for_nothing() {
    let mut state = TaskTreeState::new();
    let listing = format!("{} {}", A_TEXT, B_TEXT);
    assert_eq!(
        state.refresh(Some(vec![pending(A, None), pending(B, Some(A))]), Some(&listing)),
        Ok(())
    );
    assert_eq!(state.row_changed(0), Ok(None));
    assert_eq!(state.row_changed(1), Ok(None));
    assert_eq!(state.treestore.len(), 2);
    assert_eq!(state.row_changed(2), Err(Error::DesyncError));
    assert_eq!(state.uuid_at(1), Ok(B));
    assert_eq!(state.parent_at(1), Ok(Some(A)));
    assert_eq!(state.parent_at(0), Ok(None));
    assert_eq!(state.uuid_at(5), Err(Error::DesyncError));
}

#[test]
fn merge_on_refresh_keeps_unnamed_records() {
    let mut cache = TaskCache::new();
    assert_eq!(
        cache.refresh(Some(vec![
            task(A, TaskStatus::Pending, "old a", None),
            task(B, TaskStatus::Pending, "old b", None),
        ])),
        Ok(())
    );
    assert_eq!(
        cache.refresh(Some(vec![task(A, TaskStatus::Waiting, "new a", None)])),
        Ok(())
    );
    assert_eq!(cache.tasks.len(), 2);
    assert_eq!(cache.get_task(A).unwrap().description, "new a");
    assert_eq!(cache.get_task(A).unwrap().status, TaskStatus::Waiting);
    assert_eq!(cache.get_task(B).unwrap().description, "old b");
}

#[test]
fn merge_takes_the_last_of_two_records() {
    let mut cache = TaskCache::new();
    assert_eq!(
        cache.refresh(Some(vec![
            task(A, TaskStatus::Pending, "first", None),
            task(B, TaskStatus::Pending, "other", None),
            task(A, TaskStatus::Pending, "second", None),
        ])),
        Ok(())
    );
    assert_eq!(cache.get_task(A).unwrap().description, "second");
    assert_eq!(cache.tasks.len(), 2);
}

#[test]
fn failed_refresh_keeps_the_cache() {
    let mut cache = TaskCache::new();
    assert_eq!(cache.refresh(Some(vec![pending(A, None)])), Ok(()));
    assert_eq!(cache.refresh(None), Err(Error::StoreError));
    assert!(cache.get_task(A).is_ok());
    assert_eq!(cache.tasks.len(), 1);
}

#[test]
fn get_task_of_absent_identifier_is_not_found() {
    let cache = TaskCache::new();
    assert_eq!(cache.get_task(A).err(), Some(Error::NotFound));
}

#[test]
fn cache_update_stores_the_first_matching_record() {
    let mut cache = TaskCache::new();
    let reply = vec![
        task(B, TaskStatus::Pending, "other", None),
        task(A, TaskStatus::Pending, "first", None),
        task(A, TaskStatus::Pending, "second", None),
    ];
    assert_eq!(cache.update(A, Some(reply)).unwrap().description, "first");
    assert_eq!(cache.tasks.len(), 1);
    assert_eq!(cache.update(B, Some(vec![])).err(), Some(Error::NotFound));
    assert_eq!(cache.update(B, None).err(), Some(Error::StoreError));
    assert_eq!(cache.tasks.len(), 1);
}

#[test]
fn create_then_show_hangs_under_the_parent() {
    let mut state = TaskTreeState::new();
    assert_eq!(
        state.refresh(Some(vec![pending(A, None)]), Some(A_TEXT)),
        Ok(())
    );
    let acknowledgement = format!("Created task {}.\n", B_TEXT);
    assert_eq!(TaskCache::new_task_id(&acknowledgement), Ok(B));
    let reply = vec![task(B, TaskStatus::Pending, "buy milk", Some(A))];
    let created = state.tasks.create(Some(&acknowledgement), Some(reply)).unwrap();
    assert_eq!(created.uuid, B);
    assert_eq!(created.description, "buy milk");
    assert_eq!(created.partof, Some(A));
    let parent = state.show_task(A).unwrap();
    let child = state.show_task(B).unwrap();
    assert_eq!(state.treestore[child].parent, Some(parent));
    assert_eq!(state.treestore[child].row.description, "buy milk");
}

#[test]
fn create_without_identifier_fails() {
    let mut cache = TaskCache::new();
    let reply = vec![task(B, TaskStatus::Pending, "buy milk", None)];
    assert_eq!(
        cache.create(Some("Created task 12."), Some(reply)).err(),
        Some(Error::CreationFailed)
    );
    assert_eq!(cache.create(None, Some(vec![])).err(), Some(Error::StoreError));
    assert_eq!(
        cache.create(Some(A_TEXT), Some(vec![])).err(),
        Some(Error::NotFound)
    );
    assert_eq!(cache.create(Some(A_TEXT), None).err(), Some(Error::StoreError));
    assert!(cache.tasks.is_empty());
    assert_eq!(
        TaskCache::new_task_id("01234567-89AB-CDEF-0123-456789ABCDEF"),
        Err(Error::CreationFailed)
    );
}

#[test]
fn new_task_id_takes_the_leftmost_identifier() {
    let text = format!("x{}y {} z", B_TEXT, A_TEXT);
    assert_eq!(TaskCache::new_task_id(&text), Ok(B));
    assert_eq!(TaskCache::new_task_id(""), Err(Error::CreationFailed));
}

#[test]
fn get_tasks_reads_each_word() {
    let listing = format!("  {}\n\t{}  \n", A_TEXT, B_TEXT);
    assert_eq!(get_tasks(&listing), Ok(vec![A, B]));
    assert_eq!(get_tasks(""), Ok(vec![]));
    assert_eq!(get_tasks("   \n"), Ok(vec![]));
    assert_eq!(get_tasks("nothing"), Err(Error::StoreError));
    let listing = format!("{} {}x", A_TEXT, B_TEXT);
    assert_eq!(get_tasks(&listing), Err(Error::StoreError));
}

#[test]
fn row_shows_every_field() {
    let record = Task {
        status: TaskStatus::Deleted,
        uuid: A,
        entry: 0,
        description: "write the report".to_string(),
        partof: Some(B),
        annotations: None,
        due: Some(1_500_000_000),
        modified: Some(86_399),
        project: Some("office".to_string()),
        tags: Some(vec!["work".to_string(), "urgent".to_string(), "q3".to_string()]),
        wait: None,
    };
    let row = make_row(&record);
    assert_eq!(row.uuid, A_TEXT);
    assert_eq!(row.description, "write the report");
    assert_eq!(row.status, "DELETED");
    assert!(!row.completed);
    assert!(row.deleted);
    assert_eq!(row.tags, "work, urgent, q3");
    assert_eq!(row.project, Some("office".to_string()));
    assert_eq!(row.due, "2017-07-14 02:40");
    assert_eq!(row.wait, "");
    assert_eq!(row.entry, "1970-01-01 00:00");
    assert_eq!(row.modified, "1970-01-01 23:59");
}

#[test]
fn row_of_a_bare_task_is_mostly_empty() {
    let row = make_row(&task(D, TaskStatus::Waiting, "wait for it", None));
    assert_eq!(row.uuid, "00000000-0000-0000-0000-000000000001");
    assert_eq!(row.status, "WAITING");
    assert_eq!(row.tags, "");
    assert_eq!(row.project, None);
    assert_eq!(row.due, "");
    assert_eq!(row.modified, "");
    let lonely = Task { tags: Some(vec!["one".to_string()]), ..task(D, TaskStatus::Recurring, "x", None) };
    assert_eq!(make_row(&lonely).tags, "one");
    let far = Task { due: Some(i64::MAX), ..task(D, TaskStatus::Recurring, "x", None) };
    assert_eq!(make_row(&far).due, "");
}

#[test]
fn status_names_and_toggles() {
    assert_eq!(status_name(TaskStatus::Pending), "PENDING");
    assert_eq!(status_name(TaskStatus::Deleted), "DELETED");
    assert_eq!(status_name(TaskStatus::Completed), "COMPLETED");
    assert_eq!(status_name(TaskStatus::Waiting), "WAITING");
    assert_eq!(status_name(TaskStatus::Recurring), "RECURRING");
    assert_eq!(done_toggle(TaskStatus::Completed), Some(Mutation::Pending));
    assert_eq!(done_toggle(TaskStatus::Pending), Some(Mutation::Done));
    assert_eq!(done_toggle(TaskStatus::Recurring), Some(Mutation::Done));
    assert_eq!(done_toggle(TaskStatus::Waiting), Some(Mutation::Done));
    assert_eq!(done_toggle(TaskStatus::Deleted), None);
    assert_eq!(delete_toggle(TaskStatus::Deleted), Mutation::Pending);
    assert_eq!(delete_toggle(TaskStatus::Completed), Mutation::Delete);
    assert_eq!(delete_toggle(TaskStatus::Pending), Mutation::Delete);
    assert_eq!(delete_toggle(TaskStatus::Recurring), Mutation::Delete);
    assert_eq!(delete_toggle(TaskStatus::Waiting), Mutation::Delete);
}
