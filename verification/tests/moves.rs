use tasktree::task::{Error, Task, TaskStatus};
use tasktree::tree::TaskTreeState;

const A: u128 = 0x0123456789abcdef0123456789abcdef;
const B: u128 = 0x11111111222233334444555555555555;
const C: u128 = 0xaaaaaaaabbbbccccddddeeeeeeeeeeee;
const D: u128 = 0x00000000000000000000000000000001;

fn record(uuid: u128, partof: Option<u128>) -> Task {
    Task {
        status: TaskStatus::Pending,
        uuid,
        entry: 1_000_000_000,
        description: "a task".to_string(),
        partof,
        annotations: None,
        due: None,
        modified: None,
        project: None,
        tags: None,
        wait: None,
    }
}

fn family() -> TaskTreeState {
    let mut state = TaskTreeState::new();
    let exported = vec![record(A, None), record(B, Some(A)), record(C, Some(B)), record(D, None)];
    let listing = format!("{:032x} {:032x}", C, D);
    assert_eq!(state.refresh(Some(exported), Some(&listing)), Ok(()));
    state
}

#[test]
fn moved_node_is_reconciled_through_its_handle() {
    let mut state = family();
    assert_eq!(state.positions[&B], 1);
    assert_eq!(state.positions[&D], 3);
    assert_eq!(state.relocate(1, Some(3)), Ok(4));
    assert_eq!(state.positions[&B], 4);
    assert_eq!(state.treestore[4].parent, Some(3));
    assert_eq!(state.treestore[4].uuid, B);
    assert!(!state.treestore[1].present);
    assert!(!state.treestore[2].present);
    assert!(!state.positions.contains_key(&C));
    assert_eq!(state.tasks.get_task(B).unwrap().partof, Some(A));
    assert_eq!(state.row_changed(4), Ok(Some((B, Some(D)))));
    assert_eq!(state.update(B, Some(4), Some(vec![record(B, Some(D))])), Ok(()));
    assert_eq!(state.treestore.len(), 5);
    assert_eq!(state.positions[&B], 4);
    assert_eq!(state.tasks.get_task(B).unwrap().partof, Some(D));
    assert_eq!(state.row_changed(4), Ok(None));
    assert_eq!(state.show_task(C), Ok(5));
    assert_eq!(state.treestore[5].parent, Some(4));
}

#[test]
fn moved_to_the_top_asks_for_no_parent() {
    let mut state = family();
    assert_eq!(state.relocate(2, None), Ok(4));
    assert_eq!(state.treestore[4].parent, None);
    assert_eq!(state.row_changed(4), Ok(Some((C, None))));
    assert_eq!(state.row_changed(1), Ok(None));
    assert_eq!(state.update(C, Some(4), Some(vec![record(C, None)])), Ok(()));
    assert_eq!(state.row_changed(4), Ok(None));
}

#[test]
fn move_into_own_subtree_is_refused() {
    let mut state = family();
    assert_eq!(state.relocate(0, Some(2)), Err(Error::DesyncError));
    assert_eq!(state.relocate(1, Some(1)), Err(Error::DesyncError));
    assert_eq!(state.relocate(9, None), Err(Error::DesyncError));
    assert_eq!(state.relocate(3, Some(9)), Err(Error::DesyncError));
    assert_eq!(state.treestore.len(), 4);
    assert!(state.treestore.iter().all(|n| n.present));
    assert_eq!(state.positions.len(), 4);
    assert_eq!(state.relocate(1, Some(3)), Ok(4));
    assert_eq!(state.relocate(1, None), Err(Error::DesyncError));
    assert_eq!(state.relocate(3, Some(2)), Err(Error::DesyncError));
}

#[test]
fn rows_show_the_entry_time() {
    let state = family();
    assert_eq!(state.treestore[0].row.entry, "2001-09-09 01:46");
    assert_eq!(state.treestore[0].row.uuid, "01234567-89ab-cdef-0123-456789abcdef");
}
