use rtos_core::list::{Link, List, ListNode};
use rtos_core::task::TaskControlBlock;

fn make_tasks(n: usize) -> Vec<TaskControlBlock> {
    let mut tasks = Vec::new();
    for _ in 0..n {
        tasks.push(TaskControlBlock::new("t", 1, 0x8000_0000, 256));
    }
    tasks
}

#[test]
fn node_starts_unlinked() {
    let node = ListNode::new();
    assert!(!node.is_in_list());
    assert_eq!(node.get_container(), None);
    assert_eq!(node.get_next(), Link::Null);
    assert_eq!(node.get_prev(), Link::Null);
    assert_eq!(node.get_owner(), None);
    assert_eq!(node.get_value(), 0);
}

#[test]
fn node_value_and_owner() {
    let mut node = ListNode::new();
    node.set_value(7);
    assert_eq!(node.get_value(), 7);
    node.set_owner(3);
    assert_eq!(node.get_owner(), Some(3));
}

#[test]
fn fresh_list_is_empty() {
    let mut list = List::new();
    list.init(4);
    assert!(list.is_empty());
    assert_eq!(list.len(), 0);
    assert_eq!(list.get_head(), None);
}

#[test]
fn insert_end_is_fifo() {
    let mut tasks = make_tasks(3);
    let mut list = List::new();
    list.init(0);
    list.insert_end(&mut tasks, 0);
    list.insert_end(&mut tasks, 1);
    list.insert_end(&mut tasks, 2);
    assert_eq!(list.len(), 3);
    assert_eq!(list.get_head(), Some(0));
    assert_eq!(tasks[0].state_list_item.get_next(), Link::Item(1));
    assert_eq!(tasks[1].state_list_item.get_next(), Link::Item(2));
    assert_eq!(tasks[2].state_list_item.get_next(), Link::End);
    assert_eq!(tasks[0].state_list_item.get_prev(), Link::End);
    assert_eq!(tasks[1].state_list_item.get_container(), Some(0));
}

#[test]
fn insert_sorted_orders_by_value() {
    let mut tasks = make_tasks(3);
    tasks[0].state_list_item.set_value(5);
    tasks[1].state_list_item.set_value(1);
    tasks[2].state_list_item.set_value(3);
    let mut list = List::new();
    list.init(0);
    list.insert_sorted(&mut tasks, 0);
    list.insert_sorted(&mut tasks, 1);
    list.insert_sorted(&mut tasks, 2);
    // Walk forward: values 1, 3, 5.
    assert_eq!(list.get_head(), Some(1));
    assert_eq!(tasks[1].state_list_item.get_next(), Link::Item(2));
    assert_eq!(tasks[2].state_list_item.get_next(), Link::Item(0));
    assert_eq!(tasks[0].state_list_item.get_next(), Link::End);
}

#[test]
fn insert_sorted_before_first_not_smaller() {
    // A node goes directly before the first member whose value is >= its
    // own: with an equal key already present, the new node precedes it.
    let mut tasks = make_tasks(3);
    tasks[0].state_list_item.set_value(3);
    tasks[1].state_list_item.set_value(3);
    tasks[2].state_list_item.set_value(2);
    let mut list = List::new();
    list.init(0);
    list.insert_sorted(&mut tasks, 0);
    list.insert_sorted(&mut tasks, 1);
    list.insert_sorted(&mut tasks, 2);
    assert_eq!(list.get_head(), Some(2));
    assert_eq!(tasks[2].state_list_item.get_next(), Link::Item(1));
    assert_eq!(tasks[1].state_list_item.get_next(), Link::Item(0));
}

#[test]
fn remove_unlinks_node() {
    let mut tasks = make_tasks(2);
    let mut list = List::new();
    list.init(0);
    list.insert_end(&mut tasks, 0);
    list.insert_end(&mut tasks, 1);
    assert!(list.remove(&mut tasks, 0));
    assert_eq!(list.len(), 1);
    assert_eq!(list.get_head(), Some(1));
    assert!(!tasks[0].state_list_item.is_in_list());
    assert_eq!(tasks[0].state_list_item.get_next(), Link::Null);
    assert_eq!(tasks[0].state_list_item.get_prev(), Link::Null);
    assert_eq!(tasks[0].state_list_item.get_container(), None);
}

#[test]
fn remove_is_idempotent() {
    // S6: a second removal returns false and changes nothing.
    let mut tasks = make_tasks(1);
    let mut list = List::new();
    list.init(0);
    list.insert_end(&mut tasks, 0);
    assert!(list.remove(&mut tasks, 0));
    assert_eq!(list.len(), 0);
    assert!(!list.remove(&mut tasks, 0));
    assert_eq!(list.len(), 0);
    assert_eq!(tasks[0].state_list_item.get_next(), Link::Null);
    assert_eq!(tasks[0].state_list_item.get_prev(), Link::Null);
    assert_eq!(tasks[0].state_list_item.get_container(), None);
}

#[test]
fn remove_middle_restitches_neighbours() {
    let mut tasks = make_tasks(3);
    let mut list = List::new();
    list.init(0);
    list.insert_end(&mut tasks, 0);
    list.insert_end(&mut tasks, 1);
    list.insert_end(&mut tasks, 2);
    assert!(list.remove(&mut tasks, 1));
    assert_eq!(list.len(), 2);
    assert_eq!(tasks[0].state_list_item.get_next(), Link::Item(2));
    assert_eq!(tasks[2].state_list_item.get_prev(), Link::Item(0));
}
