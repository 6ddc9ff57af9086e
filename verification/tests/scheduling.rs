use rtos_core::config;
use rtos_core::list::Link;
use rtos_core::scheduler::Scheduler;
use rtos_core::task::TaskControlBlock;
use rtos_core::types::TaskState;

const STACK: usize = 0x8000_0000;

fn register_ready(sched: &mut Scheduler, name: &str, priority: usize) -> usize {
    let tcb = TaskControlBlock::new(name, priority, STACK, config::MIN_STACK_SIZE);
    let id = sched.register_task(tcb);
    sched.add_task_to_ready_list(id);
    sched.increment_task_count();
    id
}

fn running_ids(sched: &Scheduler) -> Vec<usize> {
    (0..sched.tasks.len()).filter(|&i| sched.tasks[i].state == TaskState::Running).collect()
}

#[test]
fn fresh_scheduler_state() {
    let sched = Scheduler::new();
    assert_eq!(sched.get_task_count(), 0);
    assert_eq!(sched.get_current_task(), None);
    assert_eq!(sched.get_top_ready_priority(), config::IDLE_PRIORITY);
    assert!(!sched.is_running());
    assert!(!sched.is_suspended());
    assert_eq!(sched.get_tick_count().to_ms(), 0);
    assert_eq!(sched.count_non_empty_ready_lists(), 0);
}

#[test]
fn add_task_sets_ready_and_raises_top() {
    let mut sched = Scheduler::new();
    let id = register_ready(&mut sched, "worker", 7);
    assert_eq!(sched.tasks[id].state, TaskState::Ready);
    assert_eq!(sched.get_top_ready_priority(), 7);
    assert!(!sched.is_ready_list_empty(7));
    assert_eq!(sched.get_task_count(), 1);
    assert_eq!(sched.count_non_empty_ready_lists(), 1);
}

#[test]
fn top_priority_cache_updates_on_removal() {
    // S3: with priority-3 and priority-5 tasks ready, the cached top is 5;
    // removing the priority-5 task drops it to 3.
    let mut sched = Scheduler::new();
    let _t3 = register_ready(&mut sched, "three", 3);
    let t5 = register_ready(&mut sched, "five", 5);
    assert_eq!(sched.get_top_ready_priority(), 5);
    assert!(sched.remove_task_from_ready_list(t5));
    assert_eq!(sched.get_top_ready_priority(), 3);
    assert!(sched.is_ready_list_empty(5));
}

#[test]
fn ready_list_removal_is_idempotent() {
    let mut sched = Scheduler::new();
    let id = register_ready(&mut sched, "only", 2);
    assert!(sched.remove_task_from_ready_list(id));
    assert!(!sched.remove_task_from_ready_list(id));
    assert!(!sched.tasks[id].state_list_item.is_in_list());
}

#[test]
fn add_then_remove_round_trip() {
    // P4 on concrete values: the round trip restores the ready lists and
    // the cached top, and leaves the node fully unlinked.
    let mut sched = Scheduler::new();
    let _bg = register_ready(&mut sched, "bg", 1);
    let tcb = TaskControlBlock::new("extra", 4, STACK, config::MIN_STACK_SIZE);
    let id = sched.register_task(tcb);
    let top_before = sched.get_top_ready_priority();
    let nonempty_before = sched.count_non_empty_ready_lists();
    sched.add_task_to_ready_list(id);
    assert!(sched.remove_task_from_ready_list(id));
    assert_eq!(sched.get_top_ready_priority(), top_before);
    assert_eq!(sched.count_non_empty_ready_lists(), nonempty_before);
    assert!(!sched.tasks[id].state_list_item.is_in_list());
    assert_eq!(sched.tasks[id].state_list_item.get_next(), Link::Null);
    assert_eq!(sched.tasks[id].state_list_item.get_prev(), Link::Null);
}

#[test]
fn selection_picks_highest_priority() {
    // P6 on concrete values: with a high and a low priority task ready,
    // selection returns the high one.
    let mut sched = Scheduler::new();
    let lo = register_ready(&mut sched, "lo", 2);
    let hi = register_ready(&mut sched, "hi", 9);
    let picked = sched.select_highest_priority_task();
    assert_eq!(picked, Some(hi));
    assert_eq!(sched.tasks[hi].state, TaskState::Running);
    assert_eq!(sched.tasks[lo].state, TaskState::Ready);
}

#[test]
fn exactly_one_task_running_after_selection() {
    // P2 on concrete values.
    let mut sched = Scheduler::new();
    let _a = register_ready(&mut sched, "a", 3);
    let _b = register_ready(&mut sched, "b", 3);
    let _c = register_ready(&mut sched, "c", 6);
    assert_eq!(running_ids(&sched).len(), 0);
    let picked = sched.select_highest_priority_task();
    assert_eq!(running_ids(&sched), vec![picked.unwrap()]);
    sched.set_current_task(picked);
    let next = sched.select_next_different_task();
    assert_eq!(running_ids(&sched), vec![next.unwrap()]);
}

#[test]
fn selection_with_no_tasks_returns_none() {
    let mut sched = Scheduler::new();
    assert_eq!(sched.select_highest_priority_task(), None);
}

#[test]
fn priority_dominates_yield() {
    // S1: idle at 0, task2 at 1, task1 at 2.  The two workers alternate
    // and the idle task never runs while either is ready.
    let mut sched = Scheduler::new();
    let idle = register_ready(&mut sched, "idle", 0);
    let task2 = register_ready(&mut sched, "task2", 1);
    let task1 = register_ready(&mut sched, "task1", 2);

    let first = sched.select_highest_priority_task();
    assert_eq!(first, Some(task1));
    sched.set_current_task(first);

    let mut current = task1;
    let mut order = Vec::new();
    for _ in 0..6 {
        let next = sched.select_next_different_task().unwrap();
        order.push(next);
        assert_ne!(next, idle);
        sched.set_current_task(Some(next));
        current = next;
    }
    assert_eq!(order, vec![task2, task1, task2, task1, task2, task1]);
    let _ = current;
}

#[test]
fn equal_priority_tasks_rotate_fifo() {
    // S2 / P5: A, B, C all at priority 5, registered in that order,
    // rotate A, B, C, A, B, C.
    let mut sched = Scheduler::new();
    let a = register_ready(&mut sched, "a", 5);
    let b = register_ready(&mut sched, "b", 5);
    let c = register_ready(&mut sched, "c", 5);

    let first = sched.select_highest_priority_task();
    assert_eq!(first, Some(a));
    sched.set_current_task(first);

    let mut order = Vec::new();
    for _ in 0..5 {
        let next = sched.select_next_different_task().unwrap();
        order.push(next);
        sched.set_current_task(Some(next));
    }
    assert_eq!(order, vec![b, c, a, b, c]);
}

#[test]
fn lone_task_reselects_itself() {
    let mut sched = Scheduler::new();
    let only = register_ready(&mut sched, "only", 4);
    let first = sched.select_highest_priority_task();
    assert_eq!(first, Some(only));
    sched.set_current_task(first);
    let next = sched.select_next_different_task();
    assert_eq!(next, Some(only));
    assert_eq!(sched.tasks[only].state, TaskState::Running);
}

#[test]
fn yield_rotates_current_to_tail() {
    let mut sched = Scheduler::new();
    let a = register_ready(&mut sched, "a", 5);
    let b = register_ready(&mut sched, "b", 5);
    let first = sched.select_highest_priority_task();
    assert_eq!(first, Some(a));
    sched.set_current_task(first);
    sched.yield_task();
    // After the yield the peer is at the head and the old current at the
    // tail, demoted to ready.
    assert_eq!(sched.ready_lists[5].get_head(), Some(b));
    assert_eq!(sched.tasks[a].state, TaskState::Ready);
}

#[test]
fn every_linked_task_is_ready_or_running() {
    // P1 on concrete values: after a selection, every task in a ready
    // list is ready or running and sits in its own priority's list.
    let mut sched = Scheduler::new();
    let _ = register_ready(&mut sched, "x", 1);
    let _ = register_ready(&mut sched, "y", 1);
    let _ = register_ready(&mut sched, "z", 8);
    let picked = sched.select_highest_priority_task();
    sched.set_current_task(picked);
    for i in 0..sched.tasks.len() {
        let tcb = &sched.tasks[i];
        assert!(tcb.state == TaskState::Ready || tcb.state == TaskState::Running);
        assert_eq!(tcb.state_list_item.get_container(), Some(tcb.priority));
    }
}

#[test]
fn yield_without_current_task_is_a_no_op() {
    let mut sched = Scheduler::new();
    let _a = register_ready(&mut sched, "a", 5);
    let top = sched.get_top_ready_priority();
    sched.yield_task();
    assert_eq!(sched.get_current_task(), None);
    assert_eq!(sched.get_top_ready_priority(), top);
}

#[test]
fn yield_relinks_an_unlinked_current_task() {
    let mut sched = Scheduler::new();
    let a = register_ready(&mut sched, "a", 5);
    sched.set_current_task(Some(a));
    assert!(sched.remove_task_from_ready_list(a));
    assert_eq!(sched.get_top_ready_priority(), 0);
    sched.yield_task();
    assert!(sched.tasks[a].state_list_item.is_in_list());
    assert_eq!(sched.get_top_ready_priority(), 5);
}

#[test]
fn tick_counter_wraps() {
    let mut sched = Scheduler::new();
    sched.increment_tick();
    sched.increment_tick();
    assert_eq!(sched.get_tick_count().to_ms(), 2);
}

#[test]
fn task_count_saturates_at_zero() {
    let mut sched = Scheduler::new();
    sched.decrement_task_count();
    assert_eq!(sched.get_task_count(), 0);
    sched.increment_task_count();
    sched.increment_task_count();
    sched.decrement_task_count();
    assert_eq!(sched.get_task_count(), 1);
}

#[test]
fn scheduler_running_flag() {
    let mut sched = Scheduler::new();
    sched.set_running(true);
    assert!(sched.is_running());
    sched.set_running(false);
    assert!(!sched.is_running());
}

#[test]
fn out_of_range_ready_list_is_empty() {
    let sched = Scheduler::new();
    assert!(sched.is_ready_list_empty(config::MAX_PRIORITIES));
    assert!(sched.is_ready_list_empty(usize::MAX));
}

#[test]
fn init_resets_scheduler() {
    let mut sched = Scheduler::new();
    let _ = register_ready(&mut sched, "gone", 6);
    sched.increment_tick();
    sched.set_running(true);
    sched.init();
    assert_eq!(sched.get_task_count(), 0);
    assert_eq!(sched.tasks.len(), 0);
    assert_eq!(sched.get_top_ready_priority(), 0);
    assert_eq!(sched.get_tick_count().to_ms(), 0);
    assert!(!sched.is_running());
    assert_eq!(sched.count_non_empty_ready_lists(), 0);
}
