use rtos_core::arch::{
    disable_interrupts, enable_interrupts, initialize_task_stack, restore_interrupts,
    CriticalSection, InterruptState, CONTEXT_SIZE, CONTEXT_WORDS, STACK_ALIGNMENT,
};
use rtos_core::config;
use rtos_core::list::{Link, List};
use rtos_core::scheduler::Scheduler;
use rtos_core::task::TaskControlBlock;
use rtos_core::types::{RtosError, TaskState, TickType};

#[test]
fn context_frame_constants() {
    assert_eq!(CONTEXT_SIZE, 248);
    assert_eq!(CONTEXT_WORDS, 31);
    assert_eq!(STACK_ALIGNMENT, 16);
}

#[test]
fn stack_seed_layout() {
    // S4 / P7: the returned pointer is 16-byte aligned, lies within the
    // buffer, the ra slot holds the entry address, and the other 30 slots
    // are zero.
    let base: usize = 0x8000_0000;
    let entry: usize = 0x1234_5678;
    let mut stack: Vec<usize> = vec![0xdead_beef; 512];
    let sp = initialize_task_stack(entry, base, &mut stack);
    assert_eq!(sp % 16, 0);
    assert!(sp >= base);
    assert!(sp + CONTEXT_SIZE <= base + 8 * stack.len());
    let fi = (sp - base) / 8;
    assert_eq!(stack[fi], entry);
    for j in 1..CONTEXT_WORDS {
        assert_eq!(stack[fi + j], 0);
    }
    // Words outside the frame are untouched.
    assert_eq!(stack[0], 0xdead_beef);
}

#[test]
fn stack_seed_alignment_with_offset_base() {
    // An 8-aligned (but not 16-aligned) buffer still yields an aligned
    // frame inside the buffer.
    let base: usize = 0x8000_0008;
    let mut stack: Vec<usize> = vec![0; 64];
    let sp = initialize_task_stack(0x42, base, &mut stack);
    assert_eq!(sp % 16, 0);
    assert!(sp >= base);
    assert!(sp + CONTEXT_SIZE <= base + 8 * stack.len());
}

#[test]
fn interrupt_flag_transitions() {
    let mut intr = InterruptState::new(true);
    let was = disable_interrupts(&mut intr);
    assert!(was);
    assert!(!intr.is_enabled());
    let was2 = disable_interrupts(&mut intr);
    assert!(!was2);
    restore_interrupts(&mut intr, was2);
    assert!(!intr.is_enabled());
    restore_interrupts(&mut intr, was);
    assert!(intr.is_enabled());
    disable_interrupts(&mut intr);
    enable_interrupts(&mut intr);
    assert!(intr.is_enabled());
}

#[test]
fn critical_sections_nest() {
    // S5: enter twice, leave twice; interrupts come back only at the
    // outermost leave.
    let mut intr = InterruptState::new(true);
    let outer = CriticalSection::enter(&mut intr);
    assert!(!intr.is_enabled());
    let inner = CriticalSection::enter(&mut intr);
    assert!(!intr.is_enabled());
    inner.leave(&mut intr);
    assert!(!intr.is_enabled());
    outer.leave(&mut intr);
    assert!(intr.is_enabled());
}

#[test]
fn scheduler_suspension_nests() {
    let mut sched = Scheduler::new();
    let mut intr = InterruptState::new(true);
    sched.suspend(&mut intr);
    assert!(sched.is_suspended());
    assert!(!intr.is_enabled());
    sched.suspend(&mut intr);
    assert!(!intr.is_enabled());
    sched.resume(&mut intr);
    assert!(sched.is_suspended());
    assert!(!intr.is_enabled());
    sched.resume(&mut intr);
    assert!(!sched.is_suspended());
    assert!(intr.is_enabled());
    // A stray resume is harmless.
    sched.resume(&mut intr);
    assert!(!sched.is_suspended());
}

#[test]
fn insert_sorted_into_empty_list() {
    let mut tasks = vec![TaskControlBlock::new("t", 1, 0, config::MIN_STACK_SIZE)];
    let mut list = List::new();
    list.init(9);
    list.insert_sorted(&mut tasks, 0);
    assert_eq!(list.len(), 1);
    assert_eq!(list.get_head(), Some(0));
    assert_eq!(tasks[0].state_list_item.get_next(), Link::End);
    assert_eq!(tasks[0].state_list_item.get_prev(), Link::End);
    assert_eq!(tasks[0].state_list_item.get_container(), Some(9));
}

#[test]
fn resume_enables_interrupts_unconditionally() {
    // Leaving the outermost suspension writes the enable bit, whatever it
    // held before the first suspension.
    let mut sched = Scheduler::new();
    let mut intr = InterruptState::new(false);
    sched.suspend(&mut intr);
    assert!(!intr.is_enabled());
    sched.resume(&mut intr);
    assert!(intr.is_enabled());
}

#[test]
fn tick_arithmetic_wraps() {
    assert_eq!(TickType::zero().to_ms(), 0);
    assert_eq!(TickType::max().to_ms(), u64::MAX);
    assert_eq!(TickType::new(41).wrapping_add(TickType::new(1)).to_ms(), 42);
    assert_eq!(TickType::max().wrapping_add(TickType::new(1)).to_ms(), 0);
    assert_eq!(TickType::max().wrapping_add(TickType::new(5)).to_ms(), 4);
}

#[test]
fn tick_elapsed_is_wrap_safe() {
    let earlier = TickType::max();
    let now = TickType::new(2);
    assert_eq!(now.elapsed_since(earlier).to_ms(), 3);
    assert_eq!(TickType::new(10).elapsed_since(TickType::new(4)).to_ms(), 6);
}

#[test]
fn tick_ms_conversions() {
    assert_eq!(TickType::from_ms(250).to_ms(), 250);
}

#[test]
fn tcb_construction_defaults() {
    let tcb = TaskControlBlock::new("worker", 3, 0x8000_0000, config::MIN_STACK_SIZE);
    assert_eq!(tcb.priority, 3);
    assert_eq!(tcb.base_priority, 3);
    assert_eq!(tcb.stack_top, 0x8000_0000);
    assert_eq!(tcb.stack_base, 0x8000_0000);
    assert_eq!(tcb.stack_size, config::MIN_STACK_SIZE);
    assert_eq!(tcb.state, TaskState::Ready);
    assert_eq!(tcb.delay_until, TickType::zero());
    assert_eq!(tcb.mutexes_held, 0);
    // The node sort value is the mirrored priority, on both nodes.
    assert_eq!(tcb.state_list_item.get_value(), (config::MAX_PRIORITIES - 3) as u64);
    assert_eq!(tcb.event_list_item.get_value(), (config::MAX_PRIORITIES - 3) as u64);
    assert!(!tcb.state_list_item.is_in_list());
    assert!(!tcb.event_list_item.is_in_list());
}

#[test]
fn tcb_state_queries() {
    let mut tcb = TaskControlBlock::new("q", 1, 0, config::MIN_STACK_SIZE);
    assert!(tcb.is_ready());
    assert!(!tcb.is_running());
    tcb.state = TaskState::Running;
    assert!(tcb.is_ready());
    assert!(tcb.is_running());
    tcb.state = TaskState::Blocked;
    assert!(tcb.is_blocked());
    assert!(!tcb.is_ready());
    tcb.state = TaskState::Suspended;
    assert!(tcb.is_suspended());
}

#[test]
fn tcb_name_is_nul_terminated() {
    let tcb = TaskControlBlock::new("task1", 1, 0, config::MIN_STACK_SIZE);
    assert_eq!(tcb.name_str(), b"task1".to_vec());
    assert_eq!(tcb.name[5], 0);
    assert_eq!(tcb.name[15], 0);
}

#[test]
fn tcb_name_truncates_to_fifteen_bytes() {
    let tcb = TaskControlBlock::new("a-very-long-task-name", 1, 0, config::MIN_STACK_SIZE);
    assert_eq!(tcb.name_str(), b"a-very-long-tas".to_vec());
    assert_eq!(tcb.name[15], 0);
}

#[test]
fn error_values_are_distinct() {
    let errors = [
        RtosError::OutOfMemory,
        RtosError::InvalidPriority,
        RtosError::TaskNotFound,
        RtosError::InvalidParameter,
        RtosError::Timeout,
        RtosError::ResourceBusy,
    ];
    for (i, a) in errors.iter().enumerate() {
        for (j, b) in errors.iter().enumerate() {
            assert_eq!(a == b, i == j);
        }
    }
}

#[test]
fn config_constants() {
    assert_eq!(config::MAX_PRIORITIES, 32);
    assert_eq!(config::IDLE_PRIORITY, 0);
    assert_eq!(config::DEFAULT_STACK_SIZE, 1024);
    assert_eq!(config::MIN_STACK_SIZE, 256);
    assert_eq!(config::TICK_RATE_HZ, 1000);
    assert_eq!(config::STACK_FILL_BYTE, 0xa5);
}
