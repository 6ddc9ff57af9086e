//! Task control block: per-task state record.

use vstd::prelude::*;
use vstd::string::StringSliceAdditionalSpecFns;

use crate::config;
use crate::list::ListNode;
use crate::types::{Priority, StackSize, TaskState, TickType};

verus! {

/// Maximum length of a task name, terminating NUL included.
pub const MAX_TASK_NAME_LEN: usize = 16;

/// Per-task state record.
///
/// Task control blocks live in the arena owned by the scheduler; the
/// embedded intrusive nodes link tasks into ready lists by arena index.
pub struct TaskControlBlock {
    /// Current saved stack pointer (an address, updated on context switch
    /// out).  The hardware layer that performs the actual switch keeps this
    /// field first.
    pub stack_top: usize,
    /// List node for the state list (ready/blocked/suspended).
    pub state_list_item: ListNode,
    /// List node for the event list (reserved for future blocking objects).
    pub event_list_item: ListNode,
    /// Current priority.
    pub priority: Priority,
    /// Base priority (reserved for priority inheritance).
    pub base_priority: Priority,
    /// Task name, NUL-terminated.
    pub name: [u8; MAX_TASK_NAME_LEN],
    /// Stack base address (bottom of stack).
    pub stack_base: usize,
    /// Stack size in words.
    pub stack_size: StackSize,
    /// Current task state.
    pub state: TaskState,
    /// Delay until this tick (reserved for task delays).
    pub delay_until: TickType,
    /// Number of mutexes held (reserved for priority inheritance).
    pub mutexes_held: usize,
}

/// True when `b` is `a` with at most the task state and the link fields
/// (`next`, `prev`, `container`) of its state-list node changed.
pub open spec fn same_but_state_and_links(a: TaskControlBlock, b: TaskControlBlock) -> bool {
    &&& b.stack_top == a.stack_top
    &&& b.event_list_item == a.event_list_item
    &&& b.priority == a.priority
    &&& b.base_priority == a.base_priority
    &&& b.name == a.name
    &&& b.stack_base == a.stack_base
    &&& b.stack_size == a.stack_size
    &&& b.delay_until == a.delay_until
    &&& b.mutexes_held == a.mutexes_held
    &&& b.state_list_item.value == a.state_list_item.value
    &&& b.state_list_item.owner == a.state_list_item.owner
}

/// True when `b` is `a` with at most the link fields (`next`, `prev`,
/// `container`) of its state-list node changed.  The list operations promise
/// this of every task they touch, so every other list's shape is unaffected.
pub open spec fn same_but_state_links(a: TaskControlBlock, b: TaskControlBlock) -> bool {
    &&& same_but_state_and_links(a, b)
    &&& b.state == a.state
}

/// True when `b` is `a` with at most the task state changed.
pub open spec fn same_but_state(a: TaskControlBlock, b: TaskControlBlock) -> bool {
    &&& same_but_state_and_links(a, b)
    &&& b.state_list_item == a.state_list_item
}

/// Index of the first NUL in a name buffer, or its length when none.
pub open spec fn name_length(s: Seq<u8>) -> int
    decreases s.len(),
{
    if s.len() == 0 {
        0
    } else if s[0] == 0 {
        0
    } else {
        1 + name_length(s.drop_first())
    }
}

impl TaskControlBlock {
    /// Both embedded nodes carry the mixed-list sort key, are unlinked, and
    /// the priorities are in range.
    pub open spec fn wf(self) -> bool {
        &&& self.priority < config::MAX_PRIORITIES
        &&& self.base_priority < config::MAX_PRIORITIES
        &&& self.name@[MAX_TASK_NAME_LEN - 1] == 0
    }

    /// Create a new task control block.
    ///
    /// The name is copied up to 15 bytes and NUL-terminated.  Both embedded
    /// list nodes get the sort value `MAX_PRIORITIES - priority`, so a lower
    /// key means a higher priority in a future mixed-priority wait queue.
    pub fn new(name: &str, priority: Priority, stack: usize, stack_size: StackSize) -> (tcb: Self)
        requires
            priority < config::MAX_PRIORITIES,
            stack_size >= config::MIN_STACK_SIZE,
        ensures
            tcb.wf(),
            tcb.stack_top == stack,
            tcb.stack_base == stack,
            tcb.stack_size == stack_size,
            tcb.priority == priority,
            tcb.base_priority == priority,
            tcb.state == TaskState::Ready,
            tcb.delay_until.0 == 0,
            tcb.mutexes_held == 0,
            tcb.state_list_item.is_unlinked(),
            tcb.event_list_item.is_unlinked(),
            tcb.state_list_item.owner is None,
            tcb.event_list_item.owner is None,
            tcb.state_list_item.value == config::MAX_PRIORITIES - priority,
            tcb.event_list_item.value == config::MAX_PRIORITIES - priority,
            ({
                let bytes = name.spec_bytes();
                let n = if bytes.len() < MAX_TASK_NAME_LEN - 1 {
                    bytes.len() as int
                } else {
                    MAX_TASK_NAME_LEN - 1
                };
                &&& forall|i: int| 0 <= i < n ==> tcb.name@[i] == bytes[i]
                &&& forall|i: int| n <= i < MAX_TASK_NAME_LEN ==> tcb.name@[i] == 0
            }),
    {
        let mut state_item = ListNode::new();
        let mut event_item = ListNode::new();

        // State list: sorted by priority (lower value = higher priority).
        state_item.set_value((config::MAX_PRIORITIES - priority) as u64);
        // Event list: same scheme.
        event_item.set_value((config::MAX_PRIORITIES - priority) as u64);

        // Copy the name with NUL termination.
        let mut name_buf = [0u8; 16];
        let name_bytes = name.as_bytes();
        let copy_len = if name_bytes.len() < MAX_TASK_NAME_LEN - 1 {
            name_bytes.len()
        } else {
            MAX_TASK_NAME_LEN - 1
        };
        let mut i: usize = 0;
        while i < copy_len
            invariant
                i <= copy_len,
                copy_len <= name_bytes@.len(),
                copy_len < MAX_TASK_NAME_LEN,
                name_buf@.len() == MAX_TASK_NAME_LEN,
                forall|j: int| 0 <= j < i ==> name_buf@[j] == name_bytes@[j],
                forall|j: int| i <= j < MAX_TASK_NAME_LEN ==> name_buf@[j] == 0,
            decreases copy_len - i,
        {
            name_buf[i] = name_bytes[i];
            i = i + 1;
        }

        TaskControlBlock {
            stack_top: stack,
            state_list_item: state_item,
            event_list_item: event_item,
            priority,
            base_priority: priority,
            name: name_buf,
            stack_base: stack,
            stack_size,
            state: TaskState::Ready,
            delay_until: TickType::zero(),
            mutexes_held: 0,
        }
    }

    /// The task name: the bytes before the terminating NUL.
    pub fn name_str(&self) -> (r: Vec<u8>)
        ensures
            r@ == self.name@.take(name_length(self.name@)),
    {
        let mut out: Vec<u8> = Vec::new();
        let mut i: usize = 0;
        while i < MAX_TASK_NAME_LEN
            invariant
                i <= MAX_TASK_NAME_LEN,
                self.name@.len() == MAX_TASK_NAME_LEN,
                forall|j: int| 0 <= j < i ==> self.name@[j] != 0,
                out@ == self.name@.take(i as int),
            decreases MAX_TASK_NAME_LEN - i,
        {
            if self.name[i] == 0 {
                proof {
                    lemma_name_length_at(self.name@, i as int);
                }
                return out;
            }
            out.push(self.name[i]);
            i = i + 1;
        }
        proof {
            lemma_name_length_at(self.name@, MAX_TASK_NAME_LEN as int);
        }
        out
    }

    /// Check if the task is ready to run.
    pub fn is_ready(&self) -> (r: bool)
        ensures
            r == (self.state == TaskState::Ready || self.state == TaskState::Running),
    {
        self.state == TaskState::Ready || self.state == TaskState::Running
    }

    /// Check if the task is running.
    pub fn is_running(&self) -> (r: bool)
        ensures
            r == (self.state == TaskState::Running),
    {
        self.state == TaskState::Running
    }

    /// Check if the task is blocked.
    pub fn is_blocked(&self) -> (r: bool)
        ensures
            r == (self.state == TaskState::Blocked),
    {
        self.state == TaskState::Blocked
    }

    /// Check if the task is suspended.
    pub fn is_suspended(&self) -> (r: bool)
        ensures
            r == (self.state == TaskState::Suspended),
    {
        self.state == TaskState::Suspended
    }
}

/// `name_length` is the position of the first NUL: if every byte before `i`
/// is non-zero and byte `i` (when present) is zero, the length is `i`.
proof fn lemma_name_length_at(s: Seq<u8>, i: int)
    requires
        0 <= i <= s.len(),
        forall|j: int| 0 <= j < i ==> s[j] != 0,
        i < s.len() ==> s[i] == 0,
    ensures
        name_length(s) == i,
    decreases i,
{
    if i == 0 {
    } else {
        lemma_name_length_at(s.drop_first(), i - 1);
    }
}

} // verus!
