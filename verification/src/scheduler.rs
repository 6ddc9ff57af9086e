//! Priority-ordered ready-queue scheduler.
//!
//! One ready list per priority level; ready tasks are appended at the tail
//! of their priority's list and selected from the head, which gives FIFO
//! order within a priority and strict priority across levels.  The
//! scheduler owns the task arena: tasks are registered once, get a task id
//! (their arena index), and never move, which is the index-model analogue
//! of pinning a task control block at a fixed address.

use vstd::prelude::*;

use crate::arch::{disable_interrupts, enable_interrupts, InterruptState};
use crate::config;
use crate::list::{node_of, Link, List};
use crate::task::{
    same_but_state, same_but_state_and_links, same_but_state_links, TaskControlBlock,
};
use crate::types::{Priority, TaskState, TickType};

verus! {

pub struct Scheduler {
    /// Ready lists, one per priority level: index 0 is the idle priority,
    /// index `MAX_PRIORITIES - 1` the highest.  Each holds the tasks of
    /// that priority that are ready to run, in FIFO order.
    pub ready_lists: Vec<List>,
    /// The task arena: every registered task control block, by task id.
    pub tasks: Vec<TaskControlBlock>,
    /// Currently running task (single core), by task id.
    pub current_task: Option<usize>,
    /// Cached highest priority level that has ready tasks.
    pub top_ready_priority: Priority,
    /// Total number of tasks in the system.
    pub task_count: usize,
    /// Current system tick count (advanced by the timer's interrupt).
    pub tick_count: TickType,
    /// Is the scheduler running?
    pub scheduler_running: bool,
    /// Scheduler suspension depth: 0 = not suspended; suspensions nest.
    pub suspend_depth: usize,
}

impl Scheduler {
    /// The task ids in the ready list of priority `p`, in list order.
    pub open spec fn ready_items(self, p: int) -> Seq<usize> {
        self.ready_lists@[p].items@
    }

    /// Per-task invariant: the priority is in range, the node's back
    /// reference names the task's own id, and the node's `container` field
    /// tells the truth: an unlinked node has no neighbours, and a linked
    /// node sits in the ready list of the task's priority while the task is
    /// ready or running.
    pub open spec fn wf_task(self, i: int) -> bool {
        let tcb = self.tasks@[i];
        let node = tcb.state_list_item;
        &&& tcb.priority < config::MAX_PRIORITIES
        &&& node.owner == Some(i as usize)
        &&& match node.container {
            None => node.prev is Null && node.next is Null,
            Some(p) => {
                &&& p == tcb.priority
                &&& self.ready_items(p as int).contains(i as usize)
                &&& (tcb.state == TaskState::Ready || tcb.state == TaskState::Running)
            },
        }
    }

    /// Scheduler well-formedness: all 32 ready lists are well-formed over
    /// the arena and numbered by their priority, every task satisfies its
    /// per-task invariant, and the cached top priority is an upper bound on
    /// the non-empty lists and exact (it names a non-empty list unless it
    /// is the idle priority).
    pub open spec fn wf(self) -> bool {
        &&& self.ready_lists@.len() == config::MAX_PRIORITIES
        &&& forall|p: int|
            0 <= p < config::MAX_PRIORITIES ==> (#[trigger] self.ready_lists@[p]).wf(self.tasks@)
        &&& forall|p: int|
            0 <= p < config::MAX_PRIORITIES ==> (#[trigger] self.ready_lists@[p]).id == p
        &&& forall|i: int| 0 <= i < self.tasks@.len() ==> #[trigger] self.wf_task(i)
        &&& self.top_ready_priority < config::MAX_PRIORITIES
        &&& forall|p: int|
            self.top_ready_priority < p < config::MAX_PRIORITIES ==> (
            #[trigger] self.ready_items(p)).len() == 0
        &&& (self.top_ready_priority == 0 || self.ready_items(
            self.top_ready_priority as int,
        ).len() > 0)
        &&& match self.current_task {
            Some(c) => (c as int) < self.tasks@.len(),
            None => true,
        }
    }

    /// Exactly the tasks named by `who` are in the running state (so there
    /// is at most one running task: none when `who` is absent).
    pub open spec fn running_only(self, who: Option<usize>) -> bool {
        forall|i: int|
            0 <= i < self.tasks@.len() ==> ((#[trigger] self.tasks@[i].state)
                == TaskState::Running <==> who == Some(i as usize))
    }

    /// Any running task is the current one.
    pub open spec fn running_within_current(self) -> bool {
        forall|i: int|
            0 <= i < self.tasks@.len() && (#[trigger] self.tasks@[i].state) == TaskState::Running
                ==> self.current_task == Some(i as usize)
    }

    /// No two distinct tasks are running at once.
    pub open spec fn at_most_one_running(self) -> bool {
        forall|i: int, j: int|
            0 <= i < self.tasks@.len() && 0 <= j < self.tasks@.len() && (
            #[trigger] self.tasks@[i].state) == TaskState::Running && (
            #[trigger] self.tasks@[j].state) == TaskState::Running ==> i == j
    }

    /// The highest priority not above `p` whose ready list is non-empty,
    /// or 0 when they are all empty.
    pub open spec fn top_from(self, p: int) -> int
        decreases p,
    {
        if p <= 0 {
            0
        } else if self.ready_items(p).len() > 0 {
            p
        } else {
            self.top_from(p - 1)
        }
    }

    /// The exact top ready priority over all lists.
    pub open spec fn spec_top(self) -> int {
        self.top_from(config::MAX_PRIORITIES - 1)
    }

    /// Changing only the bookkeeping fields (current task, counters,
    /// flags) preserves well-formedness, provided a new current task id is
    /// in range.
    pub proof fn lemma_wf_same_core(pre: Scheduler, post: Scheduler)
        requires
            pre.wf(),
            post.ready_lists == pre.ready_lists,
            post.tasks == pre.tasks,
            post.top_ready_priority == pre.top_ready_priority,
            match post.current_task {
                Some(c) => (c as int) < post.tasks@.len(),
                None => true,
            },
        ensures
            post.wf(),
    {
        assert forall|p: int|
            0 <= p < config::MAX_PRIORITIES implies (#[trigger] post.ready_lists@[p]).wf(
            post.tasks@,
        ) by {
            assert(pre.ready_lists@[p].wf(pre.tasks@));
        }
        assert forall|i: int| 0 <= i < post.tasks@.len() implies #[trigger] post.wf_task(i) by {
            assert(pre.wf_task(i));
        }
        assert forall|q: int|
            post.top_ready_priority < q < config::MAX_PRIORITIES implies (
        #[trigger] post.ready_items(q)).len() == 0 by {
            assert(pre.ready_items(q).len() == 0);
        }
        if post.top_ready_priority != 0 {
            assert(pre.ready_items(pre.top_ready_priority as int).len() > 0);
        }
    }

    /// `top_from` skips over empty lists.
    pub proof fn lemma_top_from_skip(self, p: int, t: int)
        requires
            0 <= t <= p,
            forall|q: int| t < q <= p ==> (#[trigger] self.ready_items(q)).len() == 0,
        ensures
            self.top_from(p) == self.top_from(t),
        decreases p - t,
    {
        if p > t {
            self.lemma_top_from_skip(p - 1, t);
        }
    }

    /// `top_from` is bounded by its argument, names a non-empty list unless
    /// it is 0, and every priority above it (up to the argument) is empty.
    pub proof fn lemma_top_from_properties(self, p: int)
        requires
            0 <= p,
        ensures
            0 <= self.top_from(p) <= p,
            self.top_from(p) == 0 || self.ready_items(self.top_from(p)).len() > 0,
            forall|q: int|
                self.top_from(p) < q <= p ==> (#[trigger] self.ready_items(q)).len() == 0,
        decreases p,
    {
        if p > 0 && self.ready_items(p).len() == 0 {
            self.lemma_top_from_properties(p - 1);
        }
    }

    /// `top_from` dominates any non-empty priority below its argument.
    pub proof fn lemma_top_from_dominates(self, p: int, q: int)
        requires
            0 <= q <= p,
            self.ready_items(q).len() > 0,
        ensures
            self.top_from(p) >= q,
        decreases p,
    {
        if p > q && self.ready_items(p).len() == 0 {
            self.lemma_top_from_dominates(p - 1, q);
        }
    }

    /// Schedulers with pointwise equally filled ready lists agree on
    /// `top_from`.
    pub proof fn lemma_top_from_congruent(self, other: Scheduler, p: int)
        requires
            forall|q: int|
                0 <= q <= p ==> (#[trigger] self.ready_items(q)).len() == other.ready_items(
                    q,
                ).len(),
        ensures
            self.top_from(p) == other.top_from(p),
        decreases p,
    {
        if p > 0 {
            self.lemma_top_from_congruent(other, p - 1);
        }
    }

    /// In a well-formed scheduler the cached top priority is the exact one.
    pub proof fn lemma_top_is_spec_top(self)
        requires
            self.wf(),
        ensures
            self.top_ready_priority == self.spec_top(),
    {
        let t = self.top_ready_priority as int;
        self.lemma_top_from_skip((config::MAX_PRIORITIES - 1) as int, t);
    }

    /// Rescan for the top ready priority: walk down from the cached value
    /// (an upper bound, so the scan need not start higher) to the first
    /// non-empty list, or to the idle priority.
    pub fn update_top_ready_priority(&mut self)
        requires
            old(self).ready_lists@.len() == config::MAX_PRIORITIES,
            old(self).top_ready_priority < config::MAX_PRIORITIES,
            forall|p: int|
                0 <= p < config::MAX_PRIORITIES ==> (#[trigger] old(self).ready_lists@[p]).length
                    == old(self).ready_items(p).len(),
            forall|p: int|
                old(self).top_ready_priority < p < config::MAX_PRIORITIES ==> (#[trigger] old(
                    self,
                ).ready_items(p)).len() == 0,
        ensures
            *final(self) == (Scheduler {
                top_ready_priority: final(self).top_ready_priority,
                ..*old(self)
            }),
            final(self).top_ready_priority == old(self).spec_top(),
    {
        let mut priority = self.top_ready_priority;
        while priority > config::IDLE_PRIORITY
            invariant
                *self == *old(self),
                priority <= old(self).top_ready_priority,
                priority < config::MAX_PRIORITIES,
                self.ready_lists@.len() == config::MAX_PRIORITIES,
                forall|p: int|
                    0 <= p < config::MAX_PRIORITIES ==> (#[trigger] self.ready_lists@[p]).length
                        == self.ready_items(p).len(),
                forall|q: int|
                    priority < q < config::MAX_PRIORITIES ==> (#[trigger] self.ready_items(
                        q,
                    )).len() == 0,
            decreases priority,
        {
            if !self.ready_lists[priority].is_empty() {
                proof {
                    self.lemma_top_from_skip((config::MAX_PRIORITIES - 1) as int, priority as int);
                }
                self.top_ready_priority = priority;
                return ;
            }
            priority = priority - 1;
        }
        proof {
            self.lemma_top_from_skip((config::MAX_PRIORITIES - 1) as int, 0);
        }
        self.top_ready_priority = config::IDLE_PRIORITY;
    }

    /// Create a scheduler with 32 initialized, empty ready lists and an
    /// empty task arena.
    pub fn new() -> (sched: Self)
        ensures
            sched.wf(),
            sched.tasks@.len() == 0,
            forall|p: int|
                0 <= p < config::MAX_PRIORITIES ==> (#[trigger] sched.ready_items(p)).len() == 0,
            sched.current_task is None,
            sched.top_ready_priority == config::IDLE_PRIORITY,
            sched.task_count == 0,
            sched.tick_count.0 == 0,
            !sched.scheduler_running,
            sched.suspend_depth == 0,
    {
        let mut ready_lists: Vec<List> = Vec::new();
        let mut p: usize = 0;
        while p < config::MAX_PRIORITIES
            invariant
                p <= config::MAX_PRIORITIES,
                ready_lists@.len() == p,
                forall|q: int|
                    0 <= q < p ==> {
                        let l = #[trigger] ready_lists@[q];
                        &&& l.id == q
                        &&& l.length == 0
                        &&& l.end_next == Link::End
                        &&& l.end_prev == Link::End
                        &&& l.items@.len() == 0
                    },
            decreases config::MAX_PRIORITIES - p,
        {
            let mut list = List::new();
            list.init(p);
            ready_lists.push(list);
            p = p + 1;
        }
        Scheduler {
            ready_lists,
            tasks: Vec::new(),
            current_task: None,
            top_ready_priority: config::IDLE_PRIORITY,
            task_count: 0,
            tick_count: TickType::zero(),
            scheduler_running: false,
            suspend_depth: 0,
        }
    }

    /// Reset to a fresh state: empty ready lists, an empty arena (tasks
    /// must be registered anew), no current task, counters at zero.
    pub fn init(&mut self)
        ensures
            final(self).wf(),
            final(self).tasks@.len() == 0,
            forall|p: int|
                0 <= p < config::MAX_PRIORITIES ==> (#[trigger] final(self).ready_items(
                    p,
                )).len() == 0,
            final(self).current_task is None,
            final(self).top_ready_priority == config::IDLE_PRIORITY,
            final(self).task_count == 0,
            final(self).tick_count.0 == 0,
            !final(self).scheduler_running,
            final(self).suspend_depth == 0,
    {
        let fresh = Scheduler::new();
        *self = fresh;
    }

    /// Move a freshly constructed task control block into the arena and
    /// return its task id.
    ///
    /// This writes the back reference (`owner`) of both embedded list nodes,
    /// which in the pointer formulation pins the block at its final address:
    /// it must happen exactly once, before the task is handed to any ready
    /// list, and the requirement that the nodes carry no owner yet rules a
    /// second registration of the same block out.
    pub fn register_task(&mut self, tcb: TaskControlBlock) -> (id: usize)
        requires
            old(self).wf(),
            tcb.priority < config::MAX_PRIORITIES,
            tcb.state == TaskState::Ready,
            tcb.state_list_item.is_unlinked(),
            tcb.event_list_item.is_unlinked(),
            tcb.state_list_item.owner is None,
            tcb.event_list_item.owner is None,
        ensures
            final(self).wf(),
            id == old(self).tasks@.len(),
            final(self).tasks@.len() == old(self).tasks@.len() + 1,
            forall|j: int|
                0 <= j < old(self).tasks@.len() ==> final(self).tasks@[j] == old(self).tasks@[j],
            final(self).tasks@[id as int] == (TaskControlBlock {
                state_list_item: (crate::list::ListNode {
                    owner: Some(id),
                    ..tcb.state_list_item
                }),
                event_list_item: (crate::list::ListNode {
                    owner: Some(id),
                    ..tcb.event_list_item
                }),
                ..tcb
            }),
            final(self).ready_lists == old(self).ready_lists,
            final(self).current_task == old(self).current_task,
            final(self).top_ready_priority == old(self).top_ready_priority,
            final(self).task_count == old(self).task_count,
            final(self).tick_count == old(self).tick_count,
            final(self).scheduler_running == old(self).scheduler_running,
            final(self).suspend_depth == old(self).suspend_depth,
    {
        let id = self.tasks.len();
        let mut t = tcb;
        t.state_list_item.set_owner(id);
        t.event_list_item.set_owner(id);
        self.tasks.push(t);
        proof {
            assert forall|p: int|
                0 <= p < config::MAX_PRIORITIES implies (#[trigger] self.ready_lists@[p]).wf(
                self.tasks@,
            ) by {
                let l = self.ready_lists@[p];
                assert forall|k: int|
                    0 <= k < l.items@.len() implies node_of(self.tasks@, #[trigger] l.items@[k])
                        == node_of(old(self).tasks@, l.items@[k]) by {
                    assert(l.wf_node_at(old(self).tasks@, k));
                }
                l.lemma_wf_frame(old(self).tasks@, self.tasks@);
            }
            assert forall|i: int| 0 <= i < self.tasks@.len() implies #[trigger] self.wf_task(
                i,
            ) by {
                if i < id {
                    assert(old(self).wf_task(i));
                }
            }
            assert forall|q: int|
                self.top_ready_priority < q < config::MAX_PRIORITIES implies (
            #[trigger] self.ready_items(q)).len() == 0 by {
                assert(old(self).ready_items(q).len() == 0);
            }
        }
        id
    }

    /// Mark the task ready and append it at the tail of the ready list of
    /// its priority, raising the cached top priority if it is exceeded.
    pub fn add_task_to_ready_list(&mut self, id: usize)
        requires
            old(self).wf(),
            (id as int) < old(self).tasks@.len(),
            old(self).tasks@[id as int].state_list_item.container is None,
        ensures
            final(self).wf(),
            final(self).tasks@.len() == old(self).tasks@.len(),
            ({
                let p = old(self).tasks@[id as int].priority as int;
                &&& final(self).ready_items(p) == old(self).ready_items(p).push(id)
                &&& forall|q: int|
                    0 <= q < config::MAX_PRIORITIES && q != p
                        ==> #[trigger] final(self).ready_items(q) == old(self).ready_items(q)
                &&& final(self).top_ready_priority == if p > old(self).top_ready_priority {
                    p as usize
                } else {
                    old(self).top_ready_priority
                }
                &&& forall|j: int|
                    0 <= j < old(self).tasks@.len() && j != id && !old(self).ready_items(
                        p,
                    ).contains(j as usize) ==> final(self).tasks@[j] == old(self).tasks@[j]
            }),
            final(self).tasks@[id as int].state == TaskState::Ready,
            final(self).tasks@[id as int].state_list_item.container == Some(
                old(self).tasks@[id as int].priority,
            ),
            same_but_state_and_links(old(self).tasks@[id as int], final(self).tasks@[id as int]),
            forall|j: int|
                0 <= j < old(self).tasks@.len() && j != id ==> same_but_state_links(
                    old(self).tasks@[j],
                    #[trigger] final(self).tasks@[j],
                ),
            final(self).current_task == old(self).current_task,
            final(self).task_count == old(self).task_count,
            final(self).tick_count == old(self).tick_count,
            final(self).scheduler_running == old(self).scheduler_running,
            final(self).suspend_depth == old(self).suspend_depth,
    {
        proof {
            assert(old(self).wf_task(id as int));
        }
        let _arena_len = self.tasks.len();
        self.tasks[id].state = TaskState::Ready;
        let ghost mid_tasks = self.tasks@;
        let priority = self.tasks[id].priority;
        proof {
            // Setting the state leaves every node unchanged.
            assert forall|p: int|
                0 <= p < config::MAX_PRIORITIES implies (#[trigger] self.ready_lists@[p]).wf(
                mid_tasks,
            ) by {
                let l = self.ready_lists@[p];
                assert forall|k: int|
                    0 <= k < l.items@.len() implies node_of(mid_tasks, #[trigger] l.items@[k])
                        == node_of(old(self).tasks@, l.items@[k]) by {
                    assert(l.wf_node_at(old(self).tasks@, k));
                }
                l.lemma_wf_frame(old(self).tasks@, mid_tasks);
            }
        }
        self.ready_lists[priority].insert_end(&mut self.tasks, id);
        if priority > self.top_ready_priority {
            self.top_ready_priority = priority;
        }
        proof {
            let p = priority as int;
            let pre = old(self).tasks@;
            let post = self.tasks@;
            let s = old(self).ready_items(p);
            // Lists other than the target keep their members' nodes.
            assert forall|q: int|
                0 <= q < config::MAX_PRIORITIES && q != p implies (
            #[trigger] self.ready_lists@[q]).wf(post) by {
                let l = self.ready_lists@[q];
                assert(l == old(self).ready_lists@[q]);
                assert forall|k: int|
                    0 <= k < l.items@.len() implies node_of(post, #[trigger] l.items@[k])
                        == node_of(mid_tasks, l.items@[k]) by {
                    assert(l.wf_node_at(mid_tasks, k));
                    let j = l.items@[k];
                    assert(node_of(mid_tasks, j).container == Some(l.id));
                    if j == id {
                        assert(false);
                    }
                    if s.contains(j) {
                        let m = choose|m: int| 0 <= m < s.len() && s[m] == j;
                        assert(old(self).ready_lists@[p].wf_node_at(old(self).tasks@, m));
                        assert(false);
                    }
                }
                l.lemma_wf_frame(mid_tasks, post);
            }
            // The cached top priority stays an exact upper bound.
            assert forall|q: int|
                self.top_ready_priority < q < config::MAX_PRIORITIES implies (
            #[trigger] self.ready_items(q)).len() == 0 by {
                assert(self.ready_lists@[q] == old(self).ready_lists@[q]);
                assert(old(self).ready_items(q).len() == 0);
            }
            assert(self.top_ready_priority == 0 || self.ready_items(
                self.top_ready_priority as int,
            ).len() > 0) by {
                if p > old(self).top_ready_priority {
                    assert(self.ready_items(p) == s.push(id));
                } else {
                    let t = old(self).top_ready_priority as int;
                    if t > 0 {
                        if t == p {
                            assert(self.ready_items(p) == s.push(id));
                        } else {
                            assert(self.ready_lists@[t] == old(self).ready_lists@[t]);
                        }
                    }
                }
            }
            // The appended task's node names its list.
            assert(self.ready_items(p) == s.push(id));
            assert(self.ready_lists@[p].wf_node_at(post, s.len() as int));
            // Every task still satisfies its invariant.
            assert forall|i: int| 0 <= i < post.len() implies #[trigger] self.wf_task(i) by {
                assert(old(self).wf_task(i));
                let iu = i as usize;
                let node_pre = pre[i].state_list_item;
                let node_post = post[i].state_list_item;
                assert(node_of(pre, iu) == node_pre);
                if i == id {
                    assert(self.ready_lists@[p].wf(post));
                    assert(self.ready_items(p) == s.push(id));
                    assert(self.ready_items(p)[s.len() as int] == id);
                    assert(self.ready_lists@[p].wf_node_at(post, s.len() as int));
                } else {
                    match node_pre.container {
                        None => {
                            old(self).ready_lists@[p].lemma_unlinked_not_member(pre, iu);
                            assert(post[i] == mid_tasks[i]);
                            assert(post[i] == pre[i]);
                        },
                        Some(q) => {
                            if q as int == p {
                                let m = choose|m: int| 0 <= m < s.len() && s[m] == iu;
                                assert(self.ready_items(p) == s.push(id));
                                assert(s.push(id)[m] == iu);
                                assert(self.ready_lists@[p].wf_node_at(post, m));
                            } else {
                                assert(!s.contains(iu)) by {
                                    if s.contains(iu) {
                                        let m = choose|m: int| 0 <= m < s.len() && s[m] == iu;
                                        assert(old(self).ready_lists@[p].wf_node_at(pre, m));
                                    }
                                }
                                assert(post[i] == mid_tasks[i]);
                                assert(post[i] == pre[i]);
                            }
                        },
                    }
                }
            }
        }
    }

    /// Unlink the task from the ready list of its priority; if that emptied
    /// the cached top priority's list, rescan downward for the new top.
    /// Returns whether the task was linked at all (removal is idempotent).
    pub fn remove_task_from_ready_list(&mut self, id: usize) -> (removed: bool)
        requires
            old(self).wf(),
            (id as int) < old(self).tasks@.len(),
        ensures
            final(self).wf(),
            final(self).tasks@.len() == old(self).tasks@.len(),
            removed == (old(self).tasks@[id as int].state_list_item.container is Some),
            !removed ==> final(self).ready_lists@ == old(self).ready_lists@ && final(self).tasks@
                == old(self).tasks@ && final(self).top_ready_priority == old(
                self,
            ).top_ready_priority,
            removed ==> ({
                let p = old(self).tasks@[id as int].priority as int;
                let s = old(self).ready_items(p);
                &&& final(self).ready_items(p) == s.remove(s.index_of(id))
                &&& forall|q: int|
                    0 <= q < config::MAX_PRIORITIES && q != p
                        ==> #[trigger] final(self).ready_items(q) == old(self).ready_items(q)
                &&& final(self).tasks@[id as int].state_list_item.is_unlinked()
                &&& forall|j: int|
                    0 <= j < old(self).tasks@.len() && j != id && !s.contains(j as usize)
                        ==> final(self).tasks@[j] == old(self).tasks@[j]
                &&& final(self).top_ready_priority <= old(self).top_ready_priority
            }),
            forall|j: int|
                0 <= j < old(self).tasks@.len() ==> same_but_state_links(
                    old(self).tasks@[j],
                    #[trigger] final(self).tasks@[j],
                ),
            final(self).current_task == old(self).current_task,
            final(self).task_count == old(self).task_count,
            final(self).tick_count == old(self).tick_count,
            final(self).scheduler_running == old(self).scheduler_running,
            final(self).suspend_depth == old(self).suspend_depth,
    {
        proof {
            assert(old(self).wf_task(id as int));
        }
        let _arena_len = self.tasks.len();
        let priority = self.tasks[id].priority;
        let ghost p = priority as int;
        let ghost s = old(self).ready_items(p);

        let removed = self.ready_lists[priority].remove(&mut self.tasks, id);

        proof {
            let post = self.tasks@;
            let pre = old(self).tasks@;
            if !removed {
                assert(self.ready_lists@ =~= old(self).ready_lists@);
                assert forall|i: int| 0 <= i < post.len() implies #[trigger] self.wf_task(i) by {
                    assert(old(self).wf_task(i));
                }
                assert forall|q: int|
                    self.top_ready_priority < q < config::MAX_PRIORITIES implies (
                #[trigger] self.ready_items(q)).len() == 0 by {
                    assert(old(self).ready_items(q).len() == 0);
                }
            } else {
                // A member's node carries the list's identifier.
                old(self).ready_lists@[p].lemma_member_linked(pre, id);
                // The task's priority does not exceed the cached top.
                assert(p <= old(self).top_ready_priority) by {
                    if p > old(self).top_ready_priority {
                        assert(old(self).ready_items(p).len() == 0);
                    }
                }
                // Lists other than the target keep their members' nodes.
                assert forall|q: int|
                    0 <= q < config::MAX_PRIORITIES && q != p implies (
                #[trigger] self.ready_lists@[q]).wf(post) by {
                    let l = self.ready_lists@[q];
                    assert(l == old(self).ready_lists@[q]);
                    assert forall|k: int|
                        0 <= k < l.items@.len() implies node_of(post, #[trigger] l.items@[k])
                            == node_of(pre, l.items@[k]) by {
                        assert(l.wf_node_at(pre, k));
                        let j = l.items@[k];
                        assert(node_of(pre, j).container == Some(l.id));
                        if j == id {
                            assert(false);
                        }
                        if s.contains(j) {
                            let m = choose|m: int| 0 <= m < s.len() && s[m] == j;
                            assert(old(self).ready_lists@[p].wf_node_at(pre, m));
                            assert(false);
                        }
                    }
                    l.lemma_wf_frame(pre, post);
                }
                // Every task still satisfies its invariant.
                let ghost k = s.index_of(id);
                assert forall|i: int| 0 <= i < post.len() implies #[trigger] self.wf_task(i) by {
                    assert(old(self).wf_task(i));
                    let iu = i as usize;
                    let node_pre = pre[i].state_list_item;
                    if i != id {
                        match node_pre.container {
                            None => {
                                old(self).ready_lists@[p].lemma_unlinked_not_member(pre, iu);
                                assert(post[i] == pre[i]);
                            },
                            Some(q) => {
                                if q as int == p {
                                    let m = choose|m: int| 0 <= m < s.len() && s[m] == iu;
                                    let m2: int = if m < k {
                                        m
                                    } else {
                                        m - 1
                                    };
                                    assert(self.ready_items(p)[m2] == iu);
                                    assert(self.ready_lists@[p].wf_node_at(post, m2));
                                } else {
                                    assert(!s.contains(iu)) by {
                                        if s.contains(iu) {
                                            let m = choose|m: int| 0 <= m < s.len() && s[m] == iu;
                                            assert(old(self).ready_lists@[p].wf_node_at(pre, m));
                                        }
                                    }
                                    assert(post[i] == pre[i]);
                                }
                            },
                        }
                    }
                }
            }
        }

        if removed {
            // If the top priority's list just became empty, find the new top.
            if self.ready_lists[priority].is_empty() && priority == self.top_ready_priority {
                proof {
                    assert forall|q: int|
                        0 <= q < config::MAX_PRIORITIES implies (
                    #[trigger] self.ready_lists@[q]).length == self.ready_items(q).len() by {
                        assert(self.ready_lists@[q].wf(self.tasks@));
                    }
                    assert forall|q: int|
                        self.top_ready_priority < q < config::MAX_PRIORITIES implies (
                    #[trigger] self.ready_items(q)).len() == 0 by {
                        assert(old(self).ready_items(q).len() == 0);
                    }
                }
                let ghost before_rescan = *self;
                self.update_top_ready_priority();
                proof {
                    before_rescan.lemma_top_from_properties(
                        (config::MAX_PRIORITIES - 1) as int,
                    );
                    assert forall|q: int|
                        self.top_ready_priority < q < config::MAX_PRIORITIES implies (
                    #[trigger] self.ready_items(q)).len() == 0 by {
                        assert(before_rescan.ready_items(q).len() == 0);
                    }
                    assert forall|i: int| 0 <= i < self.tasks@.len() implies #[trigger] self.wf_task(
                        i,
                    ) by {
                        assert(before_rescan.wf_task(i));
                    }
                }
            } else {
                proof {
                    // No rescan: the cached top still names a non-empty list.
                    if self.top_ready_priority > 0 {
                        let t = self.top_ready_priority as int;
                        if t != p {
                            assert(self.ready_items(t) == old(self).ready_items(t));
                        }
                    }
                    assert forall|q: int|
                        self.top_ready_priority < q < config::MAX_PRIORITIES implies (
                    #[trigger] self.ready_items(q)).len() == 0 by {
                        assert(old(self).ready_items(q).len() == 0);
                    }
                }
            }
        }
        removed
    }

    /// The ready list of priority `q` with task `c` taken out (unchanged
    /// when `c` is not in it).
    pub open spec fn ready_items_without(self, q: int, c: usize) -> Seq<usize> {
        let s = self.ready_items(q);
        if s.contains(c) {
            s.remove(s.index_of(c))
        } else {
            s
        }
    }

    /// The highest priority not above `p` that holds a ready task other
    /// than `c`, or 0 when there is none.
    pub open spec fn top_from_without(self, p: int, c: usize) -> int
        decreases p,
    {
        if p <= 0 {
            0
        } else if self.ready_items_without(p, c).len() > 0 {
            p
        } else {
            self.top_from_without(p - 1, c)
        }
    }

    /// The task selected when `c` steps aside: the head of the highest
    /// non-empty ready list once `c` is taken out, or nothing when no
    /// other task is ready.
    pub open spec fn next_other(self, c: usize) -> Option<usize> {
        let t = self.top_from_without((config::MAX_PRIORITIES - 1) as int, c);
        let s = self.ready_items_without(t, c);
        if s.len() > 0 {
            Some(s[0])
        } else {
            None
        }
    }

    /// A scheduler whose lists equal this one's lists-without-`c` agrees
    /// with `top_from_without`.
    pub proof fn lemma_top_without_agrees(self, mid: Scheduler, c: usize, p: int)
        requires
            forall|q: int|
                0 <= q <= p ==> #[trigger] mid.ready_items(q) == self.ready_items_without(q, c),
        ensures
            mid.top_from(p) == self.top_from_without(p, c),
        decreases p,
    {
        if p > 0 {
            self.lemma_top_without_agrees(mid, c, p - 1);
        }
    }

    /// The task that a selection scan picks: the head of the top
    /// priority's ready list, or nothing when every ready list is empty.
    pub open spec fn selected_task(self) -> Option<usize> {
        let t = self.top_ready_priority as int;
        if self.ready_items(t).len() > 0 {
            Some(self.ready_items(t)[0])
        } else {
            None
        }
    }

    /// Changing only task states (to ready or running) preserves
    /// well-formedness: the lists read nothing but the nodes.
    pub proof fn lemma_wf_state_change(pre: Scheduler, post: Scheduler)
        requires
            pre.wf(),
            post.ready_lists == pre.ready_lists,
            post.current_task == pre.current_task,
            post.top_ready_priority == pre.top_ready_priority,
            post.tasks@.len() == pre.tasks@.len(),
            forall|i: int|
                0 <= i < pre.tasks@.len() ==> same_but_state(
                    pre.tasks@[i],
                    #[trigger] post.tasks@[i],
                ),
            forall|i: int|
                0 <= i < pre.tasks@.len() ==> ((#[trigger] post.tasks@[i]).state
                    == pre.tasks@[i].state || post.tasks@[i].state == TaskState::Ready
                    || post.tasks@[i].state == TaskState::Running),
        ensures
            post.wf(),
    {
        assert forall|p: int|
            0 <= p < config::MAX_PRIORITIES implies (#[trigger] post.ready_lists@[p]).wf(
            post.tasks@,
        ) by {
            let l = post.ready_lists@[p];
            assert forall|k: int|
                0 <= k < l.items@.len() implies node_of(post.tasks@, #[trigger] l.items@[k])
                    == node_of(pre.tasks@, l.items@[k]) by {
                assert(l.wf_node_at(pre.tasks@, k));
            }
            l.lemma_wf_frame(pre.tasks@, post.tasks@);
        }
        assert forall|i: int| 0 <= i < post.tasks@.len() implies #[trigger] post.wf_task(i) by {
            assert(pre.wf_task(i));
        }
        assert forall|q: int|
            post.top_ready_priority < q < config::MAX_PRIORITIES implies (
        #[trigger] post.ready_items(q)).len() == 0 by {
            assert(pre.ready_items(q).len() == 0);
        }
        if post.top_ready_priority != 0 {
            assert(pre.ready_items(pre.top_ready_priority as int).len() > 0);
        }
    }

    /// Select the highest-priority ready task: a running current task is
    /// demoted to ready, then the head of the highest non-empty ready list
    /// is marked running and returned.  The picked task keeps its place in
    /// its list, which preserves cooperative FIFO semantics.  Returns
    /// nothing when every list is empty (a configured system always has an
    /// idle task at priority 0).
    pub fn select_highest_priority_task(&mut self) -> (selected: Option<usize>)
        requires
            old(self).wf(),
            old(self).running_within_current(),
        ensures
            final(self).wf(),
            selected == old(self).selected_task(),
            final(self).running_only(selected),
            final(self).ready_lists == old(self).ready_lists,
            final(self).tasks@.len() == old(self).tasks@.len(),
            forall|i: int|
                0 <= i < old(self).tasks@.len() ==> same_but_state(
                    old(self).tasks@[i],
                    #[trigger] final(self).tasks@[i],
                ),
            forall|i: int|
                0 <= i < old(self).tasks@.len() ==> (#[trigger] final(self).tasks@[i]).state == (
                if selected == Some(i as usize) {
                    TaskState::Running
                } else if old(self).current_task == Some(i as usize) {
                    TaskState::Ready
                } else {
                    old(self).tasks@[i].state
                }),
            final(self).current_task == old(self).current_task,
            final(self).top_ready_priority == old(self).top_ready_priority,
            final(self).task_count == old(self).task_count,
            final(self).tick_count == old(self).tick_count,
            final(self).scheduler_running == old(self).scheduler_running,
            final(self).suspend_depth == old(self).suspend_depth,
    {
        let arena_len = self.tasks.len();
        // Set a previously running current task back to the ready state.
        match self.current_task {
            Some(c) => {
                self.tasks[c].state = TaskState::Ready;
            },
            None => {},
        }
        proof {
            Scheduler::lemma_wf_state_change(*old(self), *self);
        }
        let ghost demoted = *self;

        // Scan downward from the cached top priority.
        let mut priority = self.top_ready_priority;
        loop
            invariant
                *self == demoted,
                self.wf(),
                priority < config::MAX_PRIORITIES,
                priority <= self.top_ready_priority,
                forall|q: int|
                    priority < q < config::MAX_PRIORITIES ==> (#[trigger] self.ready_items(
                        q,
                    )).len() == 0,
                demoted.ready_lists == old(self).ready_lists,
                demoted.top_ready_priority == old(self).top_ready_priority,
                demoted.current_task == old(self).current_task,
                demoted.task_count == old(self).task_count,
                demoted.tick_count == old(self).tick_count,
                demoted.scheduler_running == old(self).scheduler_running,
                demoted.suspend_depth == old(self).suspend_depth,
                demoted.tasks@.len() == old(self).tasks@.len(),
                demoted.tasks@.len() == arena_len,
                old(self).running_within_current(),
                forall|i: int|
                    0 <= i < arena_len ==> same_but_state(
                        old(self).tasks@[i],
                        #[trigger] demoted.tasks@[i],
                    ),
                forall|i: int|
                    0 <= i < arena_len ==> (#[trigger] demoted.tasks@[i]).state == (if old(
                        self,
                    ).current_task == Some(i as usize) {
                        TaskState::Ready
                    } else {
                        old(self).tasks@[i].state
                    }),
            ensures
                *self == demoted,
                priority == 0,
                forall|q: int|
                    0 <= q < config::MAX_PRIORITIES ==> (#[trigger] self.ready_items(q)).len()
                        == 0,
            decreases priority,
        {
            // Check whether this priority level has any ready tasks.
            if !self.ready_lists[priority].is_empty() {
                let head = self.ready_lists[priority].get_head();
                match head {
                    Some(node_id) => {
                        proof {
                            assert(self.ready_lists@[priority as int].wf_node_at(self.tasks@, 0));
                        }
                        // The node's back reference names the owning task.
                        let owner = self.tasks[node_id].state_list_item.get_owner();
                        match owner {
                            Some(tcb_id) => {
                                proof {
                                    assert(self.wf_task(node_id as int));
                                    // The scan stopped at the cached top:
                                    // every higher list is empty, and a
                                    // lower stop would contradict exactness.
                                    if priority < self.top_ready_priority {
                                        assert(self.ready_items(
                                            self.top_ready_priority as int,
                                        ).len() == 0);
                                    }
                                }
                                // Mark it running; it keeps its place in
                                // the ready list for round-robin.
                                self.tasks[tcb_id].state = TaskState::Running;
                                proof {
                                    Scheduler::lemma_wf_state_change(demoted, *self);
                                    let t = demoted.top_ready_priority as int;
                                    let l = demoted.ready_lists@[t];
                                    assert(l.wf(demoted.tasks@));
                                    assert(node_id == l.items@[0]);
                                    assert(old(self).ready_items(t) == l.items@);
                                    assert forall|i: int|
                                        0 <= i < demoted.tasks@.len() && i != tcb_id implies (
                                    #[trigger] demoted.tasks@[i].state) != TaskState::Running by {
                                        if demoted.tasks@[i].state == TaskState::Running {
                                            assert(old(self).tasks@[i].state
                                                == TaskState::Running);
                                            assert(old(self).current_task == Some(i as usize));
                                        }
                                    }
                                }
                                return Some(tcb_id);
                            },
                            None => {
                                proof {
                                    // A registered task's node always
                                    // carries its owner.
                                    assert(self.wf_task(node_id as int));
                                    assert(false);
                                }
                            },
                        }
                    },
                    None => {
                        proof {
                            // A non-empty well-formed list has a head.
                            assert(self.ready_lists@[priority as int].wf(self.tasks@));
                            assert(false);
                        }
                    },
                }
            }
            proof {
                // Falling through means this level is empty.
                assert(self.ready_lists@[priority as int].wf(self.tasks@));
                assert(self.ready_items(priority as int).len() == 0);
            }
            // Move to the next lower priority; stop at the idle level.
            if priority == config::IDLE_PRIORITY {
                break ;
            }
            priority = priority - 1;
        }
        // No ready task anywhere: a misconfiguration that the caller
        // treats as fatal.
        proof {
            assert(self.ready_items(self.top_ready_priority as int).len() == 0);
        }
        None
    }

    /// Move the current task to the tail of its ready list, rotating
    /// equal-priority peers FIFO.  Does nothing when there is no current
    /// task.  This does not itself perform a context switch.
    pub fn yield_task(&mut self)
        requires
            old(self).wf(),
        ensures
            final(self).wf(),
            final(self).tasks@.len() == old(self).tasks@.len(),
            old(self).current_task is None ==> final(self).ready_lists@ == old(
                self,
            ).ready_lists@ && final(self).tasks@ == old(self).tasks@
                && final(self).top_ready_priority == old(self).top_ready_priority,
            old(self).current_task is Some ==> ({
                let c = old(self).current_task->0;
                let p = old(self).tasks@[c as int].priority as int;
                let s = old(self).ready_items(p);
                &&& final(self).ready_items(p) == old(self).ready_items_without(p, c).push(c)
                &&& forall|q: int|
                    0 <= q < config::MAX_PRIORITIES && q != p
                        ==> #[trigger] final(self).ready_items(q) == old(self).ready_items(q)
                &&& final(self).tasks@[c as int].state == TaskState::Ready
                &&& same_but_state_and_links(
                    old(self).tasks@[c as int],
                    final(self).tasks@[c as int],
                )
                &&& forall|j: int|
                    0 <= j < old(self).tasks@.len() && j != c ==> same_but_state_links(
                        old(self).tasks@[j],
                        #[trigger] final(self).tasks@[j],
                    )
                &&& (s.contains(c) ==> final(self).top_ready_priority == old(
                    self,
                ).top_ready_priority)
                &&& (!s.contains(c) ==> final(self).top_ready_priority == (if p > old(
                    self,
                ).top_ready_priority {
                    p as usize
                } else {
                    old(self).top_ready_priority
                }))
            }),
            final(self).current_task == old(self).current_task,
            final(self).task_count == old(self).task_count,
            final(self).tick_count == old(self).tick_count,
            final(self).scheduler_running == old(self).scheduler_running,
            final(self).suspend_depth == old(self).suspend_depth,
    {
        let c = match self.current_task {
            Some(c) => c,
            None => {
                return ;
            },
        };
        proof {
            assert(old(self).wf_task(c as int));
        }
        let ghost p = old(self).tasks@[c as int].priority as int;
        let ghost s = old(self).ready_items(p);

        let removed = self.remove_task_from_ready_list(c);
        let ghost mid = *self;
        proof {
            if removed {
                old(self).ready_lists@[p].lemma_member_linked(old(self).tasks@, c);
            }
        }
        self.add_task_to_ready_list(c);

        proof {
            // The rotation leaves the cached top priority where it was.
            if removed {
                assert(s.contains(c));
                mid.lemma_top_is_spec_top();
                assert(p <= old(self).top_ready_priority) by {
                    if p > old(self).top_ready_priority {
                        assert(old(self).ready_items(p).len() == 0);
                    }
                }
                if p < old(self).top_ready_priority {
                    let t = old(self).top_ready_priority as int;
                    assert(mid.ready_items(t) == old(self).ready_items(t));
                    mid.lemma_top_from_dominates((config::MAX_PRIORITIES - 1) as int, t);
                    mid.lemma_top_from_properties((config::MAX_PRIORITIES - 1) as int);
                }
            } else {
                assert(!s.contains(c)) by {
                    if s.contains(c) {
                        old(self).ready_lists@[p].lemma_member_linked(old(self).tasks@, c);
                    }
                }
            }
        }
    }

    /// Select the next task to run, preferring one DIFFERENT from the
    /// current task: the current task is temporarily unlinked, the best of
    /// the remaining ready tasks is selected, and the current task is then
    /// re-appended at the tail of its list.  When no other task is ready
    /// the current task itself is re-selected.  This is what makes a yield
    /// actually hand the processor over, even when the yielding task has
    /// the highest priority.
    ///
    /// The current task must still be linked in its ready list; a caller
    /// that unlinked it must re-add it before asking for a round-robin
    /// step.
    pub fn select_next_different_task(&mut self) -> (selected: Option<usize>)
        requires
            old(self).wf(),
            old(self).running_within_current(),
            old(self).current_task is Some ==> old(
                self,
            ).tasks@[old(self).current_task->0 as int].state_list_item.container is Some,
        ensures
            final(self).wf(),
            final(self).running_only(selected),
            final(self).tasks@.len() == old(self).tasks@.len(),
            final(self).current_task == old(self).current_task,
            final(self).top_ready_priority == old(self).top_ready_priority,
            final(self).task_count == old(self).task_count,
            final(self).tick_count == old(self).tick_count,
            final(self).scheduler_running == old(self).scheduler_running,
            final(self).suspend_depth == old(self).suspend_depth,
            old(self).current_task is None ==> ({
                &&& selected == old(self).selected_task()
                &&& final(self).ready_lists == old(self).ready_lists
                &&& forall|i: int|
                    0 <= i < old(self).tasks@.len() ==> same_but_state(
                        old(self).tasks@[i],
                        #[trigger] final(self).tasks@[i],
                    )
            }),
            old(self).current_task is Some ==> ({
                let c = old(self).current_task->0;
                let p = old(self).tasks@[c as int].priority as int;
                &&& selected == (match old(self).next_other(c) {
                    Some(t) => Some(t),
                    None => Some(c),
                })
                &&& final(self).ready_items(p) == old(self).ready_items_without(p, c).push(c)
                &&& forall|q: int|
                    0 <= q < config::MAX_PRIORITIES && q != p
                        ==> #[trigger] final(self).ready_items(q) == old(self).ready_items(q)
                &&& forall|i: int|
                    0 <= i < old(self).tasks@.len() ==> same_but_state_and_links(
                        old(self).tasks@[i],
                        #[trigger] final(self).tasks@[i],
                    )
                &&& forall|i: int|
                    0 <= i < old(self).tasks@.len() ==> (#[trigger] final(self).tasks@[i]).state
                        == (if selected == Some(i as usize) {
                        TaskState::Running
                    } else if i == c {
                        TaskState::Ready
                    } else {
                        old(self).tasks@[i].state
                    })
            }),
    {
        let c = match self.current_task {
            Some(c) => c,
            None => {
                return self.select_highest_priority_task();
            },
        };
        proof {
            assert(old(self).wf_task(c as int));
        }
        let arena_len = self.tasks.len();
        let ghost p = old(self).tasks@[c as int].priority as int;
        let ghost s = old(self).ready_items(p);

        // Temporarily take the current task out of its ready list.
        let removed = self.remove_task_from_ready_list(c);
        proof {
            assert(removed);
            old(self).ready_lists@[p].lemma_member_linked(old(self).tasks@, c);
        }
        let ghost mid = *self;

        // Select from the remaining tasks (the current one excluded).
        let next = self.select_highest_priority_task();
        let ghost mid2 = *self;

        proof {
            // The selection over the reduced lists is `next_other`.
            assert forall|q: int|
                0 <= q <= config::MAX_PRIORITIES - 1 implies #[trigger] mid.ready_items(q) == old(
                self,
            ).ready_items_without(q, c) by {
                if q != p {
                    assert(!old(self).ready_items(q).contains(c)) by {
                        if old(self).ready_items(q).contains(c) {
                            old(self).ready_lists@[q].lemma_member_linked(old(self).tasks@, c);
                        }
                    }
                }
            }
            old(self).lemma_top_without_agrees(mid, c, (config::MAX_PRIORITIES - 1) as int);
            mid.lemma_top_is_spec_top();
            assert(next == old(self).next_other(c));
            // A selected task is not the removed current task.
            if next is Some {
                let t = next->0;
                assert(mid.ready_items(mid.top_ready_priority as int).contains(t)) by {
                    assert(mid.selected_task() == Some(t));
                }
                assert(t != c) by {
                    if t == c {
                        mid.ready_lists@[mid.top_ready_priority as int].lemma_member_linked(
                            mid.tasks@,
                            c,
                        );
                    }
                }
            }
        }

        // Put the current task back, at the tail of its own list.
        let ghost mut pre_add = *self;
        if removed {
            self.tasks[c].state = TaskState::Ready;
            proof {
                Scheduler::lemma_wf_state_change(mid2, *self);
                pre_add = *self;
            }
            self.add_task_to_ready_list(c);
        }

        proof {
            // The rotation leaves the cached top priority where it was.
            mid2.lemma_top_is_spec_top();
            assert(p <= old(self).top_ready_priority) by {
                if p > old(self).top_ready_priority {
                    assert(old(self).ready_items(p).len() == 0);
                }
            }
            if p < old(self).top_ready_priority {
                let t = old(self).top_ready_priority as int;
                assert(mid2.ready_lists == mid.ready_lists);
                assert(mid.ready_items(t) == old(self).ready_items_without(t, c));
                assert(!old(self).ready_items(t).contains(c)) by {
                    if old(self).ready_items(t).contains(c) {
                        old(self).ready_lists@[t].lemma_member_linked(old(self).tasks@, c);
                    }
                }
                assert(mid2.ready_items(t) == old(self).ready_items(t));
                mid2.lemma_top_from_dominates((config::MAX_PRIORITIES - 1) as int, t);
                mid2.lemma_top_from_properties((config::MAX_PRIORITIES - 1) as int);
            }
        }

        proof {
            // Lists other than the current task's are untouched overall.
            assert forall|q: int|
                0 <= q < config::MAX_PRIORITIES && q != p implies #[trigger] self.ready_items(q)
                    == old(self).ready_items(q) by {
                assert(self.ready_items(q) == pre_add.ready_items(q));
                assert(pre_add.ready_items(q) == mid2.ready_items(q));
                assert(mid2.ready_items(q) == mid.ready_items(q));
                assert(mid.ready_items(q) == old(self).ready_items_without(q, c));
                assert(!old(self).ready_items(q).contains(c)) by {
                    if old(self).ready_items(q).contains(c) {
                        old(self).ready_lists@[q].lemma_member_linked(old(self).tasks@, c);
                    }
                }
            }
            // Task states other than the current's and the selection's are
            // untouched overall.
            assert forall|i: int|
                0 <= i < arena_len && i != c && next != Some(i as usize) implies (
            #[trigger] self.tasks@[i].state) == old(self).tasks@[i].state by {
                assert(self.tasks@[i].state == pre_add.tasks@[i].state);
                assert(pre_add.tasks@[i].state == mid2.tasks@[i].state);
                assert(mid2.tasks@[i].state == mid.tasks@[i].state);
                assert(mid.tasks@[i].state == old(self).tasks@[i].state);
            }
        }

        // Return the different task when one was found; otherwise fall
        // back to the current task and mark it running again.
        match next {
            Some(t) => {
                if t != c {
                    return Some(t);
                }
                proof {
                    assert(false);
                }
            },
            None => {},
        }
        let ghost readded = *self;
        self.tasks[c].state = TaskState::Running;
        proof {
            Scheduler::lemma_wf_state_change(readded, *self);
            assert forall|q: int|
                0 <= q < config::MAX_PRIORITIES implies #[trigger] self.ready_items(q)
                    == readded.ready_items(q) by {
                assert(self.ready_lists == readded.ready_lists);
            }
        }
        Some(c)
    }

    /// Every task linked in a ready list is ready or running, and sits in
    /// the list of its own priority.
    pub proof fn lemma_ready_list_members(self, p: int, i: usize)
        requires
            self.wf(),
            0 <= p < config::MAX_PRIORITIES,
            self.ready_items(p).contains(i),
        ensures
            (i as int) < self.tasks@.len(),
            self.tasks@[i as int].priority == p,
            self.tasks@[i as int].state == TaskState::Ready || self.tasks@[i as int].state
                == TaskState::Running,
    {
        self.ready_lists@[p].lemma_member_linked(self.tasks@, i);
        assert(self.wf_task(i as int));
    }

    /// At most one task is running at any moment.  The scheduling
    /// operations establish `running_only` (exactly the selected task runs);
    /// uniqueness follows.
    pub proof fn lemma_at_most_one_running(self, who: Option<usize>)
        requires
            self.running_only(who),
        ensures
            self.at_most_one_running(),
    {
        broadcast use vstd::std_specs::vec::axiom_spec_len;

        assert(self.tasks@.len() == vstd::std_specs::vec::spec_vec_len(&self.tasks));
    }

    /// The cached top ready priority dominates every non-empty ready
    /// list's index, and is exact: unless it is the idle priority, its own
    /// list is non-empty.
    pub proof fn lemma_top_ready_priority_dominates(self, p: int)
        requires
            self.wf(),
            0 <= p < config::MAX_PRIORITIES,
            self.ready_items(p).len() > 0,
        ensures
            p <= self.top_ready_priority,
            self.top_ready_priority == 0 || self.ready_items(
                self.top_ready_priority as int,
            ).len() > 0,
    {
        if p > self.top_ready_priority {
            assert(self.ready_items(p).len() == 0);
        }
    }

    /// Round trip: appending an unlinked task to its ready list and then
    /// removing it restores every ready list and the cached top priority,
    /// and leaves the task's node fully unlinked.  The hypotheses are what
    /// `add_task_to_ready_list` and `remove_task_from_ready_list` ensure.
    pub proof fn lemma_add_remove_round_trip(
        self,
        mid: Scheduler,
        post: Scheduler,
        id: usize,
    )
        requires
            self.wf(),
            mid.wf(),
            post.wf(),
            (id as int) < self.tasks@.len(),
            self.tasks@[id as int].state_list_item.container is None,
            mid.tasks@.len() == self.tasks@.len(),
            mid.tasks@[id as int].priority == self.tasks@[id as int].priority,
            ({
                let p = self.tasks@[id as int].priority as int;
                &&& mid.ready_items(p) == self.ready_items(p).push(id)
                &&& forall|q: int|
                    0 <= q < config::MAX_PRIORITIES && q != p
                        ==> #[trigger] mid.ready_items(q) == self.ready_items(q)
                &&& mid.top_ready_priority == if p > self.top_ready_priority {
                    p as usize
                } else {
                    self.top_ready_priority
                }
            }),
            ({
                let p = mid.tasks@[id as int].priority as int;
                let s = mid.ready_items(p);
                &&& post.ready_items(p) == s.remove(s.index_of(id))
                &&& forall|q: int|
                    0 <= q < config::MAX_PRIORITIES && q != p
                        ==> #[trigger] post.ready_items(q) == mid.ready_items(q)
                &&& post.tasks@[id as int].state_list_item.is_unlinked()
            }),
        ensures
            forall|q: int|
                0 <= q < config::MAX_PRIORITIES ==> #[trigger] post.ready_items(q)
                    == self.ready_items(q),
            post.top_ready_priority == self.top_ready_priority,
            post.tasks@[id as int].state_list_item.is_unlinked(),
    {
        let p = self.tasks@[id as int].priority as int;
        let s0 = self.ready_items(p);
        let s1 = mid.ready_items(p);
        // The task was not linked before the round trip, so it occurs in
        // the middle state exactly once: at the tail.
        self.ready_lists@[p].lemma_unlinked_not_member(self.tasks@, id);
        assert(s1.contains(id)) by {
            assert(s1[s0.len() as int] == id);
        }
        let k = s1.index_of(id);
        assert(k == s0.len()) by {
            if k < s0.len() {
                assert(s0[k] == id);
            }
        }
        assert(s1.remove(k) =~= s0);
        assert forall|q: int|
            0 <= q < config::MAX_PRIORITIES implies #[trigger] post.ready_items(q)
                == self.ready_items(q) by {}
        // The cached top is exact in both end states, and the lists agree.
        self.lemma_top_is_spec_top();
        post.lemma_top_is_spec_top();
        post.lemma_top_from_congruent(self, (config::MAX_PRIORITIES - 1) as int);
    }

    /// `top_from_without` skips over lists that are empty once `c` is
    /// taken out.
    pub proof fn lemma_top_from_without_skip(self, p: int, t: int, c: usize)
        requires
            0 <= t <= p,
            forall|q: int|
                t < q <= p ==> (#[trigger] self.ready_items_without(q, c)).len() == 0,
        ensures
            self.top_from_without(p, c) == self.top_from_without(t, c),
        decreases p - t,
    {
        if p > t {
            self.lemma_top_from_without_skip(p - 1, t, c);
        }
    }

    /// FIFO within a priority: when the ready list at the current task's
    /// priority holds exactly `a` then `b`, with `a` current and no
    /// higher-priority task ready, a round-robin step selects `b` and
    /// leaves the list as `b` then `a` - so repeated yields alternate
    /// a, b, a, b, ...  The hypotheses are what
    /// `select_next_different_task` ensures.
    pub proof fn lemma_fifo_rotation(
        self,
        post: Scheduler,
        a: usize,
        b: usize,
        selected: Option<usize>,
    )
        requires
            self.wf(),
            a != b,
            self.current_task == Some(a),
            self.top_ready_priority == self.tasks@[a as int].priority,
            ({
                let p = self.tasks@[a as int].priority as int;
                self.ready_items(p) == seq![a, b]
            }),
            selected == (match self.next_other(a) {
                Some(t) => Some(t),
                None => Some(a),
            }),
            ({
                let p = self.tasks@[a as int].priority as int;
                post.ready_items(p) == self.ready_items_without(p, a).push(a)
            }),
        ensures
            selected == Some(b),
            ({
                let p = self.tasks@[a as int].priority as int;
                post.ready_items(p) == seq![b, a]
            }),
    {
        let p = self.tasks@[a as int].priority as int;
        let s = self.ready_items(p);
        assert(s.contains(a)) by {
            assert(s[0] == a);
        }
        assert(s.index_of(a) == 0) by {
            let k = s.index_of(a);
            assert(s[k] == a);
            if k != 0 {
                assert(s[1] == b);
            }
        }
        assert(self.ready_items_without(p, a) =~= seq![b]);
        // Every priority above `p` is empty, so the reduced top is `p`.
        assert forall|q: int|
            p < q <= config::MAX_PRIORITIES - 1 implies (#[trigger] self.ready_items_without(
                q,
                a,
            )).len() == 0 by {
            assert(self.ready_items(q).len() == 0);
        }
        self.lemma_top_from_without_skip((config::MAX_PRIORITIES - 1) as int, p, a);
        assert(self.top_from_without(p, a) == p);
        assert(self.next_other(a) == Some(b));
        assert(post.ready_items(p) =~= seq![b, a]);
    }

    /// Strict priority: while a higher-priority task is ready, selection
    /// never picks a lower-priority one.
    pub proof fn lemma_strict_priority(self, hi: usize, lo: usize, ph: int, pl: int)
        requires
            self.wf(),
            0 <= pl < ph < config::MAX_PRIORITIES,
            self.ready_items(ph).contains(hi),
            self.ready_items(pl).contains(lo),
        ensures
            self.selected_task() is Some,
            self.tasks@[self.selected_task()->0 as int].priority > pl,
            self.selected_task() != Some(lo),
    {
        self.lemma_top_ready_priority_dominates(ph);
        let t = self.top_ready_priority as int;
        let head = self.ready_items(t)[0];
        assert(self.ready_items(t).contains(head));
        self.lemma_ready_list_members(t, head);
        self.lemma_ready_list_members(pl, lo);
    }

    /// Check if the scheduler is suspended.
    pub fn is_suspended(&self) -> (r: bool)
        ensures
            r == (self.suspend_depth > 0),
    {
        self.suspend_depth > 0
    }

    /// Get the current task id.
    pub fn get_current_task(&self) -> (r: Option<usize>)
        ensures
            r == self.current_task,
    {
        self.current_task
    }

    /// Set the current task id (called by the context switcher just before
    /// the jump, so the newly running task observes itself as current).
    pub fn set_current_task(&mut self, tcb: Option<usize>)
        requires
            match tcb {
                Some(c) => (c as int) < old(self).tasks@.len(),
                None => true,
            },
        ensures
            *final(self) == (Scheduler { current_task: tcb, ..*old(self) }),
            old(self).wf() ==> final(self).wf(),
    {
        self.current_task = tcb;
        proof {
            if old(self).wf() {
                Scheduler::lemma_wf_same_core(*old(self), *self);
            }
        }
    }

    /// Get the current tick count.
    pub fn get_tick_count(&self) -> (r: TickType)
        ensures
            r == self.tick_count,
    {
        self.tick_count
    }

    /// Increment the tick count by one, wrapping on overflow (called by the
    /// timer's interrupt handler).
    pub fn increment_tick(&mut self)
        ensures
            *final(self) == (Scheduler { tick_count: final(self).tick_count, ..*old(self) }),
            final(self).tick_count.0 == if old(self).tick_count.0 < u64::MAX {
                old(self).tick_count.0 + 1
            } else {
                0
            },
            old(self).wf() ==> final(self).wf(),
    {
        self.tick_count = self.tick_count.wrapping_add(TickType::new(1));
        proof {
            if old(self).wf() {
                Scheduler::lemma_wf_same_core(*old(self), *self);
            }
        }
    }

    /// Check if the scheduler is running.
    pub fn is_running(&self) -> (r: bool)
        ensures
            r == self.scheduler_running,
    {
        self.scheduler_running
    }

    /// Mark the scheduler as running (or stopped).
    pub fn set_running(&mut self, running: bool)
        ensures
            *final(self) == (Scheduler { scheduler_running: running, ..*old(self) }),
            old(self).wf() ==> final(self).wf(),
    {
        self.scheduler_running = running;
        proof {
            if old(self).wf() {
                Scheduler::lemma_wf_same_core(*old(self), *self);
            }
        }
    }

    /// Get the total task count.
    pub fn get_task_count(&self) -> (r: usize)
        ensures
            r == self.task_count,
    {
        self.task_count
    }

    /// Increment the task count (a task was added to the system).
    pub fn increment_task_count(&mut self)
        requires
            old(self).task_count < usize::MAX,
        ensures
            *final(self) == (Scheduler {
                task_count: (old(self).task_count + 1) as usize,
                ..*old(self)
            }),
            old(self).wf() ==> final(self).wf(),
    {
        self.task_count = self.task_count + 1;
        proof {
            if old(self).wf() {
                Scheduler::lemma_wf_same_core(*old(self), *self);
            }
        }
    }

    /// Decrement the task count; zero stays zero.
    pub fn decrement_task_count(&mut self)
        ensures
            *final(self) == (Scheduler {
                task_count: if old(self).task_count > 0 {
                    (old(self).task_count - 1) as usize
                } else {
                    0
                },
                ..*old(self)
            }),
            old(self).wf() ==> final(self).wf(),
    {
        if self.task_count > 0 {
            self.task_count = self.task_count - 1;
        }
        proof {
            if old(self).wf() {
                Scheduler::lemma_wf_same_core(*old(self), *self);
            }
        }
    }

    /// Get the cached top ready priority.
    pub fn get_top_ready_priority(&self) -> (r: Priority)
        ensures
            r == self.top_ready_priority,
    {
        self.top_ready_priority
    }

    /// Check whether the ready list of the given priority is empty (an
    /// out-of-range priority counts as empty).
    pub fn is_ready_list_empty(&self, priority: Priority) -> (r: bool)
        requires
            self.wf(),
        ensures
            r == if (priority as int) < config::MAX_PRIORITIES {
                self.ready_items(priority as int).len() == 0
            } else {
                true
            },
    {
        if priority < config::MAX_PRIORITIES {
            self.ready_lists[priority].is_empty()
        } else {
            true
        }
    }

    /// Number of ready lists scanned so far that are non-empty (the spec
    /// counterpart of `count_non_empty_ready_lists`).
    pub open spec fn count_non_empty_below(self, p: int) -> int
        decreases p,
    {
        if p <= 0 {
            0
        } else {
            self.count_non_empty_below(p - 1) + if self.ready_items(p - 1).len() > 0 {
                1int
            } else {
                0int
            }
        }
    }

    /// Count the non-empty ready lists.
    pub fn count_non_empty_ready_lists(&self) -> (r: usize)
        requires
            self.wf(),
        ensures
            r == self.count_non_empty_below(config::MAX_PRIORITIES as int),
    {
        let mut count: usize = 0;
        let mut p: usize = 0;
        while p < config::MAX_PRIORITIES
            invariant
                self.wf(),
                p <= config::MAX_PRIORITIES,
                count == self.count_non_empty_below(p as int),
                count <= p,
            decreases config::MAX_PRIORITIES - p,
        {
            if !self.ready_lists[p].is_empty() {
                count = count + 1;
            }
            p = p + 1;
        }
        count
    }

    /// Suspend the scheduler (enter a critical section): interrupts are
    /// disabled on the first suspension, and suspensions nest.
    pub fn suspend(&mut self, intr: &mut InterruptState)
        requires
            old(self).suspend_depth < usize::MAX,
        ensures
            *final(self) == (Scheduler {
                suspend_depth: (old(self).suspend_depth + 1) as usize,
                ..*old(self)
            }),
            final(intr).enabled == (old(self).suspend_depth > 0 && old(intr).enabled),
            old(self).wf() ==> final(self).wf(),
    {
        // Disable interrupts on the first suspension.
        if self.suspend_depth == 0 {
            disable_interrupts(intr);
        }
        self.suspend_depth = self.suspend_depth + 1;
        proof {
            if old(self).wf() {
                Scheduler::lemma_wf_same_core(*old(self), *self);
            }
        }
    }

    /// Resume the scheduler (leave a critical section): interrupts are
    /// re-enabled when the depth returns to zero.
    pub fn resume(&mut self, intr: &mut InterruptState)
        ensures
            *final(self) == (Scheduler {
                suspend_depth: if old(self).suspend_depth > 0 {
                    (old(self).suspend_depth - 1) as usize
                } else {
                    0
                },
                ..*old(self)
            }),
            final(intr).enabled == (old(intr).enabled || old(self).suspend_depth == 1),
            old(self).wf() ==> final(self).wf(),
    {
        if self.suspend_depth > 0 {
            self.suspend_depth = self.suspend_depth - 1;
            // Re-enable interrupts when fully out of the critical section.
            if self.suspend_depth == 0 {
                enable_interrupts(intr);
            }
        }
        proof {
            if old(self).wf() {
                Scheduler::lemma_wf_same_core(*old(self), *self);
            }
        }
    }
}

} // verus!
