//! Intrusive doubly-linked list over the task arena.
//!
//! The nodes are embedded in the task control blocks (an intrusive list),
//! and tasks live in an arena (`Vec<TaskControlBlock>`), so a link is an
//! arena index rather than a pointer.  Every list has a conceptual end
//! marker (the sentinel of the classic formulation, with sort value
//! `u64::MAX`); `Link::End` stands for it.  An unlinked node has `container`,
//! `prev` and `next` all absent.
//!
//! The ghost field `items` holds the arena indices of the linked tasks in
//! list order; `wf` ties the `prev`/`next`/`container` fields of every
//! member to that sequence, which is what the contracts speak of.

use vstd::prelude::*;

use crate::task::{same_but_state_links, TaskControlBlock};

verus! {

/// A link field of an intrusive node: absent, the list's end marker, or the
/// state node embedded in the task at the given arena index.
#[derive(Copy, Clone, Debug, PartialEq, Eq, Structural)]
pub enum Link {
    /// No link: the node is not in a list.
    Null,
    /// The end marker of the containing list.
    End,
    /// The state node of the task at this arena index.
    Item(usize),
}

/// List node that lives inside the data structure it links (here: a task
/// control block).
#[derive(Copy, Clone, Debug, PartialEq, Eq, Structural)]
pub struct ListNode {
    /// Next node in the list.
    pub next: Link,
    /// Previous node in the list.
    pub prev: Link,
    /// Identifier of the containing list (a ready list's priority).
    pub container: Option<usize>,
    /// Sort value (used for priority ordering); lower values appear earlier.
    pub value: u64,
    /// Arena index of the owning task.
    pub owner: Option<usize>,
}

impl ListNode {
    /// All links absent: the node is in no list.
    pub open spec fn is_unlinked(self) -> bool {
        &&& self.container is None
        &&& self.prev is Null
        &&& self.next is Null
    }

    pub fn new() -> (node: Self)
        ensures
            node.is_unlinked(),
            node.value == 0,
            node.owner is None,
    {
        ListNode { next: Link::Null, prev: Link::Null, container: None, value: 0, owner: None }
    }

    pub fn set_value(&mut self, value: u64)
        ensures
            *final(self) == (ListNode { value, ..*old(self) }),
    {
        self.value = value;
    }

    pub fn get_value(&self) -> (v: u64)
        ensures
            v == self.value,
    {
        self.value
    }

    pub fn set_owner(&mut self, owner: usize)
        ensures
            *final(self) == (ListNode { owner: Some(owner), ..*old(self) }),
    {
        self.owner = Some(owner);
    }

    pub fn is_in_list(&self) -> (r: bool)
        ensures
            r == (self.container is Some),
    {
        self.container.is_some()
    }

    pub fn get_container(&self) -> (c: Option<usize>)
        ensures
            c == self.container,
    {
        self.container
    }

    pub fn get_next(&self) -> (l: Link)
        ensures
            l == self.next,
    {
        self.next
    }

    pub fn get_prev(&self) -> (l: Link)
        ensures
            l == self.prev,
    {
        self.prev
    }

    pub fn get_owner(&self) -> (o: Option<usize>)
        ensures
            o == self.owner,
    {
        self.owner
    }
}

/// The state-list node of the task at arena index `i`.
pub open spec fn node_of(tasks: Seq<TaskControlBlock>, i: usize) -> ListNode {
    tasks[i as int].state_list_item
}

/// Doubly-linked circular list with a conceptual end marker.
///
/// `end_next`/`end_prev` are the end marker's own links (the head and tail
/// of the list); both are `Link::End` when the list is empty.
pub struct List {
    /// Number of linked nodes.
    pub length: usize,
    /// Link to the first node, or `End` when empty.
    pub end_next: Link,
    /// Link to the last node, or `End` when empty.
    pub end_prev: Link,
    /// Identifier that members carry in their `container` field.
    pub id: usize,
    /// The arena indices of the members, in list order.
    pub items: Ghost<Seq<usize>>,
}

impl List {
    /// The member at position `k` is linked to its neighbours and carries
    /// this list's identifier.
    pub open spec fn wf_node_at(self, tasks: Seq<TaskControlBlock>, k: int) -> bool
        recommends
            0 <= k < self.items@.len(),
    {
        let s = self.items@;
        let node = node_of(tasks, s[k]);
        &&& (s[k] as int) < tasks.len()
        &&& node.container == Some(self.id)
        &&& node.prev == (if k == 0 {
            Link::End
        } else {
            Link::Item(s[k - 1])
        })
        &&& node.next == (if k == s.len() - 1 {
            Link::End
        } else {
            Link::Item(s[k + 1])
        })
    }

    /// List well-formedness over the task arena: the length mirrors the
    /// member count, members are distinct, the end marker's links frame the
    /// sequence, and every member's node links match its position.
    pub open spec fn wf(self, tasks: Seq<TaskControlBlock>) -> bool {
        let s = self.items@;
        &&& self.length == s.len()
        &&& s.no_duplicates()
        &&& (if s.len() == 0 {
            self.end_next == Link::End && self.end_prev == Link::End
        } else {
            self.end_next == Link::Item(s[0]) && self.end_prev == Link::Item(s[s.len() - 1])
        })
        &&& forall|k: int| 0 <= k < s.len() ==> #[trigger] self.wf_node_at(tasks, k)
    }

    /// Members are linked into this list; unlinked nodes are not members.
    pub proof fn lemma_member_linked(self, tasks: Seq<TaskControlBlock>, i: usize)
        requires
            self.wf(tasks),
            self.items@.contains(i),
        ensures
            (i as int) < tasks.len(),
            node_of(tasks, i).container == Some(self.id),
            !(node_of(tasks, i).prev is Null),
            !(node_of(tasks, i).next is Null),
    {
        let s = self.items@;
        let k = choose|k: int| 0 <= k < s.len() && s[k] == i;
        assert(self.wf_node_at(tasks, k));
    }

    /// A node whose `container` is absent is not a member.
    pub proof fn lemma_unlinked_not_member(self, tasks: Seq<TaskControlBlock>, i: usize)
        requires
            self.wf(tasks),
            (i as int) < tasks.len(),
            node_of(tasks, i).container is None,
        ensures
            !self.items@.contains(i),
    {
        if self.items@.contains(i) {
            self.lemma_member_linked(tasks, i);
        }
    }

    pub fn new() -> (list: Self)
        ensures
            list.length == 0,
            list.end_next == Link::Null,
            list.end_prev == Link::Null,
            list.id == 0,
            list.items@ == Seq::<usize>::empty(),
    {
        List {
            length: 0,
            end_next: Link::Null,
            end_prev: Link::Null,
            id: 0,
            items: Ghost(Seq::empty()),
        }
    }

    /// Initialize as an empty list with the given identifier: the end
    /// marker's links point back at the end marker itself.
    pub fn init(&mut self, id: usize)
        ensures
            final(self).length == 0,
            final(self).end_next == Link::End,
            final(self).end_prev == Link::End,
            final(self).id == id,
            final(self).items@ == Seq::<usize>::empty(),
            forall|tasks: Seq<TaskControlBlock>| final(self).wf(tasks),
    {
        self.end_next = Link::End;
        self.end_prev = Link::End;
        self.length = 0;
        self.id = id;
        self.items = Ghost(Seq::empty());
    }

    /// Check if the list is empty.
    pub fn is_empty(&self) -> (r: bool)
        ensures
            r == (self.length == 0),
    {
        self.length == 0
    }

    /// Number of items in the list.
    pub fn len(&self) -> (n: usize)
        ensures
            n == self.length,
    {
        self.length
    }

    /// Well-formedness only reads the nodes of members: it survives any
    /// change to the arena that leaves the member nodes and the arena length
    /// alone.
    pub proof fn lemma_wf_frame(self, tasks1: Seq<TaskControlBlock>, tasks2: Seq<TaskControlBlock>)
        requires
            self.wf(tasks1),
            tasks2.len() >= tasks1.len(),
            forall|k: int|
                0 <= k < self.items@.len() ==> node_of(tasks2, #[trigger] self.items@[k])
                    == node_of(tasks1, self.items@[k]),
        ensures
            self.wf(tasks2),
    {
        assert forall|k: int| 0 <= k < self.items@.len() implies #[trigger] self.wf_node_at(
            tasks2,
            k,
        ) by {
            assert(self.wf_node_at(tasks1, k));
        }
    }

    /// Insert item at the end of the list (O(1)): immediately before the
    /// end marker, i.e. at the FIFO tail.
    pub fn insert_end(&mut self, tasks: &mut Vec<TaskControlBlock>, item: usize)
        requires
            old(self).wf(old(tasks)@),
            (item as int) < old(tasks)@.len(),
            node_of(old(tasks)@, item).is_unlinked(),
        ensures
            final(self).wf(final(tasks)@),
            final(self).id == old(self).id,
            final(self).items@ == old(self).items@.push(item),
            final(tasks)@.len() == old(tasks)@.len(),
            forall|j: int|
                0 <= j < old(tasks)@.len() ==> same_but_state_links(
                    old(tasks)@[j],
                    #[trigger] final(tasks)@[j],
                ),
            forall|j: int|
                0 <= j < old(tasks)@.len() && j != item && !old(self).items@.contains(j as usize)
                    ==> final(tasks)@[j] == old(tasks)@[j],
    {
        let ghost s = self.items@;
        proof {
            self.lemma_unlinked_not_member(tasks@, item);
        }
        // The new node slots in between the old tail and the end marker.
        let tail = self.end_prev;
        tasks[item].state_list_item.next = Link::End;
        tasks[item].state_list_item.prev = tail;
        match tail {
            Link::Item(last) => {
                proof {
                    assert(self.wf_node_at(old(tasks)@, s.len() - 1));
                }
                tasks[last].state_list_item.next = Link::Item(item);
            },
            _ => {
                // Empty list: the end marker's own forward link is the node.
                self.end_next = Link::Item(item);
            },
        }
        self.end_prev = Link::Item(item);
        tasks[item].state_list_item.container = Some(self.id);
        let cap = tasks.len();
        proof {
            let s2 = s.push(item);
            assert forall|k: int| 0 <= k < s2.len() implies (#[trigger] s2[k]) < cap by {
                if k < s.len() {
                    assert(old(self).wf_node_at(old(tasks)@, k));
                }
            }
            lemma_distinct_bounded(s2, cap as nat);
        }
        self.length = self.length + 1;
        self.items = Ghost(s.push(item));
        proof {
            assert forall|k: int| 0 <= k < self.items@.len() implies #[trigger] self.wf_node_at(
                tasks@,
                k,
            ) by {
                if k < s.len() {
                    assert(old(self).wf_node_at(old(tasks)@, k));
                    if k > 0 {
                        assert(old(self).wf_node_at(old(tasks)@, k - 1));
                    }
                    if k < s.len() - 1 {
                        assert(old(self).wf_node_at(old(tasks)@, k + 1));
                    }
                }
            }
        }
    }

    /// Insert item in sort order: walking forward from the end marker, the
    /// node goes directly before the first member whose value is at least
    /// the node's own.  The end marker's value `u64::MAX` guarantees the
    /// walk terminates.
    #[verifier::rlimit(60)]
    pub fn insert_sorted(&mut self, tasks: &mut Vec<TaskControlBlock>, item: usize)
        requires
            old(self).wf(old(tasks)@),
            (item as int) < old(tasks)@.len(),
            node_of(old(tasks)@, item).is_unlinked(),
        ensures
            final(self).wf(final(tasks)@),
            final(self).id == old(self).id,
            final(self).items@ == old(self).items@.insert(
                insert_position(
                    old(tasks)@,
                    old(self).items@,
                    node_of(old(tasks)@, item).value,
                ),
                item,
            ),
            final(tasks)@.len() == old(tasks)@.len(),
            forall|j: int|
                0 <= j < old(tasks)@.len() ==> same_but_state_links(
                    old(tasks)@[j],
                    #[trigger] final(tasks)@[j],
                ),
            forall|j: int|
                0 <= j < old(tasks)@.len() && j != item && !old(self).items@.contains(j as usize)
                    ==> final(tasks)@[j] == old(tasks)@[j],
    {
        let ghost s = self.items@;
        proof {
            self.lemma_unlinked_not_member(tasks@, item);
        }
        let item_value = tasks[item].state_list_item.value;
        let mut iterator: Link = Link::End;
        let ghost mut k: int = 0;
        loop
            invariant_except_break
                0 <= k <= s.len(),
                iterator == (if k == 0 {
                    Link::End
                } else {
                    Link::Item(s[k - 1])
                }),
                forall|j: int| 0 <= j < k ==> node_of(tasks@, #[trigger] s[j]).value < item_value,
            invariant
                self.wf(tasks@),
                s == self.items@,
                (item as int) < tasks@.len(),
            ensures
                0 <= k <= s.len(),
                forall|j: int| 0 <= j < k ==> node_of(tasks@, #[trigger] s[j]).value < item_value,
                k < s.len() ==> node_of(tasks@, s[k]).value >= item_value,
                iterator == (if k < s.len() {
                    Link::Item(s[k])
                } else {
                    Link::End
                }),
            decreases s.len() - k,
        {
            // Step to the next node (the end marker's successor is the head).
            iterator = match iterator {
                Link::End => self.end_next,
                Link::Item(i) => {
                    proof {
                        assert(self.wf_node_at(tasks@, k - 1));
                    }
                    tasks[i].state_list_item.next
                },
                Link::Null => Link::Null,
            };
            proof {
                if k < s.len() {
                    assert(self.wf_node_at(tasks@, k));
                }
            }
            let current_value = match iterator {
                Link::Item(i) => tasks[i].state_list_item.value,
                _ => u64::MAX,
            };
            if current_value >= item_value {
                break;
            }
            proof {
                k = k + 1;
            }
        }
        proof {
            lemma_insert_position_is(tasks@, s, item_value, k);
        }

        // Splice the node in directly before `iterator`.
        let iter_prev = match iterator {
            Link::Item(t) => {
                proof {
                    assert(self.wf_node_at(tasks@, k));
                }
                tasks[t].state_list_item.prev
            },
            _ => self.end_prev,
        };
        tasks[item].state_list_item.next = iterator;
        tasks[item].state_list_item.prev = iter_prev;
        match iter_prev {
            Link::Item(p) => {
                proof {
                    assert(old(self).wf_node_at(old(tasks)@, k - 1));
                }
                tasks[p].state_list_item.next = Link::Item(item);
            },
            _ => {
                // Inserting at the head: the end marker's forward link.
                self.end_next = Link::Item(item);
            },
        }
        match iterator {
            Link::Item(t) => {
                tasks[t].state_list_item.prev = Link::Item(item);
            },
            _ => {
                // Inserting at the tail: the end marker's back link.
                self.end_prev = Link::Item(item);
            },
        }
        tasks[item].state_list_item.container = Some(self.id);
        let cap = tasks.len();
        proof {
            let s2 = s.insert(k, item);
            assert forall|k2: int| 0 <= k2 < s2.len() implies (#[trigger] s2[k2]) < cap by {
                if k2 != k {
                    let j: int = if k2 < k {
                        k2
                    } else {
                        k2 - 1
                    };
                    assert(s2[k2] == s[j]);
                    assert(old(self).wf_node_at(old(tasks)@, j));
                }
            }
            assert forall|k1: int, k2: int|
                0 <= k1 < s2.len() && 0 <= k2 < s2.len() && k1 != k2 implies s2[k1] != s2[k2] by {
                if k1 != k && k2 != k {
                    let j1: int = if k1 < k {
                        k1
                    } else {
                        k1 - 1
                    };
                    let j2: int = if k2 < k {
                        k2
                    } else {
                        k2 - 1
                    };
                    assert(s2[k1] == s[j1]);
                    assert(s2[k2] == s[j2]);
                } else {
                    let kn: int = if k1 == k {
                        k2
                    } else {
                        k1
                    };
                    let j: int = if kn < k {
                        kn
                    } else {
                        kn - 1
                    };
                    assert(s2[kn] == s[j]);
                    assert(s.contains(s[j]));
                }
            }
            lemma_distinct_bounded(s2, cap as nat);
        }
        self.length = self.length + 1;
        self.items = Ghost(s.insert(k, item));
        proof {
            assert forall|k2: int|
                0 <= k2 < self.items@.len() implies #[trigger] self.wf_node_at(tasks@, k2) by {
                if k2 != k {
                    let j: int = if k2 < k {
                        k2
                    } else {
                        k2 - 1
                    };
                    assert(self.items@[k2] == s[j]);
                    assert(old(self).wf_node_at(old(tasks)@, j));
                    if j > 0 {
                        assert(old(self).wf_node_at(old(tasks)@, j - 1));
                    }
                    if j < s.len() - 1 {
                        assert(old(self).wf_node_at(old(tasks)@, j + 1));
                    }
                }
            }
        }
    }

    /// Remove item from the list (O(1) unlink by stitching the neighbours
    /// together).
    ///
    /// Returns `false`, and changes nothing, when the node is not linked:
    /// removal is idempotent, and a second removal both does no harm and
    /// signals that the node was not linked.
    pub fn remove(&mut self, tasks: &mut Vec<TaskControlBlock>, item: usize) -> (removed: bool)
        requires
            old(self).wf(old(tasks)@),
            (item as int) < old(tasks)@.len(),
            node_of(old(tasks)@, item).is_unlinked() || old(self).items@.contains(item),
        ensures
            final(self).wf(final(tasks)@),
            final(self).id == old(self).id,
            removed == old(self).items@.contains(item),
            !removed ==> *final(self) == *old(self) && final(tasks)@ == old(tasks)@,
            removed ==> final(self).items@ == old(self).items@.remove(
                old(self).items@.index_of(item),
            ),
            removed ==> node_of(final(tasks)@, item).is_unlinked(),
            final(tasks)@.len() == old(tasks)@.len(),
            forall|j: int|
                0 <= j < old(tasks)@.len() ==> same_but_state_links(
                    old(tasks)@[j],
                    #[trigger] final(tasks)@[j],
                ),
            forall|j: int|
                0 <= j < old(tasks)@.len() && j != item && !old(self).items@.contains(j as usize)
                    ==> final(tasks)@[j] == old(tasks)@[j],
    {
        let ghost s = self.items@;
        let node_next = tasks[item].state_list_item.next;
        let node_prev = tasks[item].state_list_item.prev;

        // A node with a missing neighbour link is not in a list.
        let next_null = match node_next {
            Link::Null => true,
            _ => false,
        };
        let prev_null = match node_prev {
            Link::Null => true,
            _ => false,
        };
        if next_null || prev_null {
            proof {
                if s.contains(item) {
                    self.lemma_member_linked(tasks@, item);
                }
            }
            return false;
        }

        proof {
            assert(s.contains(item));
        }
        let ghost k = s.index_of(item);
        proof {
            assert(self.wf_node_at(tasks@, k));
        }

        // Stitch: the next node's back link skips the removed node.
        match node_next {
            Link::Item(n) => {
                proof {
                    assert(self.wf_node_at(tasks@, k + 1));
                }
                tasks[n].state_list_item.prev = node_prev;
            },
            Link::End => {
                // The removed node was the tail.
                self.end_prev = node_prev;
            },
            Link::Null => {
                proof {
                    assert(false);
                }
            },
        }
        // Stitch: the previous node's forward link skips the removed node.
        match node_prev {
            Link::Item(p) => {
                proof {
                    assert(old(self).wf_node_at(old(tasks)@, k - 1));
                }
                tasks[p].state_list_item.next = node_next;
            },
            Link::End => {
                // The removed node was the head.
                self.end_next = node_next;
            },
            Link::Null => {
                proof {
                    assert(false);
                }
            },
        }

        // Clear all links to make a second removal harmless.
        tasks[item].state_list_item.container = None;
        tasks[item].state_list_item.next = Link::Null;
        tasks[item].state_list_item.prev = Link::Null;

        self.length = self.length - 1;
        self.items = Ghost(s.remove(k));

        proof {
            assert forall|k2: int|
                0 <= k2 < self.items@.len() implies #[trigger] self.wf_node_at(tasks@, k2) by {
                let j: int = if k2 < k {
                    k2
                } else {
                    k2 + 1
                };
                assert(old(self).wf_node_at(old(tasks)@, j));
                assert(self.items@[k2] == s[j]);
                if j > 0 {
                    assert(old(self).wf_node_at(old(tasks)@, j - 1));
                }
                if j < s.len() - 1 {
                    assert(old(self).wf_node_at(old(tasks)@, j + 1));
                }
            }
        }
        true
    }

    /// Head item (the first member), or absent when the list is empty.
    pub fn get_head(&self) -> (head: Option<usize>)
        ensures
            head == (match self.end_next {
                Link::Item(i) => Some(i),
                _ => None::<usize>,
            }),
            forall|tasks: Seq<TaskControlBlock>|
                self.wf(tasks) ==> head == (if self.items@.len() == 0 {
                    None::<usize>
                } else {
                    Some(self.items@[0])
                }),
    {
        match self.end_next {
            Link::Item(i) => Some(i),
            _ => None,
        }
    }
}

/// The position at which a node with sort value `v` is inserted: directly
/// before the first member whose value is at least `v`, or at the tail when
/// every member's value is smaller (the end marker's value, `u64::MAX`,
/// always stops the walk).
pub open spec fn insert_position(tasks: Seq<TaskControlBlock>, s: Seq<usize>, v: u64) -> int
    decreases s.len(),
{
    if s.len() == 0 {
        0
    } else if node_of(tasks, s[0]).value >= v {
        0
    } else {
        1 + insert_position(tasks, s.drop_first(), v)
    }
}

/// `insert_position` is the number of leading members whose value is below
/// `v`.
proof fn lemma_insert_position_is(tasks: Seq<TaskControlBlock>, s: Seq<usize>, v: u64, k: int)
    requires
        0 <= k <= s.len(),
        forall|j: int| 0 <= j < k ==> node_of(tasks, #[trigger] s[j]).value < v,
        k < s.len() ==> node_of(tasks, s[k]).value >= v,
    ensures
        insert_position(tasks, s, v) == k,
    decreases s.len(),
{
    if s.len() == 0 {
    } else if node_of(tasks, s[0]).value >= v {
        assert(k == 0) by {
            if k > 0 {
                assert(node_of(tasks, s[0]).value < v);
            }
        }
    } else {
        let s2 = s.drop_first();
        assert forall|j: int| 0 <= j < k - 1 implies node_of(tasks, #[trigger] s2[j]).value
            < v by {
            assert(s2[j] == s[j + 1]);
        }
        lemma_insert_position_is(tasks, s2, v, k - 1);
    }
}

/// A sequence of distinct indices below `n` has at most `n` elements.
pub proof fn lemma_distinct_bounded(s: Seq<usize>, n: nat)
    requires
        forall|k: int| 0 <= k < s.len() ==> (#[trigger] s[k]) < n,
        s.no_duplicates(),
    ensures
        s.len() <= n,
    decreases n,
{
    if s.len() > 0 {
        assert(s[0] < n);
        let top: usize = (n - 1) as usize;
        if s.contains(top) {
            let i = s.index_of(top);
            let s2 = s.remove(i);
            assert forall|k: int| 0 <= k < s2.len() implies (#[trigger] s2[k]) < n - 1 by {
                if k < i {
                    assert(s2[k] == s[k]);
                    assert(s[k] != s[i]);
                } else {
                    assert(s2[k] == s[k + 1]);
                    assert(s[k + 1] != s[i]);
                }
            }
            assert forall|k1: int, k2: int|
                0 <= k1 < s2.len() && 0 <= k2 < s2.len() && k1 != k2 implies s2[k1] != s2[k2] by {
                let j1: int = if k1 < i {
                    k1
                } else {
                    k1 + 1
                };
                let j2: int = if k2 < i {
                    k2
                } else {
                    k2 + 1
                };
                assert(s2[k1] == s[j1]);
                assert(s2[k2] == s[j2]);
            }
            lemma_distinct_bounded(s2, (n - 1) as nat);
        } else {
            assert forall|k: int| 0 <= k < s.len() implies (#[trigger] s[k]) < n - 1 by {
                assert(s[k] != top);
            }
            lemma_distinct_bounded(s, (n - 1) as nat);
        }
    }
}

} // verus!
