//! A doubly-linked list whose nodes live in an arena and are found again by a
//! stable handle. Insertion at either end, removal at either end, removal of
//! an arbitrary node and promotion of a node to the head all take constant
//! time.

use std::hash::Hash;
use vstd::prelude::*;
use vstd::std_specs::cmp::PartialEqSpec;
use vstd::std_specs::cmp::PartialEqSpecImpl;

verus! {

/// A handle to a node that a list holds. It stays valid, and keeps naming the
/// same node, until that node leaves the list.
#[derive(PartialEq, Eq, Structural, Clone, Copy, Debug)]
pub struct Link {
    slot: usize,
}

/// One element of a list, together with the links to its neighbours.
#[derive(Debug)]
pub struct Node<T> where T: Hash + Eq {
    elem: T,
    next: Option<usize>,
    prev: Option<usize>,
}

impl<T> View for Node<T> where T: Hash + Eq {
    type V = T;

    /// The element that the node carries.
    closed spec fn view(&self) -> T {
        self.elem
    }
}

impl<T> Node<T> where T: Hash + Eq {
    /// A node that carries `elem` and belongs to no list yet.
    pub fn new(elem: T) -> (node: Self)
        ensures
            node@ == elem,
    {
        Node { elem: elem, prev: None, next: None }
    }

    /// The element that the node carries.
    pub fn elem(&self) -> (e: &T)
        ensures
            *e == self@,
    {
        &self.elem
    }

    /// Gives up the node for the element that it carries.
    pub fn into_elem(self) -> (e: T)
        ensures
            e == self@,
    {
        self.elem
    }
}

/// Two nodes are equal when their elements are; what they are linked to does
/// not count.
impl<T> PartialEq for Node<T> where T: Hash + Eq {
    fn eq(&self, other: &Node<T>) -> (r: bool) {
        self.elem == other.elem
    }
}

impl<T> PartialEqSpecImpl for Node<T> where T: Hash + Eq {
    open spec fn obeys_eq_spec() -> bool {
        T::obeys_eq_spec()
    }

    open spec fn eq_spec(&self, other: &Node<T>) -> bool {
        self@.eq_spec(&other@)
    }
}

impl<T> Eq for Node<T> where T: Hash + Eq {

}

/// The list: an arena of nodes, the slots that are free for reuse, and the
/// two ends.
pub struct List<T> where T: Hash + Eq {
    slots: Vec<Option<Node<T>>>,
    free: Vec<usize>,
    head: Option<usize>,
    tail: Option<usize>,
    order: Ghost<Seq<usize>>,
}

/// A cursor over the nodes of a list that was given up for it.
pub struct IntoIter<T>(List<T>) where T: Hash + Eq;

impl<T> View for List<T> where T: Hash + Eq {
    type V = Seq<T>;

    /// The elements of the list, from the head to the tail.
    closed spec fn view(&self) -> Seq<T> {
        Seq::new(self.order@.len(), |i: int| self.slots@[self.order@[i] as int].unwrap().elem)
    }
}

impl<T> List<T> where T: Hash + Eq {
    /// The handle of each node of the list, from the head to the tail.
    pub closed spec fn links(&self) -> Seq<Link> {
        Seq::new(self.order@.len(), |i: int| Link { slot: self.order@[i] })
    }

    spec fn linked(&self, i: int) -> bool {
        let s = self.order@[i];
        &&& s < self.slots@.len()
        &&& self.slots@[s as int] is Some
        &&& self.slots@[s as int].unwrap().prev == (if i == 0 {
            None
        } else {
            Some(self.order@[i - 1])
        })
        &&& self.slots@[s as int].unwrap().next == (if i == self.order@.len() - 1 {
            None
        } else {
            Some(self.order@[i + 1])
        })
    }

    /// The list is sound: following `next` from the head visits every node
    /// once and ends at the tail, `prev` leads back the same way, and every
    /// slot of the arena is either a node of the list or free for reuse.
    pub closed spec fn wf(&self) -> bool {
        &&& forall|i: int| 0 <= i < self.order@.len() ==> #[trigger] self.linked(i)
        &&& forall|i: int, j: int|
            0 <= i < self.order@.len() && 0 <= j < self.order@.len() && i != j
                ==> self.order@[i] != self.order@[j]
        &&& self.head == (if self.order@.len() == 0 {
            None
        } else {
            Some(self.order@[0])
        })
        &&& self.tail == (if self.order@.len() == 0 {
            None
        } else {
            Some(self.order@[self.order@.len() - 1])
        })
        &&& forall|k: int|
            0 <= k < self.free@.len() ==> (#[trigger] self.free@[k]) < self.slots@.len()
                && self.slots@[self.free@[k] as int] is None
        &&& forall|k: int, l: int|
            0 <= k < self.free@.len() && 0 <= l < self.free@.len() && k != l ==> self.free@[k]
                != self.free@[l]
        &&& self.slots@.len() == self.order@.len() + self.free@.len()
    }

    /// In a sound list no handle occurs twice, and there is one for each
    /// element.
    pub proof fn lemma_links_distinct(&self)
        requires
            self.wf(),
        ensures
            self.links().len() == self@.len(),
            self.links().no_duplicates(),
    {
    }

    /// An empty list.
    pub fn new() -> (list: Self)
        ensures
            list.wf(),
            list@ == Seq::<T>::empty(),
            list.links() == Seq::<Link>::empty(),
    {
        List {
            slots: Vec::new(),
            free: Vec::new(),
            head: None,
            tail: None,
            order: Ghost(Seq::empty()),
        }
    }

    /// Takes the node in slot `idx`, which stands at position `i`, out of the
    /// list, joins its neighbours and leaves the slot free for reuse.
    fn detach(&mut self, idx: usize, Ghost(i): Ghost<int>) -> (node: Node<T>)
        requires
            old(self).wf(),
            0 <= i < old(self).order@.len(),
            old(self).order@[i] == idx,
        ensures
            final(self).wf(),
            node@ == old(self)@[i],
            final(self)@ == old(self)@.remove(i),
            final(self).links() == old(self).links().remove(i),
            final(self).order@ == old(self).order@.remove(i),
            final(self).free@ == old(self).free@.push(idx),
    {
        assert(self.linked(i));
        let node = self.slots[idx].take().unwrap();
        let prev = node.prev;
        let next = node.next;
        self.free.push(idx);
        match prev {
            Some(p) => {
                assert(old(self).linked(i - 1));
                match &mut self.slots[p] {
                    Some(n) => {
                        n.next = next;
                    },
                    None => {},
                }
            },
            None => {
                self.head = next;
            },
        }
        match next {
            Some(n) => {
                assert(old(self).linked(i + 1));
                match &mut self.slots[n] {
                    Some(m) => {
                        m.prev = prev;
                    },
                    None => {},
                }
            },
            None => {
                self.tail = prev;
            },
        }
        self.order = Ghost(self.order@.remove(i));
        proof {
            let after = self.order@;
            assert forall|j: int| 0 <= j < after.len() implies #[trigger] self.linked(j) by {
                let k = if j < i { j } else { j + 1 };
                assert(old(self).linked(k));
            }
            assert forall|j: int| 0 <= j < after.len() implies self@[j] == old(self)@.remove(
                i,
            )[j] by {
                let k = if j < i { j } else { j + 1 };
                assert(old(self).linked(k));
            }
        }
        node
    }

    /// Puts `node` into a free slot and links it in before the head.
    fn attach_front(&mut self, node: Node<T>) -> (idx: usize)
        requires
            old(self).wf(),
        ensures
            final(self).wf(),
            final(self)@ == seq![node@] + old(self)@,
            final(self).links() == seq![Link { slot: idx }] + old(self).links(),
            final(self).order@ == seq![idx] + old(self).order@,
            !old(self).links().contains(Link { slot: idx }),
            old(self).free@.len() > 0 ==> idx == old(self).free@[old(self).free@.len() - 1],
    {
        let mut node = node;
        node.prev = None;
        node.next = self.head;
        let idx: usize;
        if self.free.len() > 0 {
            idx = self.free.pop().unwrap();
            self.slots[idx] = Some(node);
        } else {
            idx = self.slots.len();
            self.slots.push(Some(node));
        }
        proof {
            assert forall|j: int| 0 <= j < old(self).order@.len() implies old(self).order@[j]
                != idx by {
                assert(old(self).linked(j));
            }
        }
        match self.head {
            Some(h) => {
                assert(old(self).linked(0));
                match &mut self.slots[h] {
                    Some(n) => {
                        n.prev = Some(idx);
                    },
                    None => {},
                }
            },
            None => {
                self.tail = Some(idx);
            },
        }
        self.head = Some(idx);
        self.order = Ghost(seq![idx] + self.order@);
        proof {
            let after = self.order@;
            assert forall|j: int| 0 <= j < after.len() implies #[trigger] self.linked(j) by {
                if j > 0 {
                    assert(old(self).linked(j - 1));
                }
            }
            assert forall|j: int| 0 <= j < after.len() implies self@[j] == (seq![node@]
                + old(self)@)[j] by {
                if j > 0 {
                    assert(old(self).linked(j - 1));
                }
            }
        }
        idx
    }

    /// Puts `node` into a free slot and links it in behind the tail.
    fn attach_back(&mut self, node: Node<T>) -> (idx: usize)
        requires
            old(self).wf(),
        ensures
            final(self).wf(),
            final(self)@ == old(self)@.push(node@),
            final(self).links() == old(self).links().push(Link { slot: idx }),
            !old(self).links().contains(Link { slot: idx }),
    {
        let mut node = node;
        node.next = None;
        node.prev = self.tail;
        let idx: usize;
        if self.free.len() > 0 {
            idx = self.free.pop().unwrap();
            self.slots[idx] = Some(node);
        } else {
            idx = self.slots.len();
            self.slots.push(Some(node));
        }
        let ghost last = old(self).order@.len() - 1;
        proof {
            assert forall|j: int| 0 <= j < old(self).order@.len() implies old(self).order@[j]
                != idx by {
                assert(old(self).linked(j));
            }
        }
        match self.tail {
            Some(t) => {
                assert(old(self).linked(last));
                match &mut self.slots[t] {
                    Some(n) => {
                        n.next = Some(idx);
                    },
                    None => {},
                }
            },
            None => {
                self.head = Some(idx);
            },
        }
        self.tail = Some(idx);
        self.order = Ghost(self.order@.push(idx));
        proof {
            let before = old(self).order@;
            let after = self.order@;
            assert forall|j: int| 0 <= j < after.len() implies #[trigger] self.linked(j) by {
                if j < before.len() {
                    assert(old(self).linked(j));
                }
            }
            assert forall|j: int| 0 <= j < after.len() implies self@[j] == old(self)@.push(
                node@,
            )[j] by {
                if j < before.len() {
                    assert(old(self).linked(j));
                }
            }
        }
        idx
    }

    /// The node at the head of the list, if the list has one.
    pub fn peek_head(&self) -> (r: Option<&Node<T>>)
        requires
            self.wf(),
        ensures
            self@.len() == 0 ==> r is None,
            self@.len() > 0 ==> r is Some && r.unwrap()@ == self@[0],
    {
        match self.head {
            Some(h) => {
                assert(self.linked(0));
                self.slots[h].as_ref()
            },
            None => None,
        }
    }

    /// The node at the tail of the list, if the list has one.
    pub fn peek_tail(&self) -> (r: Option<&Node<T>>)
        requires
            self.wf(),
        ensures
            self@.len() == 0 ==> r is None,
            self@.len() > 0 ==> r is Some && r.unwrap()@ == self@[self@.len() - 1],
    {
        match self.tail {
            Some(t) => {
                assert(self.linked(self.order@.len() - 1));
                self.slots[t].as_ref()
            },
            None => None,
        }
    }

    /// Inserts `new_head` before the head and gives the handle by which the
    /// node is found again.
    pub fn unshift(&mut self, new_head: Node<T>) -> (link: Link)
        requires
            old(self).wf(),
        ensures
            final(self).wf(),
            final(self)@ == seq![new_head@] + old(self)@,
            final(self).links() == seq![link] + old(self).links(),
            !old(self).links().contains(link),
    {
        let idx = self.attach_front(new_head);
        Link { slot: idx }
    }

    /// Removes the head and returns it, or returns nothing if the list is
    /// empty.
    pub fn shift(&mut self) -> (r: Option<Node<T>>)
        requires
            old(self).wf(),
        ensures
            final(self).wf(),
            old(self)@.len() == 0 ==> r is None && final(self)@ == old(self)@
                && final(self).links() == old(self).links(),
            old(self)@.len() > 0 ==> r is Some && r.unwrap()@ == old(self)@[0] && final(self)@
                == old(self)@.remove(0) && final(self).links() == old(self).links().remove(0),
    {
        match self.head {
            Some(h) => Some(self.detach(h, Ghost(0))),
            None => None,
        }
    }

    /// Inserts `new_tail` behind the tail and gives the handle by which the
    /// node is found again.
    pub fn push(&mut self, new_tail: Node<T>) -> (link: Link)
        requires
            old(self).wf(),
        ensures
            final(self).wf(),
            final(self)@ == old(self)@.push(new_tail@),
            final(self).links() == old(self).links().push(link),
            !old(self).links().contains(link),
    {
        let idx = self.attach_back(new_tail);
        Link { slot: idx }
    }

    /// Removes the tail and returns it, or returns nothing if the list is
    /// empty.
    pub fn pop(&mut self) -> (r: Option<Node<T>>)
        requires
            old(self).wf(),
        ensures
            final(self).wf(),
            old(self)@.len() == 0 ==> r is None && final(self)@ == old(self)@
                && final(self).links() == old(self).links(),
            old(self)@.len() > 0 ==> r is Some && r.unwrap()@ == old(self)@[old(self)@.len() - 1]
                && final(self)@ == old(self)@.drop_last()
                && final(self).links() == old(self).links().drop_last(),
    {
        match self.tail {
            Some(t) => {
                let ghost last = self.order@.len() - 1;
                Some(self.detach(t, Ghost(last)))
            },
            None => None,
        }
    }

    /// Unlinks the node that `target` names, wherever in the list it stands.
    pub fn remove(&mut self, target: &Link)
        requires
            old(self).wf(),
            old(self).links().contains(*target),
        ensures
            final(self).wf(),
            final(self)@ == old(self)@.remove(old(self).links().index_of(*target)),
            final(self).links() == old(self).links().remove(
                old(self).links().index_of(*target),
            ),
    {
        let ghost i = self.links().index_of(*target);
        let _ = self.detach(target.slot, Ghost(i));
    }

    /// Moves the node that `target` names to the head. The handle keeps
    /// naming that node. Promoting the head changes nothing.
    pub fn promote(&mut self, target: Link)
        requires
            old(self).wf(),
            old(self).links().contains(target),
        ensures
            final(self).wf(),
            final(self)@ == seq![old(self)@[old(self).links().index_of(target)]]
                + old(self)@.remove(old(self).links().index_of(target)),
            final(self).links() == seq![target] + old(self).links().remove(
                old(self).links().index_of(target),
            ),
            old(self).links().index_of(target) == 0 ==> final(self)@ == old(self)@
                && final(self).links() == old(self).links(),
    {
        let ghost i = self.links().index_of(target);
        let node = self.detach(target.slot, Ghost(i));
        // The slot that was just freed is the first to be used again.
        let _ = self.attach_front(node);
    }

    /// Turns the list into a cursor that hands its nodes out from either end.
    pub fn into_iter(self) -> (iter: IntoIter<T>)
        requires
            self.wf(),
        ensures
            iter.wf(),
            iter@ == self@,
    {
        IntoIter(self)
    }
}

impl<T> View for IntoIter<T> where T: Hash + Eq {
    type V = Seq<T>;

    /// The elements that are still to come, from the front to the back.
    closed spec fn view(&self) -> Seq<T> {
        self.0@
    }
}

impl<T> IntoIter<T> where T: Hash + Eq {
    /// The list that the cursor walks is sound.
    pub closed spec fn wf(&self) -> bool {
        self.0.wf()
    }

    /// The next node from the front, or nothing when none is left.
    pub fn next(&mut self) -> (r: Option<Node<T>>)
        requires
            old(self).wf(),
        ensures
            final(self).wf(),
            old(self)@.len() == 0 ==> r is None && final(self)@ == old(self)@,
            old(self)@.len() > 0 ==> r is Some && r.unwrap()@ == old(self)@[0] && final(self)@
                == old(self)@.remove(0),
    {
        self.0.shift()
    }

    /// The next node from the back, or nothing when none is left.
    pub fn next_back(&mut self) -> (r: Option<Node<T>>)
        requires
            old(self).wf(),
        ensures
            final(self).wf(),
            old(self)@.len() == 0 ==> r is None && final(self)@ == old(self)@,
            old(self)@.len() > 0 ==> r is Some && r.unwrap()@ == old(self)@[old(self)@.len() - 1]
                && final(self)@ == old(self)@.drop_last(),
    {
        self.0.pop()
    }
}

} // verus!
