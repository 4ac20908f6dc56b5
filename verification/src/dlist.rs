//! A doubly linked list of cells held in one backing arena, addressed by
//! positional handles.  Every cell carries the handles of its neighbours;
//! well-formedness says the chain of `next` handles walks the list front to
//! back and the `prev` handles walk it back to front.

use vstd::prelude::*;
use crate::dequeue::Deque;

verus! {

/// A handle to a cell: its position, or none for the position past the
/// last cell.
#[derive(Debug, Clone, Copy, PartialEq, Eq, Structural)]
pub struct Link(pub Option<usize>);

/// A backward handle: the previous cell's position, or none at the front.
#[derive(Debug, Clone, Copy, PartialEq, Eq, Structural)]
pub struct WeakLink(pub Option<usize>);

/// One list cell: a value and the handles of its neighbours.
#[derive(Debug, Clone, Copy)]
pub struct Node<T> {
    pub x: T,
    pub next: Link,
    pub prev: WeakLink,
}

impl<T: Default + Copy> Node<T> {
    /// A detached cell holding the default value.
    pub fn new() -> (n: Node<T>)
        ensures
            n.next == Link(None::<usize>),
            n.prev == WeakLink(None::<usize>),
    {
        Node { x: T::default(), next: Link(None), prev: WeakLink(None) }
    }
}

/// The doubly linked list.
pub struct DLList<T> {
    pub nodes: Vec<Node<T>>,
}

impl<T: Copy> View for DLList<T> {
    type V = Seq<T>;

    open spec fn view(&self) -> Seq<T> {
        self.nodes@.map_values(|n: Node<T>| n.x)
    }
}

impl<T: Copy> DLList<T> {
    /// The neighbour handles of every cell are correct.
    pub open spec fn wf(self) -> bool {
        forall|i: int|
            0 <= i < self.nodes@.len() ==> {
                &&& (#[trigger] self.nodes@[i]).next == (if i + 1 < self.nodes@.len() {
                    Link(Some((i + 1) as usize))
                } else {
                    Link(None)
                })
                &&& self.nodes@[i].prev == (if i > 0 {
                    WeakLink(Some((i - 1) as usize))
                } else {
                    WeakLink(None)
                })
            }
    }

    /// The empty list.
    pub fn new() -> (l: DLList<T>)
        ensures
            l.wf(),
            l@ == Seq::<T>::empty(),
    {
        let l = DLList { nodes: Vec::new() };
        proof {
            assert(l@ =~= Seq::<T>::empty());
        }
        l
    }

    /// Number of elements.
    pub fn size(&self) -> (n: usize)
        ensures
            n == self@.len(),
    {
        self.nodes.len()
    }

    /// The handle of the cell at position `i`, found by walking the chain:
    /// forward from the front for the lower half, backward from the back
    /// for the upper half.  Position `self.size()` names the end handle.
    pub fn get_link(&self, i: usize) -> (r: Link)
        requires
            self.wf(),
            i <= self@.len(),
        ensures
            r == (if i < self@.len() {
                Link(Some(i))
            } else {
                Link(None)
            }),
    {
        let n = self.nodes.len();
        if i < n / 2 {
            let mut p = Link(Some(0));
            let mut k: usize = 0;
            while k < i
                invariant
                    self.wf(),
                    n == self.nodes@.len(),
                    k <= i < n,
                    p == Link(Some(k)),
                decreases i - k,
            {
                match p.0 {
                    Some(idx) => {
                        p = self.nodes[idx].next;
                    },
                    None => {},
                }
                k += 1;
            }
            p
        } else {
            let mut p = Link(None);
            let mut k: usize = n;
            while k > i
                invariant
                    self.wf(),
                    n == self.nodes@.len(),
                    i <= k <= n,
                    p == (if k < n {
                        Link(Some(k))
                    } else {
                        Link(None)
                    }),
                decreases k,
            {
                match p.0 {
                    Some(idx) => {
                        match self.nodes[idx].prev {
                            WeakLink(q) => {
                                p = Link(q);
                            },
                        }
                    },
                    None => {
                        if n > 0 {
                            p = Link(Some(n - 1));
                        }
                    },
                }
                k -= 1;
            }
            p
        }
    }

    /// Rewrite every cell's neighbour handles to match its position.
    fn fix_links(&mut self)
        ensures
            final(self).wf(),
            final(self)@ == old(self)@,
            final(self).nodes@.len() == old(self).nodes@.len(),
            forall|i: int|
                0 <= i < old(self).nodes@.len() ==> final(self).nodes@[i].x == old(
                    self,
                ).nodes@[i].x,
    {
        let n = self.nodes.len();
        let mut i: usize = 0;
        while i < n
            invariant
                n == self.nodes@.len(),
                0 <= i <= n,
                self.nodes@.len() == old(self).nodes@.len(),
                forall|j: int| 0 <= j < n ==> self.nodes@[j].x == old(self).nodes@[j].x,
                forall|j: int|
                    0 <= j < i ==> {
                        &&& (#[trigger] self.nodes@[j]).next == (if j + 1 < n {
                            Link(Some((j + 1) as usize))
                        } else {
                            Link(None)
                        })
                        &&& self.nodes@[j].prev == (if j > 0 {
                            WeakLink(Some((j - 1) as usize))
                        } else {
                            WeakLink(None)
                        })
                    },
            decreases n - i,
        {
            let mut node = self.nodes[i];
            node.next = if i + 1 < n {
                Link(Some(i + 1))
            } else {
                Link(None)
            };
            node.prev = if i > 0 {
                WeakLink(Some(i - 1))
            } else {
                WeakLink(None)
            };
            self.nodes[i] = node;
            i += 1;
        }
        proof {
            assert(final(self)@ =~= old(self)@);
        }
    }

    /// Insert `x` before the cell that `target` names; the end handle
    /// appends.
    pub fn add_before(&mut self, target: Link, x: T)
        requires
            old(self).wf(),
            target.0 matches Some(i) ==> i <= old(self)@.len(),
        ensures
            final(self).wf(),
            final(self)@ == old(self)@.insert(
                match target.0 {
                    Some(i) => i as int,
                    None => old(self)@.len() as int,
                },
                x,
            ),
    {
        let pos = match target.0 {
            Some(i) => i,
            None => self.nodes.len(),
        };
        self.nodes.insert(pos, Node { x, next: Link(None), prev: WeakLink(None) });
        let ghost mid = self@;
        self.fix_links();
        proof {
            assert(mid =~= old(self)@.insert(pos as int, x));
        }
    }

    /// Unlink the cell that `w` names.
    pub fn remove_node(&mut self, w: Link)
        requires
            old(self).wf(),
            w.0 matches Some(i) && i < old(self)@.len(),
        ensures
            final(self).wf(),
            final(self)@ == old(self)@.remove(
                match w.0 {
                    Some(i) => i as int,
                    None => 0,
                },
            ),
    {
        let pos = match w.0 {
            Some(i) => i,
            None => 0,
        };
        let _ = self.nodes.remove(pos);
        let ghost mid = self@;
        self.fix_links();
        proof {
            assert(mid =~= old(self)@.remove(pos as int));
        }
    }

    /// The element at position `i`, if any.
    pub fn get(&self, i: usize) -> (r: Option<T>)
        requires
            self.wf(),
        ensures
            r == (if i < self@.len() {
                Some(self@[i as int])
            } else {
                None::<T>
            }),
    {
        if i < self.nodes.len() {
            Some(self.nodes[i].x)
        } else {
            None
        }
    }

    /// Replace the element at position `i`, returning the old one.
    pub fn set(&mut self, i: usize, x: T) -> (r: T)
        requires
            old(self).wf(),
            i < old(self)@.len(),
        ensures
            final(self).wf(),
            final(self)@ == old(self)@.update(i as int, x),
            r == old(self)@[i as int],
    {
        let mut node = self.nodes[i];
        let r = node.x;
        node.x = x;
        self.nodes[i] = node;
        proof {
            assert(final(self)@ =~= old(self)@.update(i as int, x));
        }
        r
    }

    /// Insert `x` at position `i`.
    pub fn add(&mut self, i: usize, x: T)
        requires
            old(self).wf(),
            i <= old(self)@.len(),
        ensures
            final(self).wf(),
            final(self)@ == old(self)@.insert(i as int, x),
    {
        let target = self.get_link(i);
        self.add_before(target, x);
    }

    /// Remove and return the element at position `i`.
    pub fn remove(&mut self, i: usize) -> (r: T)
        requires
            old(self).wf(),
            i < old(self)@.len(),
        ensures
            final(self).wf(),
            final(self)@ == old(self)@.remove(i as int),
            r == old(self)@[i as int],
    {
        let node = self.get_link(i);
        let r = self.nodes[i].x;
        self.remove_node(node);
        r
    }
}

impl<T: Copy> Deque<T> for DLList<T> {
    open spec fn deque_view(&self) -> Seq<T> {
        self@
    }

    open spec fn deque_wf(&self) -> bool {
        self.wf()
    }

    fn add_first(&mut self, x: T) {
        self.add(0, x);
        proof {
            assert(final(self)@ =~= seq![x] + old(self)@);
        }
    }

    fn remove_first(&mut self) -> (r: Option<T>) {
        if self.size() == 0 {
            return None;
        }
        let r = self.remove(0);
        proof {
            assert(final(self)@ =~= old(self)@.drop_first());
        }
        Some(r)
    }

    fn add_last(&mut self, x: T) {
        let n = self.size();
        self.add(n, x);
        proof {
            assert(final(self)@ =~= old(self)@.push(x));
        }
    }

    fn remove_last(&mut self) -> (r: Option<T>) {
        let n = self.size();
        if n == 0 {
            return None;
        }
        let r = self.remove(n - 1);
        proof {
            assert(final(self)@ =~= old(self)@.drop_last());
        }
        Some(r)
    }
}

} // verus!
