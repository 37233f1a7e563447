//! A singly linked list with owned nodes, viewed in specifications as the
//! sequence of its values, front first.

use vstd::prelude::*;
use vstd::pervasive::cloned;
use vstd::std_specs::cmp::PartialEqSpec;

verus! {

/// One list node: a value and the link to the rest of the list.
pub struct Node<T> {
    pub value: T,
    pub next: Option<Box<Node<T>>>,
}

/// The sequence of values hanging off a link, front first.
pub open spec fn seq_of_nodes<T>(o: Option<Box<Node<T>>>) -> Seq<T>
    decreases o,
{
    match o {
        Option::None => Seq::empty(),
        Option::Some(n) => seq![n.value] + seq_of_nodes(n.next),
    }
}

/// The sequence of values starting at a borrowed node.
pub open spec fn seq_from_ref<T>(o: Option<&Node<T>>) -> Seq<T> {
    match o {
        Option::None => Seq::empty(),
        Option::Some(n) => seq![n.value] + seq_of_nodes(n.next),
    }
}

/// A singly linked list storing its length.
pub struct LinkedList<T> {
    head: Option<Box<Node<T>>>,
    size: usize,
}

impl<T> Node<T> {
    /// Builds a node from a value and the rest of the list.
    pub fn new(value: T, next: Option<Box<Node<T>>>) -> (r: Node<T>)
        ensures
            r.value == value,
            r.next == next,
    {
        Node { value, next }
    }
}

impl<T> View for LinkedList<T> {
    type V = Seq<T>;

    closed spec fn view(&self) -> Seq<T> {
        seq_of_nodes(self.head)
    }
}

impl<T> LinkedList<T> {
    /// Well-formedness: the stored size equals the number of values.
    pub closed spec fn wf(self) -> bool {
        self.size == self@.len()
    }

    /// An empty list.
    pub fn new() -> (r: LinkedList<T>)
        ensures
            r@ == Seq::<T>::empty(),
            r.wf(),
    {
        LinkedList { head: None, size: 0 }
    }

    /// The number of values in the list.
    pub fn get_size(&self) -> (r: usize)
        requires
            self.wf(),
        ensures
            r == self@.len(),
    {
        self.size
    }

    /// Whether the list holds no values.
    pub fn is_empty(&self) -> (r: bool)
        requires
            self.wf(),
        ensures
            r == (self@.len() == 0),
    {
        self.get_size() == 0
    }

    /// Prepends a value to the front of the list.
    pub fn push_front(&mut self, value: T)
        requires
            old(self).wf(),
            old(self)@.len() < usize::MAX,
        ensures
            final(self)@ == seq![value] + old(self)@,
            final(self).wf(),
    {
        let new_node: Box<Node<T>> = Box::new(Node::new(value, self.head.take()));
        self.head = Some(new_node);
        self.size = self.size + 1;
    }

    /// Removes and returns the front value, or `None` on an empty list.
    pub fn pop_front(&mut self) -> (r: Option<T>)
        requires
            old(self).wf(),
        ensures
            final(self).wf(),
            match r {
                Option::Some(v) => old(self)@.len() > 0 && v == old(self)@[0] && final(self)@
                    == old(self)@.drop_first(),
                Option::None => old(self)@.len() == 0 && final(self)@ == old(self)@,
            },
    {
        match self.head.take() {
            None => None,
            Some(node) => {
                let n = *node;
                self.head = n.next;
                self.size = self.size - 1;
                proof {
                    assert(old(self)@ == seq![n.value] + seq_of_nodes(n.next));
                    assert(old(self)@.drop_first() =~= seq_of_nodes(n.next));
                }
                Some(n.value)
            },
        }
    }

    /// A borrowing cursor over the values, front first.
    pub fn iter(&self) -> (it: LinkedListIter<'_, T>)
        ensures
            it@ == self@,
    {
        LinkedListIter {
            current: match &self.head {
                None => None,
                Some(node) => Some(&**node),
            },
        }
    }
}

/// A borrowing cursor over a list, yielding references to the values in
/// order. Its view is the sequence of values not yet yielded.
pub struct LinkedListIter<'a, T> {
    current: Option<&'a Node<T>>,
}

impl<'a, T> View for LinkedListIter<'a, T> {
    type V = Seq<T>;

    closed spec fn view(&self) -> Seq<T> {
        seq_from_ref(self.current)
    }
}

impl<'a, T> LinkedListIter<'a, T> {
    /// Yields a reference to the next value, or `None` when exhausted.
    pub fn next(&mut self) -> (r: Option<&'a T>)
        ensures
            match r {
                Option::Some(v) => old(self)@.len() > 0 && *v == old(self)@[0] && final(self)@
                    == old(self)@.drop_first(),
                Option::None => old(self)@.len() == 0 && final(self)@ == old(self)@,
            },
    {
        match self.current {
            None => None,
            Some(node) => {
                self.current = match &node.next {
                    None => None,
                    Some(b) => Some(&**b),
                };
                proof {
                    assert(old(self)@.drop_first() =~= seq_of_nodes(node.next));
                }
                Some(&node.value)
            },
        }
    }
}

/// Clones a chain of nodes; each cloned value is a possible result of
/// `T::clone` on the original value at the same position.
fn clone_nodes<T: Clone>(o: &Option<Box<Node<T>>>) -> (r: Option<Box<Node<T>>>)
    ensures
        seq_of_nodes(r).len() == seq_of_nodes(*o).len(),
        forall|i: int|
            0 <= i < seq_of_nodes(*o).len() ==> cloned::<T>(
                seq_of_nodes(*o)[i],
                #[trigger] seq_of_nodes(r)[i],
            ),
    decreases *o,
{
    match o {
        None => None,
        Some(node) => {
            let value = node.value.clone();
            let rest = clone_nodes(&node.next);
            let out = Some(Box::new(Node { value, next: rest }));
            proof {
                let orig = seq_of_nodes(*o);
                let res = seq_of_nodes(out);
                assert forall|i: int| 0 <= i < orig.len() implies cloned::<T>(
                    orig[i],
                    #[trigger] res[i],
                ) by {
                    if i > 0 {
                        assert(orig[i] == seq_of_nodes(node.next)[i - 1]);
                        assert(res[i] == seq_of_nodes(rest)[i - 1]);
                    }
                }
            }
            out
        },
    }
}

impl<T: Clone> Clone for LinkedList<T> {
    /// Clones the list; it keeps the length, and each value is a possible
    /// result of `T::clone` on the value at the same position.
    fn clone(&self) -> (res: Self)
        ensures
            res@.len() == self@.len(),
            forall|i: int|
                0 <= i < self@.len() ==> cloned::<T>(self@[i], #[trigger] res@[i]),
            self.wf() ==> res.wf(),
    {
        let head = clone_nodes(&self.head);
        LinkedList { head, size: self.size }
    }
}

impl<T: PartialEq> vstd::std_specs::cmp::PartialEqSpecImpl for LinkedList<T> {
    open spec fn obeys_eq_spec() -> bool {
        T::obeys_eq_spec()
    }

    open spec fn eq_spec(&self, other: &Self) -> bool {
        self@.len() == other@.len() && (forall|i: int|
            0 <= i < self@.len() ==> self@[i].eq_spec(&other@[i]))
    }
}

impl<T: PartialEq> PartialEq for LinkedList<T> {
    /// Two lists are equal when they have the same length and the values
    /// agree position by position under `T`'s equality.
    fn eq(&self, other: &Self) -> (r: bool) {
        let mut c1: Option<&Node<T>> = match &self.head {
            None => None,
            Some(node) => Some(&**node),
        };
        let mut c2: Option<&Node<T>> = match &other.head {
            None => None,
            Some(node) => Some(&**node),
        };
        let ghost n1len = self@.len() as int;
        let ghost n2len = other@.len() as int;
        let ghost mut done: int = 0;
        loop
            invariant
                0 <= done <= n1len,
                done <= n2len,
                n1len == self@.len(),
                n2len == other@.len(),
                seq_from_ref(c1) == self@.subrange(done, n1len),
                seq_from_ref(c2) == other@.subrange(done, n2len),
                T::obeys_eq_spec() ==> (forall|i: int|
                    0 <= i < done ==> self@[i].eq_spec(&other@[i])),
            decreases n1len - done,
        {
            match (c1, c2) {
                (Some(node1), Some(node2)) => {
                    proof {
                        assert(seq_from_ref(c1) == seq![node1.value] + seq_of_nodes(node1.next));
                        assert(seq_from_ref(c2) == seq![node2.value] + seq_of_nodes(node2.next));
                        assert(done < n1len && done < n2len);
                        assert(self@.subrange(done, n1len)[0] == self@[done]);
                        assert(other@.subrange(done, n2len)[0] == other@[done]);
                        assert(node1.value == self@[done]);
                        assert(node2.value == other@[done]);
                    }
                    if !(node1.value == node2.value) {
                        proof {
                            if T::obeys_eq_spec() {
                                assert(!self@[done].eq_spec(&other@[done]));
                            }
                        }
                        return false;
                    }
                    c1 = match &node1.next {
                        None => None,
                        Some(b) => Some(&**b),
                    };
                    c2 = match &node2.next {
                        None => None,
                        Some(b) => Some(&**b),
                    };
                    proof {
                        assert forall|i: int|
                            0 <= i < seq_of_nodes(node1.next).len() implies seq_of_nodes(
                            node1.next,
                        )[i] == self@[done + 1 + i] by {
                            assert((seq![node1.value] + seq_of_nodes(node1.next))[i + 1]
                                == seq_of_nodes(node1.next)[i]);
                            assert(self@.subrange(done, n1len)[i + 1] == self@[done + 1 + i]);
                        }
                        assert forall|i: int|
                            0 <= i < seq_of_nodes(node2.next).len() implies seq_of_nodes(
                            node2.next,
                        )[i] == other@[done + 1 + i] by {
                            assert((seq![node2.value] + seq_of_nodes(node2.next))[i + 1]
                                == seq_of_nodes(node2.next)[i]);
                            assert(other@.subrange(done, n2len)[i + 1] == other@[done + 1 + i]);
                        }
                        assert(seq_of_nodes(node1.next) =~= self@.subrange(done + 1, n1len));
                        assert(seq_of_nodes(node2.next) =~= other@.subrange(done + 1, n2len));
                        done = done + 1;
                    }
                },
                (None, None) => {
                    proof {
                        assert(seq_from_ref(c1).len() == n1len - done);
                        assert(seq_from_ref(c2).len() == n2len - done);
                        assert(done == n1len && done == n2len);
                    }
                    return true;
                },
                _ => {
                    proof {
                        assert(seq_from_ref(c1).len() == n1len - done);
                        assert(seq_from_ref(c2).len() == n2len - done);
                        if c1 is None {
                            assert(n1len == done && n2len > done);
                        } else {
                            assert(n2len == done && n1len > done);
                        }
                        assert(n1len != n2len);
                    }
                    return false;
                },
            }
        }
    }
}

} // verus!
