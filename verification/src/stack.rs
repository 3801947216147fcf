//! The stack: `push` links a value in front of the chain, `pop_all` detaches
//! the chain and hands its values to a consumer.

use vstd::prelude::*;
use crate::node::Node;
use crate::slot::AtomicOptionBox;

verus! {

/// A last-in-first-out stack.
///
/// Its view is the sequence of the values it holds, from the most recently
/// pushed to the one pushed first.
pub struct LifoPush<T> {
    top: AtomicOptionBox<Node<T>>,
}

impl<T> View for LifoPush<T> {
    type V = Seq<T>;

    closed spec fn view(&self) -> Seq<T> {
        self.top.chain()
    }
}

impl<T> LifoPush<T> {
    /// Whether the stack holds no value.
    pub fn list_empty(&self) -> (empty: bool)
        ensures
            empty == (self@.len() == 0),
    {
        self.top.is_none()
    }

    /// Links `val` in front of everything that the stack holds.
    pub fn push(&mut self, val: T)
        ensures
            final(self)@ == seq![val] + old(self)@,
    {
        self.top.spin_swap(Box::new(Node::new(val)));
    }

    /// Detaches the whole chain in one step, then walks it from its head and
    /// hands each value to `f`, the most recently pushed first. Each cell is
    /// freed as soon as its value has been taken out of it.
    ///
    /// The consumer has to accept a value only once it has been handed every
    /// value in front of it, so the values reach it in the order of the view,
    /// and it is handed no other value. On an empty stack nothing is asked of
    /// the consumer, and it is not called.
    pub fn pop_all<F>(&mut self, mut f: F) where F: FnMut(T)
        requires
            forall|i: int|
                0 <= i < old(self)@.len() && (forall|j: int|
                    0 <= j < i ==> call_ensures(f, (old(self)@[j],), ())) ==> call_requires(
                    f,
                    (#[trigger] old(self)@[i],),
                ),
        ensures
            final(self)@ == Seq::<T>::empty(),
            forall|i: int|
                0 <= i < old(self)@.len() ==> call_ensures(f, (#[trigger] old(self)@[i],), ()),
    {
        let ghost all = self@;
        let ghost consumer = f;
        let ghost mut done: int = 0;
        let mut head = self.top.take();
        while !head.is_none()
            invariant
                0 <= done <= all.len(),
                head.chain() == all.skip(done),
                f == consumer,
                forall|i: int|
                    0 <= i < all.len() && (forall|j: int|
                        0 <= j < i ==> call_ensures(consumer, (all[j],), ()))
                        ==> call_requires(consumer, (#[trigger] all[i],)),
                forall|j: int| 0 <= j < done ==> call_ensures(consumer, (#[trigger] all[j],), ()),
            decreases head.chain().len(),
        {
            let (next, item) = head.unwrap().into_inner();
            assert(all.skip(done) == seq![item] + next.chain());
            assert(item == all.skip(done)[0]);
            assert(next.chain() == all.skip(done).skip(1));
            f(item);
            head = next;
            proof {
                done = done + 1;
            }
        }
        assert(all.skip(done).len() == 0);
    }
}

impl<T> Default for LifoPush<T> {
    /// The empty stack.
    fn default() -> (stack: Self)
        ensures
            stack@ == Seq::<T>::empty(),
    {
        LifoPush { top: AtomicOptionBox::default() }
    }
}

impl<T> Drop for LifoPush<T> {
    /// Frees the chain cell by cell, so that a long chain does not nest one
    /// destructor call in another for each of its cells.
    fn drop(&mut self)
        opens_invariants none
        no_unwind
    {
        let mut link = self.top.replace(None);
        loop
            decreases Node::link_chain(link).len(),
        {
            match link {
                Some(node) => {
                    let node = *node;
                    link = node.next;
                },
                None => {
                    break ;
                },
            }
        }
    }
}

} // verus!
