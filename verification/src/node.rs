//! The cell of a chain, and the chain that a slot of cells owns.

use vstd::prelude::*;
use crate::slot::AtomicOptionBox;

verus! {

/// One cell of a chain: a value, and the owning link to the cell behind it.
///
/// A boxed cell cannot be absent, so the link is an `Option` of a box: `None`
/// marks the end of the chain.
pub struct Node<T> {
    /// The value that the cell carries.
    pub val: T,
    /// Owns the rest of the chain; `None` at the chain's end.
    pub next: Option<Box<Node<T>>>,
}

impl<T> Node<T> {
    /// The values from this cell to the end of its chain.
    pub open spec fn chain(self) -> Seq<T>
        decreases self,
    {
        seq![self.val] + Self::link_chain(self.next)
    }

    /// The values of the chain behind a link, from its head to its end.
    pub open spec fn link_chain(link: Option<Box<Node<T>>>) -> Seq<T>
        decreases link,
    {
        match link {
            Some(node) => node.chain(),
            None => Seq::empty(),
        }
    }

    /// A cell that carries `val` and is linked to nothing.
    pub fn new(val: T) -> (node: Self)
        ensures
            node == (Node { val, next: None }),
    {
        Node { val, next: None }
    }

    /// Splits an owned cell into the slot that owns the cells behind it, and
    /// its value.
    pub fn into_inner(self) -> (parts: (AtomicOptionBox<Node<T>>, T))
        ensures
            parts.0@ == AtomicOptionBox::content(self.next),
            parts.0.chain() == Self::link_chain(self.next),
            parts.1 == self.val,
    {
        (AtomicOptionBox::from_link(self.next), self.val)
    }
}

impl<T> AtomicOptionBox<Node<T>> {
    /// The values of the chain that the slot owns, from the head to the end.
    pub open spec fn chain(&self) -> Seq<T> {
        match self@ {
            Some(node) => node.chain(),
            None => Seq::empty(),
        }
    }

    /// Publishes `new` as the head of the chain, with the chain that the slot
    /// held so far linked behind it, in one step.
    ///
    /// The slot is borrowed exclusively, so nothing can change it between the
    /// moment its content is read and the moment `new` is stored: the exchange
    /// succeeds at the first attempt, and there is nothing to try again.
    /// Whatever `new` was linked to before is replaced by the link to the old
    /// head.
    pub fn spin_swap(&mut self, new: Box<Node<T>>)
        ensures
            final(self)@ is Some,
            final(self)@->0.val == new.val,
            AtomicOptionBox::content(final(self)@->0.next) == old(self)@,
            final(self).chain() == seq![new.val] + old(self).chain(),
    {
        let mut new = new;
        new.next = self.replace(None);
        let _ = self.replace(Some(new));
    }
}

} // verus!
