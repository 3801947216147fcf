//! A single slot that is empty or owns one heap-allocated value.

use vstd::prelude::*;

verus! {

/// A slot that is either empty or the sole owner of one heap-allocated `T`.
///
/// Its view is what it owns: `None` for the empty slot, `Some` of the value
/// otherwise. Ownership moves into the slot when a value is linked in, and out
/// of it again through [`take`](Self::take) and [`unwrap`](Self::unwrap).
/// Whatever changes the slot borrows it exclusively, so each change is one
/// indivisible step for everyone else.
pub struct AtomicOptionBox<T> {
    cell: Option<Box<T>>,
}

impl<T> View for AtomicOptionBox<T> {
    type V = Option<T>;

    closed spec fn view(&self) -> Option<T> {
        Self::content(self.cell)
    }
}

impl<T> AtomicOptionBox<T> {
    /// What an owning link holds: the value behind the box, if there is one.
    pub open spec fn content(link: Option<Box<T>>) -> Option<T> {
        match link {
            Some(boxed) => Some(*boxed),
            None => None,
        }
    }

    /// A slot that owns what `link` owned.
    pub(crate) fn from_link(link: Option<Box<T>>) -> (slot: Self)
        ensures
            slot@ == Self::content(link),
    {
        AtomicOptionBox { cell: link }
    }

    /// Stores `link` in the slot and hands back what the slot owned before.
    pub(crate) fn replace(&mut self, link: Option<Box<T>>) -> (prev: Option<Box<T>>)
        ensures
            final(self)@ == Self::content(link),
            Self::content(prev) == old(self)@,
        opens_invariants none
        no_unwind
    {
        let mut link = link;
        core::mem::swap(&mut self.cell, &mut link);
        link
    }

    /// Whether the slot is empty.
    pub fn is_none(&self) -> (empty: bool)
        ensures
            empty == (self@ is None),
    {
        self.cell.is_none()
    }

    /// Exchanges the content of the slot for nothing and returns a handle that
    /// owns whatever the slot held.
    pub fn take(&mut self) -> (taken: AtomicOptionBox<T>)
        ensures
            taken@ == old(self)@,
            final(self)@ is None,
    {
        AtomicOptionBox { cell: self.cell.take() }
    }

    /// Moves the owned value out of a slot that holds one, and leaves the slot
    /// empty.
    ///
    /// To call this on an empty slot is a mistake of the caller: no value could
    /// be returned for it, so the contract leaves that case out.
    pub fn unwrap(&mut self) -> (value: T)
        requires
            old(self)@ is Some,
        ensures
            old(self)@ == Some(value),
            final(self)@ is None,
    {
        let boxed = self.cell.take().expect("unwrap called on None AtomicOptionBox");
        *boxed
    }
}

impl<T> Default for AtomicOptionBox<T> {
    /// The empty slot.
    fn default() -> (slot: Self)
        ensures
            slot@ is None,
    {
        AtomicOptionBox { cell: None }
    }
}

} // verus!
