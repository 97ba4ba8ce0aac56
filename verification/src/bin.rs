//! One bin: a buffer allocated once, with room for a fixed number of
//! elements, that is filled in order and never reallocated.
use vstd::prelude::*;

verus! {

/// A buffer of elements with a fixed room.  `capacity()` is the room it was
/// allocated with; a push is only allowed while there is room left, and a
/// `Vec` never reallocates on a push that fits its capacity, so the
/// elements of a bin stay where they were written.  `id()` names the
/// allocation: every method that changes a bin keeps it, and a bin made
/// anew has an allocation of its own, of which nothing is known.
pub struct Bin<T> {
    items: Vec<T>,
    room: Ghost<nat>,
    allocation: Ghost<int>,
}

impl<T> View for Bin<T> {
    type V = Seq<T>;

    /// The elements written so far, in slot order.
    closed spec fn view(&self) -> Seq<T> {
        self.items@
    }
}

impl<T> Bin<T> {
    /// The number of elements the bin was allocated with room for.
    pub closed spec fn capacity(&self) -> nat {
        self.room@
    }

    /// The allocation that holds the elements.
    pub closed spec fn id(&self) -> int {
        self.allocation@
    }

    /// Allocates an empty bin with room for `cap` elements.
    pub fn with_capacity(cap: usize) -> (r: Self)
        ensures
            r@ == Seq::<T>::empty(),
            r.capacity() == cap,
    {
        Bin { items: Vec::with_capacity(cap), room: Ghost(cap as nat), allocation: Ghost(0) }
    }

    /// Number of elements written.
    pub fn len(&self) -> (r: usize)
        ensures
            r == self@.len(),
    {
        self.items.len()
    }

    /// Writes `val` into the first free slot, which must exist; the bin
    /// stays in its allocation.
    pub fn push(&mut self, val: T)
        requires
            old(self)@.len() < old(self).capacity(),
        ensures
            final(self)@ == old(self)@.push(val),
            final(self).capacity() == old(self).capacity(),
            final(self).id() == old(self).id(),
    {
        self.items.push(val);
    }

    /// Reads slot `i`, which must be written.
    pub fn get(&self, i: usize) -> (r: &T)
        requires
            i < self@.len(),
        ensures
            *r == self@[i as int],
    {
        &self.items[i]
    }

    /// Puts `val` in slot `i`, which must be written, and returns what was
    /// there; the bin stays in its allocation.
    pub fn replace(&mut self, i: usize, val: T) -> (prev: T)
        requires
            i < old(self)@.len(),
        ensures
            prev == old(self)@[i as int],
            final(self)@ == old(self)@.update(i as int, val),
            final(self).capacity() == old(self).capacity(),
            final(self).id() == old(self).id(),
    {
        let mut slot = val;
        self.items.set_and_swap(i, &mut slot);
        slot
    }

    /// The elements, in slot order.
    pub fn into_vec(self) -> (r: Vec<T>)
        ensures
            r@ == self@,
    {
        self.items
    }
}

} // verus!
