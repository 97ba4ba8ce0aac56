//! The vector itself.
use vstd::prelude::*;

verus! {

use crate::bin::Bin;
use crate::bins::{
    holds, elems, place, max_len, lemma_max_len_fits, lemma_slot, lemma_write_slot,
    lemma_places_kept, pre_push,
};
use crate::layout::{
    indices, bin_start, lemma_bin_start_step, lemma_bin_start_mono, lemma_bin_of, lemma_in_bin_iff,
};

/// A vector that can only grow at its end.  Its elements live in bins:
/// bin `b` is allocated with room for `8 << b` elements when the first
/// element of that bin is pushed, and is only ever written in place after
/// that.  `location(j)` names where element `j` is stored (its bin, that
/// bin's allocation, and its slot), and every operation that takes
/// `&mut self` keeps the location of each element already there, so an
/// element never moves once pushed.
pub struct AppendOnlyVec<T> {
    count: usize,
    bins: Vec<Bin<T>>,
}

impl<T> AppendOnlyVec<T> {
    /// The bins hold exactly `count` elements.
    #[verifier::type_invariant]
    spec fn wf(self) -> bool {
        holds(self.bins@, self.count as nat)
    }
}

impl<T> AppendOnlyVec<T> {
    /// Where element `j` is stored: the bin that holds it, the allocation
    /// of that bin, and its slot there.
    pub closed spec fn location(&self, j: int) -> (nat, int, nat) {
        place(self.bins@, j)
    }

    /// No two elements share a place.
    pub proof fn lemma_location_unique(&self, i: int, j: int)
        requires
            0 <= i,
            0 <= j,
            i != j,
        ensures
            self.location(i) != self.location(j),
    {
        lemma_bin_of(i as nat);
        lemma_bin_of(j as nat);
    }
}

impl<T> View for AppendOnlyVec<T> {
    type V = Seq<T>;

    /// The elements, in the order they were pushed.
    closed spec fn view(&self) -> Seq<T> {
        elems(self.bins@, self.count as nat)
    }
}

impl<T> AppendOnlyVec<T> {
    /// Allocate a new empty vector.
    pub fn new() -> (r: Self)
        ensures
            r@ == Seq::<T>::empty(),
    {
        let r = AppendOnlyVec { count: 0, bins: Vec::new() };
        assert(r@ =~= Seq::<T>::empty());
        r
    }

    /// Find the length of the array.
    pub fn len(&self) -> (r: usize)
        ensures
            r == self@.len(),
            r <= max_len(),
    {
        proof {
            use_type_invariant(self);
        }
        self.count
    }

    /// Moves the count and the bins out of the vector, leaving it empty.
    /// While the vector changes, its parts are held apart from it, since
    /// the type's invariant must hold of it at every step.
    fn take_parts(&mut self) -> (r: (usize, Vec<Bin<T>>))
        ensures
            holds(r.1@, r.0 as nat),
            elems(r.1@, r.0 as nat) == old(self)@,
            r.1@ == old(self).bins@,
            r.0 == old(self).count,
            final(self)@ == Seq::<T>::empty(),
    {
        proof {
            use_type_invariant(&*self);
        }
        let mut parts = Self::new();
        std::mem::swap(&mut parts, self);
        let AppendOnlyVec { count, bins } = parts;
        (count, bins)
    }

    /// Appends an element and returns the index it was pushed to.  The
    /// elements already in the vector keep their indices and values.
    pub fn push(&mut self, val: T) -> (idx: usize)
        requires
            old(self)@.len() < max_len(),
        ensures
            idx == old(self)@.len(),
            final(self)@ == old(self)@.push(val),
            forall|i: int| 0 <= i < old(self)@.len() ==> final(self)@[i] == old(self)@[i],
            final(self)@[idx as int] == val,
            forall|j: int|
                0 <= j < old(self)@.len() ==> #[trigger] final(self).location(j) == old(self).location(j),
    {
        let (count, mut bins) = self.take_parts();
        let ghost before = bins@;
        pre_push(&mut bins, count, val);
        proof {
            lemma_max_len_fits();
            lemma_places_kept(before, count as nat, bins@);
        }
        *self = AppendOnlyVec { count: count + 1, bins };
        count
    }

    /// Appends an element and returns the new length of the vector.
    pub fn push_mut(&mut self, val: T) -> (len: usize)
        requires
            old(self)@.len() < max_len(),
        ensures
            len == old(self)@.len() + 1,
            len == final(self)@.len(),
            final(self)@ == old(self)@.push(val),
            forall|j: int|
                0 <= j < old(self)@.len() ==> #[trigger] final(self).location(j) == old(self).location(j),
    {
        let (count, mut bins) = self.take_parts();
        let ghost before = bins@;
        pre_push(&mut bins, count, val);
        proof {
            lemma_max_len_fits();
            lemma_places_kept(before, count as nat, bins@);
        }
        *self = AppendOnlyVec { count: count + 1, bins };
        count + 1
    }

    /// Reads index `idx`, which must be below the length.
    fn get_unchecked(&self, idx: usize) -> (r: &T)
        requires
            idx < self@.len(),
        ensures
            *r == self@[idx as int],
    {
        proof {
            use_type_invariant(self);
            lemma_max_len_fits();
            lemma_slot(self.bins@, self.count as nat, idx as nat);
        }
        let (array, offset) = indices(idx);
        self.bins[array as usize].get(offset)
    }

    /// Puts `val` at index `idx`, which must be below the length, and
    /// returns the element that was there.
    pub fn replace(&mut self, idx: usize, val: T) -> (prev: T)
        requires
            idx < old(self)@.len(),
        ensures
            prev == old(self)@[idx as int],
            final(self)@ == old(self)@.update(idx as int, val),
            forall|j: int|
                0 <= j < old(self)@.len() ==> #[trigger] final(self).location(j) == old(self).location(j),
    {
        let (count, mut bins) = self.take_parts();
        proof {
            lemma_max_len_fits();
            lemma_slot(bins@, count as nat, idx as nat);
        }
        let ghost before = bins@;
        let (array, offset) = indices(idx);
        let prev = bins[array as usize].replace(offset, val);
        proof {
            assert(bins@ == before.update(array as int, bins@[array as int]));
            lemma_write_slot(before, bins@, count as nat, idx as nat);
            lemma_places_kept(before, count as nat, bins@);
        }
        *self = AppendOnlyVec { count, bins };
        prev
    }
}

impl<T> AppendOnlyVec<T> {
    /// Extends the vector with the elements of `iter`, in order.
    pub fn extend(&mut self, iter: Vec<T>)
        requires
            old(self)@.len() + iter@.len() <= max_len(),
        ensures
            final(self)@ == old(self)@ + iter@,
            forall|j: int|
                0 <= j < old(self)@.len() ==> #[trigger] final(self).location(j) == old(self).location(j),
    {
        let ghost start = self@;
        let ghost orig = *self;
        let ghost items = iter@;
        for val in it: iter
            invariant
                it.seq() == items,
                forall|j: int|
                    0 <= j < start.len() ==> #[trigger] self.location(j) == orig.location(j),
                self@ == start + items.take(it.index() as int),
                start.len() + items.len() <= max_len(),
        {
            assert(items.take(it.index() + 1) == items.take(it.index() as int).push(val));
            self.push(val);
        }
        assert(items.take(items.len() as int) == items);
    }

    /// Calls `f` on the current length `index`; if it returns
    /// `Some(value)`, pushes `value` (which lands at `index`) and returns
    /// `Some(index)`, otherwise leaves the vector unchanged and returns
    /// `None`.
    pub fn compute_next<F: FnOnce(usize) -> Option<T>>(&mut self, f: F) -> (r: Option<usize>)
        requires
            old(self)@.len() < max_len(),
            f.requires((old(self)@.len() as usize,)),
        ensures
            match r {
                Some(idx) => {
                    &&& idx == old(self)@.len()
                    &&& final(self)@.len() == old(self)@.len() + 1
                    &&& final(self)@.take(idx as int) == old(self)@
                    &&& f.ensures((idx,), Some(final(self)@[idx as int]))
                    &&& forall|j: int|
                        0 <= j < old(self)@.len() ==> #[trigger] final(self).location(j)
                            == old(self).location(j)
                },
                None => {
                    &&& final(self)@ == old(self)@
                    &&& f.ensures((old(self)@.len() as usize,), None::<T>)
                },
            },
    {
        let current = self.len();
        match f(current) {
            Some(value) => {
                let idx = self.push(value);
                assert(self@.take(idx as int) =~= old(self)@);
                Some(idx)
            },
            None => None,
        }
    }

    /// The elements, in order.  Elements pushed afterwards are not in it.
    pub fn iter(&self) -> (r: Vec<&T>)
        ensures
            r@.len() == self@.len(),
            forall|i: int| 0 <= i < self@.len() ==> *r@[i] == self@[i],
    {
        let n = self.len();
        let mut r: Vec<&T> = Vec::with_capacity(n);
        let mut i: usize = 0;
        while i < n
            invariant
                n == self@.len(),
                i <= n,
                r@.len() == i,
                forall|j: int| 0 <= j < i ==> *r@[j] == self@[j],
            decreases n - i,
        {
            r.push(self.get_unchecked(i));
            i = i + 1;
        }
        r
    }

    /// Converts into a standard `Vec` holding the same elements in order.
    pub fn into_vec(self) -> (r: Vec<T>)
        ensures
            r@ == self@,
    {
        proof {
            use_type_invariant(&self);
        }
        let ghost all = self@;
        let AppendOnlyVec { count, mut bins } = self;
        let ghost orig = bins@;
        let mut vec: Vec<T> = Vec::with_capacity(count);
        let nb = bins.len();
        let mut k: usize = 0;
        proof {
            lemma_bin_start_step(0);
            assert(vec@ =~= all.take(0));
        }
        while k < nb
            invariant
                holds(orig, count as nat),
                all == elems(orig, count as nat),
                nb == orig.len(),
                bins@.len() == nb,
                k <= nb,
                forall|m: int| k <= m < nb ==> #[trigger] bins@[m] == orig[m],
                k < nb ==> bin_start(k as nat) <= count,
                vec@ == all.take(if k < nb { bin_start(k as nat) as int } else { count as int }),
            decreases nb - k,
        {
            let mut bin: Bin<T> = Bin::with_capacity(0);
            bins.set_and_swap(k, &mut bin);
            proof {
                let lo = bin_start(k as nat) as int;
                let hi = if k + 1 < nb { bin_start(k as nat + 1) as int } else { count as int };
                lemma_bin_start_step(k as nat);
                lemma_bin_of((count - 1) as nat);
                assert(orig[k as int]@.len() == hi - lo);
                if k + 2 < nb {
                    lemma_bin_start_mono(k as nat + 1, (nb - 1) as nat);
                }
                assert(bin@ == orig[k as int]@);
                assert(hi <= count);
                assert forall|j: int| lo <= j < hi implies #[trigger] all[j] == bin@[j - lo] by {
                    lemma_bin_of(j as nat);
                    lemma_in_bin_iff(j as nat, k as nat);
                }
                assert(all.take(hi) =~= all.take(lo) + bin@);
            }
            let mut items = bin.into_vec();
            vec.append(&mut items);
            k = k + 1;
        }
        proof {
            if nb == 0 {
                assert(all.take(count as int) =~= all);
            }
        }
        assert(vec@ =~= all);
        vec
    }

    /// Builds a vector holding the elements of `iter`, in order.
    pub fn from_iter(iter: Vec<T>) -> (r: Self)
        requires
            iter@.len() <= max_len(),
        ensures
            r@ == iter@,
    {
        let mut out = Self::new();
        out.extend(iter);
        assert(out@ =~= iter@);
        out
    }

    /// Builds a vector holding the elements of `value`, in order.
    pub fn from(value: Vec<T>) -> (r: Self)
        requires
            value@.len() <= max_len(),
        ensures
            r@ == value@,
    {
        Self::from_iter(value)
    }
}

impl<T> Default for AppendOnlyVec<T> {
    fn default() -> (r: Self)
        ensures
            r@ == Seq::<T>::empty(),
    {
        Self::new()
    }
}

impl<T: Clone> Clone for AppendOnlyVec<T> {
    /// A vector of the same length, each element a clone of the element at
    /// the same index.
    fn clone(&self) -> (r: Self)
        ensures
            r@.len() == self@.len(),
            forall|i: int| 0 <= i < self@.len() ==> cloned(self@[i], r@[i]),
    {
        let n = self.len();
        let mut out = Self::new();
        let mut i: usize = 0;
        while i < n
            invariant
                n == self@.len(),
                n <= max_len(),
                i <= n,
                out@.len() == i,
                forall|j: int| 0 <= j < i ==> cloned(self@[j], out@[j]),
            decreases n - i,
        {
            let x = self.get_unchecked(i).clone();
            out.push(x);
            i = i + 1;
        }
        out
    }
}

impl<T> std::ops::Index<usize> for AppendOnlyVec<T> {
    type Output = T;

    /// Reads index `idx`, which must be below the length.
    fn index(&self, idx: usize) -> (r: &T)
        ensures
            *r == self@[idx as int],
    {
        self.get_unchecked(idx)
    }
}

impl<T> vstd::std_specs::core::IndexSpecImpl<usize> for AppendOnlyVec<T> {
    open spec fn index_req(&self, idx: &usize) -> bool {
        *idx < self@.len()
    }
}

} // verus!
