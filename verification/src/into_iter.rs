//! Taking the elements out of a vector, from either end.
use vstd::prelude::*;

verus! {

use std::collections::VecDeque;
use crate::append_vec::AppendOnlyVec;
use crate::remaining;

/// The values of an `AppendOnlyVec` that have not been taken out yet.
/// `Debug` prints it as `IntoIter(IntoIter([..]))`, listing the values left.
#[derive(Debug)]
pub struct IntoIter<T>(remaining::IntoIter<T>);

impl<T> View for IntoIter<T> {
    type V = Seq<T>;

    /// The values left, front first.
    closed spec fn view(&self) -> Seq<T> {
        self.0.0@
    }
}

impl<T> IntoIter<T> {
    /// Takes the front value out, if any is left.
    pub fn next(&mut self) -> (r: Option<T>)
        ensures
            old(self)@.len() == 0 ==> r is None && final(self)@ == old(self)@,
            old(self)@.len() > 0 ==> r == Some(old(self)@[0]) && final(self)@ == old(
                self,
            )@.drop_first(),
    {
        let r = self.0.0.pop_front();
        proof {
            if old(self)@.len() > 0 {
                assert(self@ =~= old(self)@.drop_first());
            }
        }
        r
    }

    /// Takes the back value out, if any is left.
    pub fn next_back(&mut self) -> (r: Option<T>)
        ensures
            old(self)@.len() == 0 ==> r is None && final(self)@ == old(self)@,
            old(self)@.len() > 0 ==> r == Some(old(self)@.last()) && final(self)@ == old(
                self,
            )@.drop_last(),
    {
        let r = self.0.0.pop_back();
        proof {
            if old(self)@.len() > 0 {
                assert(self@ =~= old(self)@.drop_last());
            }
        }
        r
    }

    /// Number of values left.
    pub fn len(&self) -> (r: usize)
        ensures
            r == self@.len(),
    {
        self.0.0.len()
    }

    /// Bounds on the number of values left; both are exact.
    pub fn size_hint(&self) -> (r: (usize, Option<usize>))
        ensures
            r.0 == self@.len(),
            r.1 == Some(self@.len() as usize),
    {
        let n = self.0.0.len();
        (n, Some(n))
    }
}

impl<T> AppendOnlyVec<T> {
    /// Moves the elements, in order, into an `IntoIter`.
    pub fn into_iter(self) -> (r: IntoIter<T>)
        ensures
            r@ == self@,
    {
        let items = self.into_vec();
        let ghost all = items@;
        let mut queue: VecDeque<T> = VecDeque::new();
        for x in it: items
            invariant
                it.seq() == all,
                queue@ == all.take(it.index() as int),
        {
            assert(all.take(it.index() + 1) == all.take(it.index() as int).push(x));
            queue.push_back(x);
        }
        assert(all.take(all.len() as int) == all);
        IntoIter(remaining::IntoIter(queue))
    }
}

} // verus!
