//! The storage behind the vector: a list of bins of doubling capacity,
//! filled in order, and what it means for them to hold `n` elements.
use vstd::prelude::*;

verus! {

use crate::layout::{
    bin_capacity, bin_start, bin_of, offset_of, indices, bin_size, lemma_bin_of, lemma_in_bin_iff,
    lemma_bin_start_step, lemma_bin_start_mono,
};
use vstd::arithmetic::power2::{pow2, lemma_pow2_adds};
use vstd::bits::lemma_usize_pow2_no_overflow;
use crate::bin::Bin;

/// Number of bins a vector can have.
pub open spec fn bin_limit() -> nat {
    (usize::BITS - 4) as nat
}

/// The most elements a vector can hold: every bin full.
pub open spec fn max_len() -> nat {
    bin_start(bin_limit())
}

/// `max_len()` leaves room for the index arithmetic of `indices`.
pub proof fn lemma_max_len_fits()
    ensures
        max_len() + 8 <= usize::MAX,
        max_len() == pow2((usize::BITS - 1) as nat) - 8,
{
    lemma_pow2_adds(3, bin_limit());
    vstd::arithmetic::power2::lemma2_to64();
    lemma_usize_pow2_no_overflow((usize::BITS - 1) as nat);
}

/// An index `i <= j` never lies in a later bin than `j`.
pub proof fn lemma_bin_of_mono(i: nat, j: nat)
    requires
        i <= j,
    ensures
        bin_of(i) <= bin_of(j),
{
    lemma_bin_of(i);
    lemma_bin_of(j);
    if bin_of(i) > bin_of(j) {
        lemma_bin_start_mono(bin_of(j), bin_of(i));
    }
}

/// The bins hold exactly the first `n` elements: bin `b` was allocated with
/// room for `bin_capacity(b)` elements, every bin but the last is full, and
/// the last holds the rest.
pub open spec fn holds<T>(bins: Seq<Bin<T>>, n: nat) -> bool {
    &&& n <= max_len()
    &&& forall|b: int| 0 <= b < bins.len() ==> #[trigger] bins[b].capacity() == bin_capacity(b as nat)
    &&& bins.len() == (if n == 0 {
        0
    } else {
        bin_of((n - 1) as nat) + 1
    })
    &&& forall|b: int|
        0 <= b < bins.len() ==> #[trigger] bins[b]@.len() == (if b + 1 < bins.len() {
            bin_capacity(b as nat) as int
        } else {
            n - bin_start(b as nat)
        })
}

/// The first `n` elements, each read from the slot its index maps to.
pub open spec fn elems<T>(bins: Seq<Bin<T>>, n: nat) -> Seq<T> {
    Seq::new(n, |i: int| bins[bin_of(i as nat) as int]@[offset_of(i as nat) as int])
}

/// Where an index `i < n` maps to, there is a slot.
pub proof fn lemma_slot<T>(bins: Seq<Bin<T>>, n: nat, i: nat)
    requires
        holds(bins, n),
        i < n,
    ensures
        bin_of(i) < bins.len(),
        offset_of(i) < bins[bin_of(i) as int]@.len(),
{
    lemma_bin_of_mono(i, (n - 1) as nat);
    lemma_bin_of(i);
    lemma_bin_of((n - 1) as nat);
    let b = bin_of(i) as int;
    assert(bins[b]@.len() == (if b + 1 < bins.len() {
        bin_capacity(b as nat) as int
    } else {
        n - bin_start(b as nat)
    }));
}

/// Bins that agree on every slot but the one of `idx` hold the same
/// elements but the one at `idx`.
pub proof fn lemma_write_slot<T>(bins: Seq<Bin<T>>, bins2: Seq<Bin<T>>, n: nat, idx: nat)
    requires
        holds(bins, n),
        idx < n,
        bins2.len() == bins.len(),
        forall|b: int| 0 <= b < bins.len() && b != bin_of(idx) ==> bins2[b] == bins[b],
        bins2[bin_of(idx) as int].capacity() == bins[bin_of(idx) as int].capacity(),
        bins2[bin_of(idx) as int]@ == bins[bin_of(idx) as int]@.update(
            offset_of(idx) as int,
            bins2[bin_of(idx) as int]@[offset_of(idx) as int],
        ),
    ensures
        holds(bins2, n),
        elems(bins2, n) == elems(bins, n).update(
            idx as int,
            bins2[bin_of(idx) as int]@[offset_of(idx) as int],
        ),
{
    let x = bins2[bin_of(idx) as int]@[offset_of(idx) as int];
    lemma_slot(bins, n, idx);
    assert forall|b: int| 0 <= b < bins2.len() implies #[trigger] bins2[b]@.len()
        == bins[b]@.len() && bins2[b].capacity() == bins[b].capacity() by {
        if b != bin_of(idx) {
            assert(bins2[b] == bins[b]);
        }
    }
    assert forall|i: int| 0 <= i < n implies #[trigger] elems(bins2, n)[i] == elems(
        bins,
        n,
    ).update(idx as int, x)[i] by {
        lemma_slot(bins, n, i as nat);
        if i != idx {
            if bin_of(i as nat) == bin_of(idx) {
                lemma_bin_of(i as nat);
                lemma_bin_of(idx);
                assert(offset_of(i as nat) != offset_of(idx));
            } else {
                assert(bins2[bin_of(i as nat) as int] == bins[bin_of(i as nat) as int]);
            }
        }
    }
    assert(elems(bins2, n) =~= elems(bins, n).update(idx as int, x));
}

/// Bins that keep the allocations of the bins before them keep the place
/// of every element they held: the bin, its allocation and the slot.
pub proof fn lemma_places_kept<T>(bins: Seq<Bin<T>>, n: nat, bins2: Seq<Bin<T>>)
    requires
        holds(bins, n),
        bins.len() <= bins2.len(),
        forall|b: int| 0 <= b < bins.len() ==> #[trigger] bins2[b].id() == bins[b].id(),
    ensures
        forall|j: int|
            0 <= j < n ==> #[trigger] place(bins2, j) == place(bins, j),
{
    assert forall|j: int| 0 <= j < n implies #[trigger] place(bins2, j) == place(bins, j) by {
        lemma_slot(bins, n, j as nat);
    }
}

/// Where index `j` is stored: its bin, the allocation of that bin, and its
/// slot in it.
pub open spec fn place<T>(bins: Seq<Bin<T>>, j: int) -> (nat, int, nat) {
    (bin_of(j as nat), bins[bin_of(j as nat) as int].id(), offset_of(j as nat))
}

/// Makes sure the bin that holds index `idx` exists, allocating it when
/// `idx` is its first slot, with room for all the elements of that bin, and
/// returns where `idx` goes.  The bins that were there are left as they were.
pub(crate) fn ensure_slot_allocated<T>(bins: &mut Vec<Bin<T>>, idx: usize) -> (r: (u32, usize))
    requires
        holds(old(bins)@, idx as nat),
        idx < max_len(),
    ensures
        r.0 as nat == bin_of(idx as nat),
        r.1 as nat == offset_of(idx as nat),
        final(bins)@.len() == r.0 + 1,
        final(bins)@[r.0 as int]@.len() == r.1,
        forall|b: int| 0 <= b < r.0 ==> #[trigger] final(bins)@[b] == old(bins)@[b],
        r.1 > 0 ==> final(bins)@ == old(bins)@,
        r.1 > 0 ==> old(bins)@.len() == r.0 + 1,
        r.1 == 0 ==> old(bins)@.len() == r.0,
        forall|b: int|
            0 <= b < final(bins)@.len() ==> #[trigger] final(bins)@[b].capacity() == bin_capacity(
                b as nat,
            ),
{
    proof {
        lemma_max_len_fits();
    }
    let (array, offset) = indices(idx);
    proof {
        lemma_bin_start_step(array as nat);
        if idx > 0 {
            let p = (idx - 1) as nat;
            if offset == 0 {
                lemma_bin_start_mono((array - 1) as nat, array as nat);
                lemma_in_bin_iff(p, (array - 1) as nat);
            } else {
                lemma_in_bin_iff(p, array as nat);
            }
        }
    }
    if offset == 0 {
        let bin: Bin<T> = Bin::with_capacity(bin_size(array));
        bins.push(bin);
    } else {
        assert(bins@[array as int]@.len() == idx - bin_start(array as nat));
    }
    (array, offset)
}

/// Writes `val` into the slot of index `idx`, the first free one.
pub(crate) fn pre_push<T>(bins: &mut Vec<Bin<T>>, idx: usize, val: T)
    requires
        holds(old(bins)@, idx as nat),
        idx < max_len(),
    ensures
        holds(final(bins)@, idx as nat + 1),
        elems(final(bins)@, idx as nat + 1) == elems(old(bins)@, idx as nat).push(val),
        old(bins)@.len() <= final(bins)@.len(),
        forall|b: int|
            0 <= b < old(bins)@.len() ==> #[trigger] final(bins)@[b].id() == old(bins)@[b].id(),
        forall|b: int|
            0 <= b < old(bins)@.len() ==> #[trigger] final(bins)@[b]@.subrange(
                0,
                old(bins)@[b]@.len() as int,
            ) == old(bins)@[b]@,
{
    let ghost before = bins@;
    let (array, offset) = ensure_slot_allocated(bins, idx);
    let ghost mid = bins@;
    proof {
        lemma_bin_of(idx as nat);
        assert(bins@[array as int].capacity() == bin_capacity(array as nat));
    }
    bins[array as usize].push(val);
    proof {
        let n = idx as nat + 1;
        lemma_bin_of(idx as nat);
        assert forall|b: int| 0 <= b < bins@.len() implies #[trigger] bins@[b].capacity()
            == bin_capacity(b as nat) by {
            if b != array {
                assert(bins@[b] == mid[b]);
            }
        }
        assert forall|b: int| 0 <= b < bins@.len() implies #[trigger] bins@[b]@.len() == (if b + 1
            < bins@.len() {
            bin_capacity(b as nat) as int
        } else {
            n - bin_start(b as nat)
        }) by {
            if b < array {
                assert(bins@[b] == before[b]);
                assert(before[b]@.len() == bin_capacity(b as nat)) by {
                    if offset == 0 && b + 1 == array {
                        lemma_bin_start_step(b as nat);
                    }
                }
            }
        }
        let old_elems = elems(before, idx as nat);
        assert forall|i: int| 0 <= i < n implies #[trigger] elems(bins@, n)[i] == old_elems.push(
            val,
        )[i] by {
            if i < idx {
                lemma_slot(before, idx as nat, i as nat);
                lemma_bin_of_mono(i as nat, idx as nat);
                lemma_bin_of(i as nat);
                if bin_of(i as nat) == array {
                    assert(before[array as int]@ == bins@[array as int]@.drop_last());
                }
            }
        }
        assert(elems(bins@, n) =~= old_elems.push(val));
        assert forall|b: int| 0 <= b < before.len() implies #[trigger] bins@[b]@.subrange(
            0,
            before[b]@.len() as int,
        ) == before[b]@ by {
            assert(bins@[b]@.subrange(0, before[b]@.len() as int) =~= before[b]@);
        }
    }
}

} // verus!
