//! Where an index lives: which bin, and which slot inside that bin.
use vstd::prelude::*;

verus! {

use vstd::arithmetic::power2::{pow2, lemma_pow2_unfold, lemma_pow2_pos, lemma_pow2_adds, lemma2_to64};
use vstd::std_specs::bits::u64_leading_zeros;
use vstd::bits::{lemma_usize_shl_is_mul, lemma_usize_pow2_no_overflow};

/// Number of elements that bin `b` holds.
pub open spec fn bin_capacity(b: nat) -> nat {
    8 * pow2(b)
}

/// Index of the first element stored in bin `b`: the capacities of all
/// earlier bins added up.
pub open spec fn bin_start(b: nat) -> nat {
    (8 * pow2(b) - 8) as nat
}

/// `i` is stored in bin `b`.
pub open spec fn in_bin(i: int, b: nat) -> bool {
    bin_start(b) <= i < bin_start(b + 1)
}

/// The bin that holds index `i`.
pub open spec fn bin_of(i: nat) -> nat
    decreases i,
{
    if i < 8 {
        0
    } else {
        1 + bin_of(((i - 8) as nat) / 2)
    }
}

/// The slot inside its bin that holds index `i`.
pub open spec fn offset_of(i: nat) -> nat {
    (i - bin_start(bin_of(i))) as nat
}

/// Consecutive bins start where the previous one ends.
pub proof fn lemma_bin_start_step(b: nat)
    ensures
        bin_start(b + 1) == bin_start(b) + bin_capacity(b),
        bin_start(b + 1) == 8 + 2 * bin_start(b),
        bin_start(0) == 0,
        bin_capacity(b) >= 8,
{
    lemma_pow2_unfold(b + 1);
    lemma_pow2_pos(b);
    lemma2_to64();
}

/// Bins start at increasing indices.
pub proof fn lemma_bin_start_mono(a: nat, b: nat)
    requires
        a < b,
    ensures
        bin_start(a) < bin_start(b),
        bin_start(a + 1) <= bin_start(b),
    decreases b - a,
{
    lemma_bin_start_step(a);
    if a + 1 < b {
        lemma_bin_start_mono(a + 1, b);
    }
}

/// `bin_of(i)` is a bin that holds `i`.
pub proof fn lemma_bin_of(i: nat)
    ensures
        in_bin(i as int, bin_of(i)),
        offset_of(i) < bin_capacity(bin_of(i)),
    decreases i,
{
    lemma_bin_start_step(0);
    lemma_bin_start_step(1);
    if i >= 8 {
        let j = ((i - 8) as nat) / 2;
        lemma_bin_of(j);
        lemma_bin_start_step(bin_of(j));
        lemma_bin_start_step(bin_of(j) + 1);
    }
    lemma_bin_start_step(bin_of(i));
}

/// Only one bin holds a given index.
pub proof fn lemma_in_bin_unique(i: int, b: nat, c: nat)
    requires
        in_bin(i, b),
        in_bin(i, c),
    ensures
        b == c,
{
    if b < c {
        lemma_bin_start_mono(b, c);
    }
    if c < b {
        lemma_bin_start_mono(c, b);
    }
}

/// Every index lies in exactly one bin, the one `bin_of` names.
pub proof fn lemma_in_bin_iff(i: nat, b: nat)
    ensures
        in_bin(i as int, b) <==> b == bin_of(i),
{
    lemma_bin_of(i);
    if in_bin(i as int, b) {
        lemma_in_bin_unique(i as int, b, bin_of(i));
    }
}

/// Index 0 is the first slot of the first bin.
pub proof fn lemma_first_slot()
    ensures
        bin_of(0) == 0,
        offset_of(0) == 0,
{
    lemma_bin_start_step(0);
}

/// Consecutive indices fill a bin slot by slot; the index after the last
/// slot of a bin goes to the first slot of the next bin.
pub proof fn lemma_next_slot(i: nat)
    ensures
        offset_of(i) + 1 < bin_capacity(bin_of(i)) ==> bin_of(i + 1) == bin_of(i) && offset_of(
            i + 1,
        ) == offset_of(i) + 1,
        offset_of(i) + 1 == bin_capacity(bin_of(i)) ==> bin_of(i + 1) == bin_of(i) + 1
            && offset_of(i + 1) == 0,
{
    let b = bin_of(i);
    lemma_bin_of(i);
    lemma_bin_start_step(b);
    lemma_bin_start_step(b + 1);
    if offset_of(i) + 1 < bin_capacity(b) {
        lemma_in_bin_iff(i + 1, b);
    } else {
        lemma_in_bin_iff(i + 1, b + 1);
    }
}

/// Number of elements in bin `array`, `8 << array`.
pub fn bin_size(array: u32) -> (r: usize)
    requires
        array < usize::BITS - 3,
    ensures
        r == bin_capacity(array as nat),
{
    let shift: usize = array as usize;
    proof {
        lemma2_to64();
        lemma_pow2_adds(3, shift as nat);
        lemma_usize_pow2_no_overflow(shift as nat + 3);
        assert(pow2(3) == 8);
        lemma_usize_shl_is_mul(8, shift);
        assert(1usize << 3 == 8usize) by (bit_vector);
    }
    (1usize << 3) << shift
}

/// The highest set bit of a nonzero `n` is bit `63 - n.leading_zeros()`.
proof fn lemma_leading_zeros_log(n: u64)
    requires
        n > 0,
    ensures
        0 <= u64_leading_zeros(n) <= 63,
        pow2((63 - u64_leading_zeros(n)) as nat) <= n,
        n < pow2((64 - u64_leading_zeros(n)) as nat),
    decreases n,
{
    reveal(u64_leading_zeros);
    lemma2_to64();
    if n > 1 {
        let h = n / 2;
        lemma_leading_zeros_log(h);
        assert(u64_leading_zeros(n) == u64_leading_zeros(h) - 1);
        let k = (63 - u64_leading_zeros(h)) as nat;
        lemma_pow2_unfold(k + 1);
        lemma_pow2_unfold(k + 2);
    } else {
        assert(u64_leading_zeros(0) == 64);
        assert(u64_leading_zeros(1) == 63);
    }
}

/// A `usize` is below `2^usize::BITS`.
proof fn lemma_usize_below_pow2_bits(x: usize)
    ensures
        x < pow2(usize::BITS as nat),
{
    lemma2_to64();
    vstd::arithmetic::power2::lemma2_to64_rest();
}

/// Splits an index into the bin that holds it (first component) and the
/// slot inside that bin (second component).  Bin `b` holds `8 << b` values.
pub fn indices(i: usize) -> (r: (u32, usize))
    requires
        i <= usize::MAX - 8,
    ensures
        r.0 as nat == bin_of(i as nat),
        r.1 as nat == offset_of(i as nat),
        in_bin(i as int, r.0 as nat),
        r.1 < bin_capacity(r.0 as nat),
        r.0 < usize::BITS - 3,
{
    let i = i + 8;
    let lz = (i as u64).leading_zeros();
    proof {
        lemma_leading_zeros_log(i as u64);
        lemma_usize_below_pow2_bits(i);
        lemma2_to64();
        let k = (63 - lz) as nat;
        if k >= usize::BITS {
            vstd::arithmetic::power2::lemma_pow2_strictly_increases(usize::BITS as nat, k);
            assert(false);
        }
        assert(k >= 3) by {
            if k < 3 {
                if k + 1 < 3 {
                    vstd::arithmetic::power2::lemma_pow2_strictly_increases(k + 1, 3);
                }
            }
        }
    }
    let bin = u64::BITS - 1 - lz;
    let bin = bin - 3;
    proof {
        lemma_pow2_adds(3, bin as nat);
        lemma_pow2_adds(4, bin as nat);
        lemma_bin_start_step(bin as nat);
        lemma_in_bin_iff((i - 8) as nat, bin as nat);
        lemma_bin_of((i - 8) as nat);
    }
    let offset = i - bin_size(bin);
    (bin, offset)
}

} // verus!
