//! Single bits of a 64-bit word, and what the word operations do to them.

use vstd::prelude::*;

verus! {

/// Bit `i` of `x` is set. No bit lies outside `0..64`.
pub open spec fn bit_at(x: u64, i: int) -> bool {
    0 <= i < 64 && (x >> (i as u64)) & 1 == 1
}

/// Zero has no bit.
pub proof fn lemma_zero_has_no_bit(i: u64)
    by (bit_vector)
    ensures
        !bit_at(0, i as int),
{
}

/// A bit of `x ^ y` is set where exactly one of `x` and `y` has it.
pub proof fn lemma_bit_of_xor(x: u64, y: u64, i: u64)
    by (bit_vector)
    ensures
        bit_at(x ^ y, i as int) == (bit_at(x, i as int) != bit_at(y, i as int)),
{
}

/// A bit of `x & (x >> s)` is set where `x` has it and the bit `s` above it.
pub proof fn lemma_bit_of_and_shifted(x: u64, s: u64, i: u64)
    by (bit_vector)
    requires
        s < 64,
    ensures
        bit_at(x & (x >> s), i as int) == (bit_at(x, i as int) && bit_at(x, i + s)),
{
}

/// The conjunction with a word of one bit is zero where `x` lacks that bit.
pub proof fn lemma_single_bit(x: u64, i: u64)
    by (bit_vector)
    requires
        i < 64,
    ensures
        (x & (1u64 << i) == 0) == !bit_at(x, i as int),
{
}

/// A word that is not zero has bit 0, or its half is not zero and smaller.
proof fn lemma_lowest_bit(x: u64)
    by (bit_vector)
    requires
        x != 0,
    ensures
        x & 1 == 1 ==> bit_at(x, 0),
        x & 1 != 1 ==> x >> 1 != 0 && x >> 1 < x,
{
}

/// A bit of the half of `x` is the next higher bit of `x`.
proof fn lemma_bit_of_half(x: u64, i: u64)
    by (bit_vector)
    requires
        bit_at(x >> 1, i as int),
    ensures
        bit_at(x, i + 1),
{
}

/// A word that is not zero has a bit.
pub proof fn lemma_some_bit(x: u64) -> (i: u64)
    requires
        x != 0,
    ensures
        bit_at(x, i as int),
    decreases x,
{
    lemma_lowest_bit(x);
    if x & 1 == 1 {
        0
    } else {
        let below = lemma_some_bit(x >> 1);
        lemma_bit_of_half(x, below);
        (below + 1) as u64
    }
}

/// A word with a bit is not zero.
pub proof fn lemma_bit_means_nonzero(x: u64, i: u64)
    by (bit_vector)
    requires
        bit_at(x, i as int),
    ensures
        x != 0,
{
}

/// Four bits of `x` are set: bit `i` and the three that follow it `s` apart.
pub open spec fn run_at(x: u64, i: int, s: int) -> bool {
    bit_at(x, i) && bit_at(x, i + s) && bit_at(x, i + 2 * s) && bit_at(x, i + 3 * s)
}

/// Somewhere in `x` four bits `s` apart are set.
pub open spec fn has_run(x: u64, s: int) -> bool {
    exists|i: int| #[trigger] run_at(x, i, s)
}

/// Two shifts and two conjunctions find a run: the first leaves the bits that
/// begin a pair, the second those that begin a pair of pairs.
pub proof fn lemma_pairs_of_pairs(x: u64, s: u64)
    requires
        s < 32,
    ensures
        ((x & (x >> s)) & ((x & (x >> s)) >> ((2 * s) as u64)) != 0) == has_run(x, s as int),
{
    let pairs = x & (x >> s);
    let fours = pairs & (pairs >> ((2 * s) as u64));
    assert forall|i: u64| bit_at(fours, i as int) == run_at(x, i as int, s as int) by {
        lemma_bit_of_and_shifted(pairs, (2 * s) as u64, i);
        lemma_bit_of_and_shifted(x, s, i);
        if i + 2 * s < 64 {
            lemma_bit_of_and_shifted(x, s, (i + 2 * s) as u64);
        }
    }
    if fours != 0 {
        let i = lemma_some_bit(fours);
        assert(run_at(x, i as int, s as int));
    }
    if has_run(x, s as int) {
        let i = choose|i: int| #[trigger] run_at(x, i, s as int);
        assert(bit_at(fours, (i as u64) as int));
        lemma_bit_means_nonzero(fours, i as u64);
    }
}

} // verus!
