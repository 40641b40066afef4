//! The bits of a 64-bit word, one by one.

use bit_iter::BitIter;
use vstd::prelude::*;

verus! {

/// Bit `i` of `word` is set.
pub open spec fn has_bit(word: u64, i: int) -> bool {
    0 <= i < 64 && (word >> (i as u64)) & 1u64 == 1u64
}

/// The positions of the bits that are set in `word`.
pub open spec fn set_bits(word: u64) -> Set<int> {
    Set::new(|i: int| has_bit(word, i))
}

/// `b` is the smallest element of `s`.
pub open spec fn is_least(s: Set<int>, b: int) -> bool {
    s.contains(b) && forall|x: int| #[trigger] s.contains(x) ==> b <= x
}

/// The outside iterator over the set bits of a word.
#[verifier::external_type_specification]
#[verifier::external_body]
#[verifier::reject_recursive_types(T)]
pub struct ExBitIter<T>(bit_iter::BitIter<T>);

/// The positions that an iterator has still to return.
pub uninterp spec fn bits_left(iter: BitIter<u64>) -> Set<int>;

/// Calls `BitIter::<u64>::from`. The new iterator has to return exactly the positions of the bits
/// that are set in `word`.
#[verifier::external_body]
pub(crate) fn bit_iter_from(word: u64) -> (iter: BitIter<u64>)
    ensures
        bits_left(iter) == set_bits(word),
{
    BitIter::from(word)
}

/// Calls `BitIter::<u64>::next`, which returns the positions in ascending order: the smallest
/// position that is left, which then is left no more, or `None` when no position is left.
#[verifier::external_body]
pub(crate) fn bit_iter_next(iter: &mut BitIter<u64>) -> (bit: Option<usize>)
    ensures
        match bit {
            Some(b) => is_least(bits_left(*old(iter)), b as int) && bits_left(*final(iter))
                == bits_left(*old(iter)).remove(b as int),
            None => bits_left(*old(iter)) == Set::<int>::empty() && bits_left(*final(iter))
                == Set::<int>::empty(),
        },
{
    iter.next()
}

/// Setting bit `b` sets that bit and no other.
pub proof fn lemma_set_bit(word: u64, b: u64)
    requires
        b < 64,
    ensures
        forall|i: int| #[trigger] has_bit(word | (1u64 << b), i) == (i == b || has_bit(word, i)),
{
    assert forall|i: int| #[trigger] has_bit(word | (1u64 << b), i) == (i == b || has_bit(word, i)) by {
        if 0 <= i < 64 {
            let k = i as u64;
            assert(((word | (1u64 << b)) >> k) & 1u64 == 1u64 <==> (k == b || (word >> k) & 1u64 == 1u64))
                by (bit_vector)
                requires
                    k < 64,
                    b < 64,
            ;
        }
    }
}

/// Clearing bit `b` clears that bit and no other.
pub proof fn lemma_clear_bit(word: u64, b: u64)
    requires
        b < 64,
    ensures
        forall|i: int| #[trigger] has_bit(word & !(1u64 << b), i) == (i != b && has_bit(word, i)),
{
    assert forall|i: int| #[trigger] has_bit(word & !(1u64 << b), i) == (i != b && has_bit(word, i)) by {
        if 0 <= i < 64 {
            let k = i as u64;
            assert(((word & !(1u64 << b)) >> k) & 1u64 == 1u64 <==> (k != b && (word >> k) & 1u64 == 1u64))
                by (bit_vector)
                requires
                    k < 64,
                    b < 64,
            ;
        }
    }
}

/// Masking `a` with the complement of `b` keeps the bits of `a` that are not in `b`.
pub proof fn lemma_and_not(a: u64, b: u64)
    ensures
        forall|i: int| #[trigger] has_bit(a & !b, i) == (has_bit(a, i) && !has_bit(b, i)),
{
    assert forall|i: int| #[trigger] has_bit(a & !b, i) == (has_bit(a, i) && !has_bit(b, i)) by {
        if 0 <= i < 64 {
            let k = i as u64;
            assert(((a & !b) >> k) & 1u64 == 1u64 <==> ((a >> k) & 1u64 == 1u64 && (b >> k) & 1u64 != 1u64))
                by (bit_vector)
                requires
                    k < 64,
            ;
        }
    }
}

/// The zero word has no bit set.
pub proof fn lemma_zero_has_no_bit()
    ensures
        forall|i: int| !#[trigger] has_bit(0, i),
{
    assert forall|i: int| !#[trigger] has_bit(0, i) by {
        let k = i as u64;
        assert((0u64 >> k) & 1u64 == 0u64) by (bit_vector);
    }
}

/// A word other than zero has some bit set.
pub proof fn lemma_nonzero_has_bit(word: u64)
    requires
        word != 0,
    ensures
        exists|i: int| has_bit(word, i),
{
    if forall|i: int| !has_bit(word, i) {
        lemma_low_bits_clear(word, 64);
        assert(word == 0) by (bit_vector)
            requires
                word << 0u64 == 0u64,
        ;
    }
}

/// When the `n` lowest bits are clear, nothing is left of the word after shifting the others out.
proof fn lemma_low_bits_clear(word: u64, n: u64)
    requires
        1 <= n <= 64,
        forall|i: int| !has_bit(word, i),
    ensures
        word << ((64 - n) as u64) == 0,
    decreases n,
{
    let below = (n - 1) as u64;
    assert(!has_bit(word, below as int));
    if n == 1 {
        assert(word << 63u64 == 0u64) by (bit_vector)
            requires
                (word >> 0u64) & 1u64 != 1u64,
        ;
    } else {
        lemma_low_bits_clear(word, below);
        let left = (64 - n) as u64;
        let left_below = (64 - below) as u64;
        assert(word << left == 0u64) by (bit_vector)
            requires
                left < 63,
                left_below == left + 1,
                below == 63 - left,
                word << left_below == 0u64,
                (word >> below) & 1u64 != 1u64,
        ;
    }
}

} // verus!
