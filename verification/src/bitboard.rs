//! Bitboard primitives.
//!
//! A bitboard is a 64-bit set of board squares under the little-endian
//! rank-file mapping: square index = file + 8 * rank.

use vstd::prelude::*;

verus! {

pub type Bitboard = u64;

/// Square `i` is a member of the set `bb`.
pub open spec fn bit(bb: u64, i: int) -> bool {
    0 <= i < 64 && bb & (1u64 << i as u64) != 0
}

pub trait BitboardExt {
    /// Iterate the indices of the set bits, lowest first.
    fn bit_indices(self) -> (r: BitIndices) where Self: Sized;
}

impl BitboardExt for Bitboard {
    fn bit_indices(self) -> (r: BitIndices)
        ensures
            r.rem() == self,
    {
        BitIndices { remainder: self }
    }
}

pub struct BitIndices {
    remainder: Bitboard,
}

impl BitIndices {
    /// The bits not yet yielded.
    pub closed spec fn rem(self) -> u64 {
        self.remainder
    }

    /// Yields the lowest set bit still remaining and removes it from
    /// the remainder; `None` once every bit has been yielded.
    pub fn next(&mut self) -> (r: Option<usize>)
        ensures
            old(self).rem() == 0 ==> r is None && final(self).rem() == 0,
            old(self).rem() != 0 ==> {
                &&& r matches Some(i)
                &&& i == u64_lowest_bit(old(self).rem())
                &&& final(self).rem() == old(self).rem() & !(1u64 << (i as u64))
                &&& bit(old(self).rem(), i as int)
            },
    {
        if self.remainder == 0 {
            None
        } else {
            let index: usize = self.remainder.trailing_zeros() as usize;
            proof {
                let r0 = self.remainder;
                vstd::std_specs::bits::axiom_u64_trailing_zeros(r0);
                let t = vstd::std_specs::bits::u64_trailing_zeros(r0) as u64;
                assert((r0 >> t) & 1u64 == 1u64 && t < 64 ==> r0 & (1u64 << t) != 0)
                    by (bit_vector);
            }
            self.remainder = self.remainder & !(1u64 << (index as u64));
            Some(index)
        }
    }
}

/// The index of the lowest set bit.
pub open spec fn u64_lowest_bit(bb: u64) -> u32 {
    vstd::std_specs::bits::u64_trailing_zeros(bb)
}

/// The set holds exactly one square.
pub open spec fn one_bit(bb: u64) -> bool {
    exists|j: u64| j < 64 && bb == 1u64 << j
}

pub proof fn lemma_bit_or(a: u64, b: u64)
    ensures
        forall|i: int| #![trigger bit(a | b, i)] bit(a | b, i) == (bit(a, i) || bit(b, i)),
{
    assert forall|i: int| #![trigger bit(a | b, i)] bit(a | b, i) == (bit(a, i) || bit(b, i)) by {
        if 0 <= i < 64 {
            let iu = i as u64;
            assert(iu < 64 ==> (((a | b) & (1u64 << iu) != 0) == (a & (1u64 << iu) != 0 || b & (
            1u64 << iu) != 0))) by (bit_vector);
        }
    }
}

pub proof fn lemma_bit_and(a: u64, b: u64)
    ensures
        forall|i: int| #![trigger bit(a & b, i)] bit(a & b, i) == (bit(a, i) && bit(b, i)),
{
    assert forall|i: int| #![trigger bit(a & b, i)] bit(a & b, i) == (bit(a, i) && bit(b, i)) by {
        if 0 <= i < 64 {
            let iu = i as u64;
            assert(iu < 64 ==> (((a & b) & (1u64 << iu) != 0) == (a & (1u64 << iu) != 0 && b & (
            1u64 << iu) != 0))) by (bit_vector);
        }
    }
}

pub proof fn lemma_bit_andnot(a: u64, b: u64)
    ensures
        forall|i: int| #![trigger bit(a & !b, i)] bit(a & !b, i) == (bit(a, i) && !bit(b, i)),
{
    assert forall|i: int| #![trigger bit(a & !b, i)] bit(a & !b, i) == (bit(a, i) && !bit(b, i)) by {
        if 0 <= i < 64 {
            let iu = i as u64;
            assert(iu < 64 ==> (((a & !b) & (1u64 << iu) != 0) == (a & (1u64 << iu) != 0 && b & (
            1u64 << iu) == 0))) by (bit_vector);
        }
    }
}

pub proof fn lemma_bit_single(j: u64)
    requires
        j < 64,
    ensures
        forall|i: int| #![trigger bit(1u64 << j, i)] bit(1u64 << j, i) == (i == j),
{
    assert forall|i: int| #![trigger bit(1u64 << j, i)] bit(1u64 << j, i) == (i == j) by {
        if 0 <= i < 64 {
            let iu = i as u64;
            assert(iu < 64 && j < 64 ==> (((1u64 << j) & (1u64 << iu) != 0) == (iu == j)))
                by (bit_vector);
        }
    }
}

pub proof fn lemma_bit_zero()
    ensures
        forall|i: int| !bit(0u64, i),
{
    assert forall|i: int| !bit(0u64, i) by {
        if 0 <= i < 64 {
            let iu = i as u64;
            assert(0u64 & (1u64 << iu) == 0) by (bit_vector);
        }
    }
}

pub proof fn lemma_bit_shl(x: u64, k: u64)
    requires
        k < 64,
    ensures
        forall|i: int|
            #![trigger bit(x << k, i)]
            bit(x << k, i) == (k <= i < 64 && bit(x, i - k)),
{
    assert forall|i: int|
        #![trigger bit(x << k, i)]
        bit(x << k, i) == (k <= i < 64 && bit(x, i - k)) by {
        if 0 <= i < 64 {
            let iu = i as u64;
            if iu >= k {
                let d = (iu - k) as u64;
                assert(iu < 64 && k < 64 && iu >= k && d == iu - k ==> (((x << k) & (1u64 << iu)
                    != 0) == (x & (1u64 << d) != 0))) by (bit_vector);
            } else {
                assert(iu < 64 && k < 64 && iu < k ==> ((x << k) & (1u64 << iu) == 0))
                    by (bit_vector);
            }
        }
    }
}

pub proof fn lemma_bit_shr(x: u64, k: u64)
    requires
        k < 64,
    ensures
        forall|i: int|
            #![trigger bit(x >> k, i)]
            bit(x >> k, i) == (0 <= i && i + k < 64 && bit(x, i + k)),
{
    assert forall|i: int|
        #![trigger bit(x >> k, i)]
        bit(x >> k, i) == (0 <= i && i + k < 64 && bit(x, i + k)) by {
        if 0 <= i < 64 {
            let iu = i as u64;
            if iu + k < 64 {
                let d = (iu + k) as u64;
                assert(iu < 64 && k < 64 && d == iu + k && d < 64 ==> (((x >> k) & (1u64 << iu)
                    != 0) == (x & (1u64 << d) != 0))) by (bit_vector);
            } else {
                assert(iu < 64 && k < 64 && iu + k >= 64 ==> ((x >> k) & (1u64 << iu) == 0))
                    by (bit_vector);
            }
        }
    }
}

pub proof fn lemma_or_zero(a: u64)
    ensures
        a | 0 == a,
        0 | a == a,
        a | a == a,
{
    assert((a | 0) == a && (0 | a) == a && (a | a) == a) by (bit_vector);
}

pub proof fn lemma_or_assoc(a: u64, b: u64, c: u64)
    ensures
        a | (b | c) == (a | b) | c,
        a | b == b | a,
{
    assert((a | (b | c)) == ((a | b) | c) && (a | b) == (b | a)) by (bit_vector);
}

/// A non-empty set has its lowest bit as a member.
pub proof fn lemma_nonzero_has_bit(bb: u64)
    requires
        bb != 0,
    ensures
        u64_lowest_bit(bb) < 64,
        bit(bb, u64_lowest_bit(bb) as int),
{
    vstd::std_specs::bits::axiom_u64_trailing_zeros(bb);
    let t = u64_lowest_bit(bb) as u64;
    assert((bb >> t) & 1u64 == 1u64 && t < 64 ==> bb & (1u64 << t) != 0) by (bit_vector);
}

/// A set with no members is the empty bitboard.
pub proof fn lemma_no_bits(bb: u64)
    requires
        forall|i: int| !bit(bb, i),
    ensures
        bb == 0,
{
    if bb != 0 {
        lemma_nonzero_has_bit(bb);
    }
}

/// Two sets with the same members are equal.
pub proof fn lemma_bit_ext(a: u64, b: u64)
    requires
        forall|i: int| 0 <= i < 64 ==> bit(a, i) == bit(b, i),
    ensures
        a == b,
{
    let d = a ^ b;
    assert forall|i: int| !bit(d, i) by {
        if 0 <= i < 64 {
            let iu = i as u64;
            assert(iu < 64 ==> (((a ^ b) & (1u64 << iu) != 0) == ((a & (1u64 << iu) != 0) != (b & (
            1u64 << iu) != 0)))) by (bit_vector);
            assert(bit(a, i) == bit(b, i));
        }
    }
    lemma_no_bits(d);
    assert(a ^ b == 0 ==> a == b) by (bit_vector);
}

/// Clearing the lowest set bit strictly shrinks a non-empty bitboard,
/// and every lower index stays clear.
pub proof fn lemma_clear_lowest_bit(bb: u64)
    requires
        bb != 0,
    ensures
        u64_lowest_bit(bb) < 64,
        bit(bb, u64_lowest_bit(bb) as int),
        (bb & !(1u64 << (u64_lowest_bit(bb) as u64))) < bb,
        forall|j: int| 0 <= j < u64_lowest_bit(bb) ==> !bit(bb, j),
        forall|j: int|
            #![auto]
            0 <= j < 64 && j != u64_lowest_bit(bb) ==> bit(bb, j) == bit(
                bb & !(1u64 << (u64_lowest_bit(bb) as u64)),
                j,
            ),
{
    vstd::std_specs::bits::axiom_u64_trailing_zeros(bb);
    let t = u64_lowest_bit(bb) as u64;
    assert(t < 64);
    assert((bb >> t) & 1u64 == 1u64 && t < 64 ==> bb & (1u64 << t) != 0) by (bit_vector);
    assert(bb & (1u64 << t) != 0 && t < 64 ==> (bb & !(1u64 << t)) < bb) by (bit_vector);
    assert forall|j: int| 0 <= j < t implies !bit(bb, j) by {
        let ju = j as u64;
        assert((bb >> ju) & 1u64 == 0u64 && ju < 64 ==> bb & (1u64 << ju) == 0) by (bit_vector);
    }
    assert forall|j: int| #![auto] 0 <= j < 64 && j != t implies bit(bb, j) == bit(
        bb & !(1u64 << t),
        j,
    ) by {
        let ju = j as u64;
        assert(ju < 64 && ju != t && t < 64 ==> (bb & (1u64 << ju)) == ((bb & !(1u64 << t)) & (1u64
            << ju))) by (bit_vector);
    }
}

} // verus!
