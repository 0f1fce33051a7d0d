//! The bit-packed storage, kept in a `fixedbitset::FixedBitSet`.
//!
//! Nothing in this file is proved: each item states what the storage crate
//! does, and the rest of the library is verified against these statements.

use fixedbitset::FixedBitSet;
use vstd::prelude::*;

verus! {

#[verifier::external_type_specification]
#[verifier::external_body]
pub struct ExFixedBitSet(FixedBitSet);

/// The bits that a `FixedBitSet` holds, in index order. Its length is the
/// bit set's length in bits.
pub uninterp spec fn bit_seq(s: FixedBitSet) -> Seq<bool>;

/// How bits lie in 32-bit words: bit `i` is bit `i % 32`, counted from the
/// least significant end, of word `i / 32`, and there are just enough words.
pub open spec fn packed_in(bits: Seq<bool>, words: Seq<u32>) -> bool {
    &&& words.len() == (bits.len() + 31) / 32
    &&& forall|i: int|
        0 <= i < bits.len() ==> #[trigger] bits[i] == (words[i / 32] & (1u32 << ((i % 32) as u32))
            != 0)
}

/// `FixedBitSet::with_capacity`: a bit set of `bits` bits, all clear.
pub assume_specification[ FixedBitSet::with_capacity ](bits: usize) -> (s: FixedBitSet)
    ensures
        bit_seq(s) == Seq::new(bits as nat, |i: int| false),
;

/// `FixedBitSet::len`: the length in bits.
pub assume_specification[ FixedBitSet::len ](s: &FixedBitSet) -> (n: usize)
    ensures
        n == bit_seq(*s).len(),
;

/// `FixedBitSet::set`: writes one bit and leaves the others and the length
/// as they were. It panics on an index past the end, which `requires` rules
/// out.
pub assume_specification[ FixedBitSet::set ](s: &mut FixedBitSet, bit: usize, enabled: bool)
    requires
        bit < bit_seq(*old(s)).len(),
    ensures
        bit_seq(*final(s)) == bit_seq(*old(s)).update(bit as int, enabled),
;

/// `FixedBitSet::as_slice`: the words that hold the bits. Nothing is said
/// of the bits of the last word that lie past the length.
pub assume_specification<'a>[ FixedBitSet::as_slice ](s: &'a FixedBitSet) -> (words: &'a [u32])
    ensures
        packed_in(bit_seq(*s), words@),
;

/// Indexing a `FixedBitSet` (`Index<usize>`): the bit at `bit`, for an index
/// below the length.
#[verifier::external_body]
pub(crate) fn bit_at(s: &FixedBitSet, bit: usize) -> (b: bool)
    requires
        bit < bit_seq(*s).len(),
    ensures
        b == bit_seq(*s)[bit as int],
{
    s[bit]
}

/// `FixedBitSet::clone`: a bit set with the same bits.
#[verifier::external_body]
pub(crate) fn duplicate(s: &FixedBitSet) -> (c: FixedBitSet)
    ensures
        bit_seq(c) == bit_seq(*s),
{
    s.clone()
}

} // verus!
