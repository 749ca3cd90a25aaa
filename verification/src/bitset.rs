//! What this library relies on from `fixedbitset::FixedBitSet`.
//!
//! Nothing in this file is proved: each item states what the function of
//! `fixedbitset` that it names does, as that crate's source shows it.

use crate::packing::{block_bit, block_count};
use fixedbitset::FixedBitSet;
use vstd::prelude::*;

verus! {

/// `fixedbitset::FixedBitSet`, carried as an opaque value.
#[verifier::external_type_specification]
#[verifier::external_body]
pub struct ExFixedBitSet(fixedbitset::FixedBitSet);

/// The bits of a `FixedBitSet`, from index 0 upwards. The length of the
/// sequence is the set's `len()`, the number of bits it was made for.
pub uninterp spec fn bits_of(set: FixedBitSet) -> Seq<bool>;

/// The blocks in which a `FixedBitSet` stores its bits: what `as_slice`
/// hands out.
pub uninterp spec fn blocks_of(set: FixedBitSet) -> Seq<u32>;

/// `FixedBitSet::with_capacity`: a set of `bits` bits, all of them clear.
pub assume_specification[ FixedBitSet::with_capacity ](bits: usize) -> (set: FixedBitSet)
    ensures
        bits_of(set) == Seq::new(bits as nat, |i: int| false),
;

/// `FixedBitSet::set`: writes `enabled` to the bit at `bit` and leaves every
/// other bit as it was. It panics when `bit` is not below `len()`.
pub assume_specification[ FixedBitSet::set ](set: &mut FixedBitSet, bit: usize, enabled: bool)
    requires
        bit < bits_of(*old(set)).len(),
    ensures
        bits_of(*final(set)) == bits_of(*old(set)).update(bit as int, enabled),
;

/// `<FixedBitSet as Clone>::clone`: a set with the same length and bits.
pub assume_specification[ <FixedBitSet as Clone>::clone ](set: &FixedBitSet) -> (copy: FixedBitSet)
    ensures
        bits_of(copy) == bits_of(*set),
;

/// `FixedBitSet::as_slice`: the blocks that hold the bits, 32 bits to a
/// block and as many blocks as `with_capacity` allocates. Bit `i` of the set
/// is bit `i % 32` of block `i / 32`, which is where `set` writes it and
/// `contains` reads it. Nothing is claimed of the bits of the last block
/// that lie past the end of the set.
pub assume_specification[ FixedBitSet::as_slice ](set: &FixedBitSet) -> (blocks: &[u32])
    ensures
        blocks@ == blocks_of(*set),
        blocks@.len() == block_count(bits_of(*set).len()),
        forall|i: int|
            0 <= i < bits_of(*set).len() ==> block_bit(blocks@[i / 32], i % 32)
                == #[trigger] bits_of(*set)[i],
;

/// `<FixedBitSet as Index<usize>>::index`: whether the bit at `bit` is set,
/// for a `bit` below the set's `len()`. Nothing is claimed of an index past
/// the end.
#[verifier::external_body]
pub(crate) fn bit_at(set: &FixedBitSet, bit: usize) -> (enabled: bool)
    requires
        bit < bits_of(*set).len(),
    ensures
        enabled == bits_of(*set)[bit as int],
{
    set[bit]
}

} // verus!
