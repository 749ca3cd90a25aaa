//! The packed form in which the cells are handed to a host: 32 bits to a
//! block, the lowest index in the least significant bit.

use vstd::prelude::*;

verus! {

/// Whether bit `k` of `block` is set, counting from the least significant
/// bit.
pub open spec fn block_bit(block: u32, k: int) -> bool {
    block & (1u32 << (k as u32)) != 0
}

/// How many 32-bit blocks hold `bits` bits.
pub open spec fn block_count(bits: nat) -> nat {
    bits / 32 + if bits % 32 > 0 { 1nat } else { 0nat }
}

/// Whether `blocks` holds `bits` in packed form: there is a block for every
/// 32 bits, and `bits[i]` is bit `i % 32` of block `i / 32`. Nothing is said
/// of the bits of the last block that lie past the end of `bits`.
pub open spec fn packs(blocks: Seq<u32>, bits: Seq<bool>) -> bool {
    &&& blocks.len() == block_count(bits.len())
    &&& forall|i: int|
        0 <= i < bits.len() ==> block_bit(blocks[i / 32], i % 32) == #[trigger] bits[i]
}

/// Two blocks that agree in every bit from `n` upwards are equal once the
/// bits below `n` are shifted out.
proof fn lemma_blocks_agree_from(a: u32, b: u32, n: u32)
    requires
        n <= 32,
        forall|k: int| n <= k < 32 ==> block_bit(a, k) == block_bit(b, k),
    ensures
        (a as u64) >> (n as u64) == (b as u64) >> (n as u64),
    decreases 32 - n,
{
    if n == 32 {
        assert((a as u64) >> 32u64 == (b as u64) >> 32u64) by (bit_vector);
    } else {
        let m = (n + 1) as u32;
        lemma_blocks_agree_from(a, b, m);
        assert(block_bit(a, n as int) == block_bit(b, n as int));
        assert((a as u64) >> (n as u64) == (b as u64) >> (n as u64)) by (bit_vector)
            requires
                n < 32,
                m == n + 1,
                (a as u64) >> (m as u64) == (b as u64) >> (m as u64),
                (a & (1u32 << n) != 0) == (b & (1u32 << n) != 0),
        ;
    }
}

/// A block is determined by its 32 bits.
pub proof fn lemma_block_is_its_bits(a: u32, b: u32)
    requires
        forall|k: int| 0 <= k < 32 ==> block_bit(a, k) == block_bit(b, k),
    ensures
        a == b,
{
    lemma_blocks_agree_from(a, b, 0);
    assert(a == b) by (bit_vector)
        requires
            (a as u64) >> 0u64 == (b as u64) >> 0u64,
    ;
}

/// The bits fix every block that lies wholly below their end: two packed
/// forms of the same bits agree on it. Of a last block that is only partly
/// used, they fix the bits that are used.
pub proof fn lemma_whole_block_is_determined(a: Seq<u32>, b: Seq<u32>, bits: Seq<bool>, j: int)
    requires
        packs(a, bits),
        packs(b, bits),
        0 <= j,
        32 * (j + 1) <= bits.len(),
    ensures
        j < a.len(),
        j < b.len(),
        a[j] == b[j],
{
    assert forall|k: int| 0 <= k < 32 implies block_bit(a[j], k) == block_bit(b[j], k) by {
        let i = 32 * j + k;
        assert(i / 32 == j && i % 32 == k);
        assert(block_bit(a[i / 32], i % 32) == bits[i]);
        assert(block_bit(b[i / 32], i % 32) == bits[i]);
    }
    lemma_block_is_its_bits(a[j], b[j]);
}

/// The packed form tells every bit: two sequences of the same length that
/// the same blocks hold are equal.
pub proof fn lemma_packing_is_faithful(blocks: Seq<u32>, bits: Seq<bool>, other: Seq<bool>)
    requires
        packs(blocks, bits),
        packs(blocks, other),
        bits.len() == other.len(),
    ensures
        bits == other,
{
    assert forall|i: int| 0 <= i < bits.len() implies bits[i] == other[i] by {
        assert(block_bit(blocks[i / 32], i % 32) == bits[i]);
        assert(block_bit(blocks[i / 32], i % 32) == other[i]);
    }
    assert(bits =~= other);
}

} // verus!
