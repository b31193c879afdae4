//! The bookkeeping of the chunked bump allocator that hands out room for the
//! uniforms of each draw call in fixed-size GPU blocks.

use vstd::prelude::*;
use vstd::arithmetic::power2::{pow2, lemma_pow2_pos};
use vstd::bits::{low_bits_mask, lemma_u64_low_bits_mask_is_mod};

verus! {

/// The size of each block. Uniforms are copied into a block until it is
/// full, at which point the next block is used, allocated if need be.
pub const BLOCK_SIZE: u32 = 65536;

/// `size` rounded up to a multiple of `alignment`.
pub open spec fn aligned_size(size: int, alignment: int) -> int {
    ((size + alignment - 1) / alignment) * alignment
}

/// Whether `a` is a power of two.
pub open spec fn is_power_of_two(a: u64) -> bool {
    exists|n: nat| n < 64 && a == pow2(n)
}

/// The room that the uniforms of one draw call take up in a block: their
/// size rounded up to the alignment that the GPU demands of bound buffers.
pub fn aligned_uniforms_size(uniforms_size: u64, alignment: u64) -> (r: u64)
    requires
        is_power_of_two(alignment),
        uniforms_size + alignment - 1 <= u64::MAX,
    ensures
        r == aligned_size(uniforms_size as int, alignment as int),
{
    let ghost n = choose|n: nat| n < 64 && alignment == pow2(n);
    proof {
        lemma_pow2_pos(n);
    }
    let align_mask: u64 = alignment - 1;
    let x: u64 = uniforms_size + align_mask;
    let r: u64 = x & !align_mask;
    proof {
        lemma_u64_low_bits_mask_is_mod(x, n);
        assert(low_bits_mask(n) == align_mask);
        assert(r == x - (x & align_mask)) by (bit_vector)
            requires
                r == x & !align_mask,
        ;
    }
    assert(x - x % alignment == (x / alignment) * alignment) by (nonlinear_arith)
        requires
            alignment > 0,
    ;
    r
}

/// Where the uniforms of one draw call go, and whether a block must be
/// allocated first to hold them.
#[derive(Debug, Clone, Copy, PartialEq, Eq, Structural)]
pub struct UniformSlot {
    /// A new block has to be allocated (it gets index `block`).
    pub allocate_block: bool,
    /// The block the uniforms are written to.
    pub block: usize,
    /// The offset of the uniforms in that block.
    pub offset: u32,
}

/// The allocation state of a uniform buffer: how many blocks exist, and the
/// block and offset where the next draw call's uniforms go.
pub struct UniformBuffer {
    block_count: usize,
    cur_block: usize,
    cur_offset: u32,
    aligned_uniforms_size: u32,
}

impl UniformBuffer {
    /// The number of blocks allocated so far.
    pub closed spec fn spec_block_count(&self) -> nat {
        self.block_count as nat
    }

    /// The block that the next uniforms go to.
    pub closed spec fn spec_cur_block(&self) -> nat {
        self.cur_block as nat
    }

    /// The offset in that block where the next uniforms go.
    pub closed spec fn spec_cur_offset(&self) -> nat {
        self.cur_offset as nat
    }

    /// The room that the uniforms of one draw call take up.
    pub closed spec fn spec_aligned_size(&self) -> nat {
        self.aligned_uniforms_size as nat
    }

    /// The next uniforms fit in their block, and come at most one block
    /// past the last one allocated.
    pub open spec fn wf(&self) -> bool {
        &&& self.spec_aligned_size() <= BLOCK_SIZE
        &&& self.spec_cur_offset() + self.spec_aligned_size() <= BLOCK_SIZE
        &&& self.spec_cur_block() <= self.spec_block_count()
        &&& self.spec_block_count() <= usize::MAX
    }

    /// A buffer with no block yet, for uniforms of `uniforms_size` bytes
    /// bound at the given alignment.
    pub fn new(uniforms_size: u64, alignment: u64) -> (r: Self)
        requires
            is_power_of_two(alignment),
            aligned_size(uniforms_size as int, alignment as int) <= BLOCK_SIZE,
            uniforms_size + alignment - 1 <= u64::MAX,
        ensures
            r.wf(),
            r.spec_block_count() == 0,
            r.spec_cur_block() == 0,
            r.spec_cur_offset() == 0,
            r.spec_aligned_size() == aligned_size(uniforms_size as int, alignment as int),
    {
        let aligned = aligned_uniforms_size(uniforms_size, alignment);
        UniformBuffer { block_count: 0, cur_block: 0, cur_offset: 0, aligned_uniforms_size: aligned as u32 }
    }

    /// The number of blocks allocated so far.
    pub fn block_count(&self) -> (r: usize)
        ensures
            r == self.spec_block_count(),
    {
        self.block_count
    }

    /// Starts a new frame: uniforms go to the first block again, and the
    /// blocks already allocated are used again.
    pub fn reset(&mut self)
        requires
            old(self).wf(),
        ensures
            final(self).wf(),
            final(self).spec_cur_block() == 0,
            final(self).spec_cur_offset() == 0,
            final(self).spec_block_count() == old(self).spec_block_count(),
            final(self).spec_aligned_size() == old(self).spec_aligned_size(),
    {
        self.cur_block = 0;
        self.cur_offset = 0;
    }

    /// Takes the room for one draw call's uniforms: where they go, and
    /// whether a block has to be allocated for them first. Once a block has
    /// no room left for another draw call, the following uniforms go to the
    /// next block.
    pub fn write_uniforms(&mut self) -> (slot: UniformSlot)
        requires
            old(self).wf(),
            old(self).spec_block_count() < usize::MAX,
        ensures
            final(self).wf(),
            uniforms_written(*old(self), *final(self), slot),
    {
        let allocate_block = self.cur_block >= self.block_count;
        if allocate_block {
            self.block_count = self.block_count + 1;
        }
        let slot = UniformSlot { allocate_block, block: self.cur_block, offset: self.cur_offset };

        self.cur_offset = self.cur_offset + self.aligned_uniforms_size;
        if BLOCK_SIZE - self.cur_offset < self.aligned_uniforms_size {
            self.cur_block = self.cur_block + 1;
            self.cur_offset = 0;
        }
        slot
    }
}

/// `slot` is what the next draw call of `before` gets, and `after` is the
/// state that follows: a block is allocated exactly when the next block
/// does not exist yet, and the position moves past the slot, to the next
/// block once this one has no room for another draw call.
pub open spec fn uniforms_written(before: UniformBuffer, after: UniformBuffer, slot: UniformSlot) -> bool {
    let size = before.spec_aligned_size();
    let end = before.spec_cur_offset() + size;
    &&& slot.allocate_block == (before.spec_cur_block() >= before.spec_block_count())
    &&& slot.block == before.spec_cur_block()
    &&& slot.offset == before.spec_cur_offset()
    &&& after.spec_block_count() == before.spec_block_count() + (if slot.allocate_block { 1int } else { 0int })
    &&& after.spec_aligned_size() == size
    &&& if end + size > BLOCK_SIZE {
        after.spec_cur_block() == before.spec_cur_block() + 1 && after.spec_cur_offset() == 0
    } else {
        after.spec_cur_block() == before.spec_cur_block() && after.spec_cur_offset() == end
    }
}

/// The room a draw call gets lies inside an allocated block.
pub proof fn lemma_slot_in_allocated_block(before: UniformBuffer, after: UniformBuffer, slot: UniformSlot)
    requires
        before.wf(),
        uniforms_written(before, after, slot),
    ensures
        slot.block < after.spec_block_count(),
        slot.offset + before.spec_aligned_size() <= BLOCK_SIZE,
{
}

/// Two draw calls in a row get rooms that do not overlap: the second lies
/// after the first in the same block, or in a later block.
pub proof fn lemma_slots_do_not_overlap(
    s0: UniformBuffer,
    s1: UniformBuffer,
    s2: UniformBuffer,
    first: UniformSlot,
    second: UniformSlot,
)
    requires
        s0.wf(),
        uniforms_written(s0, s1, first),
        uniforms_written(s1, s2, second),
    ensures
        second.block > first.block
            || (second.block == first.block && second.offset >= first.offset + s0.spec_aligned_size()),
{
}

} // verus!
