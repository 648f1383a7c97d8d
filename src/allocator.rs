//! Sequential, write-once allocation of extents.

use vstd::prelude::*;
use crate::layout::{blocks_needed, spec_blocks_needed};

verus! {

/// Hands out non-overlapping extents from a cursor that only moves forward.
pub struct BlockAllocator {
    next: u32,
}

impl BlockAllocator {
    /// The block that the next allocation will start at.
    pub closed spec fn cursor(&self) -> nat {
        self.next as nat
    }

    /// An allocator whose first extent starts at `first_block`.
    pub fn new(first_block: u32) -> (r: Self)
        ensures
            r.cursor() == first_block,
    {
        BlockAllocator { next: first_block }
    }

    /// The block that the next allocation will start at.
    pub fn next_block(&self) -> (r: u32)
        ensures
            r == self.cursor(),
    {
        self.next
    }

    /// Whether an extent of `byte_length` bytes still fits below the 32-bit block limit.
    pub fn can_allocate(&self, byte_length: u64) -> (r: bool)
        ensures
            r == (self.cursor() + spec_blocks_needed(byte_length as int) <= u32::MAX),
    {
        let blocks = blocks_needed(byte_length);
        blocks <= (u32::MAX - self.next) as u64
    }

    /// Reserves `ceil(byte_length / 2048)` blocks and returns the first of them.
    /// A zero-length allocation reserves nothing and returns the cursor.
    pub fn allocate(&mut self, byte_length: u64) -> (start_block: u32)
        requires
            old(self).cursor() + spec_blocks_needed(byte_length as int) <= u32::MAX,
        ensures
            start_block == old(self).cursor(),
            final(self).cursor() == old(self).cursor() + spec_blocks_needed(byte_length as int),
    {
        let start = self.next;
        let blocks = blocks_needed(byte_length);
        self.next = self.next + blocks as u32;
        start
    }
}

} // verus!
