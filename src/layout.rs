//! Fixed geometry of the image and the block arithmetic shared by the writer
//! and the reader.

use vstd::bytes::{spec_u32_from_le_bytes, u32_from_le_bytes};
use vstd::prelude::*;
use vstd::slice::slice_subrange;

verus! {

/// Size in bytes of one logical block.
pub const BLOCK_SIZE: usize = 2048;

/// Block that holds the primary volume descriptor.
pub const DESCRIPTOR_BLOCK: u32 = 16;

/// First block after the descriptor area; the root directory starts here.
pub const FIRST_DATA_BLOCK: u32 = 20;

/// Descriptor type of a primary volume descriptor.
pub const PRIMARY_VOLUME_DESCRIPTOR: u8 = 1;

/// Descriptor type that ends a descriptor chain.
pub const VOLUME_DESCRIPTOR_TERMINATOR: u8 = 255;

/// Number of whole blocks needed to hold `len` bytes: the ceiling of `len / 2048`.
pub open spec fn spec_blocks_needed(len: int) -> int {
    (len + 2047) / 2048
}

/// Number of blocks that `len` bytes occupy.
pub fn blocks_needed(len: u64) -> (r: u64)
    ensures
        r as int == spec_blocks_needed(len as int),
{
    let whole = len / 2048;
    if len % 2048 == 0 {
        whole
    } else {
        whole + 1
    }
}

/// The block count is the ceiling of the byte length over the block size:
/// enough blocks to hold every byte, and fewer than one block to spare.
/// In particular no bytes take no blocks, and `2048 * k` bytes take exactly `k`.
pub proof fn lemma_blocks_needed_is_ceiling(len: nat)
    ensures
        spec_blocks_needed(len as int) * 2048 >= len,
        spec_blocks_needed(len as int) * 2048 < len + 2048,
        len == 0 ==> spec_blocks_needed(len as int) == 0,
        len % 2048 == 0 ==> spec_blocks_needed(len as int) * 2048 == len,
{
}

/// Number of zero bytes that bring `len` up to the next block boundary.
pub open spec fn spec_padding(len: int) -> int {
    (2048 - len % 2048) % 2048
}

/// Number of zero bytes needed after `current_size` bytes to end on a block boundary.
pub fn padding_to_block(current_size: usize) -> (r: usize)
    ensures
        r as int == spec_padding(current_size as int),
        r < 2048,
        (current_size as int + r as int) % 2048 == 0,
{
    (2048 - current_size % 2048) % 2048
}

/// The little-endian 32-bit number stored in `data` at offsets `at .. at + 4`.
pub open spec fn spec_u32_at(data: Seq<u8>, at: int) -> u32 {
    spec_u32_from_le_bytes(data.subrange(at, at + 4))
}

/// Reads the little-endian 32-bit number stored at `at`.
pub fn read_u32_le(data: &[u8], at: usize) -> (r: u32)
    requires
        at + 4 <= data@.len(),
    ensures
        r == spec_u32_at(data@, at as int),
{
    let len = data.len();
    assert(at + 4 <= len);
    u32_from_le_bytes(slice_subrange(data, at, at + 4))
}

/// Copies `bytes` into `buf` at offset `at`, leaving every other byte as it was.
pub fn put_bytes(buf: &mut Vec<u8>, at: usize, bytes: &[u8])
    requires
        at + bytes@.len() <= old(buf)@.len(),
    ensures
        final(buf)@.len() == old(buf)@.len(),
        forall|i: int|
            0 <= i < final(buf)@.len() ==> #[trigger] final(buf)@[i] == if at <= i < at
                + bytes@.len() {
                bytes@[i - at]
            } else {
                old(buf)@[i]
            },
{
    let buf_len = buf.len();
    let mut j: usize = 0;
    while j < bytes.len()
        invariant
            j <= bytes@.len(),
            at + bytes@.len() <= buf_len,
            buf_len == buf@.len(),
            buf@.len() == old(buf)@.len(),
            forall|i: int|
                0 <= i < buf@.len() ==> #[trigger] buf@[i] == if at <= i < at + j {
                    bytes@[i - at]
                } else {
                    old(buf)@[i]
                },
        decreases bytes@.len() - j,
    {
        buf.set(at + j, bytes[j]);
        j = j + 1;
    }
}

/// Appends every byte of `bytes` to `out`.
pub fn extend_from(out: &mut Vec<u8>, bytes: &[u8])
    ensures
        final(out)@ == old(out)@ + bytes@,
{
    let ghost start = out@;
    let mut j: usize = 0;
    while j < bytes.len()
        invariant
            j <= bytes@.len(),
            out@ == start + bytes@.subrange(0, j as int),
        decreases bytes@.len() - j,
    {
        out.push(bytes[j]);
        j = j + 1;
        assert(out@ =~= start + bytes@.subrange(0, j as int));
    }
    assert(bytes@.subrange(0, j as int) =~= bytes@);
}

/// Appends `n` zero bytes to `out`.
pub fn push_zeros(out: &mut Vec<u8>, n: usize)
    ensures
        final(out)@ == old(out)@ + Seq::new(n as nat, |i: int| 0u8),
{
    let ghost start = out@;
    let mut j: usize = 0;
    while j < n
        invariant
            j <= n,
            out@ == start + Seq::new(j as nat, |i: int| 0u8),
        decreases n - j,
    {
        out.push(0);
        j = j + 1;
        assert(out@ =~= start + Seq::new(j as nat, |i: int| 0u8));
    }
}

/// Appends the zero bytes that bring `current_size` bytes up to the next block boundary.
pub fn pad_to_block(out: &mut Vec<u8>, current_size: usize)
    ensures
        final(out)@ == old(out)@ + Seq::new(spec_padding(current_size as int) as nat, |i: int| 0u8),
{
    let n = padding_to_block(current_size);
    push_zeros(out, n);
}

} // verus!
