//! The primary volume descriptor: the fixed 2048-byte block that locates the
//! root directory and gives the size of the volume.

use vstd::bytes::{
    lemma_auto_spec_u16_to_from_le_bytes, lemma_auto_spec_u32_to_from_le_bytes,
    spec_u16_from_le_bytes, spec_u16_to_le_bytes, spec_u32_to_le_bytes, u16_from_le_bytes,
    u16_to_le_bytes, u32_to_le_bytes,
};
use vstd::prelude::*;
use vstd::slice::slice_subrange;
use crate::layout::{
    extend_from, put_bytes, read_u32_le, spec_u32_at, BLOCK_SIZE, PRIMARY_VOLUME_DESCRIPTOR,
};
use crate::record::{encode_record, record_bytes};

verus! {

/// Offset of the descriptor type byte.
pub const TYPE_OFFSET: usize = 0;

/// Offset of the standard identifier.
pub const STANDARD_IDENTIFIER_OFFSET: usize = 1;

/// Offset of the descriptor version byte.
pub const VERSION_OFFSET: usize = 6;

/// Offset of the space-padded system identifier.
pub const SYSTEM_IDENTIFIER_OFFSET: usize = 8;

/// Offset of the space-padded volume identifier.
pub const VOLUME_IDENTIFIER_OFFSET: usize = 40;

/// Width of the system and volume identifier fields.
pub const IDENTIFIER_WIDTH: usize = 32;

/// Offset of the little-endian volume space size, in blocks.
pub const VOLUME_SPACE_SIZE_OFFSET: usize = 80;

/// Offset of the little-endian volume set size.
pub const VOLUME_SET_SIZE_OFFSET: usize = 120;

/// Offset of the little-endian volume sequence number.
pub const VOLUME_SEQUENCE_NUMBER_OFFSET: usize = 124;

/// Offset of the little-endian logical block size.
pub const LOGICAL_BLOCK_SIZE_OFFSET: usize = 128;

/// Offset of the root directory record.
pub const ROOT_RECORD_OFFSET: usize = 156;

/// Offset of the root directory's little-endian extent location.
pub const ROOT_EXTENT_OFFSET: usize = 158;

/// Offset of the root directory's little-endian data length.
pub const ROOT_SIZE_OFFSET: usize = 166;

/// The standard identifier `CD001`.
pub open spec fn standard_identifier() -> Seq<u8> {
    seq![0x43u8, 0x44, 0x30, 0x30, 0x31]
}

/// The system identifier written into every descriptor: `RUST_SYSTEM_GENERATED`.
pub open spec fn system_identifier() -> Seq<u8> {
    seq![
        0x52u8, 0x55, 0x53, 0x54, 0x5F, 0x53, 0x59, 0x53,
        0x54, 0x45, 0x4D, 0x5F, 0x47, 0x45, 0x4E, 0x45,
        0x52, 0x41, 0x54, 0x45, 0x44,
    ]
}

/// The volume identifier written into every descriptor: `RUST_ISO_VOLUME`.
pub open spec fn volume_identifier() -> Seq<u8> {
    seq![
        0x52u8, 0x55, 0x53, 0x54, 0x5F, 0x49, 0x53, 0x4F,
        0x5F, 0x56, 0x4F, 0x4C, 0x55, 0x4D, 0x45,
    ]
}

/// Byte `j` of `text` padded with spaces.
pub open spec fn padded(text: Seq<u8>, j: int) -> u8 {
    if j < text.len() {
        text[j]
    } else {
        0x20
    }
}

/// The identifier byte of the root directory's own record.
pub open spec fn root_identifier() -> Seq<u8> {
    seq![0u8]
}

/// The byte at offset `i` of the descriptor of a volume of `total_blocks` blocks
/// whose root directory is `root_size` bytes at block `root_extent`.
pub open spec fn descriptor_byte(total_blocks: u32, root_extent: u32, root_size: u32, i: int) -> u8 {
    if i == 0 {
        PRIMARY_VOLUME_DESCRIPTOR
    } else if 1 <= i < 6 {
        standard_identifier()[i - 1]
    } else if i == 6 {
        1
    } else if 8 <= i < 40 {
        padded(system_identifier(), i - 8)
    } else if 40 <= i < 72 {
        padded(volume_identifier(), i - 40)
    } else if 80 <= i < 84 {
        spec_u32_to_le_bytes(total_blocks)[i - 80]
    } else if 120 <= i < 122 {
        spec_u16_to_le_bytes(1)[i - 120]
    } else if 124 <= i < 126 {
        spec_u16_to_le_bytes(1)[i - 124]
    } else if 128 <= i < 130 {
        spec_u16_to_le_bytes(2048)[i - 128]
    } else if 156 <= i < 192 {
        record_bytes(root_identifier(), root_extent, root_size, true)[i - 156]
    } else {
        0
    }
}

/// The 2048-byte descriptor block.
pub open spec fn descriptor_bytes(total_blocks: u32, root_extent: u32, root_size: u32) -> Seq<u8> {
    Seq::new(2048, |i: int| descriptor_byte(total_blocks, root_extent, root_size, i))
}

/// A decoded primary volume descriptor.
pub struct PrimaryVolumeDescriptor {
    /// Descriptor type; 1 for a primary descriptor.
    pub descriptor_type: u8,
    /// The five bytes of the standard identifier.
    pub standard_identifier: Vec<u8>,
    /// Descriptor version.
    pub version: u8,
    /// Number of blocks in the volume.
    pub volume_space_size: u32,
    /// Size of a logical block in bytes.
    pub logical_block_size: u16,
    /// Block where the root directory begins.
    pub root_directory_extent: u32,
    /// Length of the root directory in bytes.
    pub root_directory_size: u32,
}

/// The bytes of `CD001`.
fn standard_identifier_bytes() -> (r: Vec<u8>)
    ensures
        r@ == standard_identifier(),
{
    let r = vec![0x43u8, 0x44, 0x30, 0x30, 0x31];
    assert(r@ =~= standard_identifier());
    r
}

/// The bytes of the system identifier.
fn system_identifier_bytes() -> (r: Vec<u8>)
    ensures
        r@ == system_identifier(),
{
    let r = vec![
        0x52u8, 0x55, 0x53, 0x54, 0x5F, 0x53, 0x59, 0x53,
        0x54, 0x45, 0x4D, 0x5F, 0x47, 0x45, 0x4E, 0x45,
        0x52, 0x41, 0x54, 0x45, 0x44,
    ];
    assert(r@ =~= system_identifier());
    r
}

/// The bytes of the volume identifier.
fn volume_identifier_bytes() -> (r: Vec<u8>)
    ensures
        r@ == volume_identifier(),
{
    let r = vec![
        0x52u8, 0x55, 0x53, 0x54, 0x5F, 0x49, 0x53, 0x4F,
        0x5F, 0x56, 0x4F, 0x4C, 0x55, 0x4D, 0x45,
    ];
    assert(r@ =~= volume_identifier());
    r
}

/// Appends the descriptor of a volume of `total_blocks` blocks whose root
/// directory is `root_size` bytes at block `root_extent`.
pub fn write_primary_volume_descriptor(
    out: &mut Vec<u8>,
    total_blocks: u32,
    root_extent: u32,
    root_size: u32,
)
    ensures
        final(out)@ == old(out)@ + descriptor_bytes(total_blocks, root_extent, root_size),
{
    let mut block: Vec<u8> = vec![0u8; BLOCK_SIZE];
    block.set(TYPE_OFFSET, PRIMARY_VOLUME_DESCRIPTOR);
    let cd001 = standard_identifier_bytes();
    put_bytes(&mut block, STANDARD_IDENTIFIER_OFFSET, cd001.as_slice());
    block.set(VERSION_OFFSET, 1);
    let spaces: Vec<u8> = vec![0x20u8; IDENTIFIER_WIDTH];
    put_bytes(&mut block, SYSTEM_IDENTIFIER_OFFSET, spaces.as_slice());
    let system = system_identifier_bytes();
    put_bytes(&mut block, SYSTEM_IDENTIFIER_OFFSET, system.as_slice());
    put_bytes(&mut block, VOLUME_IDENTIFIER_OFFSET, spaces.as_slice());
    let volume = volume_identifier_bytes();
    put_bytes(&mut block, VOLUME_IDENTIFIER_OFFSET, volume.as_slice());
    let total = u32_to_le_bytes(total_blocks);
    put_bytes(&mut block, VOLUME_SPACE_SIZE_OFFSET, total.as_slice());
    let one = u16_to_le_bytes(1);
    put_bytes(&mut block, VOLUME_SET_SIZE_OFFSET, one.as_slice());
    put_bytes(&mut block, VOLUME_SEQUENCE_NUMBER_OFFSET, one.as_slice());
    let block_size = u16_to_le_bytes(2048);
    put_bytes(&mut block, LOGICAL_BLOCK_SIZE_OFFSET, block_size.as_slice());
    let root_name: Vec<u8> = vec![0u8];
    assert(root_name@ =~= root_identifier());
    let root = encode_record(root_name.as_slice(), root_extent, root_size, true);
    put_bytes(&mut block, ROOT_RECORD_OFFSET, root.as_slice());
    assert(block@ =~= descriptor_bytes(total_blocks, root_extent, root_size));
    extend_from(out, block.as_slice());
}

impl PrimaryVolumeDescriptor {
    /// Decodes the descriptor block `data`; `None` unless it is a primary descriptor.
    pub fn from_bytes(data: &[u8]) -> (r: Option<PrimaryVolumeDescriptor>)
        requires
            data@.len() >= BLOCK_SIZE,
        ensures
            r is Some <==> data@[0] == PRIMARY_VOLUME_DESCRIPTOR,
            r matches Some(p) ==> {
                &&& p.descriptor_type == data@[0]
                &&& p.standard_identifier@ == data@.subrange(1, 6)
                &&& p.version == data@[6]
                &&& p.volume_space_size == spec_u32_at(data@, 80)
                &&& p.logical_block_size == spec_u16_from_le_bytes(data@.subrange(128, 130))
                &&& p.root_directory_extent == spec_u32_at(data@, 158)
                &&& p.root_directory_size == spec_u32_at(data@, 166)
            },
    {
        let descriptor_type = data[TYPE_OFFSET];
        if descriptor_type != PRIMARY_VOLUME_DESCRIPTOR {
            return None;
        }
        let mut standard_identifier: Vec<u8> = Vec::new();
        let mut j: usize = 0;
        while j < 5
            invariant
                j <= 5,
                data@.len() >= BLOCK_SIZE,
                standard_identifier@ == data@.subrange(1, 1 + j),
            decreases 5 - j,
        {
            standard_identifier.push(data[STANDARD_IDENTIFIER_OFFSET + j]);
            j = j + 1;
            assert(standard_identifier@ =~= data@.subrange(1, 1 + j));
        }
        let logical_block_size = u16_from_le_bytes(
            slice_subrange(data, LOGICAL_BLOCK_SIZE_OFFSET, LOGICAL_BLOCK_SIZE_OFFSET + 2),
        );
        Some(
            PrimaryVolumeDescriptor {
                descriptor_type,
                standard_identifier,
                version: data[VERSION_OFFSET],
                volume_space_size: read_u32_le(data, VOLUME_SPACE_SIZE_OFFSET),
                logical_block_size,
                root_directory_extent: read_u32_le(data, ROOT_EXTENT_OFFSET),
                root_directory_size: read_u32_le(data, ROOT_SIZE_OFFSET),
            },
        )
    }
}

/// Decoding an encoded descriptor finds a primary descriptor with the standard
/// identifier `CD001`, the same block total, a 2048-byte logical block, and the
/// same root directory extent and size.
pub proof fn lemma_descriptor_round_trip(total_blocks: u32, root_extent: u32, root_size: u32)
    ensures
        ({
            let data = descriptor_bytes(total_blocks, root_extent, root_size);
            &&& data.len() == BLOCK_SIZE
            &&& data[0] == PRIMARY_VOLUME_DESCRIPTOR
            &&& data.subrange(1, 6) == standard_identifier()
            &&& spec_u32_at(data, 80) == total_blocks
            &&& spec_u16_from_le_bytes(data.subrange(128, 130)) == 2048
            &&& spec_u32_at(data, 158) == root_extent
            &&& spec_u32_at(data, 166) == root_size
        }),
{
    let data = descriptor_bytes(total_blocks, root_extent, root_size);
    let root = record_bytes(root_identifier(), root_extent, root_size, true);
    lemma_auto_spec_u32_to_from_le_bytes();
    lemma_auto_spec_u16_to_from_le_bytes();
    assert(data.subrange(1, 6) =~= standard_identifier());
    assert(data.subrange(80, 84) =~= spec_u32_to_le_bytes(total_blocks));
    assert(data.subrange(128, 130) =~= spec_u16_to_le_bytes(2048));
    assert(data.subrange(158, 162) =~= root.subrange(2, 6));
    assert(root.subrange(2, 6) =~= spec_u32_to_le_bytes(root_extent));
    assert(data.subrange(166, 170) =~= root.subrange(10, 14));
    assert(root.subrange(10, 14) =~= spec_u32_to_le_bytes(root_size));
}

} // verus!
