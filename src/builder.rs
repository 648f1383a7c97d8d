//! The image builder: a sizing pass over the source tree, then a depth-first
//! write pass that lays out each directory's records followed by the data of
//! its children.
//!
//! The source tree is captured once, so the sizing pass and the write pass see
//! the same entries: a restricted entry is left out of both. Each directory's
//! blocks are reserved when the directory is reached and its listing is
//! written into them once all its children have landed.

use vstd::prelude::*;
use vstd::slice::slice_subrange;
use crate::allocator::BlockAllocator;
use crate::error::IsoError;
use crate::layout::{
    blocks_needed, extend_from, pad_to_block, padding_to_block, push_zeros, put_bytes, spec_blocks_needed,
    BLOCK_SIZE, DESCRIPTOR_BLOCK, FIRST_DATA_BLOCK,
};
use crate::progress::{lemma_percent_complete, reports_ordered, saturating_sum, ProgressLog};
use crate::placement::{
    DOT_RECORD_LENGTH, child_extent, child_record, directory_fits, directory_image, directory_size, entries_blocks, entries_fit, entries_image, entry_blocks, entry_fits, entry_image, entry_name, file_extent_bytes, is_listed, lemma_entries_prefix, lemma_listing_prefix_bounded, lemma_owed_room, lemma_padded_length, listing_bytes, listing_length, listing_prefix, names_fit, pack_record, packed_length, parent_or_self, subtree_blocks, zeros,
};
use crate::record::{encode_record, MAX_IDENTIFIER_LENGTH};
use crate::tree::{calculate_total_size, entries_size, entry_size, SourceEntry};
use crate::volume::{descriptor_bytes, write_primary_volume_descriptor};

verus! {

/// Length of the listing of a directory with entries `children`. Fails with
/// `NameTooLong` when a listed name does not fit in one record.
pub fn listing_size(children: &Vec<SourceEntry>) -> (r: Result<usize, IsoError>)
    ensures
        r matches Ok(n) ==> n == listing_length(children@) && names_fit(children@),
        r matches Err(e) ==> e == IsoError::NameTooLong || e == IsoError::ImageTooLarge,
        !names_fit(children@) ==> r is Err,
        names_fit(children@) && listing_length(children@) + 2 * BLOCK_SIZE <= usize::MAX ==> r is Ok,
{
    let mut total: usize = 2 * DOT_RECORD_LENGTH;
    let mut i: usize = 0;
    while i < children.len()
        invariant
            i <= children@.len(),
            total == listing_prefix(children@, i as int),
            names_fit(children@.subrange(0, i as int)),
        decreases children@.len() - i,
    {
        let name_length: usize = match &children[i] {
            SourceEntry::File { name, .. } => {
                let l = name.as_str().as_bytes().len();
                assert(l == entry_name(children@[i as int]).len());
                l
            },
            SourceEntry::Directory { name, .. } => {
                let l = name.as_str().as_bytes().len();
                assert(l == entry_name(children@[i as int]).len());
                l
            },
            SourceEntry::Denied { .. } => 0,
        };
        let listed = !matches!(children[i], SourceEntry::Denied { .. });
        proof {
            lemma_listing_prefix_bounded(children@, i as int);
        }
        if listed {
            if name_length > MAX_IDENTIFIER_LENGTH {
                return Err(IsoError::NameTooLong);
            }
            if total > usize::MAX - 2 * BLOCK_SIZE {
                return Err(IsoError::ImageTooLarge);
            }
            let length = 34 + name_length + name_length % 2;
            if total % BLOCK_SIZE + length > BLOCK_SIZE {
                total = total + padding_to_block(total);
            }
            total = total + length;
        }
        proof {
            assert forall|j: int|
                0 <= j < i + 1 && is_listed(children@.subrange(0, i + 1)[j]) implies #[trigger] entry_name(
                children@.subrange(0, i + 1)[j],
            ).len() <= MAX_IDENTIFIER_LENGTH by {
                if j < i {
                    assert(children@.subrange(0, i as int)[j] == children@.subrange(0, i + 1)[j]);
                }
            }
        }
        i = i + 1;
    }
    assert(children@.subrange(0, i as int) =~= children@);
    Ok(total)
}

/// Appends `record` to a directory listing, first padding the listing to the
/// next block boundary when the record would otherwise cross it.
pub fn push_record(listing: &mut Vec<u8>, record: &[u8])
    requires
        record@.len() <= BLOCK_SIZE,
        old(listing)@.len() + 2 * BLOCK_SIZE <= usize::MAX,
    ensures
        final(listing)@ == pack_record(old(listing)@, record@),
        final(listing)@.len() == packed_length(old(listing)@.len() as int, record@.len() as int),
{
    let len = listing.len();
    if len % BLOCK_SIZE + record.len() > BLOCK_SIZE {
        push_zeros(listing, padding_to_block(len));
    }
    extend_from(listing, record);
}

/// Appends the contents of a file in block-sized chunks, reporting progress
/// after each chunk, then pads the image to the next block boundary.
pub fn write_file_data(image: &mut Vec<u8>, contents: &Vec<u8>, progress: &mut ProgressLog)
    requires
        old(image)@.len() % 2048 == 0,
        old(progress).wf(),
    ensures
        final(image)@ == old(image)@ + file_extent_bytes(contents@),
        final(progress).wf(),
        final(progress).total() == old(progress).total(),
        final(progress).processed() == saturating_sum(
            old(progress).processed() as int,
            contents@.len() as int,
        ),
{
    let ghost start = image@;
    let n = contents.len();
    let mut written: usize = 0;
    proof {
        progress.lemma_processed_bounded();
    }
    while written < n
        invariant
            written <= n,
            n == contents@.len(),
            image@ == start + contents@.subrange(0, written as int),
            progress.wf(),
            progress.total() == old(progress).total(),
            progress.processed() == saturating_sum(old(progress).processed() as int, written as int),
        decreases n - written,
    {
        let end = if n - written > BLOCK_SIZE {
            written + BLOCK_SIZE
        } else {
            n
        };
        let chunk = slice_subrange(contents.as_slice(), written, end);
        extend_from(image, chunk);
        progress.advance((end - written) as u64);
        assert(image@ =~= start + contents@.subrange(0, end as int));
        written = end;
    }
    assert(contents@.subrange(0, n as int) =~= contents@);
    assert(image@.len() == start.len() + n);
    assert((start.len() + n) % 2048 == n % 2048) by {
        assert(start.len() % 2048 == 0);
    }
    pad_to_block(image, image.len());
    assert(image@ =~= start + file_extent_bytes(contents@));
}

/// Writes a directory with entries `children` at the end of `image`, whose
/// length is a whole number of blocks: its listing's blocks first, then the
/// data of each listed child in order, subdirectories depth-first. `parent`
/// is the extent and size of the parent directory; the root, which has none,
/// is its own parent. Returns the directory's extent and size.
///
/// The listing holds the self and parent records, then one record per listed
/// child in the source order. Restricted entries get no record and no space.
pub fn write_directory(
    image: &mut Vec<u8>,
    children: &Vec<SourceEntry>,
    parent: Option<(u32, u32)>,
    alloc: &mut BlockAllocator,
    progress: &mut ProgressLog,
) -> (r: Result<(u32, u32), IsoError>)
    requires
        old(image)@.len() == old(alloc).cursor() * 2048,
        old(progress).wf(),
    ensures
        r is Ok ==> final(image)@.len() == final(alloc).cursor() * 2048,
        r is Ok ==> final(alloc).cursor() == old(alloc).cursor() + subtree_blocks(children@),
        r is Ok ==> directory_fits(children@),
        r is Ok ==> final(progress).processed() == saturating_sum(
            old(progress).processed() as int,
            entries_size(children@) as int,
        ),
        r is Ok ==> final(image)@ == old(image)@ + directory_image(
            children@,
            old(alloc).cursor() as int,
            parent_or_self(parent, old(alloc).cursor() as int, children@),
        ),
        final(progress).wf(),
        final(progress).total() == old(progress).total(),
        r matches Ok((extent, size)) ==> {
            &&& extent * 2048 == old(image)@.len()
            &&& size == directory_size(children@)
            &&& names_fit(children@)
            &&& final(image)@.len() == old(image)@.len() + subtree_blocks(children@) * 2048
            &&& final(image)@.subrange(0, old(image)@.len() as int) == old(image)@
        },
        r matches Err(e) ==> e == IsoError::NameTooLong || e == IsoError::ImageTooLarge,
        !names_fit(children@) ==> r is Err,
        directory_fits(children@) && old(alloc).cursor() + subtree_blocks(children@) <= u32::MAX
            && old(image)@.len() + subtree_blocks(children@) * 2048 + 2 * BLOCK_SIZE
            <= usize::MAX ==> r is Ok,
    decreases children@,
{
    let ghost owed = directory_fits(children@) && alloc.cursor() + subtree_blocks(children@)
        <= u32::MAX && image@.len() + subtree_blocks(children@) * 2048 + 2 * BLOCK_SIZE
        <= usize::MAX;
    let ghost first = alloc.cursor();
    proof {
        lemma_listing_prefix_bounded(children@, 0);
    }
    let listing_len = listing_size(children)?;
    let blocks = blocks_needed(listing_len as u64);
    let base = image.len();
    if !alloc.can_allocate(listing_len as u64) || blocks > (u32::MAX / 2048) as u64 {
        return Err(IsoError::ImageTooLarge);
    }
    let extent = alloc.allocate(listing_len as u64);
    let size = (blocks * 2048) as u32;
    if size as usize > usize::MAX - base || listing_len > usize::MAX - 2 * BLOCK_SIZE {
        return Err(IsoError::ImageTooLarge);
    }
    let ghost earlier = image@;
    push_zeros(image, size as usize);
    let (parent_extent, parent_size) = match parent {
        Some(p) => p,
        None => (extent, size),
    };
    let ghost par = parent_or_self(parent, first as int, children@);
    proof {
        progress.lemma_processed_bounded();
    }
    let dot: Vec<u8> = vec![0x2Eu8];
    let dot_dot: Vec<u8> = vec![0x2Eu8, 0x2E];
    assert(dot@ =~= seq![0x2Eu8]);
    assert(dot_dot@ =~= seq![0x2Eu8, 0x2E]);
    let mut listing: Vec<u8> = Vec::new();
    let self_record = encode_record(dot.as_slice(), extent, size, true);
    push_record(&mut listing, self_record.as_slice());
    let parent_record = encode_record(dot_dot.as_slice(), parent_extent, parent_size, true);
    push_record(&mut listing, parent_record.as_slice());
    proof {
        assert(children@.subrange(0, 0) =~= Seq::<SourceEntry>::empty());
        assert(image@ =~= earlier + zeros(size as int) + entries_image(
            children@.subrange(0, 0),
            first + spec_blocks_needed(listing_length(children@)),
            (extent, size),
        ));
    }
    let mut i: usize = 0;
    while i < children.len()
        invariant
            i <= children@.len(),
            base == earlier.len(),
            base % 2048 == 0,
            extent * 2048 == base,
            size == directory_size(children@),
            listing_len == listing_length(children@),
            listing_len + 2 * BLOCK_SIZE <= usize::MAX,
            names_fit(children@),
            listing@.len() == listing_prefix(children@, i as int),
            image@.len() == base + size + entries_blocks(children@.subrange(0, i as int)) * 2048,
            image@.len() == alloc.cursor() * 2048,
            base == first * 2048,
            first == old(alloc).cursor(),
            owed == (directory_fits(children@) && old(alloc).cursor() + subtree_blocks(children@)
                <= u32::MAX && old(image)@.len() + subtree_blocks(children@) * 2048 + 2
                * BLOCK_SIZE <= usize::MAX),
            entries_fit(children@.subrange(0, i as int)),
            progress.processed() == saturating_sum(
                old(progress).processed() as int,
                entries_size(children@.subrange(0, i as int)) as int,
            ),
            extent == first,
            par == parent_or_self(parent, first as int, children@),
            listing@ == listing_bytes(children@, first as int, par, i as int),
            image@ == earlier + zeros(size as int) + entries_image(
                children@.subrange(0, i as int),
                first + spec_blocks_needed(listing_length(children@)),
                (extent, size),
            ),
            spec_blocks_needed(listing_length(children@)) <= u32::MAX / 2048,
            alloc.cursor() == first + spec_blocks_needed(listing_length(children@)) + entries_blocks(
                children@.subrange(0, i as int),
            ),
            owed ==> directory_fits(children@) && first + subtree_blocks(children@) <= u32::MAX
                && base + subtree_blocks(children@) * 2048 + 2 * BLOCK_SIZE <= usize::MAX,
            image@.subrange(0, base as int) == earlier,
            progress.wf(),
            progress.total() == old(progress).total(),
        decreases children@.len() - i,
    {
        proof {
            lemma_listing_prefix_bounded(children@, i as int + 1);
            let s = children@.subrange(0, i + 1);
            assert(s.subrange(0, s.len() - 1) =~= children@.subrange(0, i as int));
            assert(s[s.len() - 1] == children@[i as int]);
            assert(entries_blocks(s) == entries_blocks(children@.subrange(0, i as int))
                + entry_blocks(children@[i as int]));
            assert(entries_fit(s) == (entries_fit(children@.subrange(0, i as int)) && entry_fits(
                children@[i as int],
            )));
            assert(entries_size(s) == entries_size(children@.subrange(0, i as int)) + entry_size(
                children@[i as int],
            ));
            assert(entries_image(s, first + spec_blocks_needed(listing_length(children@)), (extent, size))
                == entries_image(
                children@.subrange(0, i as int),
                first + spec_blocks_needed(listing_length(children@)),
                (extent, size),
            ) + entry_image(
                children@[i as int],
                child_extent(children@, first as int, i as int),
                (extent, size),
            ));
            lemma_entries_prefix(children@, i as int);
        }
        let ghost before = image@;
        match &children[i] {
            SourceEntry::Denied { .. } => {
                assert(entry_size(children@[i as int]) == 0);
                assert(entry_blocks(children@[i as int]) == 0);
                assert(entry_fits(children@[i as int]));
                assert(image@ =~= image@ + entry_image(
                    children@[i as int],
                    child_extent(children@, first as int, i as int),
                    (extent, size),
                ));
            },
            SourceEntry::File { name, contents } => {
                proof {
                    if owed {
                        assert(entry_fits(children@[i as int]));
                        lemma_owed_room(children@, i as int, first as int);
                        assert(alloc.cursor() + spec_blocks_needed(contents@.len() as int)
                            <= u32::MAX);
                    }
                }
                if contents.len() > u32::MAX as usize || !alloc.can_allocate(contents.len() as u64) {
                    return Err(IsoError::ImageTooLarge);
                }
                let file_block = alloc.allocate(contents.len() as u64);
                assert(entry_fits(children@[i as int]));
                assert(is_listed(children@[i as int]));
                let name_bytes = name.as_str().as_bytes();
                write_file_data(image, contents, progress);
                proof {
                    assert(entry_size(children@[i as int]) == contents@.len());
                    lemma_padded_length(contents@.len());
                    assert(entry_blocks(children@[i as int]) == spec_blocks_needed(
                        contents@.len() as int,
                    ));
                }
                let record = encode_record(
                    name_bytes,
                    file_block,
                    contents.len() as u32,
                    false,
                );
                assert(record@ == child_record(children@, first as int, i as int));
                push_record(&mut listing, record.as_slice());
                assert(image@.subrange(0, before.len() as int) =~= before);
            },
            SourceEntry::Directory { name, children: entries } => {
                assert(decreases_to!(children@ => children@[i as int]));
                assert(is_listed(children@[i as int]));
                proof {
                    if owed {
                        assert(entry_fits(children@[i as int]));
                        assert(directory_fits(entries@));
                        assert(entry_blocks(children@[i as int]) == subtree_blocks(entries@));
                        lemma_owed_room(children@, i as int, first as int);
                        assert(alloc.cursor() + subtree_blocks(entries@) <= u32::MAX);
                        assert(image@.len() + subtree_blocks(entries@) * 2048 + 2 * BLOCK_SIZE
                            <= usize::MAX);
                    }
                }
                let name_bytes = name.as_str().as_bytes();
                let (sub_extent, sub_size) = write_directory(
                    image,
                    entries,
                    Some((extent, size)),
                    alloc,
                    progress,
                )?;
                assert(entry_blocks(children@[i as int]) == subtree_blocks(entries@));
                assert(entry_size(children@[i as int]) == entries_size(entries@));
                assert(entry_fits(children@[i as int]));
                let record = encode_record(name_bytes, sub_extent, sub_size, true);
                assert(record@ == child_record(children@, first as int, i as int));
                push_record(&mut listing, record.as_slice());
            },
        }
        assert(image@.subrange(0, base as int) =~= before.subrange(0, base as int));
        i = i + 1;
    }
    proof {
        lemma_listing_prefix_bounded(children@, children@.len() as int);
        assert(children@.subrange(0, i as int) =~= children@);
    }
    let ghost entries_part = entries_image(
        children@,
        first + spec_blocks_needed(listing_length(children@)),
        (extent, size),
    );
    assert(image@ == earlier + zeros(size as int) + entries_part);
    put_bytes(image, base, listing.as_slice());
    assert(image@.subrange(0, base as int) =~= earlier);
    assert(image@ =~= earlier + directory_image(children@, first as int, par));
    Ok((extent, size))
}

/// A finished image and what was reported while building it.
pub struct BuiltImage {
    /// The image, a whole number of blocks.
    pub bytes: Vec<u8>,
    /// Byte total of the regular files that the sizing pass counted.
    pub total_size: u64,
    /// Progress percentages reported after each chunk of file data, oldest first.
    pub progress: Vec<u8>,
}

/// Builds an image from the entries of the source root directory.
///
/// The image holds the system area and the primary volume descriptor at block
/// 16, the root directory at block 20, and behind it every directory listing
/// and file extent in depth-first order. The descriptor declares the image's
/// actual block count. Fails when a listed name does not fit in a record or the
/// image would not be addressable with 32-bit block numbers.
pub fn build_image(root: &Vec<SourceEntry>) -> (r: Result<BuiltImage, IsoError>)
    ensures
        r matches Ok(b) ==> {
            &&& b.total_size == entries_size(root@)
            &&& b.bytes@.len() == (FIRST_DATA_BLOCK + subtree_blocks(root@)) * 2048
            &&& b.bytes@.len() >= (FIRST_DATA_BLOCK + 1) * 2048
            &&& b.bytes@.len() / 2048 <= u32::MAX
            &&& b.bytes@ == zeros(16 * 2048int) + descriptor_bytes(
                (FIRST_DATA_BLOCK + subtree_blocks(root@)) as u32,
                FIRST_DATA_BLOCK,
                directory_size(root@) as u32,
            ) + zeros(3 * 2048int) + directory_image(
                root@,
                FIRST_DATA_BLOCK as int,
                (FIRST_DATA_BLOCK, directory_size(root@) as u32),
            )
            &&& reports_ordered(b.progress@)
            &&& b.progress@.len() > 0 ==> b.progress@.last() == 100
        },
        r matches Err(e) ==> e == IsoError::NameTooLong || e == IsoError::ImageTooLarge,
        r is Ok ==> directory_fits(root@) && entries_size(root@) <= u64::MAX && FIRST_DATA_BLOCK
            + subtree_blocks(root@) <= u32::MAX,
        directory_fits(root@) && entries_size(root@) <= u64::MAX && FIRST_DATA_BLOCK
            + subtree_blocks(root@) <= u32::MAX && (FIRST_DATA_BLOCK + subtree_blocks(root@)) * 2048
            + 2 * BLOCK_SIZE <= usize::MAX ==> r is Ok,
{
    let total_size = match calculate_total_size(root) {
        Some(t) => t,
        None => {
            return Err(IsoError::ImageTooLarge);
        },
    };
    let mut image: Vec<u8> = vec![0u8; FIRST_DATA_BLOCK as usize * BLOCK_SIZE];
    assert(image@ =~= zeros(20 * 2048int));
    let mut progress = ProgressLog::new(total_size);
    let mut alloc = BlockAllocator::new(FIRST_DATA_BLOCK);
    let (root_extent, root_size) = write_directory(
        &mut image,
        root,
        None,
        &mut alloc,
        &mut progress,
    )?;
    proof {
        lemma_listing_prefix_bounded(root@, 0);
    }
    let blocks = image.len() / BLOCK_SIZE;
    if blocks > u32::MAX as usize {
        return Err(IsoError::ImageTooLarge);
    }
    let mut descriptor: Vec<u8> = Vec::new();
    write_primary_volume_descriptor(&mut descriptor, blocks as u32, root_extent, root_size);
    assert(descriptor@ =~= descriptor_bytes(blocks as u32, root_extent, root_size));
    put_bytes(&mut image, DESCRIPTOR_BLOCK as usize * BLOCK_SIZE, descriptor.as_slice());
    assert(image@ =~= zeros(16 * 2048int) + descriptor_bytes(blocks as u32, root_extent, root_size)
        + zeros(3 * 2048int) + directory_image(
        root@,
        FIRST_DATA_BLOCK as int,
        (FIRST_DATA_BLOCK, directory_size(root@) as u32),
    ));
    proof {
        lemma_percent_complete(total_size as nat);
    }
    let progress_reports = progress.into_reports();
    Ok(BuiltImage { bytes: image, total_size, progress: progress_reports })
}

} // verus!
