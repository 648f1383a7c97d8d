//! The image reader: walks the directory hierarchy depth-first from the root
//! extent that the primary volume descriptor gives, and lists every entry.

use vstd::prelude::*;
use vstd::slice::slice_subrange;
use crate::error::IsoError;
use crate::layout::{
    blocks_needed, spec_blocks_needed, BLOCK_SIZE, DESCRIPTOR_BLOCK, PRIMARY_VOLUME_DESCRIPTOR,
    VOLUME_DESCRIPTOR_TERMINATOR,
};
use crate::layout::spec_u32_at;
use crate::record::{
    decodes_to, identifier_bytes, record_decodes, strip_version, DirectoryRecord, DIRECTORY_FLAG,
};
use vstd::utf8::decode_utf8;
use crate::volume::PrimaryVolumeDescriptor;

verus! {

/// Number of descriptor blocks, from block 16 on, that the reader examines.
pub const MAX_DESCRIPTORS: usize = 32;

/// Where the descriptor scan from block `k` finds the primary volume
/// descriptor. Descriptors of other types are skipped; a terminator ends the
/// scan, as does running out of image or reaching the examined limit.
pub open spec fn descriptor_scan(image: Seq<u8>, k: int) -> Result<int, IsoError>
    decreases 16 + MAX_DESCRIPTORS - k,
{
    if k >= 16 + MAX_DESCRIPTORS {
        Err(IsoError::NotPrimaryDescriptor)
    } else if (k + 1) * 2048 > image.len() {
        Err(IsoError::OutOfBounds)
    } else if image[k * 2048] == PRIMARY_VOLUME_DESCRIPTOR {
        Ok(k)
    } else if image[k * 2048] == VOLUME_DESCRIPTOR_TERMINATOR {
        Err(IsoError::NotPrimaryDescriptor)
    } else {
        descriptor_scan(image, k + 1)
    }
}

/// Finds the block of the primary volume descriptor, scanning from block 16.
pub fn find_primary_descriptor(image: &[u8]) -> (r: Result<usize, IsoError>)
    ensures
        r matches Ok(k) ==> descriptor_scan(image@, 16) == Ok::<int, IsoError>(k as int),
        r matches Err(e) ==> descriptor_scan(image@, 16) == Err::<int, IsoError>(e),
        r matches Ok(k) ==> (k + 1) * 2048 <= image@.len() && k < 16 + MAX_DESCRIPTORS
            && image@[k * 2048] == PRIMARY_VOLUME_DESCRIPTOR,
{
    let n = image.len();
    let mut k: usize = DESCRIPTOR_BLOCK as usize;
    while k < 16 + MAX_DESCRIPTORS
        invariant
            16 <= k <= 16 + MAX_DESCRIPTORS,
            n == image@.len(),
            descriptor_scan(image@, k as int) == descriptor_scan(image@, 16),
        decreases 16 + MAX_DESCRIPTORS - k,
    {
        if (k + 1) * BLOCK_SIZE > n {
            return Err(IsoError::OutOfBounds);
        }
        let descriptor_type = image[k * BLOCK_SIZE];
        if descriptor_type == PRIMARY_VOLUME_DESCRIPTOR {
            return Ok(k);
        }
        if descriptor_type == VOLUME_DESCRIPTOR_TERMINATOR {
            return Err(IsoError::NotPrimaryDescriptor);
        }
        k = k + 1;
    }
    Err(IsoError::NotPrimaryDescriptor)
}

/// Deepest nesting below the root that the reader follows. The self and parent
/// entries are never descended into; this bound also ends a walk through an
/// image whose other records lead back to a directory already being listed.
pub const MAX_DEPTH: usize = 64;

/// Offsets of the records of `block` from offset `off` on. A scan moves by
/// each record's own length and ends at a zero record length or at the end
/// of the block.
pub open spec fn record_offsets(block: Seq<u8>, off: int) -> Seq<int>
    decreases
            if off <= block.len() {
                block.len() - off
            } else {
                0
            },
{
    if off < 0 || off >= block.len() || block[off] == 0 {
        Seq::empty()
    } else {
        seq![off] + record_offsets(block, off + block[off])
    }
}

/// Every offset that the scan reaches from `off` lies in the block, at or after `off`.
pub proof fn lemma_offsets_in_block(block: Seq<u8>, off: int)
    ensures
        forall|k: int|
            0 <= k < record_offsets(block, off).len() ==> off <= #[trigger] record_offsets(
                block,
                off,
            )[k] < block.len(),
    decreases
            if off <= block.len() {
                block.len() - off
            } else {
                0
            },
{
    if !(off < 0 || off >= block.len() || block[off] == 0) {
        lemma_offsets_in_block(block, off + block[off]);
        let rest = record_offsets(block, off + block[off]);
        assert forall|k: int| 0 <= k < record_offsets(block, off).len() implies off
            <= #[trigger] record_offsets(block, off)[k] < block.len() by {
            if k > 0 {
                assert(record_offsets(block, off)[k] == rest[k - 1]);
            }
        }
    }
}

/// Every record that the scan of `block` reaches can be decoded.
pub open spec fn block_decodes(block: Seq<u8>) -> bool {
    forall|k: int|
        0 <= k < record_offsets(block, 0).len() ==> record_decodes(
            #[trigger] block.subrange(record_offsets(block, 0)[k], block.len() as int),
        )
}

/// The identifier of the self or the parent entry.
pub open spec fn is_self_or_parent(name: Seq<char>) -> bool {
    name == seq!['.'] || name == seq!['.', '.']
}

/// Whether `name` is `.` or `..`.
pub fn self_or_parent(name: &str) -> (r: bool)
    ensures
        r == is_self_or_parent(name@),
{
    let n = name.unicode_len();
    if n == 1 {
        let r = name.get_char(0) == '.';
        assert(r ==> name@ =~= seq!['.']);
        r
    } else if n == 2 {
        let r = name.get_char(0) == '.' && name.get_char(1) == '.';
        assert(r ==> name@ =~= seq!['.', '.']);
        r
    } else {
        false
    }
}

/// Whether the reader descends into the entry of `record`: only directories,
/// and never the self or parent entry, whatever its flags say.
pub fn descends_into(record: &DirectoryRecord) -> (r: bool)
    ensures
        r == (record.is_directory && !is_self_or_parent(record.file_name@)),
        is_self_or_parent(record.file_name@) ==> !r,
{
    record.is_directory && !self_or_parent(record.file_name.as_str())
}

/// When the scan has reached every offset, what it decoded is the scan's result.
proof fn lemma_scan_done(
    block: Seq<u8>,
    offsets: Seq<int>,
    done: Seq<int>,
    records: Seq<DirectoryRecord>,
)
    requires
        offsets == record_offsets(block, 0),
        offsets == done,
        records.len() == done.len(),
        forall|k: int| 0 <= k < offsets.len() ==> 0 <= #[trigger] offsets[k] < block.len(),
        forall|k: int|
            0 <= k < done.len() ==> record_decodes(
                #[trigger] block.subrange(done[k], block.len() as int),
            ) && decodes_to(block.subrange(done[k], block.len() as int), records[k]),
    ensures
        block_decodes(block),
        forall|k: int|
            0 <= k < records.len() ==> decodes_to(
                block.subrange(record_offsets(block, 0)[k], block.len() as int),
                #[trigger] records[k],
            ),
{
    assert forall|k: int| 0 <= k < record_offsets(block, 0).len() implies record_decodes(
        #[trigger] block.subrange(record_offsets(block, 0)[k], block.len() as int),
    ) by {
        assert(offsets[k] == done[k]);
    }
    assert forall|k: int| 0 <= k < records.len() implies decodes_to(
        block.subrange(record_offsets(block, 0)[k], block.len() as int),
        #[trigger] records[k],
    ) by {
        assert(offsets[k] == done[k]);
    }
}

/// Decodes the records of one directory block, in order.
pub fn scan_block(block: &[u8]) -> (r: Result<Vec<DirectoryRecord>, IsoError>)
    ensures
        r is Ok <==> block_decodes(block@),
        r is Err ==> r == Err::<Vec<DirectoryRecord>, IsoError>(IsoError::MalformedRecord),
        r matches Ok(records) ==> {
            &&& records@.len() == record_offsets(block@, 0).len()
            &&& forall|k: int|
                0 <= k < records@.len() ==> decodes_to(
                    block@.subrange(record_offsets(block@, 0)[k], block@.len() as int),
                    #[trigger] records@[k],
                )
        },
{
    let ghost offsets = record_offsets(block@, 0);
    let ghost mut done: Seq<int> = Seq::empty();
    let mut records: Vec<DirectoryRecord> = Vec::new();
    let mut offset: usize = 0;
    let n = block.len();
    proof {
        lemma_offsets_in_block(block@, 0);
    }
    loop
        invariant
            n == block@.len(),
            offsets == record_offsets(block@, 0),
            forall|k: int| 0 <= k < offsets.len() ==> 0 <= #[trigger] offsets[k] < n,
            forall|k: int| 0 <= k < done.len() ==> 0 <= #[trigger] done[k] < n,
            offset <= n,
            offsets == done + record_offsets(block@, offset as int),
            records@.len() == done.len(),
            forall|k: int|
                0 <= k < done.len() ==> record_decodes(
                    #[trigger] block@.subrange(done[k], block@.len() as int),
                ) && decodes_to(block@.subrange(done[k], block@.len() as int), records@[k]),
        decreases n - offset,
    {
        if offset >= n {
            assert(record_offsets(block@, offset as int) =~= Seq::<int>::empty());
            assert(offsets =~= done);
            proof {
                lemma_scan_done(block@, offsets, done, records@);
            }
            return Ok(records);
        }
        let data = slice_subrange(block, offset, n);
        match DirectoryRecord::from_bytes(data) {
            Err(e) => {
                assert(offsets[done.len() as int] == offset);
                assert(!record_decodes(block@.subrange(offsets[done.len() as int], n as int)));
                return Err(e);
            },
            Ok(None) => {
                assert(record_offsets(block@, offset as int) =~= Seq::<int>::empty());
                assert(offsets =~= done);
                proof {
                    lemma_scan_done(block@, offsets, done, records@);
                }
                return Ok(records);
            },
            Ok(Some(record)) => {
                let step = block[offset] as usize;
                proof {
                    assert(seq![offset as int] + record_offsets(block@, offset + step) =~= record_offsets(
                        block@,
                        offset as int,
                    ));
                    done = done.push(offset as int);
                    assert(offsets =~= done + record_offsets(block@, offset + step));
                    assert(block@.subrange(done[done.len() - 1], n as int) == data@);
                }
                records.push(record);
                offset = if step > n - offset {
                    n
                } else {
                    offset + step
                };
                proof {
                    if offset == n {
                        assert(record_offsets(block@, offset as int) =~= Seq::<int>::empty());
                    }
                }
            },
        }
    }
}

/// What a record says, as plain values: its name without the version suffix,
/// its directory flag, its extent and its data length.
pub type RecordView = (Seq<char>, bool, u32, u32);

/// What the record at the start of `data` says.
pub open spec fn record_view(data: Seq<u8>) -> RecordView {
    (
        strip_version(decode_utf8(identifier_bytes(data))),
        data[25] & DIRECTORY_FLAG != 0,
        spec_u32_at(data, 2),
        spec_u32_at(data, 10),
    )
}

/// What a decoded record says.
pub open spec fn view_of(rec: DirectoryRecord) -> RecordView {
    (rec.file_name@, rec.is_directory, rec.extent_location, rec.data_length)
}

/// What the records of one block say, in scan order.
pub open spec fn block_views(block: Seq<u8>) -> Seq<RecordView> {
    record_offsets(block, 0).map_values(|off: int| record_view(block.subrange(off, block.len() as int)))
}

/// Block `b` of the image.
pub open spec fn image_block(image: Seq<u8>, b: int) -> Seq<u8> {
    image.subrange(b * 2048, b * 2048 + 2048)
}

/// What the records of blocks `start .. start + n` say, block after block.
pub open spec fn directory_views(image: Seq<u8>, start: int, n: int) -> Seq<RecordView>
    decreases n,
{
    if n <= 0 {
        Seq::empty()
    } else {
        directory_views(image, start, n - 1) + block_views(image_block(image, start + n - 1))
    }
}

/// The `n` blocks from block `start` on lie inside the image.
pub open spec fn blocks_in_image(image: Seq<u8>, start: int, n: int) -> bool {
    (start + n) * 2048 <= image.len()
}

/// Every record that the scans of blocks `start .. start + n` reach can be decoded.
pub open spec fn directory_decodes(image: Seq<u8>, start: int, n: int) -> bool {
    forall|b: int| 0 <= b < n ==> block_decodes(#[trigger] image_block(image, start + b))
}

/// Decodes the records of the directory of `size` bytes at block `start_block`,
/// block after block.
pub fn read_records(image: &[u8], start_block: u32, size: u32) -> (r: Result<
    Vec<DirectoryRecord>,
    IsoError,
>)
    ensures
        ({
            let n = spec_blocks_needed(size as int);
            &&& !blocks_in_image(image@, start_block as int, n) ==> r == Err::<
                Vec<DirectoryRecord>,
                IsoError,
            >(IsoError::OutOfBounds)
            &&& blocks_in_image(image@, start_block as int, n) ==> (r is Ok <==> directory_decodes(
                image@,
                start_block as int,
                n,
            ))
            &&& blocks_in_image(image@, start_block as int, n) && r is Err ==> r == Err::<
                Vec<DirectoryRecord>,
                IsoError,
            >(IsoError::MalformedRecord)
            &&& r matches Ok(records) ==> records@.map_values(|rec: DirectoryRecord| view_of(rec))
                == directory_views(image@, start_block as int, n)
        }),
{
    let num_blocks = blocks_needed(size as u64);
    let image_size = image.len();
    let image_len = image_size as u64;
    if (start_block as u64 + num_blocks) * 2048 > image_len {
        return Err(IsoError::OutOfBounds);
    }
    let ghost n = num_blocks as int;
    let mut records: Vec<DirectoryRecord> = Vec::new();
    let mut b: u64 = 0;
    while b < num_blocks
        invariant
            b <= num_blocks,
            n == num_blocks,
            num_blocks == spec_blocks_needed(size as int),
            image_size == image@.len(),
            image_len == image_size,
            (start_block as u64 + num_blocks) * 2048 <= image_len,
            directory_decodes(image@, start_block as int, b as int),
            records@.map_values(|rec: DirectoryRecord| view_of(rec)) == directory_views(
                image@,
                start_block as int,
                b as int,
            ),
        decreases num_blocks - b,
    {
        let offset = ((start_block as u64 + b) * 2048) as usize;
        let block = slice_subrange(image, offset, offset + BLOCK_SIZE);
        assert(block@ =~= image_block(image@, start_block + b));
        let mut scanned = match scan_block(block) {
            Ok(v) => v,
            Err(e) => {
                assert(!block_decodes(image_block(image@, start_block as int + b as int)));
                assert(!directory_decodes(image@, start_block as int, n));
                return Err(e);
            },
        };
        let ghost prior = records@;
        let ghost found = scanned@;
        records.append(&mut scanned);
        proof {
            let blk = image_block(image@, start_block + b);
            lemma_offsets_in_block(blk, 0);
            assert(found.map_values(|rec: DirectoryRecord| view_of(rec)) =~= block_views(blk)) by {
                assert forall|k: int| 0 <= k < found.len() implies #[trigger] view_of(found[k])
                    == block_views(blk)[k] by {
                    let off = record_offsets(blk, 0)[k];
                    assert(decodes_to(blk.subrange(off, blk.len() as int), found[k]));
                }
            }
            assert(records@.map_values(|rec: DirectoryRecord| view_of(rec)) =~= prior.map_values(
                |rec: DirectoryRecord| view_of(rec),
            ) + found.map_values(|rec: DirectoryRecord| view_of(rec)));
            assert(directory_views(image@, start_block as int, b + 1) == directory_views(
                image@,
                start_block as int,
                b as int,
            ) + block_views(blk));
            assert forall|c: int| 0 <= c < b + 1 implies block_decodes(
                #[trigger] image_block(image@, start_block + c),
            ) by {
                if c < b {
                    assert(block_decodes(image_block(image@, start_block + c)));
                }
            }
        }
        b = b + 1;
    }
    Ok(records)
}

/// One entry of the listing of an image.
pub struct ListingEntry {
    /// Nesting below the root directory; entries of the root are at 0.
    pub depth: usize,
    /// Identifier without its version suffix.
    pub name: String,
    /// Whether the entry is a directory.
    pub is_directory: bool,
    /// Block where the entry's data begins.
    pub extent: u32,
    /// Length of the entry's data in bytes.
    pub size: u32,
}

/// One line of a listing, as plain values: its nesting depth and what its record says.
pub type EntryView = (int, RecordView);

/// What a listing entry says.
pub open spec fn entry_view(e: ListingEntry) -> EntryView {
    (e.depth as int, (e.name@, e.is_directory, e.extent, e.size))
}

/// The reader descends into a record's extent: a directory other than the
/// self and parent entries.
pub open spec fn spec_descends(v: RecordView) -> bool {
    v.1 && !is_self_or_parent(v.0)
}

/// `acc` followed by the listing `r`, or the error of `r`.
pub open spec fn after(acc: Seq<EntryView>, r: Result<Seq<EntryView>, IsoError>) -> Result<
    Seq<EntryView>,
    IsoError,
> {
    match r {
        Ok(rest) => Ok(acc + rest),
        Err(e) => Err(e),
    }
}

/// The listing of the directory of `size` bytes at block `start`, whose entries
/// lie at nesting `depth`: for each record in scan order, its entry followed
/// by the listing of its extent where the reader descends into it. The first
/// failure met on the way is the result.
pub open spec fn directory_listing(image: Seq<u8>, start: int, size: int, depth: int) -> Result<
    Seq<EntryView>,
    IsoError,
>
    decreases MAX_DEPTH - depth, 1int, 0int,
{
    let n = spec_blocks_needed(size);
    if depth < 0 || depth > MAX_DEPTH {
        Err(IsoError::NestingTooDeep)
    } else if !blocks_in_image(image, start, n) {
        Err(IsoError::OutOfBounds)
    } else if !directory_decodes(image, start, n) {
        Err(IsoError::MalformedRecord)
    } else {
        listing_from(image, directory_views(image, start, n), 0, depth)
    }
}

/// The listing of the records `views[i..]` of a directory at nesting `depth`.
pub open spec fn listing_from(image: Seq<u8>, views: Seq<RecordView>, i: int, depth: int) -> Result<
    Seq<EntryView>,
    IsoError,
>
    decreases MAX_DEPTH - depth, 0int, views.len() - i,
{
    if i < 0 || i >= views.len() || depth < 0 || depth > MAX_DEPTH {
        Ok(Seq::empty())
    } else {
        let v = views[i];
        let below = if !spec_descends(v) {
            Ok(Seq::empty())
        } else if depth >= MAX_DEPTH {
            Err(IsoError::NestingTooDeep)
        } else {
            directory_listing(image, v.2 as int, v.3 as int, depth + 1)
        };
        match below {
            Err(e) => Err(e),
            Ok(sub) => after(seq![(depth, v)] + sub, listing_from(image, views, i + 1, depth)),
        }
    }
}

/// Lists the directory of `size` bytes at block `start_block`, and below it
/// every subdirectory, depth-first, appending one entry per record to `out`,
/// as `directory_listing` says. Each of the directory's blocks is scanned from
/// its start, record by record, until a zero record length or the end of the
/// block.
pub fn read_directory(
    image: &[u8],
    start_block: u32,
    size: u32,
    depth: usize,
    out: &mut Vec<ListingEntry>,
) -> (r: Result<(), IsoError>)
    requires
        depth <= MAX_DEPTH,
    ensures
        r is Ok <==> directory_listing(image@, start_block as int, size as int, depth as int) is Ok,
        r matches Err(e) ==> directory_listing(image@, start_block as int, size as int, depth as int)
            == Err::<Seq<EntryView>, IsoError>(e),
        r is Ok ==> final(out)@.map_values(|e: ListingEntry| entry_view(e)) == old(out)@.map_values(
            |e: ListingEntry| entry_view(e),
        ) + directory_listing(image@, start_block as int, size as int, depth as int)->Ok_0,
    decreases MAX_DEPTH - depth,
{
    let records = read_records(image, start_block, size)?;
    let ghost views = records@.map_values(|rec: DirectoryRecord| view_of(rec));
    let ghost before = out@.map_values(|e: ListingEntry| entry_view(e));
    let ghost mut acc: Seq<EntryView> = Seq::empty();
    assert(after(acc, listing_from(image@, views, 0, depth as int)) =~= listing_from(
        image@,
        views,
        0,
        depth as int,
    )) by {
        if listing_from(image@, views, 0, depth as int) is Ok {
            assert(acc + listing_from(image@, views, 0, depth as int)->Ok_0 =~= listing_from(
                image@,
                views,
                0,
                depth as int,
            )->Ok_0);
        }
    }
    let mut i: usize = 0;
    while i < records.len()
        invariant
            i <= records@.len(),
            depth <= MAX_DEPTH,
            views == records@.map_values(|rec: DirectoryRecord| view_of(rec)),
            directory_listing(image@, start_block as int, size as int, depth as int) == listing_from(
                image@,
                views,
                0,
                depth as int,
            ),
            listing_from(image@, views, 0, depth as int) == after(
                acc,
                listing_from(image@, views, i as int, depth as int),
            ),
            out@.map_values(|e: ListingEntry| entry_view(e)) == before + acc,
        decreases records@.len() - i,
    {
        let record = &records[i];
        let ghost v = views[i as int];
        assert(v == view_of(*record));
        let ghost prior = out@;
        out.push(
            ListingEntry {
                depth,
                name: record.file_name.clone(),
                is_directory: record.is_directory,
                extent: record.extent_location,
                size: record.data_length,
            },
        );
        assert(out@.map_values(|e: ListingEntry| entry_view(e)) =~= prior.map_values(
            |e: ListingEntry| entry_view(e),
        ).push((depth as int, v)));
        let ghost mut sub: Seq<EntryView> = Seq::empty();
        if descends_into(record) {
            if depth >= MAX_DEPTH {
                return Err(IsoError::NestingTooDeep);
            }
            let ghost pushed = out@.map_values(|e: ListingEntry| entry_view(e));
            read_directory(image, record.extent_location, record.data_length, depth + 1, out)?;
            proof {
                sub = directory_listing(
                    image@,
                    record.extent_location as int,
                    record.data_length as int,
                    depth + 1,
                )->Ok_0;
                assert(out@.map_values(|e: ListingEntry| entry_view(e)) == pushed + sub);
            }
        }
        proof {
            let head = seq![(depth as int, v)] + sub;
            let rest = listing_from(image@, views, i + 1, depth as int);
            assert(listing_from(image@, views, i as int, depth as int) == after(head, rest));
            if rest is Ok {
                assert(acc + (head + rest->Ok_0) =~= (acc + head) + rest->Ok_0);
            }
            acc = acc + head;
            assert(out@.map_values(|e: ListingEntry| entry_view(e)) =~= before + acc);
        }
        i = i + 1;
    }
    proof {
        assert(acc + Seq::<EntryView>::empty() =~= acc);
    }
    Ok(())
}

/// The listing of an image: that of the root directory that the primary
/// volume descriptor found by `descriptor_scan` gives, at nesting 0.
pub open spec fn image_listing(image: Seq<u8>) -> Result<Seq<EntryView>, IsoError> {
    match descriptor_scan(image, 16) {
        Err(e) => Err(e),
        Ok(k) => directory_listing(
            image,
            spec_u32_at(image, k * 2048 + 158) as int,
            spec_u32_at(image, k * 2048 + 166) as int,
            0,
        ),
    }
}

/// Lists every entry of an image, depth-first from the root directory that the
/// primary volume descriptor gives, as `image_listing` says.
pub fn read_image(image: &[u8]) -> (r: Result<Vec<ListingEntry>, IsoError>)
    ensures
        r is Ok <==> image_listing(image@) is Ok,
        r matches Err(e) ==> image_listing(image@) == Err::<Seq<EntryView>, IsoError>(e),
        r matches Ok(entries) ==> entries@.map_values(|e: ListingEntry| entry_view(e))
            == image_listing(image@)->Ok_0,
        image@.len() < 17 * 2048 ==> r == Err::<Vec<ListingEntry>, IsoError>(
            IsoError::OutOfBounds,
        ),
        image@.len() >= 17 * 2048 && image@[16 * 2048int] == VOLUME_DESCRIPTOR_TERMINATOR ==> r
            == Err::<Vec<ListingEntry>, IsoError>(IsoError::NotPrimaryDescriptor),
{
    let block = find_primary_descriptor(image)?;
    let start = block * BLOCK_SIZE;
    let sector = slice_subrange(image, start, start + BLOCK_SIZE);
    assert(sector@[0] == image@[start as int]);
    let descriptor = match PrimaryVolumeDescriptor::from_bytes(sector) {
        Some(d) => d,
        None => {
            return Err(IsoError::NotPrimaryDescriptor);
        },
    };
    assert(sector@.subrange(158, 162) =~= image@.subrange(start + 158, start + 162));
    assert(sector@.subrange(166, 170) =~= image@.subrange(start + 166, start + 170));
    let mut entries: Vec<ListingEntry> = Vec::new();
    read_directory(
        image,
        descriptor.root_directory_extent,
        descriptor.root_directory_size,
        0,
        &mut entries,
    )?;
    assert(entries@.map_values(|e: ListingEntry| entry_view(e)) =~= Seq::<ListingEntry>::empty().map_values(
        |e: ListingEntry| entry_view(e),
    ) + image_listing(image@)->Ok_0);
    Ok(entries)
}

} // verus!
