//! Where everything lands in a built image. A directory's extent holds its
//! listing: the self and parent records, then one record per listed entry in
//! source order, none crossing a block boundary, padded to whole blocks. After
//! it come the listed entries themselves, one after another: a file's contents
//! padded to whole blocks, or a subdirectory laid out the same way.

use vstd::prelude::*;
use vstd::utf8::encode_utf8;
use crate::layout::{spec_blocks_needed, spec_padding};
use crate::record::{record_bytes, spec_record_length, MAX_IDENTIFIER_LENGTH};
use crate::tree::{entries_size, entry_size, SourceEntry};

verus! {

/// Length of the self and parent records that open every directory.
pub const DOT_RECORD_LENGTH: usize = 36;

/// Identifier bytes of an entry's name.
pub open spec fn entry_name(e: SourceEntry) -> Seq<u8> {
    match e {
        SourceEntry::File { name, .. } => encode_utf8(name@),
        SourceEntry::Directory { name, .. } => encode_utf8(name@),
        SourceEntry::Denied { name } => encode_utf8(name@),
    }
}

/// Whether the entry is listed in its directory: restricted entries are not.
pub open spec fn is_listed(e: SourceEntry) -> bool {
    !(e is Denied)
}

/// Every listed entry's name fits in one record.
pub open spec fn names_fit(children: Seq<SourceEntry>) -> bool {
    forall|i: int|
        0 <= i < children.len() && is_listed(children[i]) ==> #[trigger] entry_name(
            children[i],
        ).len() <= MAX_IDENTIFIER_LENGTH
}

/// Length of a listing of `cur` bytes after one more record of `len` bytes; a
/// record that would cross a block boundary starts at the next block.
pub open spec fn packed_length(cur: int, len: int) -> int {
    if cur % 2048 + len > 2048 {
        cur + spec_padding(cur) + len
    } else {
        cur + len
    }
}

/// Length of a directory's listing once the self and parent records and the
/// records of its first `k` listed children are in it.
pub open spec fn listing_prefix(children: Seq<SourceEntry>, k: int) -> int
    decreases k,
{
    if k <= 0 {
        2 * DOT_RECORD_LENGTH
    } else if is_listed(children[k - 1]) {
        packed_length(
            listing_prefix(children, k - 1),
            spec_record_length(entry_name(children[k - 1]).len() as int),
        )
    } else {
        listing_prefix(children, k - 1)
    }
}

/// Blocks that the entry takes in the image: a file's extent, or a
/// directory's listing and everything below it. Restricted entries take none.
pub open spec fn entry_blocks(e: SourceEntry) -> nat
    decreases e,
{
    match e {
        SourceEntry::File { contents, .. } => spec_blocks_needed(contents@.len() as int) as nat,
        SourceEntry::Directory { children, .. } => {
            spec_blocks_needed(listing_length(children@)) as nat + entries_blocks(children@)
        },
        SourceEntry::Denied { .. } => 0,
    }
}

/// Blocks that the entries `s` take in the image.
pub open spec fn entries_blocks(s: Seq<SourceEntry>) -> nat
    decreases s,
{
    if s.len() == 0 {
        0
    } else {
        entries_blocks(s.subrange(0, s.len() - 1)) + entry_blocks(s[s.len() - 1])
    }
}

/// Blocks that a directory with entries `children` takes, its listing included.
pub open spec fn subtree_blocks(children: Seq<SourceEntry>) -> nat {
    spec_blocks_needed(listing_length(children)) as nat + entries_blocks(children)
}

/// Length of the whole listing of a directory with entries `children`.
pub open spec fn listing_length(children: Seq<SourceEntry>) -> int {
    listing_prefix(children, children.len() as int)
}

/// Every field that the entry's records and listings need fits its width: a
/// file's length fits 32 bits; below a directory every listed name fits a
/// record and every listing's size in bytes fits 32 bits.
pub open spec fn entry_fits(e: SourceEntry) -> bool
    decreases e,
{
    match e {
        SourceEntry::File { contents, .. } => contents@.len() <= u32::MAX,
        SourceEntry::Directory { children, .. } => {
            &&& names_fit(children@)
            &&& spec_blocks_needed(listing_length(children@)) <= u32::MAX / 2048
            &&& entries_fit(children@)
        },
        SourceEntry::Denied { .. } => true,
    }
}

/// Every entry of `s` fits, as `entry_fits` says.
pub open spec fn entries_fit(s: Seq<SourceEntry>) -> bool
    decreases s,
{
    if s.len() == 0 {
        true
    } else {
        entries_fit(s.subrange(0, s.len() - 1)) && entry_fits(s[s.len() - 1])
    }
}

/// A directory with entries `children` fits the fields of its records and listings.
pub open spec fn directory_fits(children: Seq<SourceEntry>) -> bool {
    &&& names_fit(children)
    &&& spec_blocks_needed(listing_length(children)) <= u32::MAX / 2048
    &&& entries_fit(children)
}

/// Each entry of a list that fits, fits; and a prefix of it takes no more blocks.
pub proof fn lemma_entries_prefix(s: Seq<SourceEntry>, i: int)
    requires
        0 <= i < s.len(),
    ensures
        entries_fit(s) ==> entry_fits(s[i]),
        entries_blocks(s.subrange(0, i + 1)) <= entries_blocks(s),
    decreases s.len() - i,
{
    let t = s.subrange(0, s.len() - 1);
    if i < s.len() - 1 {
        lemma_entries_prefix(t, i);
        assert(t.subrange(0, i + 1) =~= s.subrange(0, i + 1));
        assert(t[i] == s[i]);
    } else {
        assert(s.subrange(0, i + 1) =~= s);
    }
}

/// Within a directory's blocks, the room left after its listing and its
/// first `i` entries holds entry `i`.
pub proof fn lemma_owed_room(children: Seq<SourceEntry>, i: int, first: int)
    requires
        0 <= i < children.len(),
    ensures
        first + spec_blocks_needed(listing_length(children)) + entries_blocks(
            children.subrange(0, i),
        ) + entry_blocks(children[i]) <= first + subtree_blocks(children),
{
    lemma_entries_prefix(children, i);
    let s = children.subrange(0, i + 1);
    assert(s.subrange(0, s.len() - 1) =~= children.subrange(0, i));
    assert(s[s.len() - 1] == children[i]);
    assert(spec_blocks_needed(listing_length(children)) >= 0) by {
        lemma_listing_prefix_bounded(children, 0);
    }
}

/// Size in bytes of the extent of a directory with entries `children`.
pub open spec fn directory_size(children: Seq<SourceEntry>) -> int {
    spec_blocks_needed(listing_length(children)) * 2048
}

/// `n` zero bytes.
pub open spec fn zeros(n: int) -> Seq<u8> {
    Seq::new(n as nat, |i: int| 0u8)
}

/// `bytes` with `record` appended; a record that would cross a block
/// boundary starts at the next block, the gap filled with zeros.
pub open spec fn pack_record(bytes: Seq<u8>, record: Seq<u8>) -> Seq<u8> {
    if bytes.len() % 2048 + record.len() > 2048 {
        bytes + zeros(spec_padding(bytes.len() as int)) + record
    } else {
        bytes + record
    }
}

/// Block where entry `k` of a directory whose extent starts at block `first` begins.
pub open spec fn child_extent(children: Seq<SourceEntry>, first: int, k: int) -> int {
    first + spec_blocks_needed(listing_length(children)) + entries_blocks(children.subrange(0, k))
}

/// The record of entry `k` of a directory whose extent starts at block `first`.
pub open spec fn child_record(children: Seq<SourceEntry>, first: int, k: int) -> Seq<u8> {
    match children[k] {
        SourceEntry::File { contents, .. } => record_bytes(
            entry_name(children[k]),
            child_extent(children, first, k) as u32,
            contents@.len() as u32,
            false,
        ),
        SourceEntry::Directory { children: entries, .. } => record_bytes(
            entry_name(children[k]),
            child_extent(children, first, k) as u32,
            directory_size(entries@) as u32,
            true,
        ),
        SourceEntry::Denied { .. } => Seq::empty(),
    }
}

/// The first bytes of the listing of a directory at block `first` whose parent
/// directory is `parent` (extent, size): its self and parent records and the
/// records of its first `k` listed entries, in source order.
pub open spec fn listing_bytes(
    children: Seq<SourceEntry>,
    first: int,
    parent: (u32, u32),
    k: int,
) -> Seq<u8>
    decreases k,
{
    if k <= 0 {
        pack_record(
            pack_record(
                Seq::empty(),
                record_bytes(seq![0x2Eu8], first as u32, directory_size(children) as u32, true),
            ),
            record_bytes(seq![0x2Eu8, 0x2E], parent.0, parent.1, true),
        )
    } else if is_listed(children[k - 1]) {
        pack_record(listing_bytes(children, first, parent, k - 1), child_record(children, first, k - 1))
    } else {
        listing_bytes(children, first, parent, k - 1)
    }
}

/// The bytes that entry `e` takes in the image when it starts at block `at` in
/// a directory with extent and size `parent`: a file's padded contents, or a
/// directory's listing padded to its size followed by its entries' bytes.
pub open spec fn entry_image(e: SourceEntry, at: int, parent: (u32, u32)) -> Seq<u8>
    decreases e,
{
    match e {
        SourceEntry::File { contents, .. } => file_extent_bytes(contents@),
        SourceEntry::Directory { children, .. } => {
            let listing = listing_bytes(children@, at, parent, children@.len() as int);
            listing + zeros(directory_size(children@) - listing.len()) + entries_image(
                children@,
                at + spec_blocks_needed(listing_length(children@)),
                (at as u32, directory_size(children@) as u32),
            )
        },
        SourceEntry::Denied { .. } => Seq::empty(),
    }
}

/// The bytes that the entries `s` take, one after another from block `at`, in
/// a directory with extent and size `parent`.
pub open spec fn entries_image(s: Seq<SourceEntry>, at: int, parent: (u32, u32)) -> Seq<u8>
    decreases s,
{
    if s.len() == 0 {
        Seq::empty()
    } else {
        let init = s.subrange(0, s.len() - 1);
        entries_image(init, at, parent) + entry_image(
            s[s.len() - 1],
            at + entries_blocks(init),
            parent,
        )
    }
}

/// The bytes that a directory with entries `children` takes from block `first`
/// on, below a parent with extent and size `parent`.
pub open spec fn directory_image(children: Seq<SourceEntry>, first: int, parent: (u32, u32)) -> Seq<
    u8,
> {
    let listing = listing_bytes(children, first, parent, children.len() as int);
    listing + zeros(directory_size(children) - listing.len()) + entries_image(
        children,
        first + spec_blocks_needed(listing_length(children)),
        (first as u32, directory_size(children) as u32),
    )
}

/// The bytes that a file of `contents` occupies in the image: its contents,
/// zero-padded to a block boundary.
pub open spec fn file_extent_bytes(contents: Seq<u8>) -> Seq<u8> {
    contents + Seq::new(spec_padding(contents.len() as int) as nat, |i: int| 0u8)
}

/// The parent's extent and size, or, for the root, the directory's own.
pub open spec fn parent_or_self(parent: Option<(u32, u32)>, first: int, children: Seq<SourceEntry>) -> (
    u32,
    u32,
) {
    match parent {
        Some(p) => p,
        None => (first as u32, directory_size(children) as u32),
    }
}

/// A file's bytes padded to the next block boundary fill whole blocks.
pub proof fn lemma_padded_length(len: nat)
    ensures
        len + spec_padding(len as int) == spec_blocks_needed(len as int) * 2048,
{
}

/// A listing prefix is never longer than the whole listing.
pub proof fn lemma_listing_prefix_bounded(children: Seq<SourceEntry>, k: int)
    requires
        0 <= k <= children.len(),
    ensures
        listing_prefix(children, k) <= listing_length(children),
        listing_length(children) <= directory_size(children),
    decreases children.len() - k,
{
    if k < children.len() {
        lemma_listing_prefix_bounded(children, k + 1);
        lemma_listing_prefix_grows(children, k + 1);
    }
    assert(spec_blocks_needed(listing_length(children)) * 2048 >= listing_length(children));
}

/// Adding a child's record never shortens a listing.
pub proof fn lemma_listing_prefix_grows(children: Seq<SourceEntry>, k: int)
    requires
        0 < k,
    ensures
        listing_prefix(children, k - 1) <= listing_prefix(children, k),
{
    let prev = listing_prefix(children, k - 1);
    assert(spec_padding(prev) >= 0);
}

/// Past a restricted entry at `i`, a prefix of the entries without it holds
/// the same file bytes and takes the same blocks as the prefix with it.
proof fn lemma_removed_prefix(s: Seq<SourceEntry>, i: int, k: int)
    requires
        0 <= i < k <= s.len(),
        s[i] is Denied,
    ensures
        entries_size(s.remove(i).subrange(0, k - 1)) == entries_size(s.subrange(0, k)),
        entries_blocks(s.remove(i).subrange(0, k - 1)) == entries_blocks(s.subrange(0, k)),
        listing_prefix(s.remove(i), k - 1) == listing_prefix(s, k),
    decreases k,
{
    let t = s.remove(i);
    let a = s.subrange(0, k);
    let b = t.subrange(0, k - 1);
    assert(a.subrange(0, k - 1) =~= s.subrange(0, k - 1));
    if k == i + 1 {
        assert(b =~= s.subrange(0, i));
        assert(entry_size(s[i]) == 0);
        assert(entry_blocks(s[i]) == 0);
        lemma_listing_prefix_same(s, t, i);
    } else {
        lemma_removed_prefix(s, i, k - 1);
        assert(b.subrange(0, k - 2) =~= t.subrange(0, k - 2));
        assert(t[k - 2] == s[k - 1]);
        assert(b[k - 2] == a[k - 1]);
    }
}

/// Two entry lists that agree on their first `k` entries have the same
/// listing prefix of length `k`.
proof fn lemma_listing_prefix_same(s: Seq<SourceEntry>, t: Seq<SourceEntry>, k: int)
    requires
        0 <= k <= s.len(),
        k <= t.len(),
        forall|j: int| 0 <= j < k ==> s[j] == t[j],
    ensures
        listing_prefix(s, k) == listing_prefix(t, k),
    decreases k,
{
    if k > 0 {
        lemma_listing_prefix_same(s, t, k - 1);
    }
}

/// Entries that agree on their first `k` items lay out those items alike.
proof fn lemma_same_prefix_layout(
    s: Seq<SourceEntry>,
    t: Seq<SourceEntry>,
    first: int,
    parent: (u32, u32),
    k: int,
)
    requires
        0 <= k <= s.len(),
        k <= t.len(),
        forall|j: int| 0 <= j < k ==> s[j] == t[j],
        listing_length(s) == listing_length(t),
    ensures
        listing_bytes(s, first, parent, k) == listing_bytes(t, first, parent, k),
        s.subrange(0, k) == t.subrange(0, k),
    decreases k,
{
    assert(s.subrange(0, k) =~= t.subrange(0, k));
    if k > 0 {
        lemma_same_prefix_layout(s, t, first, parent, k - 1);
        assert(s.subrange(0, k - 1) =~= t.subrange(0, k - 1));
        assert(child_extent(s, first, k - 1) == child_extent(t, first, k - 1));
        assert(child_record(s, first, k - 1) == child_record(t, first, k - 1));
    }
}

/// Past a restricted entry at `i`, the listing and the entries' bytes of a
/// prefix without it equal those of the prefix with it.
proof fn lemma_removed_layout(
    s: Seq<SourceEntry>,
    i: int,
    first: int,
    parent: (u32, u32),
    at: int,
    own: (u32, u32),
    k: int,
)
    requires
        0 <= i < k <= s.len(),
        s[i] is Denied,
        listing_length(s.remove(i)) == listing_length(s),
    ensures
        listing_bytes(s.remove(i), first, parent, k - 1) == listing_bytes(s, first, parent, k),
        entries_image(s.remove(i).subrange(0, k - 1), at, own) == entries_image(
            s.subrange(0, k),
            at,
            own,
        ),
    decreases k,
{
    let t = s.remove(i);
    let a = s.subrange(0, k);
    let b = t.subrange(0, k - 1);
    lemma_removed_prefix(s, i, k);
    if k == i + 1 {
        assert forall|j: int| 0 <= j < i implies s[j] == t[j] by {}
        lemma_same_prefix_layout(s, t, first, parent, i);
        assert(b =~= s.subrange(0, i));
        assert(a.subrange(0, a.len() - 1) =~= s.subrange(0, i));
        assert(entry_image(s[i], at + entries_blocks(s.subrange(0, i)), own) =~= Seq::<u8>::empty());
        assert(entries_image(a, at, own) =~= entries_image(s.subrange(0, i), at, own));
    } else {
        lemma_removed_layout(s, i, first, parent, at, own, k - 1);
        lemma_removed_prefix(s, i, k - 1);
        assert(t[k - 2] == s[k - 1]);
        assert(b.subrange(0, k - 2) =~= t.subrange(0, k - 2));
        assert(a.subrange(0, k - 1) =~= s.subrange(0, k - 1));
        assert(child_extent(t, first, k - 2) == child_extent(s, first, k - 1));
        assert(child_record(t, first, k - 2) == child_record(s, first, k - 1));
        assert(b[k - 2] == a[k - 1]);
    }
}

/// A restricted entry is left out of the sizing total, gets no record in its
/// directory's listing, and takes no blocks: leaving it out of the source
/// changes neither the total, nor the listing's length, nor the space that
/// the directory and everything below it take.
pub proof fn lemma_restricted_entry_takes_nothing(children: Seq<SourceEntry>, i: int)
    requires
        0 <= i < children.len(),
        children[i] is Denied,
    ensures
        entries_size(children.remove(i)) == entries_size(children),
        listing_length(children.remove(i)) == listing_length(children),
        subtree_blocks(children.remove(i)) == subtree_blocks(children),
{
    let n = children.len() as int;
    lemma_removed_prefix(children, i, n);
    assert(children.subrange(0, n) =~= children);
    assert(children.remove(i).subrange(0, n - 1) =~= children.remove(i));
}

/// A restricted entry changes nothing in the image: a directory laid out with
/// it has exactly the bytes of the same directory laid out without it.
pub proof fn lemma_restricted_entry_leaves_image_unchanged(
    children: Seq<SourceEntry>,
    i: int,
    first: int,
    parent: (u32, u32),
)
    requires
        0 <= i < children.len(),
        children[i] is Denied,
    ensures
        directory_image(children.remove(i), first, parent) == directory_image(
            children,
            first,
            parent,
        ),
{
    let n = children.len() as int;
    let t = children.remove(i);
    lemma_restricted_entry_takes_nothing(children, i);
    let at = first + spec_blocks_needed(listing_length(children));
    let own = (first as u32, directory_size(children) as u32);
    lemma_removed_layout(children, i, first, parent, at, own, n);
    assert(children.subrange(0, n) =~= children);
    assert(t.subrange(0, n - 1) =~= t);
}

} // verus!
