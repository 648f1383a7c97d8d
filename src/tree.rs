//! The source tree that an image is built from, and the sizing pass over it.

use vstd::prelude::*;

verus! {

/// One entry of a source directory, as the caller captured it.
pub enum SourceEntry {
    /// A regular file and its bytes.
    File { name: String, contents: Vec<u8> },
    /// A subdirectory and its entries, in the order the source listed them.
    Directory { name: String, children: Vec<SourceEntry> },
    /// An entry that could not be opened because access to it is restricted.
    Denied { name: String },
}

/// Total byte size of the regular files in `e`; restricted entries count nothing.
pub open spec fn entry_size(e: SourceEntry) -> nat
    decreases e,
{
    match e {
        SourceEntry::File { contents, .. } => contents@.len(),
        SourceEntry::Directory { children, .. } => {
            entries_size(children@)
        },
        SourceEntry::Denied { .. } => 0,
    }
}

/// Total byte size of the regular files under the entries `s`.
pub open spec fn entries_size(s: Seq<SourceEntry>) -> nat
    decreases s,
{
    if s.len() == 0 {
        0
    } else {
        entries_size(s.subrange(0, s.len() - 1)) + entry_size(s[s.len() - 1])
    }
}

/// A prefix of `s` holds no more file bytes than `s` itself.
pub proof fn lemma_prefix_size(s: Seq<SourceEntry>, j: int)
    requires
        0 <= j <= s.len(),
    ensures
        entries_size(s.subrange(0, j)) <= entries_size(s),
    decreases s.len() - j,
{
    if j < s.len() {
        lemma_prefix_size(s, j + 1);
        assert(s.subrange(0, j + 1).subrange(0, j) =~= s.subrange(0, j));
    } else {
        assert(s.subrange(0, j) =~= s);
    }
}

/// Sizing pass: the total byte size of the regular files under `entries`.
/// Restricted entries are left out of the total. `None` when the total does
/// not fit in 64 bits.
pub fn calculate_total_size(entries: &Vec<SourceEntry>) -> (r: Option<u64>)
    ensures
        r is Some <==> entries_size(entries@) <= u64::MAX,
        r matches Some(t) ==> t == entries_size(entries@),
    decreases entries@,
{
    let mut total: u64 = 0;
    let mut i: usize = 0;
    while i < entries.len()
        invariant
            i <= entries@.len(),
            total == entries_size(entries@.subrange(0, i as int)),
        decreases entries@.len() - i,
    {
        proof {
            assert(entries@.subrange(0, i + 1).subrange(0, i as int) =~= entries@.subrange(0, i as int));
            lemma_prefix_size(entries@, i + 1);
            let s = entries@.subrange(0, i + 1);
            assert(s[s.len() - 1] == entries@[i as int]);
            assert(entries_size(s) == entries_size(entries@.subrange(0, i as int)) + entry_size(
                entries@[i as int],
            ));
        }
        let entry_total: Option<u64> = match &entries[i] {
            SourceEntry::File { contents, .. } => {
                assert(entry_size(entries@[i as int]) == contents@.len());
                Some(contents.len() as u64)
            },
            SourceEntry::Directory { children, .. } => {
                assert(decreases_to!(entries@ => entries@[i as int]));
                assert(entry_size(entries@[i as int]) == entries_size(children@));
                calculate_total_size(children)
            },
            SourceEntry::Denied { .. } => {
                assert(entry_size(entries@[i as int]) == 0);
                Some(0)
            },
        };
        match entry_total {
            None => {
                return None;
            },
            Some(n) => {
                if n > u64::MAX - total {
                    return None;
                }
                total = total + n;
            },
        }
        i = i + 1;
    }
    assert(entries@.subrange(0, i as int) =~= entries@);
    Some(total)
}

} // verus!
