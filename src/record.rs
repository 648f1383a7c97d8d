//! Directory records: the variable-length entries that make up a directory's data.

use vstd::bytes::{lemma_auto_spec_u32_to_from_le_bytes, spec_u32_to_le_bytes, u32_to_le_bytes};
use vstd::prelude::*;
use vstd::string::StringSliceAdditionalSpecFns;
use vstd::utf8::{decode_utf8, encode_utf8, encode_utf8_decode_utf8, encode_utf8_valid_utf8, valid_utf8};
use crate::error::IsoError;
use crate::layout::{extend_from, put_bytes, read_u32_le, spec_u32_at};

verus! {

/// Offset of the record length byte.
pub const RECORD_LENGTH_OFFSET: usize = 0;

/// Offset of the little-endian extent location.
pub const EXTENT_OFFSET: usize = 2;

/// Offset of the little-endian data length.
pub const DATA_LENGTH_OFFSET: usize = 10;

/// Offset of the flags byte.
pub const FLAGS_OFFSET: usize = 25;

/// Offset of the identifier length byte.
pub const IDENTIFIER_LENGTH_OFFSET: usize = 32;

/// Offset of the first identifier byte.
pub const IDENTIFIER_OFFSET: usize = 33;

/// Flag bit that marks a directory.
pub const DIRECTORY_FLAG: u8 = 2;

/// Longest identifier, in bytes, whose record length still fits in one byte.
pub const MAX_IDENTIFIER_LENGTH: usize = 220;

/// Length of a record whose identifier is `n` bytes long: `34 + n`, rounded up to even.
pub open spec fn spec_record_length(n: int) -> int {
    34 + n + n % 2
}

/// The byte at offset `i` of the record for an entry named by `name`.
pub open spec fn record_byte(name: Seq<u8>, extent: u32, size: u32, is_directory: bool, i: int) -> u8 {
    if i == 0 {
        spec_record_length(name.len() as int) as u8
    } else if 2 <= i < 6 {
        spec_u32_to_le_bytes(extent)[i - 2]
    } else if 10 <= i < 14 {
        spec_u32_to_le_bytes(size)[i - 10]
    } else if i == 25 {
        if is_directory {
            DIRECTORY_FLAG
        } else {
            0
        }
    } else if i == 32 {
        name.len() as u8
    } else if 33 <= i < 33 + name.len() {
        name[i - 33]
    } else {
        0
    }
}

/// The encoded record for an entry with identifier bytes `name`.
pub open spec fn record_bytes(name: Seq<u8>, extent: u32, size: u32, is_directory: bool) -> Seq<u8> {
    Seq::new(
        spec_record_length(name.len() as int) as nat,
        |i: int| record_byte(name, extent, size, is_directory, i),
    )
}

/// The identifier with every trailing version suffix `;1` removed.
pub open spec fn strip_version(s: Seq<char>) -> Seq<char>
    decreases s.len(),
{
    if s.len() >= 2 && s[s.len() - 2] == ';' && s[s.len() - 1] == '1' {
        strip_version(s.subrange(0, s.len() - 2))
    } else {
        s
    }
}

/// The fixed header of the record in `data` lies inside `data`, and so does its identifier.
pub open spec fn record_fits(data: Seq<u8>) -> bool {
    &&& data.len() >= 33
    &&& 33 + data[32] <= data.len()
}

/// The identifier bytes of the record at the start of `data`.
pub open spec fn identifier_bytes(data: Seq<u8>) -> Seq<u8> {
    data.subrange(33, 33 + data[32])
}

/// The record at the start of `data` can be decoded.
pub open spec fn record_decodes(data: Seq<u8>) -> bool {
    record_fits(data) && valid_utf8(identifier_bytes(data))
}

/// `rec` is what the record at the start of `data` says.
pub open spec fn decodes_to(data: Seq<u8>, rec: DirectoryRecord) -> bool {
    &&& rec.record_length == data[0]
    &&& rec.extent_location == spec_u32_at(data, 2)
    &&& rec.data_length == spec_u32_at(data, 10)
    &&& rec.is_directory == (data[25] & DIRECTORY_FLAG != 0)
    &&& rec.file_name@ == strip_version(decode_utf8(identifier_bytes(data)))
}

/// One decoded directory entry.
pub struct DirectoryRecord {
    /// Length of the whole record in bytes; never zero.
    pub record_length: u8,
    /// Identifier, without its version suffix.
    pub file_name: String,
    /// Block where the entry's data begins.
    pub extent_location: u32,
    /// Length of the entry's data in bytes.
    pub data_length: u32,
    /// Whether the entry is a directory.
    pub is_directory: bool,
}

/// Relies on String::from_utf8: it succeeds exactly on well-formed UTF-8 and
/// then holds the characters that the bytes encode.
#[verifier::external_body]
fn text_from_utf8(bytes: Vec<u8>) -> (r: Option<String>)
    ensures
        r is Some <==> valid_utf8(bytes@),
        r matches Some(s) ==> s@ == decode_utf8(bytes@),
{
    String::from_utf8(bytes).ok()
}

/// Removes every trailing `;1` version suffix from `text`.
pub fn strip_version_suffix(text: &str) -> (r: String)
    ensures
        r@ == strip_version(text@),
{
    let mut k: usize = text.unicode_len();
    assert(text@.subrange(0, k as int) =~= text@);
    while k >= 2 && text.get_char(k - 2) == ';' && text.get_char(k - 1) == '1'
        invariant
            k <= text@.len(),
            strip_version(text@.subrange(0, k as int)) == strip_version(text@),
        decreases k,
    {
        proof {
            let s = text@.subrange(0, k as int);
            assert(s.subrange(0, s.len() - 2) =~= text@.subrange(0, k - 2));
        }
        k = k - 2;
    }
    proof {
        assert(text@.subrange(0, k as int) == strip_version(text@));
    }
    text.substring_char(0, k).to_owned()
}

/// Encodes the record for an entry with identifier bytes `name`.
pub fn encode_record(name: &[u8], extent: u32, size: u32, is_directory: bool) -> (r: Vec<u8>)
    requires
        name@.len() <= MAX_IDENTIFIER_LENGTH,
    ensures
        r@ == record_bytes(name@, extent, size, is_directory),
{
    let n = name.len();
    let length: usize = 34 + n + n % 2;
    let mut record: Vec<u8> = vec![0u8; length];
    record.set(RECORD_LENGTH_OFFSET, length as u8);
    let extent_bytes = u32_to_le_bytes(extent);
    put_bytes(&mut record, EXTENT_OFFSET, extent_bytes.as_slice());
    let size_bytes = u32_to_le_bytes(size);
    put_bytes(&mut record, DATA_LENGTH_OFFSET, size_bytes.as_slice());
    record.set(FLAGS_OFFSET, if is_directory { DIRECTORY_FLAG } else { 0 });
    record.set(IDENTIFIER_LENGTH_OFFSET, n as u8);
    put_bytes(&mut record, IDENTIFIER_OFFSET, name);
    assert(record@ =~= record_bytes(name@, extent, size, is_directory));
    record
}

/// Appends the record for an entry named `file_name` to `out`.
pub fn write_directory_record(
    out: &mut Vec<u8>,
    file_name: &str,
    start_block: u32,
    file_size: u32,
    is_directory: bool,
)
    requires
        file_name.spec_bytes().len() <= MAX_IDENTIFIER_LENGTH,
    ensures
        final(out)@ == old(out)@ + record_bytes(
            file_name.spec_bytes(),
            start_block,
            file_size,
            is_directory,
        ),
{
    let record = encode_record(file_name.as_bytes(), start_block, file_size, is_directory);
    extend_from(out, record.as_slice());
}

/// Decoding the record encoded for a name without a version suffix gives back
/// its extent, its data length, its directory flag and its name; the record is
/// never taken for the end-of-records marker.
pub proof fn lemma_record_round_trip(name: Seq<char>, extent: u32, size: u32, is_directory: bool)
    requires
        encode_utf8(name).len() <= MAX_IDENTIFIER_LENGTH,
        strip_version(name) == name,
    ensures
        ({
            let data = record_bytes(encode_utf8(name), extent, size, is_directory);
            &&& data.len() > 0 && data[0] != 0
            &&& record_decodes(data)
            &&& spec_u32_at(data, 2) == extent
            &&& spec_u32_at(data, 10) == size
            &&& (data[25] & DIRECTORY_FLAG != 0) == is_directory
            &&& strip_version(decode_utf8(identifier_bytes(data))) == name
        }),
{
    let bytes = encode_utf8(name);
    let data = record_bytes(bytes, extent, size, is_directory);
    lemma_auto_spec_u32_to_from_le_bytes();
    encode_utf8_valid_utf8(name);
    encode_utf8_decode_utf8(name);
    assert(data.subrange(2, 6) =~= spec_u32_to_le_bytes(extent));
    assert(data.subrange(10, 14) =~= spec_u32_to_le_bytes(size));
    assert(identifier_bytes(data) =~= bytes);
    assert((2u8 & 2u8) != 0u8) by (bit_vector);
    assert((0u8 & 2u8) == 0u8) by (bit_vector);
}

impl DirectoryRecord {
    /// Decodes the record at the start of `data`.
    ///
    /// A zero record length means that no more records follow in this block:
    /// the result is then `Ok(None)` and nothing else is read. A record whose
    /// header or identifier runs past `data`, or whose identifier is not valid
    /// UTF-8, is `MalformedRecord`.
    pub fn from_bytes(data: &[u8]) -> (r: Result<Option<DirectoryRecord>, IsoError>)
        ensures
            data@.len() > 0 && data@[0] == 0 ==> r == Ok::<Option<DirectoryRecord>, IsoError>(
                None,
            ),
            data@.len() == 0 ==> r == Err::<Option<DirectoryRecord>, IsoError>(
                IsoError::MalformedRecord,
            ),
            data@.len() > 0 && data@[0] != 0 ==> {
                &&& r is Err <==> !record_decodes(data@)
                &&& r is Err ==> r == Err::<Option<DirectoryRecord>, IsoError>(
                    IsoError::MalformedRecord,
                )
                &&& r is Ok ==> r->Ok_0 is Some
            },
            r matches Ok(Some(rec)) ==> decodes_to(data@, rec),
    {
        if data.len() == 0 {
            return Err(IsoError::MalformedRecord);
        }
        let record_length = data[RECORD_LENGTH_OFFSET];
        if record_length == 0 {
            return Ok(None);
        }
        if data.len() < IDENTIFIER_OFFSET {
            return Err(IsoError::MalformedRecord);
        }
        let name_length = data[IDENTIFIER_LENGTH_OFFSET] as usize;
        if IDENTIFIER_OFFSET + name_length > data.len() {
            return Err(IsoError::MalformedRecord);
        }
        let extent_location = read_u32_le(data, EXTENT_OFFSET);
        let data_length = read_u32_le(data, DATA_LENGTH_OFFSET);
        let is_directory = data[FLAGS_OFFSET] & DIRECTORY_FLAG != 0;
        let end = IDENTIFIER_OFFSET + name_length;
        let mut identifier: Vec<u8> = Vec::new();
        let mut j: usize = 0;
        while j < name_length
            invariant
                j <= name_length,
                end == IDENTIFIER_OFFSET + name_length,
                IDENTIFIER_OFFSET + name_length <= data@.len(),
                identifier@ == data@.subrange(33, 33 + j),
            decreases name_length - j,
        {
            identifier.push(data[IDENTIFIER_OFFSET + j]);
            j = j + 1;
            assert(identifier@ =~= data@.subrange(33, 33 + j));
        }
        match text_from_utf8(identifier) {
            None => Err(IsoError::MalformedRecord),
            Some(text) => {
                let file_name = strip_version_suffix(text.as_str());
                Ok(
                    Some(
                        DirectoryRecord {
                            record_length,
                            file_name,
                            extent_location,
                            data_length,
                            is_directory,
                        },
                    ),
                )
            },
        }
    }
}

} // verus!
