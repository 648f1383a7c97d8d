use iso9660::allocator::BlockAllocator;
use iso9660::error::IsoError;
use iso9660::layout::{blocks_needed, pad_to_block, padding_to_block};
use iso9660::progress::{progress_percent, ProgressLog};
use iso9660::record::{encode_record, strip_version_suffix, write_directory_record, DirectoryRecord};
use iso9660::volume::{write_primary_volume_descriptor, PrimaryVolumeDescriptor};

#[test]
fn blocks_needed_is_ceiling() {
    assert_eq!(blocks_needed(0), 0);
    assert_eq!(blocks_needed(1), 1);
    assert_eq!(blocks_needed(2047), 1);
    assert_eq!(blocks_needed(2048), 1);
    assert_eq!(blocks_needed(2049), 2);
    assert_eq!(blocks_needed(2048 * 7), 7);
    assert_eq!(blocks_needed(5000), 3);
}

#[test]
fn padding_reaches_block_boundary() {
    assert_eq!(padding_to_block(0), 0);
    assert_eq!(padding_to_block(1), 2047);
    assert_eq!(padding_to_block(2048), 0);
    assert_eq!(padding_to_block(5000), 1144);
    let mut out = vec![7u8; 5];
    pad_to_block(&mut out, 5);
    assert_eq!(out.len(), 2048);
    assert!(out[5..].iter().all(|b| *b == 0));
}

#[test]
fn allocator_hands_out_sequential_extents() {
    let mut alloc = BlockAllocator::new(20);
    assert_eq!(alloc.allocate(5000), 20);
    assert_eq!(alloc.next_block(), 23);
    assert_eq!(alloc.allocate(0), 23);
    assert_eq!(alloc.next_block(), 23);
    assert_eq!(alloc.allocate(2048), 23);
    assert_eq!(alloc.next_block(), 24);
    let full = BlockAllocator::new(u32::MAX);
    assert!(full.can_allocate(0));
    assert!(!full.can_allocate(1));
}

#[test]
fn volume_descriptor_round_trip() {
    let mut out = Vec::new();
    write_primary_volume_descriptor(&mut out, 123, 20, 4096);
    assert_eq!(out.len(), 2048);
    assert_eq!(&out[1..6], b"CD001");
    assert_eq!(&out[8..40], b"RUST_SYSTEM_GENERATED           ");
    assert_eq!(&out[40..72], b"RUST_ISO_VOLUME                 ");
    let pvd = PrimaryVolumeDescriptor::from_bytes(&out).unwrap();
    assert_eq!(pvd.descriptor_type, 1);
    assert_eq!(pvd.standard_identifier, b"CD001".to_vec());
    assert_eq!(pvd.version, 1);
    assert_eq!(pvd.volume_space_size, 123);
    assert_eq!(pvd.logical_block_size, 2048);
    assert_eq!(pvd.root_directory_extent, 20);
    assert_eq!(pvd.root_directory_size, 4096);
}

#[test]
fn volume_descriptor_field_offsets() {
    let mut out = Vec::new();
    write_primary_volume_descriptor(&mut out, 0x01020304, 0x0A0B0C0D, 0x11223344);
    assert_eq!(out[0], 1);
    assert_eq!(out[6], 1);
    assert_eq!(&out[80..84], &[4, 3, 2, 1]);
    assert_eq!(&out[120..122], &[1, 0]);
    assert_eq!(&out[124..126], &[1, 0]);
    assert_eq!(&out[128..130], &[0, 8]);
    assert_eq!(&out[158..162], &[0x0D, 0x0C, 0x0B, 0x0A]);
    assert_eq!(&out[166..170], &[0x44, 0x33, 0x22, 0x11]);
}

#[test]
fn terminator_is_not_a_primary_descriptor() {
    let mut out = Vec::new();
    write_primary_volume_descriptor(&mut out, 10, 20, 2048);
    out[0] = 255;
    assert!(PrimaryVolumeDescriptor::from_bytes(&out).is_none());
    out[0] = 2;
    assert!(PrimaryVolumeDescriptor::from_bytes(&out).is_none());
}

#[test]
fn record_round_trip() {
    let mut out = Vec::new();
    write_directory_record(&mut out, "A.TXT", 20, 5000, false);
    assert_eq!(out.len(), 40);
    assert_eq!(out[0], 40);
    assert_eq!(&out[2..6], &20u32.to_le_bytes());
    assert_eq!(&out[10..14], &5000u32.to_le_bytes());
    assert_eq!(out[25], 0);
    assert_eq!(out[32], 5);
    assert_eq!(&out[33..38], b"A.TXT");
    let rec = DirectoryRecord::from_bytes(&out).unwrap().unwrap();
    assert_eq!(rec.file_name, "A.TXT");
    assert_eq!(rec.extent_location, 20);
    assert_eq!(rec.data_length, 5000);
    assert!(!rec.is_directory);
    assert_eq!(rec.record_length, 40);
}

#[test]
fn record_length_is_even() {
    assert_eq!(encode_record(b"AB", 1, 2, true).len(), 36);
    assert_eq!(encode_record(b"ABC", 1, 2, true).len(), 38);
    let dir = encode_record(b"SUB", 30, 2048, true);
    assert_eq!(dir[25], 2);
    let rec = DirectoryRecord::from_bytes(&dir).unwrap().unwrap();
    assert!(rec.is_directory);
    assert_eq!(rec.file_name, "SUB");
}

#[test]
fn version_suffix_is_stripped() {
    let bytes = encode_record(b"A.TXT;1", 5, 6, false);
    let rec = DirectoryRecord::from_bytes(&bytes).unwrap().unwrap();
    assert_eq!(rec.file_name, "A.TXT");
    assert_eq!(strip_version_suffix("B;1;1"), "B");
    assert_eq!(strip_version_suffix("C;2"), "C;2");
    assert_eq!(strip_version_suffix(";1"), "");
}

#[test]
fn zero_record_length_means_no_more_records() {
    let mut block = vec![0u8; 2048];
    block[2] = 9;
    block[32] = 200;
    assert!(DirectoryRecord::from_bytes(&block).unwrap().is_none());
    assert!(DirectoryRecord::from_bytes(&[0u8]).unwrap().is_none());
}

#[test]
fn malformed_records_are_errors() {
    assert_eq!(DirectoryRecord::from_bytes(&[]).err(), Some(IsoError::MalformedRecord));
    assert_eq!(DirectoryRecord::from_bytes(&[34u8; 20]).err(), Some(IsoError::MalformedRecord));
    let mut short = encode_record(b"NAME", 1, 1, false);
    short[32] = 60;
    assert_eq!(DirectoryRecord::from_bytes(&short).err(), Some(IsoError::MalformedRecord));
    let bad_text = encode_record(&[0xFF, 0xFE], 1, 1, false);
    assert_eq!(DirectoryRecord::from_bytes(&bad_text).err(), Some(IsoError::MalformedRecord));
}

#[test]
fn progress_percentages() {
    assert_eq!(progress_percent(0, 100), 0);
    assert_eq!(progress_percent(50, 100), 50);
    assert_eq!(progress_percent(1, 3), 33);
    assert_eq!(progress_percent(100, 100), 100);
    assert_eq!(progress_percent(150, 100), 100);
    assert_eq!(progress_percent(7, 0), 100);
    assert_eq!(progress_percent(u64::MAX, u64::MAX), 100);
}

#[test]
fn progress_log_never_decreases() {
    let mut log = ProgressLog::new(5000);
    log.advance(2048);
    log.advance(2048);
    log.advance(904);
    log.advance(10);
    assert_eq!(log.report_list(), &vec![40u8, 81, 100, 100]);
}
