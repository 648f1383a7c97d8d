use iso9660::allocator::BlockAllocator;
use iso9660::builder::{build_image, push_record, write_directory, write_file_data};
use iso9660::error::IsoError;
use iso9660::progress::ProgressLog;
use iso9660::reader::{read_records, self_or_parent};
use iso9660::record::encode_record;
use iso9660::tree::SourceEntry;

#[test]
fn push_record_moves_to_next_block_when_needed() {
    let mut listing = vec![1u8; 2000];
    let record = encode_record(b"LONGER_NAME.TXT", 1, 1, false);
    assert_eq!(record.len(), 50);
    push_record(&mut listing, &record);
    assert_eq!(listing.len(), 2048 + 50);
    assert!(listing[2000..2048].iter().all(|b| *b == 0));
    assert_eq!(&listing[2048..], &record[..]);
    let mut short = vec![1u8; 100];
    push_record(&mut short, &record);
    assert_eq!(short.len(), 150);
    assert_eq!(&short[100..], &record[..]);
}

#[test]
fn file_data_is_chunked_and_padded() {
    let mut image = vec![9u8; 2048];
    let contents: Vec<u8> = (0..5000).map(|i| (i % 7) as u8 + 1).collect();
    let mut progress = ProgressLog::new(10000);
    write_file_data(&mut image, &contents, &mut progress);
    assert_eq!(image.len(), 2048 + 3 * 2048);
    assert_eq!(&image[2048..7048], &contents[..]);
    assert!(image[7048..].iter().all(|b| *b == 0));
    assert_eq!(progress.report_list(), &vec![20u8, 40, 50]);
}

#[test]
fn subdirectory_records_point_at_parent() {
    let mut image = vec![0u8; 30 * 2048];
    let mut alloc = BlockAllocator::new(30);
    let mut progress = ProgressLog::new(3);
    let children = vec![SourceEntry::File { name: "X".to_string(), contents: vec![1, 2, 3] }];
    let (extent, size) =
        write_directory(&mut image, &children, Some((25, 4096)), &mut alloc, &mut progress).unwrap();
    assert_eq!((extent, size), (30, 2048));
    assert_eq!(alloc.next_block(), 32);
    assert_eq!(image.len(), 32 * 2048);
    let records = read_records(&image, 30, 2048).unwrap();
    assert_eq!(records.len(), 3);
    assert_eq!(records[0].file_name, ".");
    assert_eq!((records[0].extent_location, records[0].data_length), (30, 2048));
    assert_eq!(records[1].file_name, "..");
    assert_eq!((records[1].extent_location, records[1].data_length), (25, 4096));
    assert_eq!(records[2].file_name, "X");
    assert_eq!((records[2].extent_location, records[2].data_length), (31, 3));
    assert_eq!(&image[31 * 2048..31 * 2048 + 3], &[1, 2, 3]);
}

#[test]
fn root_records_are_read_back() {
    let tree = vec![
        SourceEntry::File { name: "A.TXT".to_string(), contents: vec![5; 10] },
        SourceEntry::Directory { name: "SUB".to_string(), children: Vec::new() },
    ];
    let built = build_image(&tree).unwrap();
    let records = read_records(&built.bytes, 20, 2048).unwrap();
    let names: Vec<&str> = records.iter().map(|r| r.file_name.as_str()).collect();
    assert_eq!(names, vec![".", "..", "A.TXT", "SUB"]);
    assert_eq!((records[1].extent_location, records[1].data_length), (20, 2048));
    assert!(records[3].is_directory);
    assert_eq!(records[3].data_length, 2048);
    assert_eq!(read_records(&built.bytes, 20, 0).unwrap().len(), 0);
    assert_eq!(read_records(&built.bytes, 1000, 1).err(), Some(IsoError::OutOfBounds));
}

#[test]
fn dot_names_are_recognised() {
    assert!(self_or_parent("."));
    assert!(self_or_parent(".."));
    assert!(!self_or_parent("..."));
    assert!(!self_or_parent(""));
    assert!(!self_or_parent(".A"));
}
