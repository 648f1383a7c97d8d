use iso9660::builder::{build_image, listing_size, BuiltImage};
use iso9660::error::IsoError;
use iso9660::reader::{
    descends_into, find_primary_descriptor, read_directory, read_image, scan_block, ListingEntry,
};
use iso9660::record::{encode_record, DirectoryRecord};
use iso9660::tree::{calculate_total_size, SourceEntry};

fn file(name: &str, len: usize) -> SourceEntry {
    let contents = (0..len).map(|i| (i % 251) as u8 + 1).collect();
    SourceEntry::File { name: name.to_string(), contents }
}

fn dir(name: &str, children: Vec<SourceEntry>) -> SourceEntry {
    SourceEntry::Directory { name: name.to_string(), children }
}

fn denied(name: &str) -> SourceEntry {
    SourceEntry::Denied { name: name.to_string() }
}

fn sample_tree() -> Vec<SourceEntry> {
    vec![file("A.TXT", 5000), dir("SUB", vec![file("B.BIN", 1)])]
}

fn find<'a>(entries: &'a [ListingEntry], name: &str) -> &'a ListingEntry {
    entries.iter().find(|e| e.name == name).unwrap()
}

#[test]
fn build_then_read_lists_the_tree() {
    let built = build_image(&sample_tree()).unwrap();
    assert_eq!(built.bytes.len() % 2048, 0);
    let entries = read_image(&built.bytes).unwrap();
    let a = find(&entries, "A.TXT");
    assert!(!a.is_directory);
    assert_eq!(a.size, 5000);
    assert_eq!(a.depth, 0);
    let sub = find(&entries, "SUB");
    assert!(sub.is_directory);
    assert_eq!(sub.depth, 0);
    let b = find(&entries, "B.BIN");
    assert!(!b.is_directory);
    assert_eq!(b.size, 1);
    assert_eq!(b.depth, 1);
    let names: Vec<&str> = entries.iter().map(|e| e.name.as_str()).collect();
    assert_eq!(names, vec![".", "..", "A.TXT", "SUB", ".", "..", "B.BIN"]);
}

#[test]
fn built_file_data_lies_at_its_extent() {
    let tree = sample_tree();
    let built = build_image(&tree).unwrap();
    let entries = read_image(&built.bytes).unwrap();
    let a = find(&entries, "A.TXT");
    let start = a.extent as usize * 2048;
    let expected: Vec<u8> = (0..5000).map(|i| (i % 251) as u8 + 1).collect();
    assert_eq!(&built.bytes[start..start + 5000], &expected[..]);
    assert!(built.bytes[start + 5000..start + 6144].iter().all(|b| *b == 0));
    let b = find(&entries, "B.BIN");
    assert_eq!(built.bytes[b.extent as usize * 2048], 1);
}

#[test]
fn built_image_layout() {
    let built = build_image(&sample_tree()).unwrap();
    // system area, descriptor, root listing, A.TXT (3 blocks), SUB listing, B.BIN
    assert_eq!(built.bytes.len(), (20 + 1 + 3 + 1 + 1) * 2048);
    assert_eq!(built.total_size, 5001);
    let pvd = &built.bytes[16 * 2048..17 * 2048];
    assert_eq!(pvd[0], 1);
    assert_eq!(&pvd[1..6], b"CD001");
    assert_eq!(&pvd[80..84], &26u32.to_le_bytes());
    assert_eq!(&pvd[158..162], &20u32.to_le_bytes());
    assert_eq!(&pvd[166..170], &2048u32.to_le_bytes());
    let entries = read_image(&built.bytes).unwrap();
    assert_eq!(find(&entries, "A.TXT").extent, 21);
    assert_eq!(find(&entries, "SUB").extent, 24);
    assert_eq!(find(&entries, "SUB").size, 2048);
    assert_eq!(find(&entries, "B.BIN").extent, 25);
}

#[test]
fn empty_source_builds_a_root_only_image() {
    let built = build_image(&Vec::new()).unwrap();
    assert_eq!(built.bytes.len(), 21 * 2048);
    assert_eq!(built.total_size, 0);
    assert!(built.progress.is_empty());
    let entries = read_image(&built.bytes).unwrap();
    assert_eq!(entries.len(), 2);
    assert_eq!(entries[0].name, ".");
    assert_eq!(entries[1].name, "..");
}

#[test]
fn empty_file_takes_no_blocks() {
    let built = build_image(&vec![file("EMPTY", 0), file("ONE", 1)]).unwrap();
    assert_eq!(built.bytes.len(), 22 * 2048);
    let entries = read_image(&built.bytes).unwrap();
    assert_eq!(find(&entries, "EMPTY").size, 0);
    assert_eq!(find(&entries, "EMPTY").extent, 21);
    assert_eq!(find(&entries, "ONE").extent, 21);
}

#[test]
fn self_and_parent_entries_are_never_descended() {
    let record = |name: &str, is_directory: bool| DirectoryRecord {
        record_length: 34,
        file_name: name.to_string(),
        extent_location: 20,
        data_length: 2048,
        is_directory,
    };
    assert!(!descends_into(&record(".", true)));
    assert!(!descends_into(&record("..", true)));
    assert!(descends_into(&record("SUB", true)));
    assert!(descends_into(&record("...", true)));
    assert!(!descends_into(&record("FILE", false)));
}

#[test]
fn self_referencing_dot_entries_terminate() {
    // A directory whose "." and ".." both point back at itself, flagged as directories.
    let mut image = vec![0u8; 21 * 2048];
    let mut listing = encode_record(b".", 20, 2048, true);
    listing.extend(encode_record(b"..", 20, 2048, true));
    image[20 * 2048..20 * 2048 + listing.len()].copy_from_slice(&listing);
    let mut out = Vec::new();
    read_directory(&image, 20, 2048, 0, &mut out).unwrap();
    assert_eq!(out.len(), 2);
}

#[test]
fn scan_stops_at_zero_length() {
    let mut block = vec![0u8; 2048];
    let first = encode_record(b"ONE", 1, 10, false);
    let second = encode_record(b"TWO", 2, 20, true);
    block[..first.len()].copy_from_slice(&first);
    block[first.len()..first.len() + second.len()].copy_from_slice(&second);
    let records = scan_block(&block).unwrap();
    assert_eq!(records.len(), 2);
    assert_eq!(records[0].file_name, "ONE");
    assert_eq!(records[1].file_name, "TWO");
    assert_eq!(records[1].extent_location, 2);
    block[first.len() + 33] = 0xFF;
    assert_eq!(scan_block(&block).err(), Some(IsoError::MalformedRecord));
}

#[test]
fn restricted_entries_are_skipped() {
    let with = vec![
        file("A.TXT", 5000),
        denied("SECRET"),
        dir("SUB", vec![denied("HIDDEN"), file("B.BIN", 1)]),
    ];
    assert_eq!(calculate_total_size(&with), Some(5001));
    let without = sample_tree();
    let built_with: BuiltImage = build_image(&with).unwrap();
    let built_without = build_image(&without).unwrap();
    assert_eq!(built_with.bytes, built_without.bytes);
    assert_eq!(built_with.total_size, 5001);
    let entries = read_image(&built_with.bytes).unwrap();
    assert!(entries.iter().all(|e| e.name != "SECRET" && e.name != "HIDDEN"));
}

#[test]
fn sizing_sums_nested_files() {
    let tree = vec![
        file("X", 10),
        dir("D", vec![file("Y", 20), dir("E", vec![file("Z", 30)])]),
        denied("N"),
    ];
    assert_eq!(calculate_total_size(&tree), Some(60));
    assert_eq!(calculate_total_size(&Vec::new()), Some(0));
}

#[test]
fn progress_is_monotone_and_bounded() {
    let tree = vec![file("A", 5000), dir("D", vec![file("B", 3000)]), file("C", 1)];
    let built = build_image(&tree).unwrap();
    assert_eq!(built.progress.len(), 3 + 2 + 1);
    assert!(built.progress.windows(2).all(|w| w[0] <= w[1]));
    assert!(built.progress.iter().all(|p| *p <= 100));
    assert_eq!(*built.progress.last().unwrap(), 100);
}

#[test]
fn long_names_are_rejected() {
    let long = "N".repeat(221);
    assert_eq!(build_image(&vec![file(&long, 1)]).err(), Some(IsoError::NameTooLong));
    let fits = "N".repeat(220);
    assert!(build_image(&vec![file(&fits, 1)]).is_ok());
    assert!(listing_size(&vec![denied(&long)]).is_ok());
}

#[test]
fn listing_records_do_not_cross_blocks() {
    let tree: Vec<SourceEntry> = (0..60).map(|i| file(&format!("FILE{:02}.DAT", i), 1)).collect();
    let len = listing_size(&tree).unwrap();
    assert!(len > 2048);
    let built = build_image(&tree).unwrap();
    let entries = read_image(&built.bytes).unwrap();
    assert_eq!(entries.len(), 62);
    assert_eq!(entries[61].name, "FILE59.DAT");
}

#[test]
fn reading_rejects_bad_images() {
    assert_eq!(read_image(&vec![0u8; 100]).err(), Some(IsoError::OutOfBounds));
    assert_eq!(read_image(&vec![0u8; 17 * 2048]).err(), Some(IsoError::OutOfBounds));
    let mut terminated = vec![0u8; 40 * 2048];
    terminated[16 * 2048] = 255;
    assert_eq!(read_image(&terminated).err(), Some(IsoError::NotPrimaryDescriptor));
    let mut unterminated = vec![0u8; 60 * 2048];
    for k in 16..60 {
        unterminated[k * 2048] = 2;
    }
    assert_eq!(read_image(&unterminated).err(), Some(IsoError::NotPrimaryDescriptor));
    let mut built = build_image(&sample_tree()).unwrap().bytes;
    built.truncate(22 * 2048);
    assert_eq!(read_image(&built).err(), Some(IsoError::OutOfBounds));
    let mut out = Vec::new();
    assert_eq!(read_directory(&vec![0u8; 2048], 5, 1, 0, &mut out).err(), Some(IsoError::OutOfBounds));
}

#[test]
fn descriptor_scan_skips_other_descriptors() {
    let mut bytes = build_image(&sample_tree()).unwrap().bytes;
    assert_eq!(find_primary_descriptor(&bytes), Ok(16));
    let pvd: Vec<u8> = bytes[16 * 2048..17 * 2048].to_vec();
    bytes[17 * 2048..18 * 2048].copy_from_slice(&pvd);
    bytes[16 * 2048] = 2;
    assert_eq!(find_primary_descriptor(&bytes), Ok(17));
    let entries = read_image(&bytes).unwrap();
    assert_eq!(find(&entries, "B.BIN").size, 1);
    bytes[16 * 2048] = 255;
    assert_eq!(find_primary_descriptor(&bytes), Err(IsoError::NotPrimaryDescriptor));
}

#[test]
fn self_referencing_directory_is_cut_off() {
    let mut image = vec![0u8; 21 * 2048];
    let mut listing = encode_record(b".", 20, 2048, true);
    listing.extend(encode_record(b"..", 20, 2048, true));
    listing.extend(encode_record(b"LOOP", 20, 2048, true));
    image[20 * 2048..20 * 2048 + listing.len()].copy_from_slice(&listing);
    let mut out = Vec::new();
    assert_eq!(read_directory(&image, 20, 2048, 0, &mut out).err(), Some(IsoError::NestingTooDeep));
    assert!(out.iter().any(|e| e.name == "LOOP" && e.depth == 64));
}
