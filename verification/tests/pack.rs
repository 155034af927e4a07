use rsquake::catalog::{mount_order, pak_file_name, Pack, PackContainer};
use rsquake::packfile::{parse_directory, EntryReader, Header, PackError, PackFile};

/// One 64-byte directory record: a NUL-padded name and two little-endian
/// 32-bit fields.
fn record(name: &str, position: i32, length: i32) -> Vec<u8> {
    let mut rec = vec![0u8; 64];
    rec[..name.len()].copy_from_slice(name.as_bytes());
    rec[56..60].copy_from_slice(&position.to_le_bytes());
    rec[60..64].copy_from_slice(&length.to_le_bytes());
    rec
}

fn header_bytes(offset: i32, length: i32) -> Vec<u8> {
    let mut bytes = b"PACK".to_vec();
    bytes.extend_from_slice(&offset.to_le_bytes());
    bytes.extend_from_slice(&length.to_le_bytes());
    bytes
}

#[test]
fn header_reads_offsets_little_endian() {
    let header = Header::read(&header_bytes(18254423, 21696)).unwrap();
    assert_eq!(header.directory_offset, 18254423);
    assert_eq!(header.directory_length, 21696);
    assert_eq!(Header::size(), 12);
}

#[test]
fn header_rejects_bad_signature() {
    let mut bytes = header_bytes(64, 128);
    bytes[0] = b'Q';
    assert_eq!(Header::read(&bytes), Err(PackError::FormatError));
}

#[test]
fn header_rejects_short_input() {
    assert_eq!(Header::read(b"PACK\x00\x00"), Err(PackError::FormatError));
}

#[test]
fn header_reads_negative_fields() {
    let header = Header::read(&header_bytes(-1, -64)).unwrap();
    assert_eq!(header.directory_offset, -1);
    assert_eq!(header.directory_length, -64);
}

#[test]
fn packfile_record_decodes() {
    let rec = record("sound/items/r_item1.wav", 12, 2048);
    let entry = PackFile::read(&rec).unwrap();
    assert_eq!(entry.name_str(), "sound/items/r_item1.wav");
    assert_eq!(entry.position, 12);
    assert_eq!(entry.length, 2048);
    assert_eq!(PackFile::size(), 64);
}

#[test]
fn packfile_name_stops_at_first_nul() {
    let mut rec = record("abc", 0, 0);
    rec[4] = b'z'; // text after the NUL terminator is not part of the name
    let entry = PackFile::read(&rec).unwrap();
    assert_eq!(entry.name, b"abc");
}

#[test]
fn packfile_rejects_invalid_text() {
    let mut rec = record("abc", 0, 0);
    rec[1] = 0xff; // not valid UTF-8 before the first NUL
    assert_eq!(PackFile::read(&rec), Err(PackError::DecodeError));
}

#[test]
fn directory_yields_one_entry_per_record() {
    // an N-record directory is N * 64 bytes long and decodes to exactly
    // N entries with distinct, trimmed names
    let mut bytes = record("gfx/palette.lmp", 16, 768);
    bytes.extend_from_slice(&record("gfx/pause.lmp", 784, 260));
    bytes.extend_from_slice(&record("maps/start.bsp", 1044, 9000));
    assert_eq!(bytes.len(), 3 * 64);
    let entries = parse_directory(&bytes).unwrap();
    assert_eq!(entries.len(), 3);
    let names: Vec<&str> = entries.iter().map(|e| e.name_str()).collect();
    assert_eq!(names, ["gfx/palette.lmp", "gfx/pause.lmp", "maps/start.bsp"]);
    assert!(names.windows(2).all(|w| w[0] != w[1]));
    assert_eq!(entries[1].position, 784);
    assert_eq!(entries[2].length, 9000);
}

#[test]
fn directory_rejects_partial_records() {
    let mut bytes = record("a", 0, 0);
    bytes.push(0);
    assert_eq!(parse_directory(&bytes).unwrap_err(), PackError::FormatError);
}

#[test]
fn empty_directory_is_empty() {
    assert_eq!(parse_directory(&[]).unwrap().len(), 0);
}

fn pack_with(handle: usize, entries: &[(&str, i32, i32)]) -> Pack {
    let mut bytes = Vec::new();
    for (name, position, length) in entries {
        bytes.extend_from_slice(&record(name, *position, *length));
    }
    Pack::from_directory(format!("PAK{}.PAK", handle), handle, &bytes).unwrap()
}

#[test]
fn find_returns_the_first_matching_entry() {
    let pack = pack_with(0, &[("a", 1, 10), ("b", 2, 20), ("b", 3, 30)]);
    assert_eq!(pack.find(b"b"), Some(1));
    assert_eq!(pack.find(b"a"), Some(0));
    assert_eq!(pack.find(b"missing"), None);
}

#[test]
fn resolve_prefers_the_first_mounted_archive() {
    // both archives contain "x": the first-mounted one must win
    let mut catalog = PackContainer::new();
    catalog.mount(pack_with(0, &[("x", 100, 11), ("y", 200, 22)]));
    catalog.mount(pack_with(1, &[("x", 300, 33)]));
    let loc = catalog.resolve("x").unwrap();
    assert_eq!(loc.pack, 0);
    assert_eq!(loc.handle, 0);
    assert_eq!(loc.position, 100);
    assert_eq!(loc.length, 11);
}

#[test]
fn resolve_falls_through_to_later_archives() {
    let mut catalog = PackContainer::new();
    catalog.mount(pack_with(0, &[("y", 200, 22)]));
    catalog.mount(pack_with(1, &[("x", 300, 33)]));
    let loc = catalog.resolve("x").unwrap();
    assert_eq!(loc.pack, 1);
    assert_eq!(loc.position, 300);
}

#[test]
fn resolve_reports_missing_names() {
    let mut catalog = PackContainer::new();
    catalog.mount(pack_with(0, &[("y", 200, 22)]));
    assert_eq!(catalog.resolve("x").unwrap_err(), PackError::NotFoundError);
    assert_eq!(catalog.len(), 1);
    assert_eq!(catalog.get(0).handle, 0);
}

#[test]
fn mount_order_is_descending() {
    // higher-numbered archives are mounted first, so they shadow lower ones
    let order = mount_order(16);
    assert_eq!(order.len(), 17);
    assert_eq!(order[0], 16);
    assert_eq!(order[16], 0);
    assert!(order.windows(2).all(|w| w[0] > w[1]));
}

#[test]
fn pak_file_names_follow_the_convention() {
    assert_eq!(pak_file_name(0), b"PAK0.PAK");
    assert_eq!(pak_file_name(7), b"PAK7.PAK");
    assert_eq!(pak_file_name(12), b"PAK12.PAK");
}

#[test]
fn entry_reader_accumulates_short_reads() {
    // a read that returns the requested bytes in two chunks must still
    // yield the full concatenated buffer
    let mut reader = EntryReader::new(5);
    assert_eq!(reader.remaining(), 5);
    assert!(!reader.is_complete());
    reader.push_chunk(&[1, 2, 3]);
    assert_eq!(reader.remaining(), 2);
    assert!(!reader.is_complete());
    reader.push_chunk(&[4, 5]);
    assert!(reader.is_complete());
    assert_eq!(reader.into_bytes(), vec![1, 2, 3, 4, 5]);
}

#[test]
fn entry_reader_accepts_empty_requests() {
    let reader = EntryReader::new(0);
    assert!(reader.is_complete());
    assert_eq!(reader.into_bytes(), Vec::<u8>::new());
}
