use id_pak::errors::IdPakLoadError;
use id_pak::{IdPak, IdPakReader, FILE_ENTRY_SIZE, HEADER_SIZE};

/// A 1x1 pixel red PNG.
const RED_PNG: [u8; 69] = [
    0x89, 0x50, 0x4E, 0x47, 0x0D, 0x0A, 0x1A, 0x0A, 0x00, 0x00, 0x00, 0x0D, 0x49, 0x48, 0x44,
    0x52, 0x00, 0x00, 0x00, 0x01, 0x00, 0x00, 0x00, 0x01, 0x08, 0x02, 0x00, 0x00, 0x00, 0x90,
    0x77, 0x53, 0xDE, 0x00, 0x00, 0x00, 0x0C, 0x49, 0x44, 0x41, 0x54, 0x08, 0xD7, 0x63, 0xF8,
    0xCF, 0xC0, 0x00, 0x00, 0x03, 0x01, 0x01, 0x00, 0x18, 0xDD, 0x8D, 0xB0, 0x00, 0x00, 0x00,
    0x00, 0x49, 0x45, 0x4E, 0x44, 0xAE, 0x42, 0x60, 0x82,
];

/// A 1x1 pixel blue GIF.
const BLUE_GIF: [u8; 43] = [
    0x47, 0x49, 0x46, 0x38, 0x39, 0x61, 0x01, 0x00, 0x01, 0x00, 0x80, 0x00, 0x00, 0x00, 0x00,
    0xFF, 0x00, 0x00, 0xFF, 0x21, 0xF9, 0x04, 0x01, 0x00, 0x00, 0x00, 0x00, 0x2C, 0x00, 0x00,
    0x00, 0x00, 0x01, 0x00, 0x01, 0x00, 0x00, 0x02, 0x02, 0x44, 0x01, 0x00, 0x3B,
];

/// The start and end markers of a 1x1 pixel green JPEG.
const GREEN_JPG: [u8; 24] = [
    0xFF, 0xD8, 0xFF, 0xE0, 0x00, 0x10, 0x4A, 0x46, 0x49, 0x46, 0x00, 0x01, 0x01, 0x01, 0x00,
    0x48, 0x00, 0x48, 0x00, 0x00, 0x00, 0x3F, 0xFF, 0xD9,
];

fn record(name: &str, offset: u32, size: u32) -> Vec<u8> {
    let mut r = vec![0u8; 56];
    r[..name.len()].copy_from_slice(name.as_bytes());
    r.extend_from_slice(&offset.to_le_bytes());
    r.extend_from_slice(&size.to_le_bytes());
    r
}

/// Header, then the payloads, then a table of contents for them, in the
/// layout that archiving tools write.
fn archive(files: &[(&str, &[u8])]) -> Vec<u8> {
    let mut payloads: Vec<u8> = Vec::new();
    let mut table: Vec<u8> = Vec::new();
    for (name, bytes) in files {
        let offset = (HEADER_SIZE + payloads.len()) as u32;
        table.extend(record(name, offset, bytes.len() as u32));
        payloads.extend_from_slice(bytes);
    }
    let mut out = b"PACK".to_vec();
    out.extend_from_slice(&((HEADER_SIZE + payloads.len()) as u32).to_le_bytes());
    out.extend_from_slice(&(table.len() as u32).to_le_bytes());
    out.extend(payloads);
    out.extend(table);
    out
}

fn three_images() -> Vec<u8> {
    archive(&[("red.png", &RED_PNG), ("blue.gif", &BLUE_GIF), ("green.jpg", &GREEN_JPG)])
}

#[test]
fn test_open_and_read_pak() {
    let pak = IdPak::new(three_images()).unwrap();
    assert_eq!(pak.get_file_count(), 3);
}

#[test]
fn three_entry_archive_reads_each_file() {
    let pak = IdPak::new(three_images()).unwrap();
    assert_eq!(pak.get_file_count(), 3);
    assert_eq!(pak.get_file_bytes("red.png").unwrap(), RED_PNG.to_vec());
    assert_eq!(pak.get_file_bytes("blue.gif").unwrap(), BLUE_GIF.to_vec());
    assert_eq!(pak.get_file_bytes("green.jpg").unwrap(), GREEN_JPG.to_vec());
    let gif = pak.get_file("blue.gif").unwrap();
    assert_eq!(gif.offset as usize, HEADER_SIZE + RED_PNG.len());
    assert_eq!(gif.size as usize, BLUE_GIF.len());
}

#[test]
fn lookup_of_missing_name_is_not_found() {
    let pak = IdPak::new(three_images()).unwrap();
    assert!(pak.get_file("missing.png").is_none());
    assert!(pak.get_file_bytes("missing.png").is_none());
    assert!(pak.get_file("RED.PNG").is_none());
    assert!(pak.get_file("red.pn").is_none());
    assert!(pak.get_file("").is_none());
}

#[test]
fn later_duplicate_name_wins() {
    let data = archive(&[("a.txt", b"first"), ("b.txt", b"other"), ("a.txt", b"second!")]);
    let pak = IdPak::new(data).unwrap();
    assert_eq!(pak.get_file_count(), 2);
    let a = pak.get_file("a.txt").unwrap();
    assert_eq!(a.offset as usize, HEADER_SIZE + 10);
    assert_eq!(a.size, 7);
    assert_eq!(pak.get_file_bytes("a.txt").unwrap(), b"second!".to_vec());
    assert_eq!(pak.get_file_bytes("b.txt").unwrap(), b"other".to_vec());
}

#[test]
fn partial_trailing_record_is_ignored() {
    let mut data = three_images();
    // Table size of three records plus 63 stray bytes.
    let size = (3 * FILE_ENTRY_SIZE + 63) as u32;
    data[8..12].copy_from_slice(&size.to_le_bytes());
    data.extend(vec![0x41u8; 63]);
    let pak = IdPak::new(data).unwrap();
    assert_eq!(pak.get_file_count(), 3);
}

#[test]
fn empty_table_may_point_past_the_end() {
    let mut data = b"PACK".to_vec();
    data.extend_from_slice(&1000u32.to_le_bytes());
    data.extend_from_slice(&63u32.to_le_bytes());
    let pak = IdPak::new(data).unwrap();
    assert_eq!(pak.get_file_count(), 0);
    assert!(pak.get_file("anything").is_none());
}

#[test]
fn short_data_fails_to_load() {
    let r = IdPak::new(b"PACK\x0c\x00\x00".to_vec());
    assert!(matches!(r, Err(IdPakLoadError::UpdateFailure)));
    let r = IdPak::new(Vec::new());
    assert!(matches!(r, Err(IdPakLoadError::UpdateFailure)));
}

#[test]
fn bad_signature_fails_to_load() {
    let mut data = three_images();
    data[3] = b'X';
    assert!(matches!(IdPak::new(data), Err(IdPakLoadError::UpdateFailure)));
}

#[test]
fn truncated_table_fails_to_load() {
    let mut data = three_images();
    data.truncate(data.len() - 1);
    assert!(matches!(IdPak::new(data), Err(IdPakLoadError::UpdateFailure)));
}

#[test]
fn payload_past_the_end_is_not_read() {
    let mut data = b"PACK".to_vec();
    data.extend_from_slice(&12u32.to_le_bytes());
    data.extend_from_slice(&64u32.to_le_bytes());
    data.extend(record("big.bin", 70, 10));
    let pak = IdPak::new(data).unwrap();
    assert_eq!(pak.get_file_count(), 1);
    let e = pak.get_file("big.bin").unwrap();
    assert_eq!((e.offset, e.size), (70, 10));
    assert!(pak.get_file_bytes("big.bin").is_none());
}

#[test]
fn zero_sized_file_reads_empty() {
    let data = archive(&[("empty", b"")]);
    let pak = IdPak::new(data).unwrap();
    assert_eq!(pak.get_file_bytes("empty").unwrap(), Vec::<u8>::new());
}
