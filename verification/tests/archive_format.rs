use rs_zip::archive::{decode_archive, encode_archive, parse_archive, serialize_archive, ArchiveEntry};
use rs_zip::RszError;
use std::io::Write;

fn entry(name: &str, content: &[u8]) -> ArchiveEntry {
    ArchiveEntry { name: name.as_bytes().to_vec(), content: content.to_vec() }
}

fn xz_raw(plain: &[u8]) -> Vec<u8> {
    let mut encoder = xz2::write::XzEncoder::new(Vec::new(), 6);
    encoder.write_all(plain).unwrap();
    encoder.finish().unwrap()
}

#[test]
fn archive_round_trip() {
    let entries = vec![
        entry("a/b/c.txt", b"hello"),
        entry("empty.bin", b""),
        entry("data.raw", &[0u8, 255, 17, 17, 0]),
    ];
    let stream = encode_archive(&entries, 6).unwrap();
    let back = decode_archive(&stream).unwrap();
    assert_eq!(back.len(), 3);
    for (orig, got) in entries.iter().zip(back.iter()) {
        assert_eq!(orig.name, got.name);
        assert_eq!(orig.content, got.content);
    }
}

#[test]
fn archive_round_trip_empty() {
    let entries: Vec<ArchiveEntry> = Vec::new();
    let stream = encode_archive(&entries, 6).unwrap();
    let back = decode_archive(&stream).unwrap();
    assert_eq!(back.len(), 0);
}

#[test]
fn archive_keeps_duplicate_names_in_order() {
    let entries = vec![entry("same.txt", b"first"), entry("same.txt", b"second")];
    let stream = encode_archive(&entries, 6).unwrap();
    let back = decode_archive(&stream).unwrap();
    assert_eq!(back.len(), 2);
    assert_eq!(back[0].name, b"same.txt".to_vec());
    assert_eq!(back[0].content, b"first".to_vec());
    assert_eq!(back[1].name, b"same.txt".to_vec());
    assert_eq!(back[1].content, b"second".to_vec());
}

#[test]
fn serialized_bytes_match_the_wire_layout() {
    let entries = vec![entry("a", &[7, 8])];
    let plain = serialize_archive(&entries);
    let mut expected = Vec::new();
    expected.extend_from_slice(&1u64.to_le_bytes());
    expected.extend_from_slice(&1u64.to_le_bytes());
    expected.push(b'a');
    expected.extend_from_slice(&2u64.to_le_bytes());
    expected.extend_from_slice(&[7, 8]);
    assert_eq!(plain, expected);
}

#[test]
fn parse_inverts_serialize() {
    let entries = vec![entry("x", b"1"), entry("longer/name.bin", b"abcdef")];
    let plain = serialize_archive(&entries);
    let back = parse_archive(&plain).unwrap();
    assert_eq!(back.len(), 2);
    for (orig, got) in entries.iter().zip(back.iter()) {
        assert_eq!(orig.name, got.name);
        assert_eq!(orig.content, got.content);
    }
}

#[test]
fn archive_level_above_nine_is_rejected() {
    let entries = vec![entry("a", b"b")];
    assert_eq!(encode_archive(&entries, 10), Err(RszError::InvalidArgument));
}

#[test]
fn missing_count_is_a_truncated_header() {
    assert_eq!(parse_archive(&[]), Err(RszError::TruncatedHeader));
    assert_eq!(parse_archive(&[9, 9, 9]), Err(RszError::TruncatedHeader));
    let stream = xz_raw(&[1, 2, 3]);
    assert_eq!(decode_archive(&stream), Err(RszError::TruncatedHeader));
}

#[test]
fn truncation_at_entry_boundary_is_detected() {
    // A count that promises two entries over the frames of only one.
    let one = serialize_archive(&vec![entry("a", b"xy")]);
    let mut plain = Vec::new();
    plain.extend_from_slice(&2u64.to_le_bytes());
    plain.extend_from_slice(&one[8..]);
    assert_eq!(parse_archive(&plain), Err(RszError::TruncatedArchive));
    let stream = xz_raw(&plain);
    assert_eq!(decode_archive(&stream), Err(RszError::TruncatedArchive));
}

#[test]
fn truncation_before_any_entry_is_detected() {
    let mut plain = Vec::new();
    plain.extend_from_slice(&1u64.to_le_bytes());
    assert_eq!(parse_archive(&plain), Err(RszError::TruncatedArchive));
    let stream = xz_raw(&plain);
    assert_eq!(decode_archive(&stream), Err(RszError::TruncatedArchive));
}

#[test]
fn name_running_past_the_end_is_detected() {
    let mut plain = Vec::new();
    plain.extend_from_slice(&1u64.to_le_bytes());
    plain.extend_from_slice(&100u64.to_le_bytes());
    plain.extend_from_slice(b"short");
    assert_eq!(parse_archive(&plain), Err(RszError::TruncatedArchive));
}

#[test]
fn content_running_past_the_end_is_detected() {
    let mut plain = Vec::new();
    plain.extend_from_slice(&1u64.to_le_bytes());
    plain.extend_from_slice(&1u64.to_le_bytes());
    plain.push(b'n');
    plain.extend_from_slice(&50u64.to_le_bytes());
    plain.extend_from_slice(b"only-a-few-bytes");
    assert_eq!(parse_archive(&plain), Err(RszError::TruncatedArchive));
}

#[test]
fn trailing_bytes_after_the_last_entry_are_ignored() {
    let entries = vec![entry("a", b"b")];
    let mut plain = serialize_archive(&entries);
    plain.extend_from_slice(b"trailing junk");
    let back = parse_archive(&plain).unwrap();
    assert_eq!(back.len(), 1);
    assert_eq!(back[0].name, b"a".to_vec());
    assert_eq!(back[0].content, b"b".to_vec());
}

#[test]
fn non_xz_archive_stream_is_an_io_error() {
    assert_eq!(decode_archive(b"not an xz stream at all......."), Err(RszError::Io));
}
