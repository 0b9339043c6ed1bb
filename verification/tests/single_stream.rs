use rs_zip::single::{compress_lzma, decompress_lzma, single_from_plain};
use rs_zip::RszError;

fn patterned(len: usize) -> Vec<u8> {
    let mut v = Vec::with_capacity(len);
    let mut i: usize = 0;
    while i < len {
        v.push((i % 251) as u8);
        i += 1;
    }
    v
}

#[test]
fn round_trip_small_inputs_all_levels() {
    for level in 0u32..=9u32 {
        for &len in &[0usize, 1, 2, 63] {
            let input = patterned(len);
            let stream = compress_lzma(&input, level).unwrap();
            let back = decompress_lzma(&stream).unwrap();
            assert_eq!(back, input);
        }
    }
}

#[test]
fn round_trip_large_inputs() {
    for &len in &[64usize, 65, 100, 1000, 70000] {
        let input = patterned(len);
        let stream = compress_lzma(&input, 6).unwrap();
        let back = decompress_lzma(&stream).unwrap();
        assert_eq!(back, input);
    }
}

#[test]
fn header_reflects_original_size_not_padded_size() {
    let input = patterned(5);
    let stream = compress_lzma(&input, 6).unwrap();
    let mut header = [0u8; 8];
    header.copy_from_slice(&stream[0..8]);
    assert_eq!(u64::from_le_bytes(header), 5);
}

#[test]
fn header_reflects_large_input_size() {
    let input = patterned(300);
    let stream = compress_lzma(&input, 1).unwrap();
    let mut header = [0u8; 8];
    header.copy_from_slice(&stream[0..8]);
    assert_eq!(u64::from_le_bytes(header), 300);
}

#[test]
fn compressed_body_is_an_xz_stream_not_the_plaintext() {
    let input = patterned(200);
    let stream = compress_lzma(&input, 6).unwrap();
    // The bytes after the header must carry the xz container magic.
    assert_eq!(&stream[8..14], &[0xFD, b'7', b'z', b'X', b'Z', 0x00]);
    assert_ne!(&stream[8..], &input[..]);
}

#[test]
fn level_above_nine_is_rejected() {
    let input = patterned(10);
    assert_eq!(compress_lzma(&input, 10), Err(RszError::InvalidArgument));
    assert_eq!(compress_lzma(&input, 4000), Err(RszError::InvalidArgument));
}

#[test]
fn short_stream_is_a_truncated_header() {
    assert_eq!(decompress_lzma(&[]), Err(RszError::TruncatedHeader));
    assert_eq!(decompress_lzma(&[1, 2, 3]), Err(RszError::TruncatedHeader));
    assert_eq!(decompress_lzma(&[0; 7]), Err(RszError::TruncatedHeader));
}

#[test]
fn oversized_declared_length_is_corrupt() {
    let input = patterned(100);
    let mut stream = compress_lzma(&input, 6).unwrap();
    // Rewrite the header to claim more bytes than were compressed.
    stream[0..8].copy_from_slice(&10_000u64.to_le_bytes());
    assert_eq!(decompress_lzma(&stream), Err(RszError::CorruptArchive));
}

#[test]
fn garbage_after_header_is_an_io_error() {
    let mut stream = vec![0u8; 8];
    stream.extend_from_slice(b"definitely not an xz stream");
    assert_eq!(decompress_lzma(&stream), Err(RszError::Io));
}

#[test]
fn plain_truncation_keeps_declared_prefix() {
    let r = single_from_plain(2, vec![10, 20, 30]).unwrap();
    assert_eq!(r, vec![10, 20]);
    let full = single_from_plain(3, vec![10, 20, 30]).unwrap();
    assert_eq!(full, vec![10, 20, 30]);
}

#[test]
fn plain_truncation_rejects_oversize_claim() {
    assert_eq!(single_from_plain(4, vec![1, 2, 3]), Err(RszError::CorruptArchive));
    assert_eq!(single_from_plain(1, vec![]), Err(RszError::CorruptArchive));
}
