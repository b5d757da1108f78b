//! End-to-end tests of the container pass: round trips, the exact corruption
//! effect, and every rejection path.

use crckill::error::Error;
use crckill::walker::rewrite_container;

fn file_header(magic: &[u8; 4], version: u32, kind: u16) -> Vec<u8> {
    let mut v = Vec::new();
    v.extend_from_slice(magic);
    v.extend_from_slice(&version.to_le_bytes());
    v.extend_from_slice(&kind.to_le_bytes());
    v
}

fn valid_header() -> Vec<u8> {
    file_header(b"GCDE", 1, 1)
}

/// One whole block: header, descriptor, payload, checksum. `compressed` is
/// written to the wire only when `compression != 0`.
fn block(
    tp: u16,
    compression: u16,
    uncompressed: u32,
    compressed: Option<u32>,
    descriptor: &[u8],
    payload: &[u8],
    crc: &[u8],
) -> Vec<u8> {
    let mut v = Vec::new();
    v.extend_from_slice(&tp.to_le_bytes());
    v.extend_from_slice(&compression.to_le_bytes());
    v.extend_from_slice(&uncompressed.to_le_bytes());
    if let Some(c) = compressed {
        v.extend_from_slice(&c.to_le_bytes());
    }
    v.extend_from_slice(descriptor);
    v.extend_from_slice(payload);
    v.extend_from_slice(crc);
    v
}

#[test]
fn concrete_scenario_single_gcode_block_killed() {
    // Header "GCDE", version 1, CRC32; one Gcode block, no compression,
    // uncompressed size 10, two descriptor bytes, ten payload bytes, four
    // checksum bytes; corruption set {0}.
    let mut input = valid_header();
    input.extend_from_slice(&block(
        1,
        0,
        10,
        None,
        &[0xaa, 0xbb],
        &[0, 1, 2, 3, 4, 5, 6, 7, 8, 9],
        &[1, 2, 3, 4],
    ));
    let (out, reports) = rewrite_container(&input, &vec![0]).unwrap();
    // Header and block header and descriptor+payload identical, each checksum
    // byte incremented by one.
    assert_eq!(out.len(), input.len());
    assert_eq!(&out[..input.len() - 4], &input[..input.len() - 4]);
    assert_eq!(&out[input.len() - 4..], &[2, 3, 4, 5]);
    assert_eq!(reports.len(), 1);
    assert_eq!(reports[0].index, 0);
    assert_eq!(reports[0].offset, 10);
    assert_eq!(reports[0].region_size, 16);
    assert_eq!(reports[0].checksum, vec![1, 2, 3, 4]);
    assert!(reports[0].killed);
}

#[test]
fn round_trip_empty_corruption_set() {
    let mut input = valid_header();
    input.extend_from_slice(&block(0, 0, 3, None, &[9, 9], &[7, 7, 7], &[1, 2, 3, 4]));
    input.extend_from_slice(&block(
        2,
        1,
        100,
        Some(4),
        &[0, 0],
        &[5, 6, 7, 8],
        &[0xfc, 0xfd, 0xfe, 0xff],
    ));
    let (out, reports) = rewrite_container(&input, &Vec::new()).unwrap();
    assert_eq!(out, input);
    assert_eq!(reports.len(), 2);
    assert!(!reports[0].killed && !reports[1].killed);
}

#[test]
fn round_trip_empty_container() {
    let input = valid_header();
    let (out, reports) = rewrite_container(&input, &Vec::new()).unwrap();
    assert_eq!(out, input);
    assert!(reports.is_empty());
}

#[test]
fn untargeted_blocks_copied_targeted_block_corrupted() {
    let b0 = block(0, 0, 3, None, &[9, 9], &[7, 7, 7], &[10, 20, 30, 40]);
    let b1 = block(1, 0, 2, None, &[1, 1], &[2, 2], &[50, 60, 70, 80]);
    let mut input = valid_header();
    input.extend_from_slice(&b0);
    input.extend_from_slice(&b1);
    let (out, _) = rewrite_container(&input, &vec![1]).unwrap();
    // Block 0 (untargeted) identical, including its checksum.
    assert_eq!(&out[10..10 + b0.len()], &b0[..]);
    // Block 1: all but the checksum identical, checksum incremented.
    let b1_out = &out[10 + b0.len()..];
    assert_eq!(&b1_out[..b1.len() - 4], &b1[..b1.len() - 4]);
    assert_eq!(&b1_out[b1.len() - 4..], &[51, 61, 71, 81]);
}

#[test]
fn corruption_wraps_around() {
    let mut input = valid_header();
    input.extend_from_slice(&block(1, 0, 1, None, &[0, 0], &[9], &[0xff, 0x00, 0x7f, 0xfe]));
    let (out, _) = rewrite_container(&input, &vec![0]).unwrap();
    let n = out.len();
    assert_eq!(&out[n - 4..], &[0x00, 0x01, 0x80, 0xff]);
}

#[test]
fn out_of_range_index_has_no_effect() {
    let mut input = valid_header();
    input.extend_from_slice(&block(3, 0, 2, None, &[4, 4], &[1, 2], &[5, 5, 5, 5]));
    let (out, reports) = rewrite_container(&input, &vec![1, 7, 1000]).unwrap();
    assert_eq!(out, input);
    assert_eq!(reports.len(), 1);
    assert!(!reports[0].killed);
}

#[test]
fn thumbnail_descriptor_is_six_bytes() {
    // A Thumbnail block's region is 6 descriptor bytes + payload + checksum;
    // a following block must still be found, which fails if the descriptor
    // size were taken as 2.
    let thumb = block(5, 0, 4, None, &[1, 2, 3, 4, 5, 6], &[9, 9, 9, 9], &[0, 0, 0, 0]);
    let tail = block(1, 0, 1, None, &[8, 8], &[7], &[1, 1, 1, 1]);
    let mut input = valid_header();
    input.extend_from_slice(&thumb);
    input.extend_from_slice(&tail);
    let (out, reports) = rewrite_container(&input, &vec![1]).unwrap();
    assert_eq!(reports.len(), 2);
    assert_eq!(reports[0].region_size, 6 + 4 + 4);
    assert_eq!(&out[..10 + thumb.len()], &input[..10 + thumb.len()]);
    let n = out.len();
    assert_eq!(&out[n - 4..], &[2, 2, 2, 2]);
}

#[test]
fn compressed_block_stores_compressed_size() {
    // With compression on, the stored compressed size (not the uncompressed
    // one) measures the payload on disk.
    let mut input = valid_header();
    input.extend_from_slice(&block(2, 2, 1000, Some(3), &[0, 1], &[5, 5, 5], &[6, 6, 6, 6]));
    let (out, reports) = rewrite_container(&input, &Vec::new()).unwrap();
    assert_eq!(out, input);
    assert_eq!(reports[0].region_size, 2 + 3 + 4);
}

#[test]
fn bad_magic_rejected() {
    let mut input = file_header(b"GCDX", 1, 1);
    input.extend_from_slice(&block(1, 0, 1, None, &[0, 0], &[9], &[1, 2, 3, 4]));
    assert_eq!(rewrite_container(&input, &Vec::new()).unwrap_err(), Error::FormatError);
}

#[test]
fn bad_version_rejected() {
    let input = file_header(b"GCDE", 2, 1);
    assert_eq!(rewrite_container(&input, &Vec::new()).unwrap_err(), Error::FormatError);
}

#[test]
fn unknown_checksum_kind_rejected() {
    let input = file_header(b"GCDE", 1, 2);
    assert_eq!(rewrite_container(&input, &Vec::new()).unwrap_err(), Error::FormatError);
}

#[test]
fn missing_checksums_rejected() {
    let mut input = file_header(b"GCDE", 1, 0);
    input.extend_from_slice(&block(1, 0, 1, None, &[0, 0], &[9], &[]));
    assert_eq!(rewrite_container(&input, &Vec::new()).unwrap_err(), Error::ConfigError);
}

#[test]
fn short_file_header_rejected() {
    let input = vec![0x47, 0x43, 0x44, 0x45, 1];
    assert_eq!(rewrite_container(&input, &Vec::new()).unwrap_err(), Error::IoError);
}

#[test]
fn unknown_block_type_rejected() {
    let mut input = valid_header();
    input.extend_from_slice(&block(6, 0, 1, None, &[0, 0], &[9], &[1, 2, 3, 4]));
    assert_eq!(rewrite_container(&input, &Vec::new()).unwrap_err(), Error::FormatError);
}

#[test]
fn unknown_compression_rejected() {
    let mut input = valid_header();
    input.extend_from_slice(&block(1, 4, 1, None, &[0, 0], &[9], &[1, 2, 3, 4]));
    assert_eq!(rewrite_container(&input, &Vec::new()).unwrap_err(), Error::FormatError);
}

#[test]
fn short_block_header_rejected() {
    // A full block-type field followed by a cut-off compression field is a
    // hard error, not a clean end.
    let mut input = valid_header();
    input.extend_from_slice(&[1, 0, 0]);
    assert_eq!(rewrite_container(&input, &Vec::new()).unwrap_err(), Error::IoError);
}

#[test]
fn missing_compressed_size_rejected() {
    // Compression is on, so a fourth header field is required but missing.
    let mut input = valid_header();
    input.extend_from_slice(&[1, 0]);
    input.extend_from_slice(&[1, 0]);
    input.extend_from_slice(&5u32.to_le_bytes());
    assert_eq!(rewrite_container(&input, &Vec::new()).unwrap_err(), Error::IoError);
}

#[test]
fn truncated_block_region_rejected() {
    // The block declares more payload than the input holds.
    let mut input = valid_header();
    input.extend_from_slice(&[1, 0]);
    input.extend_from_slice(&[0, 0]);
    input.extend_from_slice(&100u32.to_le_bytes());
    input.extend_from_slice(&[0; 20]);
    assert_eq!(
        rewrite_container(&input, &vec![0]).unwrap_err(),
        Error::TruncatedFileError
    );
}

#[test]
fn single_stray_byte_ends_the_walk() {
    // The walk ends cleanly when the input ends before a full block-type
    // field; a single stray byte is dropped, mirroring the end-of-stream
    // tolerance of the block-header read.
    let mut input = valid_header();
    input.extend_from_slice(&block(1, 0, 1, None, &[0, 0], &[9], &[1, 2, 3, 4]));
    input.push(0x55);
    let (out, reports) = rewrite_container(&input, &Vec::new()).unwrap();
    assert_eq!(&out[..], &input[..input.len() - 1]);
    assert_eq!(reports.len(), 1);
}
