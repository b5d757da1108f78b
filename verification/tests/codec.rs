//! Unit tests of the header and block codecs.

use crckill::block::{block_type_value_of, compression_value_of, BlockHeader, BlockType, Compression};
use crckill::error::Error;
use crckill::header::{ChecksumKind, FileHeader};

fn gcde_header(kind: ChecksumKind) -> FileHeader {
    FileHeader { magic: (0x47, 0x43, 0x44, 0x45), version: 1, checksum_kind: kind }
}

#[test]
fn file_header_decodes_fields() {
    let mut bytes = b"GCDE".to_vec();
    bytes.extend_from_slice(&1u32.to_le_bytes());
    bytes.extend_from_slice(&1u16.to_le_bytes());
    let h = FileHeader::read(&bytes).unwrap();
    assert_eq!(h.magic, (0x47, 0x43, 0x44, 0x45));
    assert_eq!(h.version, 1);
    assert_eq!(h.checksum_kind, ChecksumKind::Crc32);
}

#[test]
fn file_header_write_round_trips() {
    let h = gcde_header(ChecksumKind::Crc32);
    let mut bytes = Vec::new();
    h.write(&mut bytes);
    assert_eq!(bytes.len(), 10);
    assert_eq!(FileHeader::read(&bytes).unwrap(), h);
}

#[test]
fn file_header_check_accepts_only_supported() {
    assert!(gcde_header(ChecksumKind::Crc32).check().is_ok());
    assert!(gcde_header(ChecksumKind::NoChecksum).check().is_ok());
    let bad_magic = FileHeader { magic: (0x47, 0x43, 0x44, 0x46), ..gcde_header(ChecksumKind::Crc32) };
    assert_eq!(bad_magic.check().unwrap_err(), Error::FormatError);
    let bad_version = FileHeader { version: 3, ..gcde_header(ChecksumKind::Crc32) };
    assert_eq!(bad_version.check().unwrap_err(), Error::FormatError);
}

#[test]
fn crc_size_by_kind() {
    assert_eq!(gcde_header(ChecksumKind::NoChecksum).crc_size(), 0);
    assert_eq!(gcde_header(ChecksumKind::Crc32).crc_size(), 4);
}

#[test]
fn block_header_uncompressed_omits_compressed_size() {
    let h = BlockHeader {
        tp: BlockType::Gcode,
        compression: Compression::NoCompression,
        uncompressed_size: 7,
        compressed_size: 7,
    };
    let mut bytes = Vec::new();
    h.write(&mut bytes);
    assert_eq!(bytes, vec![1, 0, 0, 0, 7, 0, 0, 0]);
    let (back, end) = BlockHeader::read(&bytes, 0).unwrap().unwrap();
    assert_eq!(back, h);
    assert_eq!(end, 8);
}

#[test]
fn block_header_compressed_stores_both_sizes() {
    let h = BlockHeader {
        tp: BlockType::Thumbnail,
        compression: Compression::Heatshrink12_4,
        uncompressed_size: 0x01020304,
        compressed_size: 0x0a0b0c0d,
    };
    let mut bytes = Vec::new();
    h.write(&mut bytes);
    assert_eq!(bytes, vec![5, 0, 3, 0, 4, 3, 2, 1, 0x0d, 0x0c, 0x0b, 0x0a]);
    let (back, end) = BlockHeader::read(&bytes, 0).unwrap().unwrap();
    assert_eq!(back, h);
    assert_eq!(end, 12);
}

#[test]
fn block_header_read_at_end_is_none() {
    let bytes = vec![1, 0, 0, 0, 7, 0, 0, 0];
    assert!(BlockHeader::read(&bytes, 8).unwrap().is_none());
    assert!(BlockHeader::read(&bytes, 7).unwrap().is_none());
}

#[test]
fn block_header_uncompressed_copies_size() {
    let bytes = vec![2, 0, 0, 0, 9, 0, 0, 0];
    let (h, _) = BlockHeader::read(&bytes, 0).unwrap().unwrap();
    assert_eq!(h.compressed_size, 9);
    assert_eq!(h.uncompressed_size, 9);
}

#[test]
fn payload_size_adds_descriptor() {
    let gcode = BlockHeader {
        tp: BlockType::Gcode,
        compression: Compression::Deflate,
        uncompressed_size: 50,
        compressed_size: 20,
    };
    assert_eq!(gcode.payload_size_with_params(), 22);
    let thumb = BlockHeader { tp: BlockType::Thumbnail, ..gcode };
    assert_eq!(thumb.payload_size_with_params(), 26);
}

#[test]
fn wire_values_of_enums() {
    assert_eq!(block_type_value_of(BlockType::FileMetadata), 0);
    assert_eq!(block_type_value_of(BlockType::Gcode), 1);
    assert_eq!(block_type_value_of(BlockType::SlicerMetadata), 2);
    assert_eq!(block_type_value_of(BlockType::PrinterMetadata), 3);
    assert_eq!(block_type_value_of(BlockType::PrintMetadata), 4);
    assert_eq!(block_type_value_of(BlockType::Thumbnail), 5);
    assert_eq!(compression_value_of(Compression::NoCompression), 0);
    assert_eq!(compression_value_of(Compression::Deflate), 1);
    assert_eq!(compression_value_of(Compression::Heatshrink11_4), 2);
    assert_eq!(compression_value_of(Compression::Heatshrink12_4), 3);
}
