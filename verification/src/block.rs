//! Block headers: type, compression and sizes. The on-disk shape depends on
//! the compression mode (the compressed size is stored only when compression
//! is used), and the payload is preceded by a type-dependent encoding
//! descriptor that the stored sizes do not count.

use vstd::prelude::*;

use crate::error::Error;
use crate::wire::{le16, le16_bytes, le32, le32_bytes, push_le16, push_le32, read_le16, read_le32};

verus! {

/// Block type; fixes the size of the encoding descriptor in front of the payload.
#[derive(Clone, Copy, Debug, PartialEq, Eq, Structural)]
pub enum BlockType {
    FileMetadata,
    Gcode,
    SlicerMetadata,
    PrinterMetadata,
    PrintMetadata,
    Thumbnail,
}

/// Wire value of a block type.
pub open spec fn block_type_value(t: BlockType) -> u16 {
    match t {
        BlockType::FileMetadata => 0,
        BlockType::Gcode => 1,
        BlockType::SlicerMetadata => 2,
        BlockType::PrinterMetadata => 3,
        BlockType::PrintMetadata => 4,
        BlockType::Thumbnail => 5,
    }
}

/// Block type of a wire value; unmapped values are rejected.
pub open spec fn block_type_of_value(v: u16) -> Option<BlockType> {
    if v == 0 {
        Some(BlockType::FileMetadata)
    } else if v == 1 {
        Some(BlockType::Gcode)
    } else if v == 2 {
        Some(BlockType::SlicerMetadata)
    } else if v == 3 {
        Some(BlockType::PrinterMetadata)
    } else if v == 4 {
        Some(BlockType::PrintMetadata)
    } else if v == 5 {
        Some(BlockType::Thumbnail)
    } else {
        None
    }
}

/// Compression mode of a block's payload. The payload itself is opaque to the
/// walker; the mode only decides whether a compressed size is stored.
#[derive(Clone, Copy, Debug, PartialEq, Eq, Structural)]
pub enum Compression {
    NoCompression,
    Deflate,
    Heatshrink11_4,
    Heatshrink12_4,
}

/// Wire value of a compression mode.
pub open spec fn compression_value(c: Compression) -> u16 {
    match c {
        Compression::NoCompression => 0,
        Compression::Deflate => 1,
        Compression::Heatshrink11_4 => 2,
        Compression::Heatshrink12_4 => 3,
    }
}

/// Compression mode of a wire value; unmapped values are rejected.
pub open spec fn compression_of_value(v: u16) -> Option<Compression> {
    if v == 0 {
        Some(Compression::NoCompression)
    } else if v == 1 {
        Some(Compression::Deflate)
    } else if v == 2 {
        Some(Compression::Heatshrink11_4)
    } else if v == 3 {
        Some(Compression::Heatshrink12_4)
    } else {
        None
    }
}

/// Size of the encoding descriptor that precedes the payload on disk and is
/// not counted in the stored size fields: a fixed quirk of the format, keyed
/// by block type alone.
pub open spec fn spec_descriptor_size(t: BlockType) -> u32 {
    if t == BlockType::Thumbnail {
        6
    } else {
        2
    }
}

/// One block header. Immutable once read; re-serialised unchanged (the walker
/// never alters header fields, only trailing checksum bytes of the region).
#[derive(Clone, Copy, Debug, PartialEq, Eq, Structural)]
pub struct BlockHeader {
    pub tp: BlockType,
    pub compression: Compression,
    pub uncompressed_size: u32,
    /// Equal to `uncompressed_size` when compression is off; then it is not
    /// separately stored on the wire.
    pub compressed_size: u32,
}

/// The wire bytes of a block header: type, compression, uncompressed size,
/// and the compressed size only when compression is on.
pub open spec fn block_header_bytes(h: BlockHeader) -> Seq<u8> {
    le16_bytes(block_type_value(h.tp)) + le16_bytes(compression_value(h.compression)) + le32_bytes(
        h.uncompressed_size,
    ) + if h.compression == Compression::NoCompression {
        Seq::<u8>::empty()
    } else {
        le32_bytes(h.compressed_size)
    }
}

/// What decoding a block header at `pos` yields. `Ok(None)` marks the clean
/// "no more blocks" case: the input ends before a full block-type field.
/// After that first field, a short read is a hard `IoError`, and an unmapped
/// type or compression value a `FormatError`. On success the header comes with
/// the position just past it.
pub open spec fn spec_read_block_header(s: Seq<u8>, pos: int) -> Result<
    Option<(BlockHeader, int)>,
    Error,
> {
    if pos + 2 > s.len() {
        Ok(None)
    } else {
        match block_type_of_value(le16(s[pos], s[pos + 1])) {
            None => Err(Error::FormatError),
            Some(tp) => if pos + 4 > s.len() {
                Err(Error::IoError)
            } else {
                match compression_of_value(le16(s[pos + 2], s[pos + 3])) {
                    None => Err(Error::FormatError),
                    Some(c) => if pos + 8 > s.len() {
                        Err(Error::IoError)
                    } else {
                        let us = le32(s[pos + 4], s[pos + 5], s[pos + 6], s[pos + 7]);
                        if c == Compression::NoCompression {
                            Ok(
                                Some(
                                    (
                                        BlockHeader {
                                            tp,
                                            compression: c,
                                            uncompressed_size: us,
                                            compressed_size: us,
                                        },
                                        pos + 8,
                                    ),
                                ),
                            )
                        } else if pos + 12 > s.len() {
                            Err(Error::IoError)
                        } else {
                            Ok(
                                Some(
                                    (
                                        BlockHeader {
                                            tp,
                                            compression: c,
                                            uncompressed_size: us,
                                            compressed_size: le32(
                                                s[pos + 8],
                                                s[pos + 9],
                                                s[pos + 10],
                                                s[pos + 11],
                                            ),
                                        },
                                        pos + 12,
                                    ),
                                ),
                            )
                        }
                    },
                }
            },
        }
    }
}

/// A decoded block header re-encodes to exactly the bytes it was read from.
pub proof fn lemma_block_header_reencode(s: Seq<u8>, pos: int)
    requires
        0 <= pos,
        spec_read_block_header(s, pos) matches Ok(Some(_)),
    ensures
        ({
            let (h, hend) = spec_read_block_header(s, pos)->Ok_0->Some_0;
            block_header_bytes(h) == s.subrange(pos, hend)
        }),
{
    let (h, hend) = spec_read_block_header(s, pos)->Ok_0->Some_0;
    assert(block_type_value(h.tp) == le16(s[pos], s[pos + 1]));
    assert(compression_value(h.compression) == le16(s[pos + 2], s[pos + 3]));
    crate::wire::lemma_le16_bytes(s[pos], s[pos + 1]);
    crate::wire::lemma_le16_bytes(s[pos + 2], s[pos + 3]);
    crate::wire::lemma_le32_bytes(s[pos + 4], s[pos + 5], s[pos + 6], s[pos + 7]);
    if h.compression != Compression::NoCompression {
        crate::wire::lemma_le32_bytes(s[pos + 8], s[pos + 9], s[pos + 10], s[pos + 11]);
    }
    assert(block_header_bytes(h) =~= s.subrange(pos, hend));
}

impl BlockHeader {
    /// Decodes the block header at `pos`, or reports that the block sequence
    /// ends there. On success also returns the position just past the header.
    pub fn read(input: &Vec<u8>, pos: usize) -> (r: Result<Option<(BlockHeader, usize)>, Error>)
        ensures
            (r is Ok) == (spec_read_block_header(input@, pos as int) is Ok),
            r is Err ==> r->Err_0 == spec_read_block_header(input@, pos as int)->Err_0,
            r is Ok ==> ((r->Ok_0 is Some) == (spec_read_block_header(input@, pos as int)->Ok_0
                is Some)),
            r matches Ok(Some((h, hend))) ==> spec_read_block_header(input@, pos as int)
                == Ok::<_, Error>(Some((h, hend as int))) && pos + 8 <= hend <= input@.len(),
    {
        let n = input.len();
        if pos >= n || pos + 1 >= n {
            return Ok(None);
        }
        let type_value = read_le16(input, pos);
        let tp = if type_value == 0 {
            BlockType::FileMetadata
        } else if type_value == 1 {
            BlockType::Gcode
        } else if type_value == 2 {
            BlockType::SlicerMetadata
        } else if type_value == 3 {
            BlockType::PrinterMetadata
        } else if type_value == 4 {
            BlockType::PrintMetadata
        } else if type_value == 5 {
            BlockType::Thumbnail
        } else {
            return Err(Error::FormatError);
        };
        if n - pos < 4 {
            return Err(Error::IoError);
        }
        let compression_wire = read_le16(input, pos + 2);
        let compression = if compression_wire == 0 {
            Compression::NoCompression
        } else if compression_wire == 1 {
            Compression::Deflate
        } else if compression_wire == 2 {
            Compression::Heatshrink11_4
        } else if compression_wire == 3 {
            Compression::Heatshrink12_4
        } else {
            return Err(Error::FormatError);
        };
        if n - pos < 8 {
            return Err(Error::IoError);
        }
        let uncompressed_size = read_le32(input, pos + 4);
        if compression == Compression::NoCompression {
            Ok(
                Some(
                    (
                        BlockHeader {
                            tp,
                            compression,
                            uncompressed_size,
                            compressed_size: uncompressed_size,
                        },
                        pos + 8,
                    ),
                ),
            )
        } else if n - pos < 12 {
            Err(Error::IoError)
        } else {
            let compressed_size = read_le32(input, pos + 8);
            Ok(Some((BlockHeader { tp, compression, uncompressed_size, compressed_size }, pos + 12)))
        }
    }

    /// Re-encodes the header, appending its wire bytes to `out`; the
    /// compressed-size field is omitted when compression is off, mirroring the
    /// conditional read.
    pub fn write(&self, out: &mut Vec<u8>)
        ensures
            final(out)@ == old(out)@ + block_header_bytes(*self),
    {
        push_le16(out, block_type_value_of(self.tp));
        push_le16(out, compression_value_of(self.compression));
        push_le32(out, self.uncompressed_size);
        if !(self.compression == Compression::NoCompression) {
            push_le32(out, self.compressed_size);
        }
        assert(out@ =~= old(out)@ + block_header_bytes(*self));
    }

    /// The real on-disk span of the data that follows this header, checksum
    /// bytes excluded: the stored size counts only the compressed payload, so
    /// the type-dependent descriptor must be added.
    pub fn payload_size_with_params(&self) -> (r: u32)
        requires
            spec_descriptor_size(self.tp) + self.compressed_size <= u32::MAX,
        ensures
            r == spec_descriptor_size(self.tp) + self.compressed_size,
    {
        let encoding: u32 = match self.tp {
            BlockType::Thumbnail => 6,
            _ => 2,
        };
        encoding + self.compressed_size
    }
}

/// Wire value of a block type (executable counterpart of `block_type_value`).
pub fn block_type_value_of(t: BlockType) -> (r: u16)
    ensures
        r == block_type_value(t),
{
    match t {
        BlockType::FileMetadata => 0,
        BlockType::Gcode => 1,
        BlockType::SlicerMetadata => 2,
        BlockType::PrinterMetadata => 3,
        BlockType::PrintMetadata => 4,
        BlockType::Thumbnail => 5,
    }
}

/// Wire value of a compression mode (executable counterpart of `compression_value`).
pub fn compression_value_of(c: Compression) -> (r: u16)
    ensures
        r == compression_value(c),
{
    match c {
        Compression::NoCompression => 0,
        Compression::Deflate => 1,
        Compression::Heatshrink11_4 => 2,
        Compression::Heatshrink12_4 => 3,
    }
}

} // verus!
