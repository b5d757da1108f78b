//! The fixed ten-byte file header: magic, format version and checksum kind.

use vstd::prelude::*;

use crate::error::Error;
use crate::wire::{le16, le16_bytes, le32, le32_bytes, push_le16, push_le32, read_le16, read_le32};

verus! {

/// Number of bytes of the file header on the wire.
pub const HEADER_LEN: usize = 10;

/// The single format version the walker accepts.
pub const SUPPORTED_VERSION: u32 = 1;

/// File-level checksum kind; fixes how many checksum bytes trail every block.
#[derive(Clone, Copy, Debug, PartialEq, Eq, Structural)]
pub enum ChecksumKind {
    NoChecksum,
    Crc32,
}

/// Wire value of a checksum kind.
pub open spec fn checksum_kind_value(k: ChecksumKind) -> u16 {
    match k {
        ChecksumKind::NoChecksum => 0,
        ChecksumKind::Crc32 => 1,
    }
}

/// Checksum kind of a wire value; unmapped values are rejected.
pub open spec fn checksum_kind_of_value(v: u16) -> Option<ChecksumKind> {
    if v == 0 {
        Some(ChecksumKind::NoChecksum)
    } else if v == 1 {
        Some(ChecksumKind::Crc32)
    } else {
        None
    }
}

/// Number of checksum bytes that trail every block of a file of kind `k`.
pub open spec fn spec_crc_size(k: ChecksumKind) -> u32 {
    match k {
        ChecksumKind::NoChecksum => 0,
        ChecksumKind::Crc32 => 4,
    }
}

/// The four magic bytes, "GCDE".
pub open spec fn magic_bytes() -> Seq<u8> {
    seq![0x47u8, 0x43u8, 0x44u8, 0x45u8]
}

/// The decoded file header. Immutable once read; re-serialised verbatim.
#[derive(Clone, Copy, Debug, PartialEq, Eq)]
pub struct FileHeader {
    /// The four magic bytes in wire order.
    pub magic: (u8, u8, u8, u8),
    pub version: u32,
    pub checksum_kind: ChecksumKind,
}

/// The magic field as a byte sequence.
pub open spec fn magic_of(h: FileHeader) -> Seq<u8> {
    seq![h.magic.0, h.magic.1, h.magic.2, h.magic.3]
}

/// The ten header bytes of `h` in wire order.
pub open spec fn file_header_bytes(h: FileHeader) -> Seq<u8> {
    magic_of(h) + le32_bytes(h.version) + le16_bytes(checksum_kind_value(h.checksum_kind))
}

/// What decoding the file header from the front of `s` yields: the header, or
/// `IoError` when the input ends inside a field, or `FormatError` when the
/// checksum-kind value is unmapped.
pub open spec fn spec_read_file_header(s: Seq<u8>) -> Result<FileHeader, Error> {
    if s.len() < HEADER_LEN {
        Err(Error::IoError)
    } else {
        match checksum_kind_of_value(le16(s[8], s[9])) {
            Some(k) => Ok(
                FileHeader {
                    magic: (s[0], s[1], s[2], s[3]),
                    version: le32(s[4], s[5], s[6], s[7]),
                    checksum_kind: k,
                },
            ),
            None => Err(Error::FormatError),
        }
    }
}

/// A decoded header re-encodes to exactly the bytes it was read from.
pub proof fn lemma_file_header_reencode(s: Seq<u8>)
    requires
        spec_read_file_header(s) is Ok,
    ensures
        file_header_bytes(spec_read_file_header(s)->Ok_0) == s.subrange(0, HEADER_LEN as int),
{
    let h = spec_read_file_header(s)->Ok_0;
    crate::wire::lemma_le32_bytes(s[4], s[5], s[6], s[7]);
    assert(checksum_kind_value(h.checksum_kind) == le16(s[8], s[9]));
    crate::wire::lemma_le16_bytes(s[8], s[9]);
    assert(file_header_bytes(h) =~= s.subrange(0, HEADER_LEN as int));
}

impl FileHeader {
    /// Decodes the ten-byte file header at the start of `input`.
    pub fn read(input: &Vec<u8>) -> (r: Result<FileHeader, Error>)
        ensures
            r == spec_read_file_header(input@),
    {
        if input.len() < HEADER_LEN {
            return Err(Error::IoError);
        }
        let magic = (input[0], input[1], input[2], input[3]);
        let version = read_le32(input, 4);
        let kind_value = read_le16(input, 8);
        let checksum_kind = if kind_value == 0 {
            ChecksumKind::NoChecksum
        } else if kind_value == 1 {
            ChecksumKind::Crc32
        } else {
            return Err(Error::FormatError);
        };
        Ok(FileHeader { magic, version, checksum_kind })
    }

    /// Re-encodes the header, appending its ten bytes to `out`. No validation
    /// is performed: an invalid header may be written on purpose.
    pub fn write(&self, out: &mut Vec<u8>)
        ensures
            final(out)@ == old(out)@ + file_header_bytes(*self),
    {
        out.push(self.magic.0);
        out.push(self.magic.1);
        out.push(self.magic.2);
        out.push(self.magic.3);
        push_le32(out, self.version);
        push_le16(out, checksum_kind_value_of(self.checksum_kind));
        assert(out@ =~= old(out)@ + file_header_bytes(*self));
    }

    /// Validates format identity: the magic must read "GCDE" and the version
    /// must be the single supported one. Kept apart from decoding so that a
    /// malformed header can still be echoed before the hard failure.
    pub fn check(&self) -> (r: Result<(), Error>)
        ensures
            r is Ok <==> (magic_of(*self) == magic_bytes() && self.version == SUPPORTED_VERSION),
            r is Err ==> r->Err_0 == Error::FormatError,
    {
        if self.magic.0 == 0x47 && self.magic.1 == 0x43 && self.magic.2 == 0x44 && self.magic.3
            == 0x45 && self.version == SUPPORTED_VERSION {
            assert(magic_of(*self) =~= magic_bytes());
            Ok(())
        } else {
            assert(magic_of(*self) == magic_bytes() ==> (self.magic.0 == 0x47 && self.magic.1
                == 0x43 && self.magic.2 == 0x44 && self.magic.3 == 0x45)) by {
                if magic_of(*self) == magic_bytes() {
                    assert(magic_of(*self)[0] == magic_bytes()[0]);
                    assert(magic_of(*self)[1] == magic_bytes()[1]);
                    assert(magic_of(*self)[2] == magic_bytes()[2]);
                    assert(magic_of(*self)[3] == magic_bytes()[3]);
                }
            };
            Err(Error::FormatError)
        }
    }

    /// Checksum byte count of this file; a property of the file header, not of
    /// any block.
    pub fn crc_size(&self) -> (r: u32)
        ensures
            r == spec_crc_size(self.checksum_kind),
    {
        match self.checksum_kind {
            ChecksumKind::NoChecksum => 0,
            ChecksumKind::Crc32 => 4,
        }
    }
}

/// Wire value of a checksum kind (executable counterpart of `checksum_kind_value`).
pub fn checksum_kind_value_of(k: ChecksumKind) -> (r: u16)
    ensures
        r == checksum_kind_value(k),
{
    match k {
        ChecksumKind::NoChecksum => 0,
        ChecksumKind::Crc32 => 1,
    }
}

} // verus!
