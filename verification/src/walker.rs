//! The container walker: reads the file header, echoes it, then copies every
//! block through, corrupting the trailing checksum bytes of the blocks whose
//! indices the caller named.

use vstd::prelude::*;

use crate::block::{spec_descriptor_size, spec_read_block_header, BlockHeader, BlockType};
use crate::error::Error;
use crate::header::{
    magic_bytes, magic_of, spec_crc_size, spec_read_file_header, ChecksumKind, FileHeader,
    HEADER_LEN, SUPPORTED_VERSION,
};

verus! {

/// One byte incremented with wrap-around: the corruption applied to checksum
/// bytes. It invalidates any checksum without knowing its algorithm.
pub open spec fn wrap_inc(b: u8) -> u8 {
    if b == 0xff {
        0
    } else {
        (b + 1) as u8
    }
}

/// A block region with each of its last `crc_len` bytes incremented by one
/// modulo 256; all other bytes unchanged.
pub open spec fn corrupt_region(body: Seq<u8>, crc_len: int) -> Seq<u8> {
    Seq::new(
        body.len(),
        |i: int|
            if i >= body.len() - crc_len {
                wrap_inc(body[i])
            } else {
                body[i]
            },
    )
}

/// The block indices named by the caller's corruption list.
pub open spec fn kill_set(ks: Seq<usize>) -> Set<int> {
    Set::new(|b: int| exists|j: int| 0 <= j < ks.len() && ks[j] == b)
}

/// What walking the blocks of `s` from `pos` yields, with `idx` the index of
/// the block at `pos` and `crc_len` the file-level checksum byte count: the
/// rewritten bytes of all remaining blocks, or the first error. The walk ends
/// cleanly when the input ends before a full block-type field.
pub open spec fn spec_rewrite_blocks(
    s: Seq<u8>,
    pos: int,
    idx: int,
    kills: Set<int>,
    crc_len: int,
) -> Result<Seq<u8>, Error>
    decreases s.len() - pos,
        when 0 <= pos <= s.len() && 0 <= crc_len
{
    match spec_read_block_header(s, pos) {
        Err(e) => Err(e),
        Ok(None) => Ok(Seq::empty()),
        Ok(Some((h, hend))) => {
            let end = hend + spec_descriptor_size(h.tp) + h.compressed_size + crc_len;
            if end > s.len() {
                Err(Error::TruncatedFileError)
            } else {
                let region = if kills.contains(idx) {
                    corrupt_region(s.subrange(hend, end), crc_len)
                } else {
                    s.subrange(hend, end)
                };
                match spec_rewrite_blocks(s, end, idx + 1, kills, crc_len) {
                    Err(e) => Err(e),
                    Ok(rest) => Ok(s.subrange(pos, hend) + region + rest),
                }
            }
        },
    }
}

/// What the whole pass over `s` yields: the re-encoded header followed by the
/// rewritten blocks, or the first error — `FormatError` for a bad header,
/// `ConfigError` when the file carries no checksums (so there is nothing to
/// corrupt), and the walk's own errors otherwise.
pub open spec fn spec_rewrite(s: Seq<u8>, kills: Set<int>) -> Result<Seq<u8>, Error> {
    match spec_read_file_header(s) {
        Err(e) => Err(e),
        Ok(h) => if !(magic_of(h) == magic_bytes() && h.version == SUPPORTED_VERSION) {
            Err(Error::FormatError)
        } else if h.checksum_kind == ChecksumKind::NoChecksum {
            Err(Error::ConfigError)
        } else {
            match spec_rewrite_blocks(
                s,
                HEADER_LEN as int,
                0,
                kills,
                spec_crc_size(h.checksum_kind) as int,
            ) {
                Err(e) => Err(e),
                Ok(rest) => Ok(crate::header::file_header_bytes(h) + rest),
            }
        },
    }
}

/// Per-block diagnostic record, reported as a side channel; it carries no part
/// of the rewrite contract.
#[derive(Debug)]
pub struct BlockReport {
    /// 0-based index of the block in encounter order.
    pub index: usize,
    /// Bytes already emitted when the block was reached.
    pub offset: usize,
    /// The block's header, as read.
    pub header: BlockHeader,
    /// Descriptor + payload + checksum byte count of the block's region.
    pub region_size: usize,
    /// The checksum bytes as read, before any corruption.
    pub checksum: Vec<u8>,
    /// Whether the block's checksum was corrupted.
    pub killed: bool,
}

/// Whether `idx` occurs in the corruption list.
fn contains_index(ks: &Vec<usize>, idx: usize) -> (r: bool)
    ensures
        r == kill_set(ks@).contains(idx as int),
{
    let mut i: usize = 0;
    while i < ks.len()
        invariant
            i <= ks@.len(),
            forall|j: int| 0 <= j < i ==> ks@[j] != idx,
        decreases ks@.len() - i,
    {
        if ks[i] == idx {
            assert(kill_set(ks@).contains(idx as int)) by {
                assert(ks@[i as int] == idx);
            };
            return true;
        }
        i += 1;
    }
    false
}

/// The whole pass: decode the file header, echo it, validate it, then copy
/// every block through, corrupting the checksum suffix of each block whose
/// index occurs in `killblocks`. Returns the rewritten container together with
/// one diagnostic report per block, or the first error.
#[verifier::rlimit(60)]
pub fn rewrite_container(input: &Vec<u8>, killblocks: &Vec<usize>) -> (r: Result<
    (Vec<u8>, Vec<BlockReport>),
    Error,
>)
    ensures
        (r is Ok) == (spec_rewrite(input@, kill_set(killblocks@)) is Ok),
        r is Ok ==> r->Ok_0.0@ == spec_rewrite(input@, kill_set(killblocks@))->Ok_0,
        r is Err ==> r->Err_0 == spec_rewrite(input@, kill_set(killblocks@))->Err_0,
{
    let ghost kills = kill_set(killblocks@);
    let header = match FileHeader::read(input) {
        Ok(h) => h,
        Err(e) => {
            return Err(e);
        },
    };
    let mut out: Vec<u8> = Vec::new();
    let mut reports: Vec<BlockReport> = Vec::new();
    header.write(&mut out);
    assert(out@ =~= crate::header::file_header_bytes(header));
    if let Err(e) = header.check() {
        return Err(e);
    }
    let crc_size = header.crc_size();
    if crc_size == 0 {
        return Err(Error::ConfigError);
    }
    let checksum_size: usize = crc_size as usize;
    assert(header.checksum_kind == ChecksumKind::Crc32);
    let mut pos: usize = HEADER_LEN;
    let mut idx: usize = 0;
    loop
        invariant
            HEADER_LEN <= pos <= input@.len(),
            idx < pos,
            checksum_size == 4,
            kills == kill_set(killblocks@),
            spec_read_file_header(input@) == Ok::<FileHeader, Error>(header),
            magic_of(header) == magic_bytes() && header.version == SUPPORTED_VERSION,
            header.checksum_kind == ChecksumKind::Crc32,
            ({
                let full = spec_rewrite(input@, kills);
                let sub = spec_rewrite_blocks(input@, pos as int, idx as int, kills, 4);
                &&& (full is Ok) == (sub is Ok)
                &&& (sub is Ok ==> full->Ok_0 == out@ + sub->Ok_0)
                &&& (sub is Err ==> full->Err_0 == sub->Err_0)
            }),
        decreases input@.len() - pos,
    {
        let ghost sub = spec_rewrite_blocks(input@, pos as int, idx as int, kills, 4);
        let (bh, hend) = match BlockHeader::read(input, pos) {
            Err(e) => {
                assert(sub == Err::<Seq<u8>, Error>(e));
                return Err(e);
            },
            Ok(None) => {
                assert(sub == Ok::<Seq<u8>, Error>(Seq::empty()));
                assert(spec_rewrite(input@, kills)->Ok_0 == out@ + Seq::<u8>::empty());
                assert(out@ + Seq::<u8>::empty() =~= out@);
                return Ok((out, reports));
            },
            Ok(Some(found)) => found,
        };
        let desc: usize = if bh.tp == BlockType::Thumbnail {
            6
        } else {
            2
        };
        assert(desc == spec_descriptor_size(bh.tp));
        let cs: usize = bh.compressed_size as usize;
        let remaining = input.len() - hend;
        if remaining < desc + checksum_size || cs > remaining - (desc + checksum_size) {
            assert(sub == Err::<Seq<u8>, Error>(Error::TruncatedFileError));
            return Err(Error::TruncatedFileError);
        }
        let region_size = desc + checksum_size + cs;
        let body_end = hend + region_size;
        let crc_start = body_end - checksum_size;
        let ghost region_in = input@.subrange(hend as int, body_end as int);
        let kill = contains_index(killblocks, idx);
        let ghost region_out = if kill {
            corrupt_region(region_in, 4)
        } else {
            region_in
        };
        let mut crc_bytes: Vec<u8> = Vec::new();
        let mut j = crc_start;
        while j < body_end
            invariant
                crc_start <= j <= body_end <= input@.len(),
                crc_bytes@ == input@.subrange(crc_start as int, j as int),
            decreases body_end - j,
        {
            crc_bytes.push(input[j]);
            assert(crc_bytes@ =~= input@.subrange(crc_start as int, j as int + 1));
            j += 1;
        }
        reports.push(
            BlockReport {
                index: idx,
                offset: out.len(),
                header: bh,
                region_size,
                checksum: crc_bytes,
                killed: kill,
            },
        );
        let ghost out_start = out@;
        bh.write(&mut out);
        proof {
            crate::block::lemma_block_header_reencode(input@, pos as int);
            assert(out@ == out_start + input@.subrange(pos as int, hend as int));
        }
        let ghost out_mid = out@;
        let mut i = hend;
        while i < crc_start
            invariant
                hend <= i <= crc_start,
                crc_start == body_end - 4,
                hend + 2 <= crc_start <= body_end <= input@.len(),
                region_in == input@.subrange(hend as int, body_end as int),
                region_out == (if kill {
                    corrupt_region(region_in, 4)
                } else {
                    region_in
                }),
                out@ == out_mid + region_out.subrange(0, i - hend),
            decreases crc_start - i,
        {
            assert(region_out[i - hend] == input@[i as int]);
            out.push(input[i]);
            assert(out@ =~= out_mid + region_out.subrange(0, i + 1 - hend));
            i += 1;
        }
        while i < body_end
            invariant
                crc_start <= i <= body_end,
                crc_start == body_end - 4,
                hend + 2 <= crc_start <= body_end <= input@.len(),
                kill == kills.contains(idx as int),
                region_in == input@.subrange(hend as int, body_end as int),
                region_out == (if kill {
                    corrupt_region(region_in, 4)
                } else {
                    region_in
                }),
                out@ == out_mid + region_out.subrange(0, i - hend),
            decreases body_end - i,
        {
            let b = input[i];
            let nb = if kill {
                if b == 0xff {
                    0u8
                } else {
                    b + 1
                }
            } else {
                b
            };
            assert(region_out[i - hend] == nb);
            out.push(nb);
            assert(out@ =~= out_mid + region_out.subrange(0, i + 1 - hend));
            i += 1;
        }
        assert(region_out.subrange(0, body_end - hend) =~= region_out);
        assert(out@ == out_start + input@.subrange(pos as int, hend as int) + region_out);
        proof {
            let rec = spec_rewrite_blocks(input@, body_end as int, idx as int + 1, kills, 4);
            assert(sub == (match rec {
                Err(e) => Err::<Seq<u8>, Error>(e),
                Ok(rest) => Ok(
                    input@.subrange(pos as int, hend as int) + region_out + rest,
                ),
            }));
            if rec is Ok {
                assert(spec_rewrite(input@, kills)->Ok_0 == out_start + sub->Ok_0);
                assert(out_start + (input@.subrange(pos as int, hend as int) + region_out
                    + rec->Ok_0) =~= out@ + rec->Ok_0);
            }
        }
        pos = body_end;
        idx += 1;
    }
}

} // verus!
