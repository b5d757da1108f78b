//! Global statements about the pass: which byte spans the blocks of a
//! container occupy, and how the rewritten output relates to the input span by
//! span — round trip, per-block copying, the exact corruption effect, and the
//! irrelevance of out-of-range corruption indices.

use vstd::prelude::*;

use crate::block::{spec_descriptor_size, spec_read_block_header};
use crate::error::Error;
use crate::header::{
    file_header_bytes, lemma_file_header_reencode, magic_bytes, magic_of, spec_read_file_header,
    ChecksumKind, HEADER_LEN, SUPPORTED_VERSION,
};
use crate::walker::{corrupt_region, spec_rewrite, spec_rewrite_blocks, wrap_inc};

verus! {

/// The byte span of one block: header `[start, body_start)`, region
/// `[body_start, end)`; the last checksum bytes of the region end at `end`.
pub struct BlockSpan {
    pub start: int,
    pub body_start: int,
    pub end: int,
}

/// The spans of all blocks of `s` from `pos` on, walked exactly as the
/// rewrite walks them, or the error on which the walk stops.
pub open spec fn spec_block_spans(s: Seq<u8>, pos: int, crc_len: int) -> Result<
    Seq<BlockSpan>,
    Error,
>
    decreases s.len() - pos,
        when 0 <= pos <= s.len() && 0 <= crc_len
{
    match spec_read_block_header(s, pos) {
        Err(e) => Err(e),
        Ok(None) => Ok(Seq::empty()),
        Ok(Some((h, hend))) => {
            let end = hend + spec_descriptor_size(h.tp) + h.compressed_size + crc_len;
            if end > s.len() {
                Err(Error::TruncatedFileError)
            } else {
                match spec_block_spans(s, end, crc_len) {
                    Err(e) => Err(e),
                    Ok(rest) => Ok(seq![BlockSpan { start: pos, body_start: hend, end }] + rest),
                }
            }
        },
    }
}

/// Position just past the last block of `spans`; `pos` when there is none.
pub open spec fn walk_end(spans: Seq<BlockSpan>, pos: int) -> int {
    if spans.len() == 0 {
        pos
    } else {
        spans.last().end
    }
}

/// Well-formedness of the `n`-th span: the spans tile the input contiguously
/// from `pos`, each header takes eight or twelve bytes, and each region holds
/// at least the descriptor and the checksum suffix.
pub open spec fn span_wf(
    spans: Seq<BlockSpan>,
    n: int,
    pos: int,
    s_len: int,
    crc_len: int,
) -> bool {
    &&& spans[n].start == (if n == 0 {
        pos
    } else {
        spans[n - 1].end
    })
    &&& pos <= spans[n].start
    &&& spans[n].start + 8 <= spans[n].body_start
    &&& spans[n].body_start + 2 + crc_len <= spans[n].end
    &&& spans[n].end <= s_len
}

/// Whether byte position `i` lies inside one of the spans.
pub open spec fn covered(spans: Seq<BlockSpan>, i: int) -> bool {
    exists|n: int| 0 <= n < spans.len() && (#[trigger] spans[n]).start <= i < spans[n].end
}

/// Number of blocks of a container, as tiled by the span walk from the file
/// header on (checksum length four, the only kind the pass accepts).
pub open spec fn spec_block_count(s: Seq<u8>) -> int {
    match spec_block_spans(s, HEADER_LEN as int, 4) {
        Ok(spans) => spans.len() as int,
        Err(_) => 0,
    }
}

/// The block walk and the span walk agree: they fail alike, and on success the
/// output is exactly as long as the tiled input, every input byte of the walk
/// lies in some span, and each output byte is the input byte — incremented
/// with wrap-around exactly on the checksum suffixes of the targeted blocks.
pub proof fn lemma_walk_structure(s: Seq<u8>, pos: int, idx: int, kills: Set<int>, crc_len: int)
    requires
        0 <= pos <= s.len(),
        0 <= crc_len,
    ensures
        ({
            let r = spec_rewrite_blocks(s, pos, idx, kills, crc_len);
            let sp = spec_block_spans(s, pos, crc_len);
            &&& (r is Ok) == (sp is Ok)
            &&& (r is Err ==> r->Err_0 == sp->Err_0)
            &&& (r is Ok ==> ({
                let out = r->Ok_0;
                let spans = sp->Ok_0;
                let wend = walk_end(spans, pos);
                &&& pos <= wend <= s.len()
                &&& s.len() <= wend + 1
                &&& out.len() == wend - pos
                &&& forall|n: int|
                    0 <= n < spans.len() ==> span_wf(spans, n, pos, s.len() as int, crc_len)
                &&& forall|n: int| 0 <= n < spans.len() ==> spans[n].end <= wend
                &&& forall|i: int| pos <= i < wend ==> #[trigger] covered(spans, i)
                &&& forall|n: int, i: int|
                    0 <= n < spans.len() && spans[n].start <= i < spans[n].end ==> out[i - pos] == (
                    if kills.contains(idx + n) && i >= spans[n].end - crc_len {
                        wrap_inc(s[i])
                    } else {
                        s[i]
                    })
            }))
        }),
    decreases s.len() - pos,
{
    let r = spec_rewrite_blocks(s, pos, idx, kills, crc_len);
    let sp = spec_block_spans(s, pos, crc_len);
    match spec_read_block_header(s, pos) {
        Err(_) => {},
        Ok(None) => {},
        Ok(Some((h, hend))) => {
            let end = hend + spec_descriptor_size(h.tp) + h.compressed_size + crc_len;
            if end <= s.len() {
                lemma_walk_structure(s, end, idx + 1, kills, crc_len);
                let r2 = spec_rewrite_blocks(s, end, idx + 1, kills, crc_len);
                let sp2 = spec_block_spans(s, end, crc_len);
                if r2 is Ok {
                    let out2 = r2->Ok_0;
                    let spans2 = sp2->Ok_0;
                    let out = r->Ok_0;
                    let spans = sp->Ok_0;
                    let head = BlockSpan { start: pos, body_start: hend, end };
                    let region = if kills.contains(idx) {
                        corrupt_region(s.subrange(hend, end), crc_len)
                    } else {
                        s.subrange(hend, end)
                    };
                    assert(out == s.subrange(pos, hend) + region + out2);
                    assert(spans == seq![head] + spans2);
                    assert(spans[0] == head);
                    assert(forall|n: int| 0 < n < spans.len() ==> spans[n] == spans2[n - 1]);
                    let wend = walk_end(spans, pos);
                    let wend2 = walk_end(spans2, end);
                    assert(spans.last() == (if spans2.len() == 0 {
                        head
                    } else {
                        spans2.last()
                    }));
                    assert(wend == wend2);
                    assert(region.len() == end - hend);
                    assert(out.len() == wend - pos);
                    assert forall|n: int| 0 <= n < spans.len() implies span_wf(
                        spans,
                        n,
                        pos,
                        s.len() as int,
                        crc_len,
                    ) by {
                        if n == 0 {
                            assert(span_wf(spans, 0, pos, s.len() as int, crc_len));
                        } else {
                            assert(span_wf(spans2, n - 1, end, s.len() as int, crc_len));
                            if n == 1 {
                                assert(spans[0].end == end);
                            }
                        }
                    }
                    assert forall|n: int| 0 <= n < spans.len() implies spans[n].end <= wend by {
                        if n == 0 {
                            if spans2.len() == 0 {
                            } else {
                                assert(span_wf(spans2, 0, end, s.len() as int, crc_len));
                                assert(spans2[0].end <= wend2);
                            }
                        } else {
                            assert(spans2[n - 1].end <= wend2);
                        }
                    }
                    assert forall|i: int| pos <= i < wend implies #[trigger] covered(spans, i) by {
                        if i < end {
                            assert(spans[0].start <= i < spans[0].end);
                        } else {
                            assert(covered(spans2, i));
                            let n2 = choose|n2: int|
                                0 <= n2 < spans2.len() && (#[trigger] spans2[n2]).start <= i
                                    < spans2[n2].end;
                            assert(spans[n2 + 1].start <= i < spans[n2 + 1].end);
                        }
                    }
                    assert forall|n: int, i: int|
                        0 <= n < spans.len() && spans[n].start <= i < spans[n].end implies out[i
                        - pos] == (if kills.contains(idx + n) && i >= spans[n].end - crc_len {
                        wrap_inc(s[i])
                    } else {
                        s[i]
                    }) by {
                        if n == 0 {
                            if i < hend {
                                assert(out[i - pos] == s.subrange(pos, hend)[i - pos]);
                                assert(out[i - pos] == s[i]);
                                assert(i < end - crc_len);
                            } else {
                                assert(out[i - pos] == region[i - hend]);
                                assert(s.subrange(hend, end)[i - hend] == s[i]);
                                if kills.contains(idx) {
                                    assert(region[i - hend] == (if i - hend >= (end - hend)
                                        - crc_len {
                                        wrap_inc(s[i])
                                    } else {
                                        s[i]
                                    }));
                                }
                            }
                        } else {
                            assert(spans[n] == spans2[n - 1]);
                            assert(span_wf(spans2, n - 1, end, s.len() as int, crc_len));
                            assert(out[i - pos] == out2[i - end]);
                            assert(out2[i - end] == (if kills.contains((idx + 1) + (n - 1)) && i
                                >= spans2[n - 1].end - crc_len {
                                wrap_inc(s[i])
                            } else {
                                s[i]
                            }));
                        }
                    }
                }
            }
        },
    }
}

/// Round trip: with no block targeted, the pass reproduces its input byte for
/// byte. The output is a prefix of the input that is at most one byte shorter:
/// the walk tolerates a single stray byte where the next block header would
/// start, so a container that ends exactly at a block boundary — any input
/// conforming to the layout — comes back unchanged in full.
pub proof fn lemma_round_trip(s: Seq<u8>)
    requires
        spec_rewrite(s, Set::<int>::empty()) is Ok,
    ensures
        ({
            let out = spec_rewrite(s, Set::<int>::empty())->Ok_0;
            &&& out.len() <= s.len() <= out.len() + 1
            &&& out == s.subrange(0, out.len() as int)
            &&& out.len() == s.len() ==> out == s
        }),
{
    let kills = Set::<int>::empty();
    let h = spec_read_file_header(s)->Ok_0;
    assert(h.checksum_kind == ChecksumKind::Crc32);
    lemma_file_header_reencode(s);
    lemma_walk_structure(s, HEADER_LEN as int, 0, kills, 4);
    let r = spec_rewrite_blocks(s, HEADER_LEN as int, 0, kills, 4);
    let spans = spec_block_spans(s, HEADER_LEN as int, 4)->Ok_0;
    let wend = walk_end(spans, HEADER_LEN as int);
    let out = spec_rewrite(s, kills)->Ok_0;
    assert(out == file_header_bytes(h) + r->Ok_0);
    assert(out.len() == wend);
    assert forall|k: int| 0 <= k < out.len() implies out[k] == s[k] by {
        if k < HEADER_LEN as int {
            assert(out[k] == file_header_bytes(h)[k]);
            assert(file_header_bytes(h)[k] == s.subrange(0, HEADER_LEN as int)[k]);
        } else {
            assert(covered(spans, k));
            let n = choose|n: int|
                0 <= n < spans.len() && (#[trigger] spans[n]).start <= k < spans[n].end;
            assert(out[k] == r->Ok_0[k - HEADER_LEN as int]);
            assert(!kills.contains(0 + n));
        }
    }
    assert(out =~= s.subrange(0, out.len() as int));
    if out.len() == s.len() {
        assert(s.subrange(0, s.len() as int) =~= s);
    }
}

/// A block whose index is not in the corruption set is copied byte for byte:
/// header, descriptor, payload and checksum alike.
pub proof fn lemma_untargeted_block_unchanged(s: Seq<u8>, kills: Set<int>, n: int)
    requires
        spec_rewrite(s, kills) is Ok,
        0 <= n < spec_block_count(s),
        !kills.contains(n),
    ensures
        ({
            let out = spec_rewrite(s, kills)->Ok_0;
            let sp = spec_block_spans(s, HEADER_LEN as int, 4)->Ok_0[n];
            &&& sp.end <= out.len()
            &&& out.subrange(sp.start, sp.end) == s.subrange(sp.start, sp.end)
        }),
{
    let h = spec_read_file_header(s)->Ok_0;
    assert(h.checksum_kind == ChecksumKind::Crc32);
    lemma_walk_structure(s, HEADER_LEN as int, 0, kills, 4);
    let r = spec_rewrite_blocks(s, HEADER_LEN as int, 0, kills, 4);
    let spans = spec_block_spans(s, HEADER_LEN as int, 4)->Ok_0;
    let sp = spans[n];
    let out = spec_rewrite(s, kills)->Ok_0;
    assert(out == file_header_bytes(h) + r->Ok_0);
    assert(span_wf(spans, n, HEADER_LEN as int, s.len() as int, 4));
    assert forall|i: int| sp.start <= i < sp.end implies out[i] == s[i] by {
        assert(out[i] == r->Ok_0[i - HEADER_LEN as int]);
        assert(!kills.contains(0 + n));
    }
    assert(out.subrange(sp.start, sp.end) =~= s.subrange(sp.start, sp.end));
}

/// A targeted block keeps every byte of its header, descriptor and payload,
/// while each byte of its checksum suffix is incremented by one modulo 256.
pub proof fn lemma_targeted_block_corrupted(s: Seq<u8>, kills: Set<int>, n: int)
    requires
        spec_rewrite(s, kills) is Ok,
        0 <= n < spec_block_count(s),
        kills.contains(n),
    ensures
        ({
            let out = spec_rewrite(s, kills)->Ok_0;
            let sp = spec_block_spans(s, HEADER_LEN as int, 4)->Ok_0[n];
            &&& sp.start + 4 <= sp.end <= out.len()
            &&& forall|i: int| sp.start <= i < sp.end - 4 ==> out[i] == s[i]
            &&& forall|i: int| sp.end - 4 <= i < sp.end ==> out[i] == wrap_inc(s[i])
        }),
{
    let h = spec_read_file_header(s)->Ok_0;
    assert(h.checksum_kind == ChecksumKind::Crc32);
    lemma_walk_structure(s, HEADER_LEN as int, 0, kills, 4);
    let r = spec_rewrite_blocks(s, HEADER_LEN as int, 0, kills, 4);
    let spans = spec_block_spans(s, HEADER_LEN as int, 4)->Ok_0;
    let sp = spans[n];
    let out = spec_rewrite(s, kills)->Ok_0;
    assert(out == file_header_bytes(h) + r->Ok_0);
    assert(span_wf(spans, n, HEADER_LEN as int, s.len() as int, 4));
    assert forall|i: int| sp.start <= i < sp.end implies out[i] == (if kills.contains(n) && i
        >= sp.end - 4 {
        wrap_inc(s[i])
    } else {
        s[i]
    }) by {
        assert(out[i] == r->Ok_0[i - HEADER_LEN as int]);
        assert(kills.contains(0 + n));
    }
}

/// Two corruption sets that agree on every block index of the walk rewrite the
/// blocks identically.
proof fn lemma_kills_agree(
    s: Seq<u8>,
    pos: int,
    idx: int,
    kills1: Set<int>,
    kills2: Set<int>,
    crc_len: int,
)
    requires
        0 <= pos <= s.len(),
        0 <= crc_len,
        spec_block_spans(s, pos, crc_len) is Ok,
        forall|n: int|
            0 <= n < spec_block_spans(s, pos, crc_len)->Ok_0.len() ==> (#[trigger] kills1.contains(
                idx + n,
            ) <==> kills2.contains(idx + n)),
    ensures
        spec_rewrite_blocks(s, pos, idx, kills1, crc_len) == spec_rewrite_blocks(
            s,
            pos,
            idx,
            kills2,
            crc_len,
        ),
    decreases s.len() - pos,
{
    match spec_read_block_header(s, pos) {
        Err(_) => {},
        Ok(None) => {},
        Ok(Some((h, hend))) => {
            let end = hend + spec_descriptor_size(h.tp) + h.compressed_size + crc_len;
            if end <= s.len() {
                let spans = spec_block_spans(s, pos, crc_len)->Ok_0;
                let spans2 = spec_block_spans(s, end, crc_len)->Ok_0;
                assert(spans.len() == 1 + spans2.len());
                assert(kills1.contains(idx + 0) <==> kills2.contains(idx + 0));
                assert forall|n2: int| 0 <= n2 < spans2.len() implies (#[trigger] kills1.contains(
                    (idx + 1) + n2,
                ) <==> kills2.contains((idx + 1) + n2)) by {
                    assert(kills1.contains(idx + (n2 + 1)) <==> kills2.contains(idx + (n2 + 1)));
                }
                lemma_kills_agree(s, end, idx + 1, kills1, kills2, crc_len);
            }
        },
    }
}

/// A corruption set whose members all lie at or beyond the number of blocks
/// has no effect: the pass succeeds and emits exactly what it emits for the
/// empty set.
pub proof fn lemma_out_of_range_corruption_ignored(s: Seq<u8>, kills: Set<int>)
    requires
        spec_rewrite(s, Set::<int>::empty()) is Ok,
        forall|k: int| kills.contains(k) ==> k >= spec_block_count(s),
    ensures
        spec_rewrite(s, kills) == spec_rewrite(s, Set::<int>::empty()),
{
    let h = spec_read_file_header(s)->Ok_0;
    assert(h.checksum_kind == ChecksumKind::Crc32);
    lemma_walk_structure(s, HEADER_LEN as int, 0, Set::<int>::empty(), 4);
    let spans = spec_block_spans(s, HEADER_LEN as int, 4)->Ok_0;
    assert forall|n: int| 0 <= n < spans.len() implies (#[trigger] kills.contains(0 + n)
        <==> Set::<int>::empty().contains(0 + n)) by {
        if kills.contains(0 + n) {
            assert(0 + n >= spec_block_count(s));
        }
        assert(!Set::<int>::empty().contains(0 + n));
    }
    lemma_kills_agree(s, HEADER_LEN as int, 0, kills, Set::<int>::empty(), 4);
}

/// A header that decodes but does not read "GCDE" at the supported version
/// fails the pass with `FormatError`, whatever the corruption set: no block is
/// processed.
pub proof fn lemma_invalid_header_rejected(s: Seq<u8>, kills: Set<int>)
    requires
        spec_read_file_header(s) is Ok,
        !(magic_of(spec_read_file_header(s)->Ok_0) == magic_bytes() && spec_read_file_header(
            s,
        )->Ok_0.version == SUPPORTED_VERSION),
    ensures
        spec_rewrite(s, kills) == Err::<Seq<u8>, Error>(Error::FormatError),
{
}

/// A well-formed header whose checksum kind carries no checksum bytes fails
/// the pass with `ConfigError`: with nothing to corrupt, the pass is refused.
pub proof fn lemma_no_checksums_rejected(s: Seq<u8>, kills: Set<int>)
    requires
        spec_read_file_header(s) is Ok,
        magic_of(spec_read_file_header(s)->Ok_0) == magic_bytes(),
        spec_read_file_header(s)->Ok_0.version == SUPPORTED_VERSION,
        spec_read_file_header(s)->Ok_0.checksum_kind == ChecksumKind::NoChecksum,
    ensures
        spec_rewrite(s, kills) == Err::<Seq<u8>, Error>(Error::ConfigError),
{
}

/// A block whose declared region claims more bytes than remain in the input
/// makes the walk fail with `TruncatedFileError`: nothing of the block is
/// emitted.
pub proof fn lemma_truncated_block_rejected(
    s: Seq<u8>,
    pos: int,
    idx: int,
    kills: Set<int>,
    crc_len: int,
)
    requires
        0 <= pos <= s.len(),
        0 <= crc_len,
        spec_read_block_header(s, pos) matches Ok(Some(_)),
        ({
            let (h, hend) = spec_read_block_header(s, pos)->Ok_0->Some_0;
            hend + spec_descriptor_size(h.tp) + h.compressed_size + crc_len > s.len()
        }),
    ensures
        spec_rewrite_blocks(s, pos, idx, kills, crc_len) == Err::<Seq<u8>, Error>(
            Error::TruncatedFileError,
        ),
{
}

} // verus!
