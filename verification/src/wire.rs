//! Little-endian integer fields of the wire format, read from and appended to
//! plain byte vectors.

use vstd::prelude::*;

verus! {

/// Value of a 16-bit little-endian field with bytes `b0, b1`.
pub open spec fn le16(b0: u8, b1: u8) -> u16 {
    (b0 + b1 * 0x100) as u16
}

/// Value of a 32-bit little-endian field with bytes `b0, b1, b2, b3`.
pub open spec fn le32(b0: u8, b1: u8, b2: u8, b3: u8) -> u32 {
    (b0 + b1 * 0x100 + b2 * 0x10000 + b3 * 0x1000000) as u32
}

/// The two bytes of `v` in little-endian order.
pub open spec fn le16_bytes(v: u16) -> Seq<u8> {
    seq![(v % 0x100) as u8, (v / 0x100) as u8]
}

/// The four bytes of `v` in little-endian order.
pub open spec fn le32_bytes(v: u32) -> Seq<u8> {
    seq![
        (v % 0x100) as u8,
        ((v / 0x100) % 0x100) as u8,
        ((v / 0x10000) % 0x100) as u8,
        (v / 0x1000000) as u8,
    ]
}

/// Decomposing a 16-bit value into bytes inverts `le16`.
pub proof fn lemma_le16_bytes(b0: u8, b1: u8)
    ensures
        le16_bytes(le16(b0, b1)) == seq![b0, b1],
{
    let v: int = b0 + b1 * 0x100;
    vstd::arithmetic::div_mod::lemma_fundamental_div_mod_converse(v, 0x100, b1 as int, b0 as int);
    assert(le16_bytes(le16(b0, b1)) =~= seq![b0, b1]);
}

/// Decomposing a 32-bit value into bytes inverts `le32`.
pub proof fn lemma_le32_bytes(b0: u8, b1: u8, b2: u8, b3: u8)
    ensures
        le32_bytes(le32(b0, b1, b2, b3)) == seq![b0, b1, b2, b3],
{
    let v: int = b0 + b1 * 0x100 + b2 * 0x10000 + b3 * 0x1000000;
    let q0: int = b1 + b2 * 0x100 + b3 * 0x10000;
    let q1: int = b2 + b3 * 0x100;
    vstd::arithmetic::div_mod::lemma_fundamental_div_mod_converse(v, 0x100, q0, b0 as int);
    vstd::arithmetic::div_mod::lemma_fundamental_div_mod_converse(q0, 0x100, q1, b1 as int);
    vstd::arithmetic::div_mod::lemma_fundamental_div_mod_converse(q1, 0x100, b3 as int, b2 as int);
    vstd::arithmetic::div_mod::lemma_fundamental_div_mod_converse(v, 0x10000, q1, b0 + b1 * 0x100);
    vstd::arithmetic::div_mod::lemma_fundamental_div_mod_converse(
        v,
        0x1000000,
        b3 as int,
        b0 + b1 * 0x100 + b2 * 0x10000,
    );
    assert(le32_bytes(le32(b0, b1, b2, b3)) =~= seq![b0, b1, b2, b3]);
}

/// Reads the 16-bit little-endian field at `pos`.
pub fn read_le16(data: &Vec<u8>, pos: usize) -> (r: u16)
    requires
        pos + 2 <= data@.len(),
    ensures
        r == le16(data@[pos as int], data@[pos as int + 1]),
{
    let n = data.len();
    assert(pos + 2 <= n);
    let lo = data[pos];
    let hi = data[pos + 1];
    lo as u16 + hi as u16 * 0x100
}

/// Reads the 32-bit little-endian field at `pos`.
pub fn read_le32(data: &Vec<u8>, pos: usize) -> (r: u32)
    requires
        pos + 4 <= data@.len(),
    ensures
        r == le32(
            data@[pos as int],
            data@[pos as int + 1],
            data@[pos as int + 2],
            data@[pos as int + 3],
        ),
{
    let n = data.len();
    assert(pos + 4 <= n);
    let b0 = data[pos];
    let b1 = data[pos + 1];
    let b2 = data[pos + 2];
    let b3 = data[pos + 3];
    b0 as u32 + b1 as u32 * 0x100 + b2 as u32 * 0x10000 + b3 as u32 * 0x1000000
}

/// Appends the two little-endian bytes of `v` to `out`.
pub fn push_le16(out: &mut Vec<u8>, v: u16)
    ensures
        final(out)@ == old(out)@ + le16_bytes(v),
{
    proof {
        assert(0 <= v / 0x100 < 0x100) by {
            vstd::arithmetic::div_mod::lemma_fundamental_div_mod(v as int, 0x100);
        };
    }
    out.push((v % 0x100) as u8);
    out.push((v / 0x100) as u8);
    assert(out@ =~= old(out)@ + le16_bytes(v));
}

/// Appends the four little-endian bytes of `v` to `out`.
pub fn push_le32(out: &mut Vec<u8>, v: u32)
    ensures
        final(out)@ == old(out)@ + le32_bytes(v),
{
    proof {
        assert(0 <= v / 0x100) by {
            vstd::arithmetic::div_mod::lemma_fundamental_div_mod(v as int, 0x100);
        };
        assert(0 <= v / 0x10000) by {
            vstd::arithmetic::div_mod::lemma_fundamental_div_mod(v as int, 0x10000);
        };
        assert(0 <= v / 0x1000000 < 0x100) by {
            vstd::arithmetic::div_mod::lemma_fundamental_div_mod(v as int, 0x1000000);
        };
    }
    out.push((v % 0x100) as u8);
    out.push(((v / 0x100) % 0x100) as u8);
    out.push(((v / 0x10000) % 0x100) as u8);
    out.push((v / 0x1000000) as u8);
    assert(out@ =~= old(out)@ + le32_bytes(v));
}

} // verus!
