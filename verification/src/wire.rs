//! Big-endian packing of the fixed-width wire fields.
//!
//! Every multi-byte integer in a DNS message is big-endian.  The spec
//! functions here are the single definition of what a 16-bit or 32-bit field
//! looks like on the wire; the executable helpers are proved against them.
use vstd::prelude::*;

verus! {

/// The 16-bit value that two big-endian bytes denote.
pub open spec fn u16_of(hi: u8, lo: u8) -> u16 {
    (256 * (hi as int) + (lo as int)) as u16
}

/// The two big-endian bytes of a 16-bit value.
pub open spec fn u16_bytes(x: u16) -> Seq<u8> {
    seq![(x / 256) as u8, (x % 256) as u8]
}

/// The 32-bit value that four big-endian bytes denote.
pub open spec fn u32_of(b0: u8, b1: u8, b2: u8, b3: u8) -> u32 {
    (0x1000000 * (b0 as int) + 0x10000 * (b1 as int) + 0x100 * (b2 as int) + (b3 as int)) as u32
}

/// The four big-endian bytes of a 32-bit value.
pub open spec fn u32_bytes(x: u32) -> Seq<u8> {
    seq![
        (x / 0x1000000) as u8,
        ((x / 0x10000) % 0x100) as u8,
        ((x / 0x100) % 0x100) as u8,
        (x % 0x100) as u8,
    ]
}

/// Writing a 16-bit value read from two bytes gives those bytes back.
pub proof fn lemma_u16_bytes_of(hi: u8, lo: u8)
    ensures
        u16_bytes(u16_of(hi, lo)) == seq![hi, lo],
        u16_of(hi, lo) == 256 * (hi as int) + (lo as int),
{
    assert(256 * (hi as int) + (lo as int) <= 0xffff);
    let v = u16_of(hi, lo);
    assert(v == 256 * (hi as int) + (lo as int));
    assert(v / 256 == hi as int && v % 256 == lo as int) by (nonlinear_arith)
        requires
            v == 256 * (hi as int) + (lo as int),
            0 <= hi < 256,
            0 <= lo < 256,
    ;
    assert(u16_bytes(v) =~= seq![hi, lo]);
}

/// Reading the two bytes a 16-bit value writes gives the value back.
pub proof fn lemma_u16_of_bytes(x: u16)
    ensures
        u16_of((x / 256) as u8, (x % 256) as u8) == x,
{
    let h = (x / 256) as u8;
    let l = (x % 256) as u8;
    assert(h as int == x as int / 256 && l as int == x as int % 256 && x as int == 256 * (x as int
        / 256) + (x as int % 256) && x as int / 256 < 256) by (nonlinear_arith)
        requires
            h == (x / 256) as u8,
            l == (x % 256) as u8,
            0 <= x <= 0xffff,
    ;
}

/// Writing a 32-bit value read from four bytes gives those bytes back.
pub proof fn lemma_u32_bytes_of(b0: u8, b1: u8, b2: u8, b3: u8)
    ensures
        u32_bytes(u32_of(b0, b1, b2, b3)) == seq![b0, b1, b2, b3],
{
    let v = u32_of(b0, b1, b2, b3);
    assert(0x1000000 * (b0 as int) + 0x10000 * (b1 as int) + 0x100 * (b2 as int) + (b3 as int)
        <= 0xffff_ffff);
    assert(v / 0x1000000 == b0 as int && (v / 0x10000) % 0x100 == b1 as int && (v / 0x100) % 0x100
        == b2 as int && v % 0x100 == b3 as int) by (nonlinear_arith)
        requires
            v == 0x1000000 * (b0 as int) + 0x10000 * (b1 as int) + 0x100 * (b2 as int) + (
            b3 as int),
            0 <= b0 < 256,
            0 <= b1 < 256,
            0 <= b2 < 256,
            0 <= b3 < 256,
    ;
    assert(u32_bytes(v) =~= seq![b0, b1, b2, b3]);
}

/// Reading the four bytes a 32-bit value writes gives the value back.
pub proof fn lemma_u32_of_bytes(x: u32)
    ensures
        u32_of(
            (x / 0x1000000) as u8,
            ((x / 0x10000) % 0x100) as u8,
            ((x / 0x100) % 0x100) as u8,
            (x % 0x100) as u8,
        ) == x,
{
    let c0 = (x / 0x1000000) as u8;
    let c1 = ((x / 0x10000) % 0x100) as u8;
    let c2 = ((x / 0x100) % 0x100) as u8;
    let c3 = (x % 0x100) as u8;
    assert(x as int == 0x1000000 * (c0 as int) + 0x10000 * (c1 as int) + 0x100 * (c2 as int) + (
    c3 as int) && x as int / 0x1000000 < 256) by (nonlinear_arith)
        requires
            c0 == (x / 0x1000000) as u8,
            c1 == ((x / 0x10000) % 0x100) as u8,
            c2 == ((x / 0x100) % 0x100) as u8,
            c3 == (x % 0x100) as u8,
            0 <= x <= 0xffff_ffff,
    ;
}

/// Assembles a 16-bit field from its two big-endian bytes.
pub fn be_u16(hi: u8, lo: u8) -> (x: u16)
    ensures
        x == u16_of(hi, lo),
{
    (hi as u16) * 256 + (lo as u16)
}

/// Assembles a 32-bit field from its four big-endian bytes.
pub fn be_u32(b0: u8, b1: u8, b2: u8, b3: u8) -> (x: u32)
    ensures
        x == u32_of(b0, b1, b2, b3),
{
    (b0 as u32) * 0x1000000 + (b1 as u32) * 0x10000 + (b2 as u32) * 0x100 + (b3 as u32)
}

/// Appends the two big-endian bytes of a 16-bit field.
pub fn push_u16(dst: &mut Vec<u8>, x: u16)
    ensures
        final(dst)@ == old(dst)@ + u16_bytes(x),
{
    dst.push((x / 256) as u8);
    dst.push((x % 256) as u8);
    assert(dst@ =~= old(dst)@ + u16_bytes(x));
}

/// Appends the four big-endian bytes of a 32-bit field.
pub fn push_u32(dst: &mut Vec<u8>, x: u32)
    ensures
        final(dst)@ == old(dst)@ + u32_bytes(x),
{
    dst.push((x / 0x1000000) as u8);
    dst.push(((x / 0x10000) % 0x100) as u8);
    dst.push(((x / 0x100) % 0x100) as u8);
    dst.push((x % 0x100) as u8);
    assert(dst@ =~= old(dst)@ + u32_bytes(x));
}

/// Appends a whole byte slice.
pub fn push_bytes(dst: &mut Vec<u8>, src: &[u8])
    ensures
        final(dst)@ == old(dst)@ + src@,
{
    let mut i: usize = 0;
    while i < src.len()
        invariant
            i <= src@.len(),
            dst@ == old(dst)@ + src@.subrange(0, i as int),
        decreases src@.len() - i,
    {
        dst.push(src[i]);
        i = i + 1;
        assert(dst@ =~= old(dst)@ + src@.subrange(0, i as int));
    }
    assert(dst@ =~= old(dst)@ + src@);
}

} // verus!
