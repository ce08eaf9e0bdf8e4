//! Big-endian integers, as the packed block layout stores them.
//!
//! Every integer of the layout is written most significant byte first. The
//! specification functions below give the bytes of a value and the value of
//! some bytes; the two directions are proved inverse to each other.

use vstd::prelude::*;

verus! {

/// The two bytes of `x`, most significant first.
pub open spec fn spec_u16_be(x: u16) -> Seq<u8> {
    seq![(x / 0x100) as u8, (x % 0x100) as u8]
}

/// The four bytes of `x`, most significant first.
pub open spec fn spec_u32_be(x: u32) -> Seq<u8> {
    seq![
        (x / 0x100_0000) as u8,
        (x / 0x1_0000 % 0x100) as u8,
        (x / 0x100 % 0x100) as u8,
        (x % 0x100) as u8,
    ]
}

/// The eight bytes of `x`, most significant first.
pub open spec fn spec_u64_be(x: u64) -> Seq<u8> {
    seq![
        (x / 0x100_0000_0000_0000) as u8,
        (x / 0x1_0000_0000_0000 % 0x100) as u8,
        (x / 0x100_0000_0000 % 0x100) as u8,
        (x / 0x1_0000_0000 % 0x100) as u8,
        (x / 0x100_0000 % 0x100) as u8,
        (x / 0x1_0000 % 0x100) as u8,
        (x / 0x100 % 0x100) as u8,
        (x % 0x100) as u8,
    ]
}

/// The number that the first two bytes of `s` spell, most significant first.
pub open spec fn spec_u16_from_be(s: Seq<u8>) -> u16
    recommends
        s.len() >= 2,
{
    (s[0] as int * 0x100 + s[1] as int) as u16
}

/// The number that the first four bytes of `s` spell, most significant first.
pub open spec fn spec_u32_from_be(s: Seq<u8>) -> u32
    recommends
        s.len() >= 4,
{
    (((s[0] as int * 0x100 + s[1] as int) * 0x100 + s[2] as int) * 0x100 + s[3] as int) as u32
}

/// The number that the first eight bytes of `s` spell, most significant first.
pub open spec fn spec_u64_from_be(s: Seq<u8>) -> u64
    recommends
        s.len() >= 8,
{
    (((((((s[0] as int * 0x100 + s[1] as int) * 0x100 + s[2] as int) * 0x100 + s[3] as int) * 0x100
        + s[4] as int) * 0x100 + s[5] as int) * 0x100 + s[6] as int) * 0x100 + s[7] as int) as u64
}

/// The two-byte number that `s` holds at `pos`.
pub open spec fn spec_u16_at(s: Seq<u8>, pos: int) -> u16
    recommends
        0 <= pos,
        pos + 2 <= s.len(),
{
    spec_u16_from_be(s.subrange(pos, pos + 2))
}

/// The four-byte number that `s` holds at `pos`.
pub open spec fn spec_u32_at(s: Seq<u8>, pos: int) -> u32
    recommends
        0 <= pos,
        pos + 4 <= s.len(),
{
    spec_u32_from_be(s.subrange(pos, pos + 4))
}

/// The eight-byte number that `s` holds at `pos`.
pub open spec fn spec_u64_at(s: Seq<u8>, pos: int) -> u64
    recommends
        0 <= pos,
        pos + 8 <= s.len(),
{
    spec_u64_from_be(s.subrange(pos, pos + 8))
}

/// Reading back the bytes of a two-byte number gives the number.
pub proof fn lemma_u16_be_round_trip(x: u16)
    ensures
        spec_u16_be(x).len() == 2,
        spec_u16_from_be(spec_u16_be(x)) == x,
{
}

/// Reading back the bytes of a four-byte number gives the number.
pub proof fn lemma_u32_be_round_trip(x: u32)
    ensures
        spec_u32_be(x).len() == 4,
        spec_u32_from_be(spec_u32_be(x)) == x,
{
}

/// Reading back the bytes of an eight-byte number gives the number.
pub proof fn lemma_u64_be_round_trip(x: u64)
    ensures
        spec_u64_be(x).len() == 8,
        spec_u64_from_be(spec_u64_be(x)) == x,
{
}

/// Writing the number that two bytes spell gives those two bytes.
pub proof fn lemma_u16_from_be_round_trip(s: Seq<u8>)
    requires
        s.len() == 2,
    ensures
        spec_u16_be(spec_u16_from_be(s)) == s,
{
    assert(spec_u16_be(spec_u16_from_be(s)) =~= s);
}

/// Writing the number that four bytes spell gives those four bytes.
pub proof fn lemma_u32_from_be_round_trip(s: Seq<u8>)
    requires
        s.len() == 4,
    ensures
        spec_u32_be(spec_u32_from_be(s)) == s,
{
    assert(spec_u32_be(spec_u32_from_be(s)) =~= s);
}

/// Writing the number that eight bytes spell gives those eight bytes.
pub proof fn lemma_u64_from_be_round_trip(s: Seq<u8>)
    requires
        s.len() == 8,
    ensures
        spec_u64_be(spec_u64_from_be(s)) == s,
{
    assert(spec_u64_be(spec_u64_from_be(s)) =~= s);
}

/// Appends the two bytes of `x` to `buf`.
pub fn push_u16_be(buf: &mut Vec<u8>, x: u16)
    ensures
        final(buf)@ == old(buf)@ + spec_u16_be(x),
{
    buf.push((x / 0x100) as u8);
    buf.push((x % 0x100) as u8);
    assert(buf@ =~= old(buf)@ + spec_u16_be(x));
}

/// Appends the four bytes of `x` to `buf`.
pub fn push_u32_be(buf: &mut Vec<u8>, x: u32)
    ensures
        final(buf)@ == old(buf)@ + spec_u32_be(x),
{
    buf.push((x / 0x100_0000) as u8);
    buf.push((x / 0x1_0000 % 0x100) as u8);
    buf.push((x / 0x100 % 0x100) as u8);
    buf.push((x % 0x100) as u8);
    assert(buf@ =~= old(buf)@ + spec_u32_be(x));
}

/// Appends the eight bytes of `x` to `buf`.
pub fn push_u64_be(buf: &mut Vec<u8>, x: u64)
    ensures
        final(buf)@ == old(buf)@ + spec_u64_be(x),
{
    buf.push((x / 0x100_0000_0000_0000) as u8);
    buf.push((x / 0x1_0000_0000_0000 % 0x100) as u8);
    buf.push((x / 0x100_0000_0000 % 0x100) as u8);
    buf.push((x / 0x1_0000_0000 % 0x100) as u8);
    buf.push((x / 0x100_0000 % 0x100) as u8);
    buf.push((x / 0x1_0000 % 0x100) as u8);
    buf.push((x / 0x100 % 0x100) as u8);
    buf.push((x % 0x100) as u8);
    assert(buf@ =~= old(buf)@ + spec_u64_be(x));
}

/// Appends the eight bytes of a transaction identifier's prefix to `buf`.
pub fn push_txid(buf: &mut Vec<u8>, txid: &[u8; 8])
    ensures
        final(buf)@ == old(buf)@ + txid@,
{
    let mut i: usize = 0;
    while i < 8
        invariant
            i <= 8,
            buf@ == old(buf)@ + txid@.take(i as int),
        decreases 8 - i,
    {
        buf.push(txid[i]);
        assert(buf@ =~= old(buf)@ + txid@.take(i + 1));
        i += 1;
    }
    assert(txid@.take(8) =~= txid@);
}

/// The two-byte number that `bytes` holds at `pos`.
pub fn read_u16_be(bytes: &[u8], pos: usize) -> (r: u16)
    requires
        pos + 2 <= bytes.len(),
    ensures
        r == spec_u16_at(bytes@, pos as int),
{
    let hi: u16 = bytes[pos] as u16;
    let lo: u16 = bytes[pos + 1] as u16;
    hi * 0x100 + lo
}

/// The four-byte number that `bytes` holds at `pos`.
pub fn read_u32_be(bytes: &[u8], pos: usize) -> (r: u32)
    requires
        pos + 4 <= bytes.len(),
    ensures
        r == spec_u32_at(bytes@, pos as int),
{
    let b0: u32 = bytes[pos] as u32;
    let b1: u32 = bytes[pos + 1] as u32;
    let b2: u32 = bytes[pos + 2] as u32;
    let b3: u32 = bytes[pos + 3] as u32;
    ((b0 * 0x100 + b1) * 0x100 + b2) * 0x100 + b3
}

/// The eight-byte number that `bytes` holds at `pos`.
pub fn read_u64_be(bytes: &[u8], pos: usize) -> (r: u64)
    requires
        pos + 8 <= bytes.len(),
    ensures
        r == spec_u64_at(bytes@, pos as int),
{
    let b0: u64 = bytes[pos] as u64;
    let b1: u64 = bytes[pos + 1] as u64;
    let b2: u64 = bytes[pos + 2] as u64;
    let b3: u64 = bytes[pos + 3] as u64;
    let b4: u64 = bytes[pos + 4] as u64;
    let b5: u64 = bytes[pos + 5] as u64;
    let b6: u64 = bytes[pos + 6] as u64;
    let b7: u64 = bytes[pos + 7] as u64;
    ((((((b0 * 0x100 + b1) * 0x100 + b2) * 0x100 + b3) * 0x100 + b4) * 0x100 + b5) * 0x100 + b6)
        * 0x100 + b7
}

/// The eight bytes that `bytes` holds at `pos`, as an identifier prefix.
pub fn read_txid(bytes: &[u8], pos: usize) -> (r: [u8; 8])
    requires
        pos + 8 <= bytes.len(),
    ensures
        r@ == bytes@.subrange(pos as int, pos + 8),
{
    let r: [u8; 8] = [
        bytes[pos],
        bytes[pos + 1],
        bytes[pos + 2],
        bytes[pos + 3],
        bytes[pos + 4],
        bytes[pos + 5],
        bytes[pos + 6],
        bytes[pos + 7],
    ];
    assert(r@ =~= bytes@.subrange(pos as int, pos + 8));
    r
}

/// Whether `bytes` are exactly the identifier prefix `txid`.
pub fn is_txid(bytes: &[u8], txid: &[u8; 8]) -> (r: bool)
    ensures
        r == (bytes@ == txid@),
{
    if bytes.len() != 8 {
        return false;
    }
    let mut i: usize = 0;
    while i < 8
        invariant
            i <= 8,
            bytes.len() == 8,
            forall|j: int| 0 <= j < i ==> bytes@[j] == txid@[j],
        decreases 8 - i,
    {
        if bytes[i] != txid[i] {
            return false;
        }
        i += 1;
    }
    assert(bytes@ =~= txid@);
    true
}

} // verus!
