//! Little-endian encoding and decoding of fixed-width integers in byte
//! buffers, as used by the on-disk and in-memory binary formats.
use vstd::prelude::*;

verus! {

/// Value of the little-endian u16 stored at `o`.
pub open spec fn le16(s: Seq<u8>, o: int) -> int {
    s[o] + 256 * s[o + 1]
}

/// Value of the little-endian u32 stored at `o`.
pub open spec fn le32(s: Seq<u8>, o: int) -> int {
    le16(s, o) + 65536 * le16(s, o + 2)
}

/// Value of the little-endian u64 stored at `o`.
pub open spec fn le64(s: Seq<u8>, o: int) -> int {
    le32(s, o) + 4294967296 * le32(s, o + 4)
}

/// Little-endian encoding of `x` in two bytes.
pub open spec fn enc16(x: int) -> Seq<u8> {
    seq![(x % 256) as u8, ((x / 256) % 256) as u8]
}

/// Little-endian encoding of `x` in four bytes.
pub open spec fn enc32(x: int) -> Seq<u8> {
    enc16(x % 65536) + enc16(x / 65536)
}

/// Little-endian encoding of `x` in eight bytes.
pub open spec fn enc64(x: int) -> Seq<u8> {
    enc32(x % 4294967296) + enc32(x / 4294967296)
}

/// The encodings' lengths.
pub proof fn lemma_enc_lens()
    ensures
        forall|x: int| #[trigger] enc16(x).len() == 2,
        forall|x: int| #[trigger] enc32(x).len() == 4,
        forall|x: int| #[trigger] enc64(x).len() == 8,
{
}

pub proof fn lemma_le16_enc(s: Seq<u8>, o: int, x: int)
    requires
        0 <= o,
        o + 2 <= s.len(),
        0 <= x < 65536,
        s.subrange(o, o + 2) =~= enc16(x),
    ensures
        le16(s, o) == x,
{
    assert(s[o] == s.subrange(o, o + 2)[0]);
    assert(s[o + 1] == s.subrange(o, o + 2)[1]);
}

pub proof fn lemma_le32_enc(s: Seq<u8>, o: int, x: int)
    requires
        0 <= o,
        o + 4 <= s.len(),
        0 <= x < 4294967296,
        s.subrange(o, o + 4) =~= enc32(x),
    ensures
        le32(s, o) == x,
{
    assert(s.subrange(o, o + 2) =~= s.subrange(o, o + 4).subrange(0, 2));
    assert(s.subrange(o + 2, o + 4) =~= s.subrange(o, o + 4).subrange(2, 4));
    assert(enc32(x).subrange(0, 2) =~= enc16(x % 65536));
    assert(enc32(x).subrange(2, 4) =~= enc16(x / 65536));
    lemma_le16_enc(s, o, x % 65536);
    lemma_le16_enc(s, o + 2, x / 65536);
}

pub proof fn lemma_le64_enc(s: Seq<u8>, o: int, x: int)
    requires
        0 <= o,
        o + 8 <= s.len(),
        0 <= x < 0x1_0000_0000_0000_0000,
        s.subrange(o, o + 8) =~= enc64(x),
    ensures
        le64(s, o) == x,
{
    assert(s.subrange(o, o + 4) =~= s.subrange(o, o + 8).subrange(0, 4));
    assert(s.subrange(o + 4, o + 8) =~= s.subrange(o, o + 8).subrange(4, 8));
    assert(enc64(x).subrange(0, 4) =~= enc32(x % 4294967296));
    assert(enc64(x).subrange(4, 8) =~= enc32(x / 4294967296));
    lemma_le32_enc(s, o, x % 4294967296);
    lemma_le32_enc(s, o + 4, x / 4294967296);
}

pub fn read_u16_le(d: &[u8], o: usize) -> (r: u16)
    requires
        o + 2 <= d.len(),
    ensures
        r == le16(d@, o as int),
{
    d[o] as u16 + 256 * (d[o + 1] as u16)
}

pub fn read_u32_le(d: &[u8], o: usize) -> (r: u32)
    requires
        o + 4 <= d.len(),
    ensures
        r == le32(d@, o as int),
{
    let lo = read_u16_le(d, o);
    let hi = read_u16_le(d, o + 2);
    lo as u32 + 65536 * (hi as u32)
}

pub fn read_u64_le(d: &[u8], o: usize) -> (r: u64)
    requires
        o + 8 <= d.len(),
    ensures
        r == le64(d@, o as int),
{
    let lo = read_u32_le(d, o);
    let hi = read_u32_le(d, o + 4);
    lo as u64 + 4294967296 * (hi as u64)
}

pub fn push_u16_le(v: &mut Vec<u8>, x: u16)
    ensures
        final(v)@ == old(v)@ + enc16(x as int),
{
    let ghost before = v@;
    v.push((x % 256) as u8);
    v.push(((x / 256) % 256) as u8);
    assert(v@ =~= before + enc16(x as int));
}

pub fn push_u32_le(v: &mut Vec<u8>, x: u32)
    ensures
        final(v)@ == old(v)@ + enc32(x as int),
{
    let ghost before = v@;
    push_u16_le(v, (x % 65536) as u16);
    push_u16_le(v, (x / 65536) as u16);
    assert(v@ =~= before + enc32(x as int));
}

pub fn push_u64_le(v: &mut Vec<u8>, x: u64)
    ensures
        final(v)@ == old(v)@ + enc64(x as int),
{
    let ghost before = v@;
    push_u32_le(v, (x % 4294967296) as u32);
    push_u32_le(v, (x / 4294967296) as u32);
    assert(v@ =~= before + enc64(x as int));
}

/// `n` zero bytes.
pub fn zeroed_vec(n: usize) -> (v: Vec<u8>)
    ensures
        v@ == Seq::new(n as nat, |i: int| 0u8),
{
    let mut v: Vec<u8> = Vec::new();
    let mut i: usize = 0;
    while i < n
        invariant
            0 <= i <= n,
            v@ == Seq::new(i as nat, |k: int| 0u8),
        decreases n - i,
    {
        v.push(0);
        i = i + 1;
        assert(v@ =~= Seq::new(i as nat, |k: int| 0u8));
    }
    v
}

/// Store `val` little-endian at `b` in a sector buffer.
pub fn put_u32_le(buf: &mut [u8; 512], b: usize, val: u32)
    requires
        b + 4 <= 512,
    ensures
        final(buf)@ == old(buf)@.subrange(0, b as int) + enc32(val as int) + old(buf)@.subrange(b + 4, 512),
{
    let lo = val % 65536;
    let hi = val / 65536;
    let b0 = (lo % 256) as u8;
    let b1 = (lo / 256) as u8;
    let b2 = (hi % 256) as u8;
    let b3 = (hi / 256) as u8;
    assert(enc32(val as int) == seq![b0, b1, b2, b3]);
    buf[b] = b0;
    buf[b + 1] = b1;
    buf[b + 2] = b2;
    buf[b + 3] = b3;
    assert(buf@ =~= old(buf)@.subrange(0, b as int) + enc32(val as int) + old(buf)@.subrange(b + 4, 512));
}

} // verus!
