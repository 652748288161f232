//! Big-endian integer access to font data, bounds-checked.
use vstd::prelude::*;

verus! {

/// The unsigned 16-bit big-endian integer stored at `p`.
pub open spec fn be16(d: Seq<u8>, p: int) -> u16 {
    (d[p] as int * 256 + d[p + 1] as int) as u16
}

/// The unsigned 32-bit big-endian integer stored at `p`.
pub open spec fn be32(d: Seq<u8>, p: int) -> u32 {
    (d[p] as int * 16777216 + d[p + 1] as int * 65536 + d[p + 2] as int * 256
        + d[p + 3] as int) as u32
}

/// Two's-complement reinterpretation of a 16-bit word.
pub open spec fn s16(x: u16) -> i16 {
    if x < 0x8000 {
        x as i16
    } else {
        (x as int - 0x10000) as i16
    }
}

/// The low byte of a word, reinterpreted as a signed byte.
pub open spec fn low_s8(x: u16) -> i8 {
    if x % 256 < 0x80 {
        (x % 256) as i8
    } else {
        (x % 256 - 256) as i8
    }
}

/// `n` bytes of `d` starting at `p` fit inside `d`.
pub open spec fn fits(d: Seq<u8>, p: int, n: int) -> bool {
    0 <= p && 0 <= n && p + n <= d.len()
}

/// Reinterprets a 16-bit word as signed.
pub fn to_s16(x: u16) -> (r: i16)
    ensures
        r == s16(x),
{
    if x < 0x8000 {
        x as i16
    } else {
        let low: i16 = (x - 0x8000) as i16;
        low - 0x7fff - 1
    }
}

/// The low byte of a word, reinterpreted as a signed byte.
pub fn to_low_s8(x: u16) -> (r: i8)
    ensures
        r == low_s8(x),
{
    let b: u16 = x % 256;
    if b < 0x80 {
        b as i8
    } else {
        let low: i8 = (b - 0x80) as i8;
        low - 0x7f - 1
    }
}

/// The byte at `p`, when there is one.
pub fn read_u8(d: &[u8], p: usize) -> (r: Option<u8>)
    ensures
        r == (if fits(d@, p as int, 1) { Some(d@[p as int]) } else { None::<u8> }),
{
    if p < d.len() {
        Some(d[p])
    } else {
        None
    }
}

/// The big-endian word at `p`, when both of its bytes are inside `d`.
pub fn read_u16(d: &[u8], p: usize) -> (r: Option<u16>)
    ensures
        r == (if fits(d@, p as int, 2) { Some(be16(d@, p as int)) } else { None::<u16> }),
{
    if p < d.len() && d.len() - p >= 2 {
        let hi: u16 = d[p] as u16;
        let lo: u16 = d[p + 1] as u16;
        Some(hi * 256 + lo)
    } else {
        None
    }
}

/// The big-endian signed word at `p`, when both of its bytes are inside `d`.
pub fn read_i16(d: &[u8], p: usize) -> (r: Option<i16>)
    ensures
        r == (if fits(d@, p as int, 2) { Some(s16(be16(d@, p as int))) } else { None::<i16> }),
{
    match read_u16(d, p) {
        Some(x) => Some(to_s16(x)),
        None => None,
    }
}

/// The big-endian 32-bit word at `p`, when its four bytes are inside `d`.
pub fn read_u32(d: &[u8], p: usize) -> (r: Option<u32>)
    ensures
        r == (if fits(d@, p as int, 4) { Some(be32(d@, p as int)) } else { None::<u32> }),
{
    if p < d.len() && d.len() - p >= 4 {
        let b0: u32 = d[p] as u32;
        let b1: u32 = d[p + 1] as u32;
        let b2: u32 = d[p + 2] as u32;
        let b3: u32 = d[p + 3] as u32;
        Some(b0 * 16777216 + b1 * 65536 + b2 * 256 + b3)
    } else {
        None
    }
}

/// `a + b` when it fits in a `usize`.
pub fn add_pos(a: usize, b: usize) -> (r: Option<usize>)
    ensures
        r == (if a + b <= usize::MAX { Some((a + b) as usize) } else { None::<usize> }),
{
    if a <= usize::MAX - b {
        Some(a + b)
    } else {
        None
    }
}

/// Copies `n` bytes of `d` starting at `p`, when they are all inside `d`.
pub fn read_bytes(d: &[u8], p: usize, n: usize) -> (r: Option<Vec<u8>>)
    ensures
        match r {
            Some(v) => fits(d@, p as int, n as int) && v@ == d@.subrange(p as int, p + n),
            None => !fits(d@, p as int, n as int),
        },
{
    if p > d.len() || d.len() - p < n {
        return None;
    }
    let len = d.len();
    let mut v: Vec<u8> = Vec::with_capacity(n);
    let mut i: usize = 0;
    while i < n
        invariant
            i <= n,
            len == d@.len(),
            p + n <= len,
            v@ == d@.subrange(p as int, p + i),
        decreases n - i,
    {
        v.push(d[p + i]);
        i = i + 1;
        assert(v@ =~= d@.subrange(p as int, p + i));
    }
    Some(v)
}

/// The two bytes of `x`, most significant first.
pub open spec fn be16_bytes(x: u16) -> Seq<u8> {
    seq![(x / 256) as u8, (x % 256) as u8]
}

/// The four bytes of `x`, most significant first.
pub open spec fn be32_bytes(x: u32) -> Seq<u8> {
    seq![(x / 16777216) as u8, ((x / 65536) % 256) as u8, ((x / 256) % 256) as u8, (x % 256) as u8]
}

/// Appends `x` as two big-endian bytes.
pub fn push_u16(buf: &mut Vec<u8>, x: u16)
    ensures
        final(buf)@ == old(buf)@ + be16_bytes(x),
{
    buf.push((x / 256) as u8);
    buf.push((x % 256) as u8);
    assert(final(buf)@ =~= old(buf)@ + be16_bytes(x));
}

/// Appends `x` as four big-endian bytes.
pub fn push_u32(buf: &mut Vec<u8>, x: u32)
    ensures
        final(buf)@ == old(buf)@ + be32_bytes(x),
{
    buf.push((x / 16777216) as u8);
    buf.push(((x / 65536) % 256) as u8);
    buf.push(((x / 256) % 256) as u8);
    buf.push((x % 256) as u8);
    assert(final(buf)@ =~= old(buf)@ + be32_bytes(x));
}

/// Appends every byte of `src`.
pub fn push_bytes(buf: &mut Vec<u8>, src: &[u8])
    ensures
        final(buf)@ == old(buf)@ + src@,
{
    let mut i: usize = 0;
    while i < src.len()
        invariant
            i <= src@.len(),
            buf@ == old(buf)@ + src@.subrange(0, i as int),
        decreases src@.len() - i,
    {
        buf.push(src[i]);
        i = i + 1;
        assert(buf@ =~= old(buf)@ + src@.subrange(0, i as int));
    }
    assert(src@.subrange(0, src@.len() as int) =~= src@);
}

/// Reading back a written word gives the word.
pub proof fn lemma_be16_roundtrip(d: Seq<u8>, p: int, x: u16)
    requires
        fits(d, p, 2),
        d.subrange(p, p + 2) == be16_bytes(x),
    ensures
        be16(d, p) == x,
{
    assert(d[p] == d.subrange(p, p + 2)[0]);
    assert(d[p + 1] == d.subrange(p, p + 2)[1]);
}

/// Reading back a written 32-bit word gives the word.
pub proof fn lemma_be32_roundtrip(d: Seq<u8>, p: int, x: u32)
    requires
        fits(d, p, 4),
        d.subrange(p, p + 4) == be32_bytes(x),
    ensures
        be32(d, p) == x,
{
    assert(d[p] == d.subrange(p, p + 4)[0]);
    assert(d[p + 1] == d.subrange(p, p + 4)[1]);
    assert(d[p + 2] == d.subrange(p, p + 4)[2]);
    assert(d[p + 3] == d.subrange(p, p + 4)[3]);
}

/// Reading back a written signed word gives the word.
pub proof fn lemma_s16_roundtrip(x: i16)
    ensures
        s16(x as u16) == x,
{
    assert(x >= 0 ==> (x as u16) < 0x8000 && (x as u16) as i16 == x) by (bit_vector);
    assert(x < 0 ==> (x as u16) >= 0x8000 && ((x as u16) - 0x8000) as i16 - 0x8000 == x) by (bit_vector);
}

/// Converting a position to 32 bits keeps it modulo 2^32.
pub proof fn lemma_u32_trunc(x: usize)
    ensures
        x as u32 == (x as int % 0x1_0000_0000) as u32,
{
    let y = x as u64;
    assert(y as u32 == (y % 0x1_0000_0000) as u32) by (bit_vector);
}

/// Converting a length to 16 bits keeps it modulo 2^16.
pub proof fn lemma_u16_trunc(x: usize)
    ensures
        x as u16 == (x as int % 0x10000) as u16,
        (x as int % 0x10000) as u16 == x as int % 0x10000,
{
    let y = x as u64;
    assert(y as u16 == (y % 0x10000) as u16) by (bit_vector);
}

/// The words read are big-endian: the byte at `p` is the most
/// significant; a signed word is its two's-complement reading.
pub proof fn lemma_big_endian_law(d: Seq<u8>, p: int, x: u16)
    requires
        fits(d, p, 4),
    ensures
        be16(d, p) as int == d[p] * 256 + d[p + 1],
        be32(d, p) as int == d[p] * 16777216 + d[p + 1] * 65536 + d[p + 2] * 256 + d[p + 3],
        s16(x) as int == (if x < 0x8000 { x as int } else { x - 0x10000 }),
        be16_bytes(x) == seq![(x as int / 256) as u8, (x as int % 256) as u8],
        low_s8(x) as int == (if x % 256 < 0x80 { (x % 256) as int } else { x % 256 - 256 }),
{
    let a = d[p] as int * 256 + d[p + 1] as int;
    assert(0 <= a < 0x10000);
    let b = d[p] as int * 16777216 + d[p + 1] as int * 65536 + d[p + 2] as int * 256 + d[p + 3] as int;
    assert(0 <= b < 0x1_0000_0000);
}

/// A 32-bit word is written most significant byte first.
pub proof fn lemma_be32_bytes_law(y: u32)
    ensures
        be32_bytes(y).len() == 4,
        be32_bytes(y)[0] as int == y as int / 16777216,
        be32_bytes(y)[1] as int == (y as int / 65536) % 256,
        be32_bytes(y)[2] as int == (y as int / 256) % 256,
        be32_bytes(y)[3] as int == y as int % 256,
{
}

} // verus!
