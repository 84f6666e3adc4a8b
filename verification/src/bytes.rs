//! Little-endian integer encoding shared by the binary asset formats.
use vstd::prelude::*;

verus! {

/// The four little-endian bytes of `x`.
pub open spec fn le_u32(x: u32) -> Seq<u8> {
    seq![
        (x % 256) as u8,
        ((x / 256) % 256) as u8,
        ((x / 65536) % 256) as u8,
        ((x / 16777216) % 256) as u8,
    ]
}

/// The eight little-endian bytes of `x`.
pub open spec fn le_u64(x: u64) -> Seq<u8> {
    le_u32((x % 0x1_0000_0000) as u32) + le_u32((x / 0x1_0000_0000) as u32)
}

/// The value of four little-endian bytes.
pub open spec fn u32_of_le(s: Seq<u8>) -> u32 {
    (s[0] as int + 256 * s[1] + 65536 * s[2] + 16777216 * s[3]) as u32
}

/// The value of eight little-endian bytes.
pub open spec fn u64_of_le(s: Seq<u8>) -> u64 {
    (u32_of_le(s.subrange(0, 4)) as int + 0x1_0000_0000 * u32_of_le(s.subrange(4, 8))) as u64
}

/// Decoding the encoding of `x` gives back `x`.
pub proof fn lemma_le_u32_roundtrip(x: u32)
    ensures
        le_u32(x).len() == 4,
        u32_of_le(le_u32(x)) == x,
{
    let b0 = x % 256;
    let b1 = (x / 256) % 256;
    let b2 = (x / 65536) % 256;
    let b3 = (x / 16777216) % 256;
    assert(b0 + 256 * b1 + 65536 * b2 + 16777216 * b3 == x) by (nonlinear_arith)
        requires
            b0 == x % 256,
            b1 == (x / 256) % 256,
            b2 == (x / 65536) % 256,
            b3 == (x / 16777216) % 256,
            x <= u32::MAX,
    ;
}

/// Decoding the encoding of `x` gives back `x`.
pub proof fn lemma_le_u64_roundtrip(x: u64)
    ensures
        le_u64(x).len() == 8,
        u64_of_le(le_u64(x)) == x,
{
    let lo = (x % 0x1_0000_0000) as u32;
    let hi = (x / 0x1_0000_0000) as u32;
    lemma_le_u32_roundtrip(lo);
    lemma_le_u32_roundtrip(hi);
    let s = le_u64(x);
    assert(s.subrange(0, 4) =~= le_u32(lo));
    assert(s.subrange(4, 8) =~= le_u32(hi));
    assert(lo + 0x1_0000_0000 * hi == x) by (nonlinear_arith)
        requires
            lo == x % 0x1_0000_0000,
            hi == x / 0x1_0000_0000,
    ;
}

/// Appends the little-endian bytes of `x` to `out`.
pub fn push_u32_le(out: &mut Vec<u8>, x: u32)
    ensures
        final(out)@ == old(out)@ + le_u32(x),
{
    out.push((x % 256) as u8);
    out.push(((x / 256) % 256) as u8);
    out.push(((x / 65536) % 256) as u8);
    out.push(((x / 16777216) % 256) as u8);
    assert(final(out)@ =~= old(out)@ + le_u32(x));
}

/// Appends the little-endian bytes of `x` to `out`.
pub fn push_u64_le(out: &mut Vec<u8>, x: u64)
    ensures
        final(out)@ == old(out)@ + le_u64(x),
{
    let ghost start = out@;
    push_u32_le(out, (x % 0x1_0000_0000) as u32);
    push_u32_le(out, (x / 0x1_0000_0000) as u32);
    assert(out@ =~= start + le_u64(x));
}

/// Appends all of `src` to `out`.
pub fn push_bytes(out: &mut Vec<u8>, src: &[u8])
    ensures
        final(out)@ == old(out)@ + src@,
{
    let ghost start = out@;
    let mut i: usize = 0;
    while i < src.len()
        invariant
            i <= src@.len(),
            out@ == start + src@.subrange(0, i as int),
        decreases src@.len() - i,
    {
        out.push(src[i]);
        i = i + 1;
        assert(out@ =~= start + src@.subrange(0, i as int));
    }
    assert(src@.subrange(0, src@.len() as int) =~= src@);
}

/// Reads four little-endian bytes of `data` starting at `pos`.
pub fn read_u32_le(data: &[u8], pos: usize) -> (r: u32)
    requires
        pos + 4 <= data@.len(),
    ensures
        r == u32_of_le(data@.subrange(pos as int, pos + 4)),
{
    let b0 = data[pos] as u32;
    let b1 = data[pos + 1] as u32;
    let b2 = data[pos + 2] as u32;
    let b3 = data[pos + 3] as u32;
    b0 + 256 * b1 + 65536 * b2 + 16777216 * b3
}

/// Reads eight little-endian bytes of `data` starting at `pos`.
pub fn read_u64_le(data: &[u8], pos: usize) -> (r: u64)
    requires
        pos + 8 <= data@.len(),
    ensures
        r == u64_of_le(data@.subrange(pos as int, pos + 8)),
{
    let _n = data.len();
    let lo = read_u32_le(data, pos) as u64;
    let hi = read_u32_le(data, pos + 4) as u64;
    let ghost s = data@.subrange(pos as int, pos + 8);
    assert(s.subrange(0, 4) =~= data@.subrange(pos as int, pos + 4));
    assert(s.subrange(4, 8) =~= data@.subrange(pos + 4, pos + 8));
    lo + 0x1_0000_0000 * hi
}

/// Copies `data[start..end]` into a new vector.
pub fn copy_range(data: &[u8], start: usize, end: usize) -> (r: Vec<u8>)
    requires
        start <= end <= data@.len(),
    ensures
        r@ == data@.subrange(start as int, end as int),
{
    let mut r: Vec<u8> = Vec::with_capacity(end - start);
    let mut i: usize = start;
    while i < end
        invariant
            start <= i <= end <= data@.len(),
            r@ == data@.subrange(start as int, i as int),
        decreases end - i,
    {
        r.push(data[i]);
        i = i + 1;
        assert(r@ =~= data@.subrange(start as int, i as int));
    }
    r
}

/// A copy of `v` as a new vector.
pub fn copy_vec<T: Copy>(v: &[T]) -> (r: Vec<T>)
    ensures
        r@ == v@,
{
    let mut out: Vec<T> = Vec::new();
    let mut i: usize = 0;
    while i < v.len()
        invariant
            i <= v@.len(),
            out@ =~= v@.subrange(0, i as int),
        decreases v@.len() - i,
    {
        out.push(v[i]);
        i = i + 1;
    }
    out
}

} // verus!
