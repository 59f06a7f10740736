//! Little-endian integers inside byte buffers.

use vstd::prelude::*;
use vstd::bytes::*;
use vstd::slice::*;

verus! {

/// The two bytes at `off`, read as a little-endian `u16`.
pub open spec fn u16_at(buf: Seq<u8>, off: int) -> u16 {
    spec_u16_from_le_bytes(buf.subrange(off, off + 2))
}

/// The four bytes at `off`, read as a little-endian `u32`.
pub open spec fn u32_at(buf: Seq<u8>, off: int) -> u32 {
    spec_u32_from_le_bytes(buf.subrange(off, off + 4))
}

/// The eight bytes at `off`, read as a little-endian `u64`.
pub open spec fn u64_at(buf: Seq<u8>, off: int) -> u64 {
    spec_u64_from_le_bytes(buf.subrange(off, off + 8))
}

pub fn read_u16(buf: &[u8], off: usize) -> (x: u16)
    requires
        off + 2 <= buf@.len(),
    ensures
        x == u16_at(buf@, off as int),
{
    let n = buf.len();
    assert(off + 2 <= n);
    u16_from_le_bytes(slice_subrange(buf, off, off + 2))
}

pub fn read_u32(buf: &[u8], off: usize) -> (x: u32)
    requires
        off + 4 <= buf@.len(),
    ensures
        x == u32_at(buf@, off as int),
{
    let n = buf.len();
    assert(off + 4 <= n);
    u32_from_le_bytes(slice_subrange(buf, off, off + 4))
}

pub fn read_u64(buf: &[u8], off: usize) -> (x: u64)
    requires
        off + 8 <= buf@.len(),
    ensures
        x == u64_at(buf@, off as int),
{
    let n = buf.len();
    assert(off + 8 <= n);
    u64_from_le_bytes(slice_subrange(buf, off, off + 8))
}

/// Appends `src` to `buf`.
pub fn push_bytes(buf: &mut Vec<u8>, src: &[u8])
    ensures
        final(buf)@ == old(buf)@ + src@,
{
    let mut i: usize = 0;
    while i < src.len()
        invariant
            i <= src@.len(),
            buf@ == old(buf)@ + src@.subrange(0, i as int),
        decreases src@.len() - i,
    {
        buf.push(src[i]);
        i += 1;
    }
    assert(src@.subrange(0, src@.len() as int) == src@);
}

pub fn push_u16(buf: &mut Vec<u8>, x: u16)
    ensures
        final(buf)@ == old(buf)@ + spec_u16_to_le_bytes(x),
{
    let b = u16_to_le_bytes(x);
    push_bytes(buf, b.as_slice());
}

pub fn push_u32(buf: &mut Vec<u8>, x: u32)
    ensures
        final(buf)@ == old(buf)@ + spec_u32_to_le_bytes(x),
{
    let b = u32_to_le_bytes(x);
    push_bytes(buf, b.as_slice());
}

pub fn push_u64(buf: &mut Vec<u8>, x: u64)
    ensures
        final(buf)@ == old(buf)@ + spec_u64_to_le_bytes(x),
{
    let b = u64_to_le_bytes(x);
    push_bytes(buf, b.as_slice());
}

/// Overwrites `buf[off .. off + src.len()]` with `src`; the rest stays.
pub fn write_at(buf: &mut Vec<u8>, off: usize, src: &[u8])
    requires
        off + src@.len() <= old(buf)@.len(),
    ensures
        final(buf)@ == splice(old(buf)@, off as int, src@),
{
    let mut i: usize = 0;
    while i < src.len()
        invariant
            i <= src@.len(),
            off + src@.len() <= buf@.len(),
            buf@.len() == old(buf)@.len(),
            buf@ == splice(old(buf)@, off as int, src@.subrange(0, i as int)),
        decreases src@.len() - i,
    {
        let n = buf.len();
        assert(off + i < n);
        buf.set(off + i, src[i]);
        i += 1;
    }
    assert(src@.subrange(0, src@.len() as int) == src@);
}

/// `buf` with the bytes from `off` on replaced by `src`, as far as `src` goes.
pub open spec fn splice(buf: Seq<u8>, off: int, src: Seq<u8>) -> Seq<u8> {
    Seq::new(buf.len(), |i: int| if off <= i < off + src.len() { src[i - off] } else { buf[i] })
}

/// The middle of three joined pieces is found again at its place.
pub proof fn lemma_middle(pre: Seq<u8>, mid: Seq<u8>, post: Seq<u8>)
    ensures
        (pre + mid + post).subrange(pre.len() as int, (pre.len() + mid.len()) as int) == mid,
        (pre + mid + post).subrange(0, pre.len() as int) == pre,
        (pre + mid + post).len() == pre.len() + mid.len() + post.len(),
{
    assert((pre + mid + post).subrange(pre.len() as int, (pre.len() + mid.len()) as int) =~= mid);
    assert((pre + mid + post).subrange(0, pre.len() as int) =~= pre);
}

/// A little-endian `u16` written between two pieces is read back at its place.
pub proof fn lemma_u16_at(pre: Seq<u8>, x: u16, post: Seq<u8>)
    ensures
        u16_at(pre + spec_u16_to_le_bytes(x) + post, pre.len() as int) == x,
        spec_u16_to_le_bytes(x).len() == 2,
{
    lemma_auto_spec_u16_to_from_le_bytes();
    lemma_middle(pre, spec_u16_to_le_bytes(x), post);
}

/// A little-endian `u32` written between two pieces is read back at its place.
pub proof fn lemma_u32_at(pre: Seq<u8>, x: u32, post: Seq<u8>)
    ensures
        u32_at(pre + spec_u32_to_le_bytes(x) + post, pre.len() as int) == x,
        spec_u32_to_le_bytes(x).len() == 4,
{
    lemma_auto_spec_u32_to_from_le_bytes();
    lemma_middle(pre, spec_u32_to_le_bytes(x), post);
}

/// A little-endian `u64` written between two pieces is read back at its place.
pub proof fn lemma_u64_at(pre: Seq<u8>, x: u64, post: Seq<u8>)
    ensures
        u64_at(pre + spec_u64_to_le_bytes(x) + post, pre.len() as int) == x,
        spec_u64_to_le_bytes(x).len() == 8,
{
    lemma_auto_spec_u64_to_from_le_bytes();
    lemma_middle(pre, spec_u64_to_le_bytes(x), post);
}

/// Bytes that lie clear of a splice are not changed by it.
pub proof fn lemma_splice_outside(buf: Seq<u8>, off: int, src: Seq<u8>, a: int, b: int)
    requires
        0 <= a <= b <= buf.len(),
        b <= off || off + src.len() <= a,
    ensures
        splice(buf, off, src).subrange(a, b) == buf.subrange(a, b),
        splice(buf, off, src).len() == buf.len(),
{
    assert(splice(buf, off, src).subrange(a, b) =~= buf.subrange(a, b));
}

/// Bytes that lie within a splice are those that were spliced in.
pub proof fn lemma_splice_inside(buf: Seq<u8>, off: int, src: Seq<u8>, a: int, b: int)
    requires
        0 <= off,
        off + src.len() <= buf.len(),
        off <= a <= b <= off + src.len(),
    ensures
        splice(buf, off, src).subrange(a, b) == src.subrange(a - off, b - off),
        splice(buf, off, src).len() == buf.len(),
{
    assert(splice(buf, off, src).subrange(a, b) =~= src.subrange(a - off, b - off));
}

} // verus!
