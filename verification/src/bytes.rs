//! Small verified byte-buffer helpers shared by the codecs.

use vstd::prelude::*;

verus! {

/// Append every byte of `src` to `out`.
pub fn append_bytes(out: &mut Vec<u8>, src: &[u8])
    ensures
        final(out)@ == old(out)@ + src@,
{
    let ghost start = out@;
    let mut i: usize = 0;
    while i < src.len()
        invariant
            i <= src@.len(),
            out@ == start + src@.subrange(0, i as int),
        decreases src@.len() - i,
    {
        out.push(src[i]);
        i = i + 1;
        assert(out@ == start + src@.subrange(0, i as int));
    }
    assert(src@.subrange(0, src@.len() as int) == src@);
}

/// Copy a sub-range of a byte slice into a new vector.
pub fn copy_range(src: &[u8], start: usize, end: usize) -> (out: Vec<u8>)
    requires
        start <= end <= src@.len(),
    ensures
        out@ == src@.subrange(start as int, end as int),
{
    let mut out: Vec<u8> = Vec::new();
    let mut i: usize = start;
    while i < end
        invariant
            start <= i <= end <= src@.len(),
            out@ == src@.subrange(start as int, i as int),
        decreases end - i,
    {
        out.push(src[i]);
        i = i + 1;
        assert(out@ == src@.subrange(start as int, i as int));
    }
    out
}

/// `n` zero bytes.
pub open spec fn zeros(n: nat) -> Seq<u8> {
    Seq::new(n, |i: int| 0u8)
}

/// The smaller of two integers.
pub open spec fn min_of(a: int, b: int) -> int {
    if a < b { a } else { b }
}

/// `src` cut or padded with zero bytes to exactly `width` bytes.
pub open spec fn padded(src: Seq<u8>, width: nat) -> Seq<u8> {
    src.subrange(0, min_of(src.len() as int, width as int)) + zeros((width - min_of(src.len() as int, width as int)) as nat)
}

/// Append `width` bytes: the first bytes of `src`, then zeros.
pub fn push_padded(out: &mut Vec<u8>, src: &[u8], width: usize)
    ensures
        final(out)@ == old(out)@ + padded(src@, width as nat),
{
    let ghost start = out@;
    let take: usize = if src.len() < width { src.len() } else { width };
    let mut i: usize = 0;
    while i < take
        invariant
            take <= src@.len(),
            take <= width,
            i <= take,
            out@ == start + src@.subrange(0, i as int),
        decreases take - i,
    {
        out.push(src[i]);
        i = i + 1;
        assert(out@ == start + src@.subrange(0, i as int));
    }
    let mut j: usize = take;
    while j < width
        invariant
            take <= j <= width,
            out@ == start + src@.subrange(0, take as int) + zeros((j - take) as nat),
        decreases width - j,
    {
        out.push(0u8);
        j = j + 1;
        assert(out@ == start + src@.subrange(0, take as int) + zeros((j - take) as nat));
    }
    assert(out@ == start + padded(src@, width as nat));
}

} // verus!
