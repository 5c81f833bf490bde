//! Bytes on the wire: big-endian numbers and buffers of bytes.
use vstd::prelude::*;
use vstd::slice::*;

verus! {

/// The two bytes of a number below 2^16, most significant first.
pub open spec fn be16(x: int) -> Seq<u8> {
    seq![(x / 256 % 256) as u8, (x % 256) as u8]
}

/// The four bytes of a number below 2^32, most significant first.
pub open spec fn be32(x: int) -> Seq<u8> {
    seq![
        (x / 16777216 % 256) as u8,
        (x / 65536 % 256) as u8,
        (x / 256 % 256) as u8,
        (x % 256) as u8,
    ]
}

/// The number in the two bytes at `i`, most significant first.
pub open spec fn be16_at(s: Seq<u8>, i: int) -> int {
    s[i] * 256 + s[i + 1]
}

/// The number in the four bytes at `i`, most significant first.
pub open spec fn be32_at(s: Seq<u8>, i: int) -> int {
    s[i] * 16777216 + s[i + 1] * 65536 + s[i + 2] * 256 + s[i + 3]
}

pub proof fn law_be16_reads_back(x: int)
    requires
        0 <= x < 65536,
    ensures
        be16_at(be16(x), 0) == x,
{
}

pub proof fn law_be32_reads_back(x: int)
    requires
        0 <= x < 4294967296,
    ensures
        be32_at(be32(x), 0) == x,
{
}

/// Appends bytes.
pub fn push_bytes(out: &mut Vec<u8>, b: &[u8])
    ensures
        final(out)@ == old(out)@ + b@,
{
    out.extend_from_slice(b);
    assert(out@ =~= old(out)@ + b@);
}

/// A copy of a slice of bytes.
pub fn copy_bytes(b: &[u8]) -> (v: Vec<u8>)
    ensures
        v@ == b@,
{
    let mut v: Vec<u8> = Vec::new();
    push_bytes(&mut v, b);
    assert(v@ =~= b@);
    v
}

/// The slice from `from` up to `to`.
pub fn part(b: &[u8], from: usize, to: usize) -> (r: &[u8])
    requires
        from <= to <= b@.len(),
    ensures
        r@ == b@.subrange(from as int, to as int),
{
    slice_subrange(b, from, to)
}

pub fn push_be16(out: &mut Vec<u8>, x: u16)
    ensures
        final(out)@ == old(out)@ + be16(x as int),
{
    out.push((x / 256) as u8);
    out.push((x % 256) as u8);
    assert(out@ =~= old(out)@ + be16(x as int));
}

pub fn push_be32(out: &mut Vec<u8>, x: u32)
    ensures
        final(out)@ == old(out)@ + be32(x as int),
{
    out.push((x / 16777216) as u8);
    out.push((x / 65536 % 256) as u8);
    out.push((x / 256 % 256) as u8);
    out.push((x % 256) as u8);
    assert(out@ =~= old(out)@ + be32(x as int));
}

pub fn read_be16(b: &[u8], i: usize) -> (x: u16)
    requires
        i + 2 <= b@.len(),
    ensures
        x == be16_at(b@, i as int),
{
    b[i] as u16 * 256 + b[i + 1] as u16
}

pub fn read_be32(b: &[u8], i: usize) -> (x: u32)
    requires
        i + 4 <= b@.len(),
    ensures
        x == be32_at(b@, i as int),
{
    b[i] as u32 * 16777216 + b[i + 1] as u32 * 65536 + b[i + 2] as u32 * 256 + b[i + 3] as u32
}

/// Appends `n` copies of a byte.
pub fn push_fill(out: &mut Vec<u8>, b: u8, n: usize)
    ensures
        final(out)@ == old(out)@ + Seq::new(n as nat, |i: int| b),
{
    let mut i: usize = 0;
    while i < n
        invariant
            i <= n,
            out@ == old(out)@ + Seq::new(i as nat, |j: int| b),
        decreases n - i,
    {
        out.push(b);
        i = i + 1;
        assert(out@ =~= old(out)@ + Seq::new(i as nat, |j: int| b));
    }
}

/// Numbers are written and read with their most significant byte first.
pub proof fn law_the_first_byte_weighs_most(x: int, s: Seq<u8>, i: int)
    ensures
        0 <= x < 65536 ==> be16(x).len() == 2 && 256 * be16(x)[0] + be16(x)[1] == x,
        0 <= x < 0x1_0000_0000 ==> be32(x).len() == 4 && 16777216 * be32(x)[0] + 65536 * be32(x)[1]
            + 256 * be32(x)[2] + be32(x)[3] == x,
        be16_at(s, i) == 256 * s[i] + s[i + 1],
        be32_at(s, i) == 16777216 * s[i] + 65536 * s[i + 1] + 256 * s[i + 2] + s[i + 3],
{
}

} // verus!
