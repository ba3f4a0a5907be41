//! Big-endian integers and fixed-size fields of byte strings.

use vstd::prelude::*;

verus! {

/// The two bytes of `x`, most significant first.
pub open spec fn be16(x: u16) -> Seq<u8> {
    seq![(x / 0x100) as u8, (x % 0x100) as u8]
}

/// The number whose big-endian bytes are the first two of `s`.
pub open spec fn from_be16(s: Seq<u8>) -> u16 {
    (s[0] * 0x100 + s[1]) as u16
}

/// The four bytes of `x`, most significant first.
pub open spec fn be32(x: u32) -> Seq<u8> {
    seq![
        (x / 0x100_0000) as u8,
        (x / 0x1_0000 % 0x100) as u8,
        (x / 0x100 % 0x100) as u8,
        (x % 0x100) as u8,
    ]
}

/// The number whose big-endian bytes are the first four of `s`.
pub open spec fn from_be32(s: Seq<u8>) -> u32 {
    (s[0] * 0x100_0000 + s[1] * 0x1_0000 + s[2] * 0x100 + s[3]) as u32
}

/// The eight bytes of `x`, most significant first.
pub open spec fn be64(x: u64) -> Seq<u8> {
    be32((x / 0x1_0000_0000) as u32) + be32((x % 0x1_0000_0000) as u32)
}

/// The number whose big-endian bytes are the first eight of `s`.
pub open spec fn from_be64(s: Seq<u8>) -> u64 {
    (from_be32(s.subrange(0, 4)) * 0x1_0000_0000 + from_be32(s.subrange(4, 8))) as u64
}

/// Reading back the big-endian bytes of a number gives the number, and writing the number
/// that two bytes stand for gives the bytes.
pub proof fn be16_round_trip(x: u16, s: Seq<u8>)
    requires
        s.len() == 2,
    ensures
        from_be16(be16(x)) == x,
        be16(from_be16(s)) == s,
{
    assert(be16(from_be16(s)) =~= s);
}

/// Reading back the big-endian bytes of a number gives the number, and writing the number
/// that four bytes stand for gives the bytes.
pub proof fn be32_round_trip(x: u32, s: Seq<u8>)
    requires
        s.len() == 4,
    ensures
        from_be32(be32(x)) == x,
        be32(from_be32(s)) == s,
{
    let (a, b, c, d) = (s[0], s[1], s[2], s[3]);
    digits_of_be32(a, b, c, d);
    assert(be32(from_be32(s)) =~= s);
    assert(x == x / 0x100_0000 * 0x100_0000 + x / 0x1_0000 % 0x100 * 0x1_0000 + x / 0x100 % 0x100
        * 0x100 + x % 0x100);
}

/// The base-256 digits of a number that is given by four of them.
proof fn digits_of_be32(a: u8, b: u8, c: u8, d: u8)
    ensures
        ({
            let y = a * 0x100_0000 + b * 0x1_0000 + c * 0x100 + d;
            &&& 0 <= y <= u32::MAX
            &&& y / 0x100_0000 == a
            &&& y / 0x1_0000 % 0x100 == b
            &&& y / 0x100 % 0x100 == c
            &&& y % 0x100 == d
        }),
{
    let y = a * 0x100_0000 + b * 0x1_0000 + c * 0x100 + d;
    assert(y / 0x1_0000 == a * 0x100 + b);
    assert(y / 0x100 == a * 0x1_0000 + b * 0x100 + c);
}

/// Reading back the big-endian bytes of a number gives the number, and writing the number
/// that eight bytes stand for gives the bytes.
pub proof fn be64_round_trip(x: u64, s: Seq<u8>)
    requires
        s.len() == 8,
    ensures
        from_be64(be64(x)) == x,
        be64(from_be64(s)) == s,
{
    let hi = (x / 0x1_0000_0000) as u32;
    let lo = (x % 0x1_0000_0000) as u32;
    be32_round_trip(hi, s.subrange(0, 4));
    be32_round_trip(lo, s.subrange(4, 8));
    assert(from_be64(be64(x)) == x) by {
        assert(be64(x).subrange(0, 4) =~= be32(hi));
        assert(be64(x).subrange(4, 8) =~= be32(lo));
    }
    assert(be64(from_be64(s)) == s) by {
        let y = from_be64(s);
        let (a, b) = (from_be32(s.subrange(0, 4)), from_be32(s.subrange(4, 8)));
        assert(y == a * 0x1_0000_0000 + b);
        assert((y / 0x1_0000_0000) as u32 == a);
        assert((y % 0x1_0000_0000) as u32 == b);
        assert(s =~= s.subrange(0, 4) + s.subrange(4, 8));
    }
}

/// Appends the bytes of `x`, most significant first.
pub fn push_be32(out: &mut Vec<u8>, x: u32)
    ensures
        final(out)@ == old(out)@ + be32(x),
{
    out.push((x / 0x100_0000) as u8);
    out.push((x / 0x1_0000 % 0x100) as u8);
    out.push((x / 0x100 % 0x100) as u8);
    out.push((x % 0x100) as u8);
    assert(out@ =~= old(out)@ + be32(x));
}

/// Appends the bytes of `x`, most significant first.
pub fn push_be64(out: &mut Vec<u8>, x: u64)
    ensures
        final(out)@ == old(out)@ + be64(x),
{
    push_be32(out, (x / 0x1_0000_0000) as u32);
    push_be32(out, (x % 0x1_0000_0000) as u32);
    assert(out@ =~= old(out)@ + be64(x));
}

/// The big-endian number at `at`.
pub fn read_be16(data: &[u8], at: usize) -> (x: u16)
    requires
        at + 2 <= data@.len(),
    ensures
        x == from_be16(data@.subrange(at as int, at + 2)),
{
    data[at] as u16 * 0x100 + data[at + 1] as u16
}

/// The big-endian number at `at`.
pub fn read_be32(data: &[u8], at: usize) -> (x: u32)
    requires
        at + 4 <= data@.len(),
    ensures
        x == from_be32(data@.subrange(at as int, at + 4)),
{
    data[at] as u32 * 0x100_0000 + data[at + 1] as u32 * 0x1_0000 + data[at + 2] as u32 * 0x100
        + data[at + 3] as u32
}

/// The big-endian number at `at`.
pub fn read_be64(data: &[u8], at: usize) -> (x: u64)
    requires
        at + 8 <= data@.len(),
    ensures
        x == from_be64(data@.subrange(at as int, at + 8)),
{
    let len: usize = data.len();
    let hi: u32 = read_be32(data, at);
    let lo: u32 = read_be32(data, at + 4);
    proof {
        let field = data@.subrange(at as int, at + 8);
        assert(field.subrange(0, 4) =~= data@.subrange(at as int, at + 4));
        assert(field.subrange(4, 8) =~= data@.subrange(at + 4, at + 8));
    }
    hi as u64 * 0x1_0000_0000 + lo as u64
}

/// The `N` bytes that start at `at`.
pub fn read_array<const N: usize>(data: &[u8], at: usize) -> (field: [u8; N])
    requires
        at + N <= data@.len(),
    ensures
        field@ == data@.subrange(at as int, at + N),
{
    let len: usize = data.len();
    let mut field: [u8; N] = [0u8; N];
    for i in 0..N
        invariant
            at + N <= data@.len() == len,
            field@.len() == N,
            forall|j: int| 0 <= j < i ==> field@[j] == data@[at + j],
    {
        field[i] = data[at + i];
    }
    assert(field@ =~= data@.subrange(at as int, at + N));
    field
}

} // verus!
