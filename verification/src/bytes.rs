//! Big-endian integer encodings used by the container layout.

use vstd::prelude::*;

verus! {

/// The two bytes of `x`, most significant first.
#[verifier::opaque]
pub open spec fn be_u16(x: u16) -> Seq<u8> {
    seq![(x / 0x100) as u8, (x % 0x100) as u8]
}

/// The four bytes of `x`, most significant first.
#[verifier::opaque]
pub open spec fn be_u32(x: u32) -> Seq<u8> {
    seq![
        (x / 0x100_0000) as u8,
        ((x / 0x1_0000) % 0x100) as u8,
        ((x / 0x100) % 0x100) as u8,
        (x % 0x100) as u8,
    ]
}

/// The eight bytes of `x`, most significant first.
#[verifier::opaque]
pub open spec fn be_u64(x: u64) -> Seq<u8> {
    be_u32((x / 0x1_0000_0000) as u32) + be_u32((x % 0x1_0000_0000) as u32)
}

/// The number whose big-endian encoding is the first two bytes of `s`.
#[verifier::opaque]
pub open spec fn from_be_u16(s: Seq<u8>) -> u16
    recommends
        s.len() >= 2,
{
    (s[0] as int * 0x100 + s[1] as int) as u16
}

/// The number whose big-endian encoding is the first four bytes of `s`.
#[verifier::opaque]
pub open spec fn from_be_u32(s: Seq<u8>) -> u32
    recommends
        s.len() >= 4,
{
    (s[0] as int * 0x100_0000 + s[1] as int * 0x1_0000 + s[2] as int * 0x100 + s[3] as int) as u32
}

/// The number whose big-endian encoding is the first eight bytes of `s`.
#[verifier::opaque]
pub open spec fn from_be_u64(s: Seq<u8>) -> u64
    recommends
        s.len() >= 8,
{
    (from_be_u32(s) as int * 0x1_0000_0000 + from_be_u32(s.subrange(4, 8)) as int) as u64
}

/// Every encoding has the width of its type.
pub proof fn lemma_be_lengths()
    ensures
        forall|x: u16| #[trigger] be_u16(x).len() == 2,
        forall|x: u32| #[trigger] be_u32(x).len() == 4,
        forall|x: u64| #[trigger] be_u64(x).len() == 8,
{
    reveal(be_u16);
    reveal(be_u32);
    reveal(be_u64);
}

/// Decoding the encoding of a 16-bit number gives the number back.
pub proof fn lemma_be_u16_roundtrip(x: u16)
    ensures
        be_u16(x).len() == 2,
        from_be_u16(be_u16(x)) == x,
{
    reveal(be_u16);
    reveal(from_be_u16);
}

/// Encoding the number read from two bytes gives the two bytes back.
pub proof fn lemma_from_be_u16_roundtrip(s: Seq<u8>)
    requires
        s.len() == 2,
    ensures
        be_u16(from_be_u16(s)) == s,
{
    reveal(be_u16);
    reveal(from_be_u16);
    assert(be_u16(from_be_u16(s)) =~= s);
}

/// Decoding the encoding of a 32-bit number gives the number back.
pub proof fn lemma_be_u32_roundtrip(x: u32)
    ensures
        be_u32(x).len() == 4,
        from_be_u32(be_u32(x)) == x,
{
    reveal(be_u32);
    reveal(from_be_u32);
}

/// Encoding the number read from four bytes gives the four bytes back.
pub proof fn lemma_from_be_u32_roundtrip(s: Seq<u8>)
    requires
        s.len() == 4,
    ensures
        be_u32(from_be_u32(s)) == s,
{
    reveal(be_u32);
    reveal(from_be_u32);
    let a = s[0] as int;
    let b = s[1] as int;
    let c = s[2] as int;
    let d = s[3] as int;
    let v = a * 0x100_0000 + b * 0x1_0000 + c * 0x100 + d;
    assert(from_be_u32(s) == v);
    assert(v / 0x100_0000 == a);
    assert((v / 0x1_0000) % 0x100 == b);
    assert((v / 0x100) % 0x100 == c);
    assert(v % 0x100 == d);
    assert(be_u32(from_be_u32(s)) =~= s);
}

/// Decoding the encoding of a 64-bit number gives the number back.
pub proof fn lemma_be_u64_roundtrip(x: u64)
    ensures
        be_u64(x).len() == 8,
        from_be_u64(be_u64(x)) == x,
{
    reveal(be_u32);
    reveal(from_be_u32);
    reveal(be_u64);
    reveal(from_be_u64);
    let hi = (x / 0x1_0000_0000) as u32;
    let lo = (x % 0x1_0000_0000) as u32;
    lemma_be_u32_roundtrip(hi);
    lemma_be_u32_roundtrip(lo);
    assert(be_u64(x).subrange(4, 8) =~= be_u32(lo));
    assert(from_be_u32(be_u64(x)) == from_be_u32(be_u32(hi)));
}

/// Encoding the number read from eight bytes gives the eight bytes back.
pub proof fn lemma_from_be_u64_roundtrip(s: Seq<u8>)
    requires
        s.len() == 8,
    ensures
        be_u64(from_be_u64(s)) == s,
{
    reveal(be_u32);
    reveal(from_be_u32);
    reveal(be_u64);
    reveal(from_be_u64);
    let hi = from_be_u32(s);
    let lo = from_be_u32(s.subrange(4, 8));
    lemma_from_be_u32_roundtrip(s.subrange(0, 4));
    lemma_from_be_u32_roundtrip(s.subrange(4, 8));
    assert(from_be_u32(s.subrange(0, 4)) == hi);
    let v = hi as int * 0x1_0000_0000 + lo as int;
    assert(from_be_u64(s) == v);
    assert(v / 0x1_0000_0000 == hi);
    assert(v % 0x1_0000_0000 == lo);
    assert(be_u64(from_be_u64(s)) =~= s.subrange(0, 4) + s.subrange(4, 8));
    assert(s.subrange(0, 4) + s.subrange(4, 8) =~= s);
}

/// Two 32-bit numbers with the same encoding are the same number.
pub proof fn lemma_be_u32_injective(x: u32, y: u32)
    requires
        be_u32(x) == be_u32(y),
    ensures
        x == y,
{
    lemma_be_u32_roundtrip(x);
    lemma_be_u32_roundtrip(y);
}

/// Appends every byte of `data` to `out`.
pub fn append_bytes(out: &mut Vec<u8>, data: &[u8])
    ensures
        final(out)@ == old(out)@ + data@,
{
    let mut i: usize = 0;
    while i < data.len()
        invariant
            i <= data.len(),
            out@ == old(out)@ + data@.subrange(0, i as int),
        decreases data.len() - i,
    {
        out.push(data[i]);
        i += 1;
    }
    assert(data@.subrange(0, data.len() as int) =~= data@);
}

/// Appends the big-endian bytes of `x` to `out`.
pub fn push_be_u16(out: &mut Vec<u8>, x: u16)
    ensures
        final(out)@ == old(out)@ + be_u16(x),
{
    proof {
        reveal(be_u16);
    }
    out.push((x / 0x100) as u8);
    out.push((x % 0x100) as u8);
    assert(out@ =~= old(out)@ + be_u16(x));
}

/// Appends the big-endian bytes of `x` to `out`.
pub fn push_be_u32(out: &mut Vec<u8>, x: u32)
    ensures
        final(out)@ == old(out)@ + be_u32(x),
{
    proof {
        reveal(be_u32);
    }
    out.push((x / 0x100_0000) as u8);
    out.push(((x / 0x1_0000) % 0x100) as u8);
    out.push(((x / 0x100) % 0x100) as u8);
    out.push((x % 0x100) as u8);
    assert(out@ =~= old(out)@ + be_u32(x));
}

/// Appends the big-endian bytes of `x` to `out`.
pub fn push_be_u64(out: &mut Vec<u8>, x: u64)
    ensures
        final(out)@ == old(out)@ + be_u64(x),
{
    proof {
        reveal(be_u64);
    }
    let ghost before = out@;
    push_be_u32(out, (x / 0x1_0000_0000) as u32);
    push_be_u32(out, (x % 0x1_0000_0000) as u32);
    assert(out@ =~= before + be_u64(x));
}

/// Reads a big-endian 16-bit number from `data` at `at`.
pub fn read_be_u16(data: &[u8], at: usize) -> (x: u16)
    requires
        at + 2 <= data.len(),
    ensures
        x == from_be_u16(data@.subrange(at as int, at + 2)),
{
    proof {
        reveal(from_be_u16);
    }
    (data[at] as u16) * 0x100 + (data[at + 1] as u16)
}

/// Reads a big-endian 32-bit number from `data` at `at`.
pub fn read_be_u32(data: &[u8], at: usize) -> (x: u32)
    requires
        at + 4 <= data.len(),
    ensures
        x == from_be_u32(data@.subrange(at as int, at + 4)),
{
    proof {
        reveal(from_be_u32);
    }
    (data[at] as u32) * 0x100_0000 + (data[at + 1] as u32) * 0x1_0000 + (data[at + 2] as u32)
        * 0x100 + (data[at + 3] as u32)
}

/// Reads a big-endian 64-bit number from `data` at `at`.
pub fn read_be_u64(data: &[u8], at: usize) -> (x: u64)
    requires
        at + 8 <= data.len(),
    ensures
        x == from_be_u64(data@.subrange(at as int, at + 8)),
{
    proof {
        reveal(from_be_u32);
        reveal(from_be_u64);
    }
    let hi = read_be_u32(data, at);
    let lo = read_be_u32(data, at + 4);
    proof {
        let s = data@.subrange(at as int, at + 8);
        assert(s.subrange(4, 8) =~= data@.subrange(at + 4, at + 8));
        assert(from_be_u32(s) == from_be_u32(data@.subrange(at as int, at + 4)));
    }
    (hi as u64) * 0x1_0000_0000 + (lo as u64)
}

} // verus!
