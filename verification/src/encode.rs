use vstd::bytes::{
    spec_u16_from_le_bytes, spec_u16_to_le_bytes, spec_u32_from_le_bytes, spec_u32_to_le_bytes,
    spec_u64_from_le_bytes, spec_u64_to_le_bytes,
};
use vstd::prelude::*;

verus! {

/// Big-endian encoding of a `u64`.
pub open spec fn be_u64(x: u64) -> Seq<u8> {
    spec_u64_to_le_bytes(x).reverse()
}

/// Big-endian encoding of a `u32`.
pub open spec fn be_u32(x: u32) -> Seq<u8> {
    spec_u32_to_le_bytes(x).reverse()
}

pub open spec fn le_u16(x: u16) -> Seq<u8> {
    spec_u16_to_le_bytes(x)
}

pub open spec fn le_u32(x: u32) -> Seq<u8> {
    spec_u32_to_le_bytes(x)
}

pub open spec fn le_u64(x: u64) -> Seq<u8> {
    spec_u64_to_le_bytes(x)
}

pub open spec fn from_le_u16(s: Seq<u8>) -> u16 {
    spec_u16_from_le_bytes(s)
}

pub open spec fn from_le_u32(s: Seq<u8>) -> u32 {
    spec_u32_from_le_bytes(s)
}

pub open spec fn from_le_u64(s: Seq<u8>) -> u64 {
    spec_u64_from_le_bytes(s)
}

/// A byte string framed by its big-endian `u64` length.
pub open spec fn framed(value: Seq<u8>) -> Seq<u8> {
    be_u64(value.len() as u64) + value
}

/// Encoding and decoding of fixed-width little-endian integers undo each other.
pub proof fn lemma_le_roundtrips()
    ensures
        forall|x: u16| #[trigger] le_u16(x).len() == 2 && from_le_u16(le_u16(x)) == x,
        forall|x: u32| #[trigger] le_u32(x).len() == 4 && from_le_u32(le_u32(x)) == x,
        forall|x: u64| #[trigger] le_u64(x).len() == 8 && from_le_u64(le_u64(x)) == x,
        forall|s: Seq<u8>| s.len() == 2 ==> #[trigger] le_u16(from_le_u16(s)) == s,
        forall|s: Seq<u8>| s.len() == 4 ==> #[trigger] le_u32(from_le_u32(s)) == s,
        forall|s: Seq<u8>| s.len() == 8 ==> #[trigger] le_u64(from_le_u64(s)) == s,
{
    vstd::bytes::lemma_auto_spec_u16_to_from_le_bytes();
    vstd::bytes::lemma_auto_spec_u32_to_from_le_bytes();
    vstd::bytes::lemma_auto_spec_u64_to_from_le_bytes();
}

/// Appends `src` to `out`.
pub fn extend_bytes(out: &mut Vec<u8>, src: &[u8])
    ensures
        final(out)@ == old(out)@ + src@,
{
    let ghost start = out@;
    let mut i: usize = 0;
    while i < src.len()
        invariant
            i <= src@.len(),
            out@ == start + src@.subrange(0, i as int),
        decreases src@.len() - i,
    {
        out.push(src[i]);
        i = i + 1;
        assert(start + src@.subrange(0, i as int) =~= (start + src@.subrange(0, i - 1)).push(
            src@[i - 1],
        ));
    }
    assert(src@.subrange(0, src@.len() as int) =~= src@);
}

/// Appends the bytes of `src` in reverse order.
fn extend_reversed(out: &mut Vec<u8>, src: &Vec<u8>)
    ensures
        final(out)@ == old(out)@ + src@.reverse(),
{
    let ghost start = out@;
    let mut i: usize = src.len();
    while i > 0
        invariant
            i <= src@.len(),
            out@ == start + src@.subrange(i as int, src@.len() as int).reverse(),
        decreases i,
    {
        i = i - 1;
        out.push(src[i]);
        assert(start + src@.subrange(i as int, src@.len() as int).reverse() =~= (start
            + src@.subrange(i + 1, src@.len() as int).reverse()).push(src@[i as int]));
    }
    assert(src@.subrange(0, src@.len() as int) =~= src@);
}

pub fn push_be_u64(out: &mut Vec<u8>, x: u64)
    ensures
        final(out)@ == old(out)@ + be_u64(x),
        be_u64(x).len() == 8,
{
    let le = vstd::bytes::u64_to_le_bytes(x);
    extend_reversed(out, &le);
}

pub fn push_be_u32(out: &mut Vec<u8>, x: u32)
    ensures
        final(out)@ == old(out)@ + be_u32(x),
        be_u32(x).len() == 4,
{
    proof {
        vstd::bytes::lemma_auto_spec_u32_to_from_le_bytes();
    }
    let le = vstd::bytes::u32_to_le_bytes(x);
    extend_reversed(out, &le);
}

pub fn push_le_u16(out: &mut Vec<u8>, x: u16)
    ensures
        final(out)@ == old(out)@ + le_u16(x),
        le_u16(x).len() == 2,
{
    proof {
        lemma_le_roundtrips();
    }
    let le = vstd::bytes::u16_to_le_bytes(x);
    extend_bytes(out, le.as_slice());
}

pub fn push_le_u32(out: &mut Vec<u8>, x: u32)
    ensures
        final(out)@ == old(out)@ + le_u32(x),
        le_u32(x).len() == 4,
{
    proof {
        lemma_le_roundtrips();
    }
    let le = vstd::bytes::u32_to_le_bytes(x);
    extend_bytes(out, le.as_slice());
}

pub fn push_le_u64(out: &mut Vec<u8>, x: u64)
    ensures
        final(out)@ == old(out)@ + le_u64(x),
        le_u64(x).len() == 8,
{
    proof {
        lemma_le_roundtrips();
    }
    let le = vstd::bytes::u64_to_le_bytes(x);
    extend_bytes(out, le.as_slice());
}

/// Appends `value` framed by its big-endian `u64` length.
pub fn put_framed(out: &mut Vec<u8>, value: &[u8])
    ensures
        final(out)@ == old(out)@ + framed(value@),
{
    push_be_u64(out, value.len() as u64);
    extend_bytes(out, value);
    assert(out@ =~= old(out)@ + framed(value@));
}

} // verus!
