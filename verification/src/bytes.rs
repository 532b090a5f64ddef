//! Byte layouts shared by the signed and encrypted messages.

use vstd::prelude::*;

verus! {

pub open spec fn u16_be(x: u16) -> Seq<u8> {
    seq![(x >> 8u16) as u8, (x & 0xffu16) as u8]
}

pub open spec fn u32_be(x: u32) -> Seq<u8> {
    seq![(x >> 24u32) as u8, ((x >> 16u32) & 0xffu32) as u8, ((x >> 8u32) & 0xffu32) as u8, (x & 0xffu32) as u8]
}

pub open spec fn u64_be(x: u64) -> Seq<u8> {
    seq![
        (x >> 56u64) as u8,
        ((x >> 48u64) & 0xffu64) as u8,
        ((x >> 40u64) & 0xffu64) as u8,
        ((x >> 32u64) & 0xffu64) as u8,
        ((x >> 24u64) & 0xffu64) as u8,
        ((x >> 16u64) & 0xffu64) as u8,
        ((x >> 8u64) & 0xffu64) as u8,
        (x & 0xffu64) as u8,
    ]
}

/// A field preceded by its length as a big-endian `u16`.
pub open spec fn length_prefixed(field: Seq<u8>) -> Seq<u8> {
    u16_be(field.len() as u16) + field
}

/// The bytes of an ASCII text.
pub open spec fn ascii_bytes(s: Seq<char>) -> Seq<u8> {
    Seq::new(s.len(), |i: int| s[i] as u8)
}

pub fn push_u16_be(out: &mut Vec<u8>, x: u16)
    ensures
        final(out)@ == old(out)@ + u16_be(x),
{
    out.push((x >> 8u16) as u8);
    out.push((x & 0xffu16) as u8);
    assert(out@ =~= old(out)@ + u16_be(x));
}

pub fn push_u32_be(out: &mut Vec<u8>, x: u32)
    ensures
        final(out)@ == old(out)@ + u32_be(x),
{
    out.push((x >> 24u32) as u8);
    out.push(((x >> 16u32) & 0xffu32) as u8);
    out.push(((x >> 8u32) & 0xffu32) as u8);
    out.push((x & 0xffu32) as u8);
    assert(out@ =~= old(out)@ + u32_be(x));
}

pub fn push_u64_be(out: &mut Vec<u8>, x: u64)
    ensures
        final(out)@ == old(out)@ + u64_be(x),
{
    out.push((x >> 56u64) as u8);
    out.push(((x >> 48u64) & 0xffu64) as u8);
    out.push(((x >> 40u64) & 0xffu64) as u8);
    out.push(((x >> 32u64) & 0xffu64) as u8);
    out.push(((x >> 24u64) & 0xffu64) as u8);
    out.push(((x >> 16u64) & 0xffu64) as u8);
    out.push(((x >> 8u64) & 0xffu64) as u8);
    out.push((x & 0xffu64) as u8);
    assert(out@ =~= old(out)@ + u64_be(x));
}

/// Appends `field` preceded by its length; refuses a field longer than a `u16`
/// can count and leaves `out` unchanged then.
pub fn push_length_prefixed(out: &mut Vec<u8>, field: &[u8]) -> (ok: bool)
    ensures
        ok == (field@.len() <= u16::MAX),
        ok ==> final(out)@ == old(out)@ + length_prefixed(field@),
        !ok ==> final(out)@ == old(out)@,
{
    if field.len() > 65535 {
        return false;
    }
    push_u16_be(out, field.len() as u16);
    out.extend_from_slice(field);
    assert(out@ =~= old(out)@ + length_prefixed(field@));
    true
}

/// The bytes of an ASCII string.
pub fn ascii_str_bytes(s: &str) -> (b: &[u8])
    requires
        vstd::string::is_ascii(s),
    ensures
        b@ == ascii_bytes(s@),
{
    proof {
        vstd::string::is_ascii_spec_bytes(s);
    }
    let b = s.as_bytes();
    assert(b@ =~= ascii_bytes(s@));
    b
}

/// Whether two byte strings are equal.
pub fn bytes_equal(a: &[u8], b: &[u8]) -> (equal: bool)
    ensures
        equal == (a@ == b@),
{
    if a.len() != b.len() {
        return false;
    }
    let mut i: usize = 0;
    while i < a.len()
        invariant
            a@.len() == b@.len(),
            i <= a@.len(),
            a@.subrange(0, i as int) == b@.subrange(0, i as int),
        decreases a.len() - i,
    {
        if a[i] != b[i] {
            assert(a@[i as int] != b@[i as int]);
            return false;
        }
        assert(a@.subrange(0, i + 1) =~= a@.subrange(0, i as int).push(a@[i as int]));
        assert(b@.subrange(0, i + 1) =~= b@.subrange(0, i as int).push(b@[i as int]));
        i = i + 1;
    }
    assert(a@ =~= a@.subrange(0, i as int));
    assert(b@ =~= b@.subrange(0, i as int));
    true
}

/// Big-endian encodings are injective.
pub proof fn lemma_u64_be_injective(x: u64, y: u64)
    requires
        u64_be(x) == u64_be(y),
    ensures
        x == y,
{
    assert(u64_be(x)[0] == u64_be(y)[0]);
    assert(u64_be(x)[1] == u64_be(y)[1]);
    assert(u64_be(x)[2] == u64_be(y)[2]);
    assert(u64_be(x)[3] == u64_be(y)[3]);
    assert(u64_be(x)[4] == u64_be(y)[4]);
    assert(u64_be(x)[5] == u64_be(y)[5]);
    assert(u64_be(x)[6] == u64_be(y)[6]);
    assert(u64_be(x)[7] == u64_be(y)[7]);
    assert(x == y) by (bit_vector)
        requires
            (x >> 56u64) as u8 == (y >> 56u64) as u8,
            ((x >> 48u64) & 0xffu64) as u8 == ((y >> 48u64) & 0xffu64) as u8,
            ((x >> 40u64) & 0xffu64) as u8 == ((y >> 40u64) & 0xffu64) as u8,
            ((x >> 32u64) & 0xffu64) as u8 == ((y >> 32u64) & 0xffu64) as u8,
            ((x >> 24u64) & 0xffu64) as u8 == ((y >> 24u64) & 0xffu64) as u8,
            ((x >> 16u64) & 0xffu64) as u8 == ((y >> 16u64) & 0xffu64) as u8,
            ((x >> 8u64) & 0xffu64) as u8 == ((y >> 8u64) & 0xffu64) as u8,
            (x & 0xffu64) as u8 == (y & 0xffu64) as u8,
    ;
}

pub proof fn lemma_u16_be_injective(x: u16, y: u16)
    requires
        u16_be(x) == u16_be(y),
    ensures
        x == y,
{
    assert(u16_be(x)[0] == u16_be(y)[0]);
    assert(u16_be(x)[1] == u16_be(y)[1]);
    assert(x == y) by (bit_vector)
        requires
            (x >> 8u16) as u8 == (y >> 8u16) as u8,
            (x & 0xffu16) as u8 == (y & 0xffu16) as u8,
    ;
}

pub proof fn lemma_u32_be_injective(x: u32, y: u32)
    requires
        u32_be(x) == u32_be(y),
    ensures
        x == y,
{
    assert(u32_be(x)[0] == u32_be(y)[0]);
    assert(u32_be(x)[1] == u32_be(y)[1]);
    assert(u32_be(x)[2] == u32_be(y)[2]);
    assert(u32_be(x)[3] == u32_be(y)[3]);
    assert(x == y) by (bit_vector)
        requires
            (x >> 24u32) as u8 == (y >> 24u32) as u8,
            ((x >> 16u32) & 0xffu32) as u8 == ((y >> 16u32) & 0xffu32) as u8,
            ((x >> 8u32) & 0xffu32) as u8 == ((y >> 8u32) & 0xffu32) as u8,
            (x & 0xffu32) as u8 == (y & 0xffu32) as u8,
    ;
}

/// A length-prefixed field is read back unambiguously from the front of
/// what follows it: equal encodings have equal fields and equal rests.
pub proof fn lemma_length_prefixed_split(a: Seq<u8>, rest_a: Seq<u8>, b: Seq<u8>, rest_b: Seq<u8>)
    requires
        a.len() <= u16::MAX,
        b.len() <= u16::MAX,
        length_prefixed(a) + rest_a == length_prefixed(b) + rest_b,
    ensures
        a == b,
        rest_a == rest_b,
{
    let x = length_prefixed(a) + rest_a;
    let y = length_prefixed(b) + rest_b;
    assert(x.subrange(0, 2) =~= u16_be(a.len() as u16));
    assert(y.subrange(0, 2) =~= u16_be(b.len() as u16));
    lemma_u16_be_injective(a.len() as u16, b.len() as u16);
    assert(x.subrange(2, 2 + a.len() as int) =~= a);
    assert(y.subrange(2, 2 + b.len() as int) =~= b);
    assert(x.subrange(2 + a.len() as int, x.len() as int) =~= rest_a);
    assert(y.subrange(2 + b.len() as int, y.len() as int) =~= rest_b);
}

} // verus!
