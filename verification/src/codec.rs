//! Fixed-width big-endian encoding of 64-bit unsigned integers: the wire
//! format for every value stored in a property map.

use vstd::prelude::*;

verus! {

/// Failure modes of the property codec: a looked-up key that is absent, or a
/// value that is not a well-formed fixed-width integer.
#[derive(Clone, Copy, Debug, PartialEq, Eq, Structural)]
pub enum Error {
    KeyNotFound,
    Malformed,
}

/// The number of bytes in the encoding of a `u64`.
pub const U64_SIZE: usize = 8;

/// Big-endian bytes of a 64-bit unsigned integer: most significant byte first.
pub open spec fn u64_to_be_bytes(x: u64) -> Seq<u8> {
    seq![
        ((x >> 56) & 0xff) as u8,
        ((x >> 48) & 0xff) as u8,
        ((x >> 40) & 0xff) as u8,
        ((x >> 32) & 0xff) as u8,
        ((x >> 24) & 0xff) as u8,
        ((x >> 16) & 0xff) as u8,
        ((x >> 8) & 0xff) as u8,
        (x & 0xff) as u8,
    ]
}

/// The 64-bit unsigned integer whose big-endian bytes are `s`.
pub open spec fn u64_from_be_bytes(s: Seq<u8>) -> u64
    recommends
        s.len() == U64_SIZE,
{
    ((s[0] as u64) << 56 | (s[1] as u64) << 48 | (s[2] as u64) << 40 | (s[3] as u64) << 32 | (
    s[4] as u64) << 24 | (s[5] as u64) << 16 | (s[6] as u64) << 8 | (s[7] as u64)) as u64
}

pub proof fn lemma_u64_be_bytes_roundtrip(x: u64)
    ensures
        u64_to_be_bytes(x).len() == U64_SIZE,
        u64_from_be_bytes(u64_to_be_bytes(x)) == x,
{
    assert((((((x >> 56) & 0xff) as u8) as u64) << 56 | ((((x >> 48) & 0xff) as u8) as u64) << 48
        | ((((x >> 40) & 0xff) as u8) as u64) << 40 | ((((x >> 32) & 0xff) as u8) as u64) << 32 | ((
    ((x >> 24) & 0xff) as u8) as u64) << 24 | ((((x >> 16) & 0xff) as u8) as u64) << 16 | ((((x
        >> 8) & 0xff) as u8) as u64) << 8 | (((x & 0xff) as u8) as u64)) == x) by (bit_vector);
}

/// Appends the big-endian encoding of `x` to `buf`.
pub fn encode_u64(buf: &mut Vec<u8>, x: u64)
    ensures
        final(buf)@ == old(buf)@ + u64_to_be_bytes(x),
{
    buf.push(((x >> 56) & 0xff) as u8);
    buf.push(((x >> 48) & 0xff) as u8);
    buf.push(((x >> 40) & 0xff) as u8);
    buf.push(((x >> 32) & 0xff) as u8);
    buf.push(((x >> 24) & 0xff) as u8);
    buf.push(((x >> 16) & 0xff) as u8);
    buf.push(((x >> 8) & 0xff) as u8);
    buf.push((x & 0xff) as u8);
    proof {
        assert(buf@ =~= old(buf)@ + u64_to_be_bytes(x));
    }
}

/// What decoding a property value yields: the integer its bytes spell when
/// they have exactly the fixed width, and a malformed-value error otherwise.
pub open spec fn spec_decode_u64(s: Seq<u8>) -> Result<u64, Error> {
    if s.len() != U64_SIZE {
        Result::Err(Error::Malformed)
    } else {
        Result::Ok(u64_from_be_bytes(s))
    }
}

/// Parses a property value as a big-endian 64-bit unsigned integer.
pub fn decode_u64(v: &[u8]) -> (r: Result<u64, Error>)
    ensures
        r == spec_decode_u64(v@),
{
    if v.len() != U64_SIZE {
        return Err(Error::Malformed);
    }
    Ok(
        (v[0] as u64) << 56 | (v[1] as u64) << 48 | (v[2] as u64) << 40 | (v[3] as u64) << 32 | (
        v[4] as u64) << 24 | (v[5] as u64) << 16 | (v[6] as u64) << 8 | (v[7] as u64),
    )
}

/// True when the byte sequences are equal.
pub fn bytes_eq(a: &[u8], b: &[u8]) -> (r: bool)
    ensures
        r == (a@ == b@),
{
    if a.len() != b.len() {
        proof {
            assert(a@ != b@);
        }
        return false;
    }
    let n = a.len();
    let mut i: usize = 0;
    while i < n
        invariant
            n == a@.len() == b@.len(),
            0 <= i <= n,
            forall|j: int| 0 <= j < i ==> a@[j] == b@[j],
        decreases n - i,
    {
        if a[i] != b[i] {
            return false;
        }
        i = i + 1;
    }
    proof {
        assert(a@ =~= b@);
    }
    true
}

} // verus!
