//! Multi-version key layout: an encoded key carries its logical key followed
//! by a fixed-width timestamp, stored complemented big-endian so that newer
//! versions of one logical key sort first.

use vstd::prelude::*;

use crate::codec;
use crate::codec::{Error, U64_SIZE};

verus! {

/// The trailing bytes that carry timestamp `ts`.
pub open spec fn ts_suffix(ts: u64) -> Seq<u8> {
    codec::u64_to_be_bytes(!ts)
}

/// How an encoded key splits: its logical key and its timestamp, or nothing
/// when the key is too short to carry a timestamp.
pub open spec fn spec_split_ts(key: Seq<u8>) -> Option<(Seq<u8>, u64)> {
    if key.len() < U64_SIZE {
        Option::None
    } else {
        Option::Some(
            (key.take(key.len() - U64_SIZE), !codec::u64_from_be_bytes(key.skip(key.len() - U64_SIZE))),
        )
    }
}

/// Splits an encoded key into its logical key and its timestamp; fails on a
/// key too short to be well formed.
pub fn split_encoded_key_on_ts(key: &[u8]) -> (r: Result<(&[u8], u64), Error>)
    ensures
        match r {
            Ok((k, ts)) => spec_split_ts(key@) == Option::Some((k@, ts)),
            Err(e) => spec_split_ts(key@) is None && e == Error::Malformed,
        },
{
    if key.len() < U64_SIZE {
        return Err(Error::Malformed);
    }
    let pos = key.len() - U64_SIZE;
    let k = vstd::slice::slice_subrange(key, 0, pos);
    let suffix = vstd::slice::slice_subrange(key, pos, key.len());
    let ts = match codec::decode_u64(suffix) {
        Ok(v) => v,
        Err(_) => {
            // A slice of the fixed width always parses.
            proof {
                assert(false);
            }
            0
        },
    };
    Ok((k, !ts))
}

/// Appends the encoded form of timestamp `ts` to a logical key.
pub fn append_ts(key: &mut Vec<u8>, ts: u64)
    ensures
        final(key)@ == old(key)@ + ts_suffix(ts),
{
    codec::encode_u64(key, !ts);
}

/// A well-formed encoded key splits back into exactly the logical key and the
/// timestamp it was built from.
pub proof fn lemma_append_ts_splits(key: Seq<u8>, ts: u64)
    ensures
        spec_split_ts(key + ts_suffix(ts)) == Option::Some((key, ts)),
{
    codec::lemma_u64_be_bytes_roundtrip(!ts);
    let whole = key + ts_suffix(ts);
    assert(whole.take(whole.len() - U64_SIZE) =~= key);
    assert(whole.skip(whole.len() - U64_SIZE) =~= ts_suffix(ts));
    assert(!(!ts) == ts) by (bit_vector);
}

} // verus!
