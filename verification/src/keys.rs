//! The store's data namespace: data keys live under a one-byte prefix, so
//! that other logical namespaces can share the same files.

use vstd::prelude::*;

verus! {

/// The byte that opens every data key: ASCII `z`.
pub const DATA_PREFIX: u8 = 122;

/// True when `key` lies in the data namespace.
pub open spec fn is_data_key(key: Seq<u8>) -> bool {
    key.len() >= 1 && key[0] == DATA_PREFIX
}

/// Decides whether `key` belongs to the store's data namespace.
pub fn validate_data_key(key: &[u8]) -> (r: bool)
    ensures
        r == is_data_key(key@),
{
    key.len() >= 1 && key[0] == DATA_PREFIX
}

/// Prefixes a key into the data namespace.
pub fn data_key(key: &[u8]) -> (r: Vec<u8>)
    ensures
        r@ == seq![DATA_PREFIX] + key@,
{
    let mut v: Vec<u8> = Vec::new();
    v.push(DATA_PREFIX);
    let n = key.len();
    let mut i: usize = 0;
    while i < n
        invariant
            n == key@.len(),
            0 <= i <= n,
            v@ == seq![DATA_PREFIX] + key@.take(i as int),
        decreases n - i,
    {
        v.push(key[i]);
        proof {
            assert(v@ =~= seq![DATA_PREFIX] + key@.take(i + 1));
        }
        i = i + 1;
    }
    proof {
        assert(key@.take(n as int) =~= key@);
    }
    v
}

} // verus!
