//! Key domain transforms: interchangeable key-prefix functions the engine's
//! indexing layer holds as its active strategy. Callers must only transform
//! keys that passed `in_domain`; `in_range` is deliberately always true.

use vstd::prelude::*;

verus! {

/// Maps a key to its first `prefix_len` bytes.
pub struct FixedPrefixSliceTransform {
    pub prefix_len: usize,
}

impl FixedPrefixSliceTransform {
    pub fn new(prefix_len: usize) -> (r: FixedPrefixSliceTransform)
        ensures
            r.prefix_len == prefix_len,
    {
        FixedPrefixSliceTransform { prefix_len }
    }

    /// The first `prefix_len` bytes of the key.
    pub fn transform<'a>(&self, key: &'a [u8]) -> (r: &'a [u8])
        requires
            key@.len() >= self.prefix_len,
        ensures
            r@ == key@.take(self.prefix_len as int),
    {
        vstd::slice::slice_subrange(key, 0, self.prefix_len)
    }

    /// True exactly on keys long enough to carry the prefix.
    pub fn in_domain(&self, key: &[u8]) -> (r: bool)
        ensures
            r == (key@.len() >= self.prefix_len),
    {
        key.len() >= self.prefix_len
    }

    pub fn in_range(&self, _key: &[u8]) -> (r: bool)
        ensures
            r,
    {
        true
    }
}

/// Maps a key to everything except its trailing `suffix_len` bytes, so that
/// all versions of one logical key share a transform output.
pub struct FixedSuffixSliceTransform {
    pub suffix_len: usize,
}

impl FixedSuffixSliceTransform {
    pub fn new(suffix_len: usize) -> (r: FixedSuffixSliceTransform)
        ensures
            r.suffix_len == suffix_len,
    {
        FixedSuffixSliceTransform { suffix_len }
    }

    /// The leading `key.len() - suffix_len` bytes of the key.
    pub fn transform<'a>(&self, key: &'a [u8]) -> (r: &'a [u8])
        requires
            key@.len() >= self.suffix_len,
        ensures
            r@ == key@.take(key@.len() - self.suffix_len),
            r@.len() == key@.len() - self.suffix_len,
    {
        let mid = key.len() - self.suffix_len;
        vstd::slice::slice_subrange(key, 0, mid)
    }

    /// True exactly on keys long enough to carry the suffix.
    pub fn in_domain(&self, key: &[u8]) -> (r: bool)
        ensures
            r == (key@.len() >= self.suffix_len),
    {
        key.len() >= self.suffix_len
    }

    pub fn in_range(&self, _key: &[u8]) -> (r: bool)
        ensures
            r,
    {
        true
    }
}

/// The identity transform: every key is its own domain image.
pub struct NoopSliceTransform;

impl NoopSliceTransform {
    pub fn transform<'a>(&self, key: &'a [u8]) -> (r: &'a [u8])
        ensures
            r@ == key@,
    {
        key
    }

    pub fn in_domain(&self, _key: &[u8]) -> (r: bool)
        ensures
            r,
    {
        true
    }

    pub fn in_range(&self, _key: &[u8]) -> (r: bool)
        ensures
            r,
    {
        true
    }
}

} // verus!
