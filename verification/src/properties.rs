//! Aggregate multi-version statistics (`UserProperties`), the byte-keyed
//! property map they are persisted in, and the encode/decode protocol between
//! the two.

use vstd::prelude::*;

use crate::codec;
use crate::codec::{Error, u64_to_be_bytes, u64_from_be_bytes};

verus! {

/// The bytes of an ASCII string, one byte per character.
pub open spec fn ascii_view(s: Seq<char>) -> Seq<u8> {
    Seq::new(s.len(), |i| s[i] as u8)
}

/// The six property keys under the store's namespace prefix.
pub open spec fn key_min_ts() -> Seq<u8> {
    ascii_view("tikv.min_ts"@)
}

pub open spec fn key_max_ts() -> Seq<u8> {
    ascii_view("tikv.max_ts"@)
}

pub open spec fn key_num_keys() -> Seq<u8> {
    ascii_view("tikv.num_keys"@)
}

pub open spec fn key_num_puts() -> Seq<u8> {
    ascii_view("tikv.num_puts"@)
}

pub open spec fn key_num_deletes() -> Seq<u8> {
    ascii_view("tikv.num_deletes"@)
}

pub open spec fn key_num_corrupts() -> Seq<u8> {
    ascii_view("tikv.num_corrupts"@)
}

/// No two of the six property keys are the same byte string.
pub proof fn lemma_prop_keys_distinct()
    ensures
        key_min_ts() != key_max_ts(),
        key_min_ts() != key_num_keys(),
        key_min_ts() != key_num_puts(),
        key_min_ts() != key_num_deletes(),
        key_min_ts() != key_num_corrupts(),
        key_max_ts() != key_num_keys(),
        key_max_ts() != key_num_puts(),
        key_max_ts() != key_num_deletes(),
        key_max_ts() != key_num_corrupts(),
        key_num_keys() != key_num_puts(),
        key_num_keys() != key_num_deletes(),
        key_num_keys() != key_num_corrupts(),
        key_num_puts() != key_num_deletes(),
        key_num_puts() != key_num_corrupts(),
        key_num_deletes() != key_num_corrupts(),
{
    reveal_strlit("tikv.min_ts");
    reveal_strlit("tikv.max_ts");
    reveal_strlit("tikv.num_keys");
    reveal_strlit("tikv.num_puts");
    reveal_strlit("tikv.num_deletes");
    reveal_strlit("tikv.num_corrupts");
    // Equal-length pairs are told apart by one byte; the rest by length.
    assert(key_min_ts().len() == 11);
    assert(key_max_ts().len() == 11);
    assert(key_num_keys().len() == 13);
    assert(key_num_puts().len() == 13);
    assert(key_num_deletes().len() == 16);
    assert(key_num_corrupts().len() == 17);
    assert(key_min_ts()[6] != key_max_ts()[6]);
    assert(key_num_keys()[9] != key_num_puts()[9]);
}

/// True when no key occurs twice in the entry list.
spec fn keys_unique(s: Seq<(Vec<u8>, Vec<u8>)>) -> bool {
    forall|i: int, j: int| 0 <= i < j < s.len() ==> s[i].0@ != s[j].0@
}

/// The mapping that an entry list denotes; later entries would shadow earlier
/// ones, but a well-formed map never holds a key twice.
spec fn entries_map(s: Seq<(Vec<u8>, Vec<u8>)>) -> Map<Seq<u8>, Seq<u8>>
    decreases s.len(),
{
    if s.len() == 0 {
        Map::empty()
    } else {
        entries_map(s.drop_last()).insert(s.last().0@, s.last().1@)
    }
}

proof fn lemma_entries_map_contains(s: Seq<(Vec<u8>, Vec<u8>)>, k: Seq<u8>)
    ensures
        entries_map(s).contains_key(k) <==> exists|i: int| 0 <= i < s.len() && s[i].0@ == k,
    decreases s.len(),
{
    if s.len() > 0 {
        lemma_entries_map_contains(s.drop_last(), k);
        if k == s.last().0@ {
            assert(s[s.len() - 1].0@ == k);
        } else {
            if entries_map(s).contains_key(k) {
                let i = choose|i: int| 0 <= i < s.drop_last().len() && s.drop_last()[i].0@ == k;
                assert(s[i].0@ == k);
            }
            if exists|i: int| 0 <= i < s.len() && s[i].0@ == k {
                let i = choose|i: int| 0 <= i < s.len() && s[i].0@ == k;
                assert(i < s.len() - 1);
                assert(s.drop_last()[i].0@ == k);
            }
        }
    }
}

proof fn lemma_entries_map_index(s: Seq<(Vec<u8>, Vec<u8>)>, i: int)
    requires
        keys_unique(s),
        0 <= i < s.len(),
    ensures
        entries_map(s).contains_key(s[i].0@),
        entries_map(s)[s[i].0@] == s[i].1@,
    decreases s.len(),
{
    if i == s.len() - 1 {
    } else {
        lemma_entries_map_index(s.drop_last(), i);
        assert(s.drop_last()[i] == s[i]);
    }
}

/// A mapping from byte-string keys to byte-string values: the persisted form
/// of per-file statistics and the general carrier of table-level metadata.
/// Keys are unique; insertion order carries no meaning.
pub struct PropertyMap {
    entries: Vec<(Vec<u8>, Vec<u8>)>,
}

impl View for PropertyMap {
    type V = Map<Seq<u8>, Seq<u8>>;

    closed spec fn view(&self) -> Map<Seq<u8>, Seq<u8>> {
        entries_map(self.entries@)
    }
}

impl PropertyMap {
    #[verifier::type_invariant]
    closed spec fn wf(self) -> bool {
        keys_unique(self.entries@)
    }

    /// An empty property map.
    pub fn new() -> (r: Self)
        ensures
            r@ == Map::<Seq<u8>, Seq<u8>>::empty(),
    {
        PropertyMap { entries: Vec::new() }
    }

    /// Adds a binding for a key not yet present.
    pub fn insert(self, k: Vec<u8>, v: Vec<u8>) -> (r: Self)
        requires
            !self@.contains_key(k@),
        ensures
            r@ == self@.insert(k@, v@),
    {
        proof {
            use_type_invariant(&self);
            lemma_entries_map_contains(self.entries@, k@);
        }
        let ghost s0 = self.entries@;
        let PropertyMap { mut entries } = self;
        entries.push((k, v));
        proof {
            assert(entries@.drop_last() =~= s0);
        }
        PropertyMap { entries }
    }

    /// The value bound to `k`, if any.
    pub fn get(&self, k: &[u8]) -> (r: Option<&Vec<u8>>)
        ensures
            match r {
                Some(v) => self@.contains_key(k@) && v@ == self@[k@],
                None => !self@.contains_key(k@),
            },
    {
        proof {
            use_type_invariant(self);
        }
        let n = self.entries.len();
        let mut i: usize = 0;
        while i < n
            invariant
                n == self.entries@.len(),
                0 <= i <= n,
                forall|j: int| 0 <= j < i ==> self.entries@[j].0@ != k@,
            decreases n - i,
        {
            if codec::bytes_eq(self.entries[i].0.as_slice(), k) {
                proof {
                    use_type_invariant(self);
                    lemma_entries_map_index(self.entries@, i as int);
                }
                return Some(&self.entries[i].1);
            }
            i = i + 1;
        }
        proof {
            lemma_entries_map_contains(self.entries@, k@);
        }
        None
    }
}

/// What looking a key up in a property map and parsing the value yields:
/// absent key, malformed value, or the decoded integer.
pub open spec fn spec_lookup_u64(m: Map<Seq<u8>, Seq<u8>>, k: Seq<u8>) -> Result<u64, Error> {
    if !m.contains_key(k) {
        Result::Err(Error::KeyNotFound)
    } else {
        codec::spec_decode_u64(m[k])
    }
}

/// The minimal lookup capability `UserProperties::decode` is defined over:
/// any byte-keyed map shape that can resolve a known ASCII key to an integer.
pub trait DecodeU64 {
    /// The mapping this source denotes.
    spec fn prop_map(&self) -> Map<Seq<u8>, Seq<u8>>;

    /// Looks `k` up and parses the value as a fixed-width integer.
    fn decode_u64(&self, k: &[u8]) -> (r: Result<u64, Error>)
        ensures
            r == spec_lookup_u64(self.prop_map(), k@),
    ;
}

impl DecodeU64 for PropertyMap {
    open spec fn prop_map(&self) -> Map<Seq<u8>, Seq<u8>> {
        self@
    }

    fn decode_u64(&self, k: &[u8]) -> (r: Result<u64, Error>)
        ensures
            r == spec_lookup_u64(self.prop_map(), k@),
    {
        match self.get(k) {
            None => Err(Error::KeyNotFound),
            Some(v) => codec::decode_u64(v.as_slice()),
        }
    }
}

/// Per-file multi-version statistics: the timestamp range, the number of
/// distinct logical keys, and counters of puts, deletes and corrupt entries.
/// While no valid entry has been observed, `min_ts` and `max_ts` hold the
/// extreme representable values as sentinels.
#[derive(Clone, Copy, Debug, PartialEq, Eq, Structural)]
pub struct UserProperties {
    pub min_ts: u64,
    pub max_ts: u64,
    pub num_keys: u64,
    pub num_puts: u64,
    pub num_deletes: u64,
    pub num_corrupts: u64,
}

/// The empty accumulator: sentinel timestamps, all counters zero.
pub open spec fn empty_user_properties() -> UserProperties {
    UserProperties {
        min_ts: u64::MAX,
        max_ts: 0,
        num_keys: 0,
        num_puts: 0,
        num_deletes: 0,
        num_corrupts: 0,
    }
}

/// The pairwise merge of two statistics records: least minimum, greatest
/// maximum, counters summed.
pub open spec fn spec_merge(a: UserProperties, b: UserProperties) -> UserProperties {
    UserProperties {
        min_ts: if a.min_ts <= b.min_ts {
            a.min_ts
        } else {
            b.min_ts
        },
        max_ts: if a.max_ts >= b.max_ts {
            a.max_ts
        } else {
            b.max_ts
        },
        num_keys: (a.num_keys + b.num_keys) as u64,
        num_puts: (a.num_puts + b.num_puts) as u64,
        num_deletes: (a.num_deletes + b.num_deletes) as u64,
        num_corrupts: (a.num_corrupts + b.num_corrupts) as u64,
    }
}

/// True when merging `a` and `b` overflows no counter.
pub open spec fn merge_fits(a: UserProperties, b: UserProperties) -> bool {
    &&& a.num_keys + b.num_keys <= u64::MAX
    &&& a.num_puts + b.num_puts <= u64::MAX
    &&& a.num_deletes + b.num_deletes <= u64::MAX
    &&& a.num_corrupts + b.num_corrupts <= u64::MAX
}

/// Merging is commutative.
pub proof fn lemma_merge_commutative(a: UserProperties, b: UserProperties)
    ensures
        spec_merge(a, b) == spec_merge(b, a),
{
}

/// Merging is associative.
pub proof fn lemma_merge_associative(a: UserProperties, b: UserProperties, c: UserProperties)
    requires
        a.num_keys + b.num_keys + c.num_keys <= u64::MAX,
        a.num_puts + b.num_puts + c.num_puts <= u64::MAX,
        a.num_deletes + b.num_deletes + c.num_deletes <= u64::MAX,
        a.num_corrupts + b.num_corrupts + c.num_corrupts <= u64::MAX,
    ensures
        spec_merge(spec_merge(a, b), c) == spec_merge(a, spec_merge(b, c)),
{
}

/// The empty accumulator is the identity of merging.
pub proof fn lemma_merge_empty_identity(p: UserProperties)
    ensures
        spec_merge(empty_user_properties(), p) == p,
        spec_merge(p, empty_user_properties()) == p,
{
}

/// The persisted form of a statistics record: each field encoded fixed-width
/// under its own key.
pub open spec fn spec_encode(p: UserProperties) -> Map<Seq<u8>, Seq<u8>> {
    Map::<Seq<u8>, Seq<u8>>::empty().insert(key_min_ts(), u64_to_be_bytes(p.min_ts)).insert(
        key_max_ts(),
        u64_to_be_bytes(p.max_ts),
    ).insert(key_num_keys(), u64_to_be_bytes(p.num_keys)).insert(
        key_num_puts(),
        u64_to_be_bytes(p.num_puts),
    ).insert(key_num_deletes(), u64_to_be_bytes(p.num_deletes)).insert(
        key_num_corrupts(),
        u64_to_be_bytes(p.num_corrupts),
    )
}

/// What decoding a property map yields: the record spelled by the six keys,
/// or the first failure in key order.
pub open spec fn spec_decode(m: Map<Seq<u8>, Seq<u8>>) -> Result<UserProperties, Error> {
    match spec_lookup_u64(m, key_min_ts()) {
        Result::Err(e) => Result::Err(e),
        Result::Ok(min_ts) => match spec_lookup_u64(m, key_max_ts()) {
            Result::Err(e) => Result::Err(e),
            Result::Ok(max_ts) => match spec_lookup_u64(m, key_num_keys()) {
                Result::Err(e) => Result::Err(e),
                Result::Ok(num_keys) => match spec_lookup_u64(m, key_num_puts()) {
                    Result::Err(e) => Result::Err(e),
                    Result::Ok(num_puts) => match spec_lookup_u64(m, key_num_deletes()) {
                        Result::Err(e) => Result::Err(e),
                        Result::Ok(num_deletes) => match spec_lookup_u64(m, key_num_corrupts()) {
                            Result::Err(e) => Result::Err(e),
                            Result::Ok(num_corrupts) => Result::Ok(
                                UserProperties {
                                    min_ts,
                                    max_ts,
                                    num_keys,
                                    num_puts,
                                    num_deletes,
                                    num_corrupts,
                                },
                            ),
                        },
                    },
                },
            },
        },
    }
}

/// Decoding inverts encoding: every statistics record survives the round trip
/// through its persisted form.
pub proof fn lemma_encode_decode_roundtrip(p: UserProperties)
    ensures
        spec_decode(spec_encode(p)) == Result::<UserProperties, Error>::Ok(p),
{
    lemma_prop_keys_distinct();
    codec::lemma_u64_be_bytes_roundtrip(p.min_ts);
    codec::lemma_u64_be_bytes_roundtrip(p.max_ts);
    codec::lemma_u64_be_bytes_roundtrip(p.num_keys);
    codec::lemma_u64_be_bytes_roundtrip(p.num_puts);
    codec::lemma_u64_be_bytes_roundtrip(p.num_deletes);
    codec::lemma_u64_be_bytes_roundtrip(p.num_corrupts);
}

/// Builds the byte form of an ASCII key.
fn ascii_key_bytes(k: &str) -> (r: Vec<u8>)
    requires
        vstd::string::is_ascii(k),
    ensures
        r@ == ascii_view(k@),
{
    proof {
        vstd::string::is_ascii_spec_bytes(k);
    }
    vstd::slice::slice_to_vec(k.as_bytes())
}

impl UserProperties {
    /// A fresh, empty accumulator.
    pub fn new() -> (r: UserProperties)
        ensures
            r == empty_user_properties(),
    {
        UserProperties {
            min_ts: u64::MAX,
            max_ts: 0,
            num_keys: 0,
            num_puts: 0,
            num_deletes: 0,
            num_corrupts: 0,
        }
    }

    /// How many versions the file holds: its puts and its deletes together.
    pub fn num_versions(&self) -> (r: u64)
        requires
            self.num_puts + self.num_deletes <= u64::MAX,
        ensures
            r == self.num_puts + self.num_deletes,
    {
        self.num_puts + self.num_deletes
    }

    /// Folds another record into this one; the argument is left untouched.
    pub fn add(&mut self, other: &UserProperties)
        requires
            merge_fits(*old(self), *other),
        ensures
            *final(self) == spec_merge(*old(self), *other),
    {
        if other.min_ts < self.min_ts {
            self.min_ts = other.min_ts;
        }
        if other.max_ts > self.max_ts {
            self.max_ts = other.max_ts;
        }
        self.num_keys = self.num_keys + other.num_keys;
        self.num_puts = self.num_puts + other.num_puts;
        self.num_deletes = self.num_deletes + other.num_deletes;
        self.num_corrupts = self.num_corrupts + other.num_corrupts;
    }

    /// Serializes the record into a property map under the six fixed keys.
    pub fn encode(&self) -> (r: PropertyMap)
        ensures
            r@ == spec_encode(*self),
    {
        proof {
            lemma_prop_keys_distinct();
            reveal_strlit("tikv.min_ts");
            reveal_strlit("tikv.max_ts");
            reveal_strlit("tikv.num_keys");
            reveal_strlit("tikv.num_puts");
            reveal_strlit("tikv.num_deletes");
            reveal_strlit("tikv.num_corrupts");
        }
        let mut m = PropertyMap::new();
        let mut buf: Vec<u8> = Vec::new();
        codec::encode_u64(&mut buf, self.min_ts);
        m = m.insert(ascii_key_bytes("tikv.min_ts"), buf);
        let mut buf: Vec<u8> = Vec::new();
        codec::encode_u64(&mut buf, self.max_ts);
        m = m.insert(ascii_key_bytes("tikv.max_ts"), buf);
        let mut buf: Vec<u8> = Vec::new();
        codec::encode_u64(&mut buf, self.num_keys);
        m = m.insert(ascii_key_bytes("tikv.num_keys"), buf);
        let mut buf: Vec<u8> = Vec::new();
        codec::encode_u64(&mut buf, self.num_puts);
        m = m.insert(ascii_key_bytes("tikv.num_puts"), buf);
        let mut buf: Vec<u8> = Vec::new();
        codec::encode_u64(&mut buf, self.num_deletes);
        m = m.insert(ascii_key_bytes("tikv.num_deletes"), buf);
        let mut buf: Vec<u8> = Vec::new();
        codec::encode_u64(&mut buf, self.num_corrupts);
        m = m.insert(ascii_key_bytes("tikv.num_corrupts"), buf);
        m
    }

    /// Reads a record back from any lookup-capable source, failing on the
    /// first absent or malformed key.
    pub fn decode<T: DecodeU64>(props: &T) -> (r: Result<UserProperties, Error>)
        ensures
            r == spec_decode(props.prop_map()),
    {
        proof {
            reveal_strlit("tikv.min_ts");
            reveal_strlit("tikv.max_ts");
            reveal_strlit("tikv.num_keys");
            reveal_strlit("tikv.num_puts");
            reveal_strlit("tikv.num_deletes");
            reveal_strlit("tikv.num_corrupts");
        }
        let mut res = UserProperties::new();
        res.min_ts = match props.decode_u64(ascii_key_bytes("tikv.min_ts").as_slice()) {
            Ok(v) => v,
            Err(e) => {
                return Err(e);
            },
        };
        res.max_ts = match props.decode_u64(ascii_key_bytes("tikv.max_ts").as_slice()) {
            Ok(v) => v,
            Err(e) => {
                return Err(e);
            },
        };
        res.num_keys = match props.decode_u64(ascii_key_bytes("tikv.num_keys").as_slice()) {
            Ok(v) => v,
            Err(e) => {
                return Err(e);
            },
        };
        res.num_puts = match props.decode_u64(ascii_key_bytes("tikv.num_puts").as_slice()) {
            Ok(v) => v,
            Err(e) => {
                return Err(e);
            },
        };
        res.num_deletes = match props.decode_u64(ascii_key_bytes("tikv.num_deletes").as_slice()) {
            Ok(v) => v,
            Err(e) => {
                return Err(e);
            },
        };
        res.num_corrupts = match props.decode_u64(ascii_key_bytes("tikv.num_corrupts").as_slice()) {
            Ok(v) => v,
            Err(e) => {
                return Err(e);
            },
        };
        Ok(res)
    }
}

impl Default for UserProperties {
    /// The all-zero record, as a plain starting point for merges.
    fn default() -> (r: UserProperties)
        ensures
            r == (UserProperties {
                min_ts: 0,
                max_ts: 0,
                num_keys: 0,
                num_puts: 0,
                num_deletes: 0,
                num_corrupts: 0,
            }),
    {
        UserProperties { min_ts: 0, max_ts: 0, num_keys: 0, num_puts: 0, num_deletes: 0, num_corrupts: 0 }
    }
}

} // verus!
