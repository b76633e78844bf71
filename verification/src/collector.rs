//! Per-file multi-version statistics collector: a single-use accumulator fed
//! every entry of one file build in key order, finalized into a property map.

use vstd::prelude::*;

use crate::keys;
use crate::properties::{UserProperties, PropertyMap, empty_user_properties, spec_encode};
use crate::types;

verus! {

/// The kind tag on a stored entry.
#[derive(Clone, Copy, Debug, PartialEq, Eq, Structural)]
pub enum DBEntryType {
    Put,
    Delete,
    Merge,
    Other,
}

/// The abstract state of a collector: its accumulated statistics and the last
/// logical key it has seen.
pub struct CollectorState {
    pub props: UserProperties,
    pub last_key: Seq<u8>,
}

/// A fresh collector: empty statistics, no key seen yet.
pub open spec fn initial_collector_state() -> CollectorState {
    CollectorState { props: empty_user_properties(), last_key: Seq::empty() }
}

/// True when one more entry cannot overflow any counter.
pub open spec fn can_observe(s: CollectorState) -> bool {
    &&& s.props.num_keys < u64::MAX
    &&& s.props.num_puts < u64::MAX
    &&& s.props.num_deletes < u64::MAX
    &&& s.props.num_corrupts < u64::MAX
}

/// How one observed entry advances the collector: entries outside the data
/// namespace are ignored; a key that does not split marks one corrupt entry
/// and nothing else; otherwise the timestamp range widens, a new logical key
/// bumps the distinct-key count, and the entry kind picks a version counter.
pub open spec fn collector_step(s: CollectorState, key: Seq<u8>, kind: DBEntryType) -> CollectorState {
    if !keys::is_data_key(key) {
        s
    } else {
        match types::spec_split_ts(key) {
            Option::None => CollectorState {
                props: UserProperties {
                    num_corrupts: (s.props.num_corrupts + 1) as u64,
                    ..s.props
                },
                last_key: s.last_key,
            },
            Option::Some((k, ts)) => {
                let before = s.props;
                let updated = UserProperties {
                    min_ts: if ts < before.min_ts {
                        ts
                    } else {
                        before.min_ts
                    },
                    max_ts: if ts > before.max_ts {
                        ts
                    } else {
                        before.max_ts
                    },
                    num_keys: if k != s.last_key {
                        (before.num_keys + 1) as u64
                    } else {
                        before.num_keys
                    },
                    num_puts: if kind is Put {
                        (before.num_puts + 1) as u64
                    } else {
                        before.num_puts
                    },
                    num_deletes: if kind is Delete {
                        (before.num_deletes + 1) as u64
                    } else {
                        before.num_deletes
                    },
                    num_corrupts: before.num_corrupts,
                };
                CollectorState {
                    props: updated,
                    last_key: if k != s.last_key {
                        k
                    } else {
                        s.last_key
                    },
                }
            },
        }
    }
}

/// A malformed data key marks exactly one corrupt entry: every other counter,
/// the timestamp range and the remembered key stay as they were.
pub proof fn lemma_corrupt_entry_counts_once(s: CollectorState, key: Seq<u8>, kind: DBEntryType)
    requires
        keys::is_data_key(key),
        types::spec_split_ts(key) is None,
        s.props.num_corrupts < u64::MAX,
    ensures
        collector_step(s, key, kind).props.num_corrupts == s.props.num_corrupts + 1,
        collector_step(s, key, kind).props == (UserProperties {
            num_corrupts: collector_step(s, key, kind).props.num_corrupts,
            ..s.props
        }),
        collector_step(s, key, kind).last_key == s.last_key,
{
}

/// Stateful accumulator bound to one file-build job: fed every entry in key
/// order, then finalized once into a property map.
pub struct UserPropertiesCollector {
    props: UserProperties,
    last_key: Vec<u8>,
}

impl View for UserPropertiesCollector {
    type V = CollectorState;

    closed spec fn view(&self) -> CollectorState {
        CollectorState { props: self.props, last_key: self.last_key@ }
    }
}

impl UserPropertiesCollector {
    /// A fresh collector for one new file.
    pub fn new() -> (r: UserPropertiesCollector)
        ensures
            r@ == initial_collector_state(),
    {
        UserPropertiesCollector { props: UserProperties::new(), last_key: Vec::new() }
    }

    /// The name this collector is registered under.
    pub fn name(&self) -> (r: &'static str)
        ensures
            r@ == "tikv.user-properties-collector"@,
    {
        "tikv.user-properties-collector"
    }

    /// Observes one entry of the file being built. Only `key` and
    /// `entry_type` matter to the statistics; the value, sequence number and
    /// file number are part of the engine's callback shape.
    pub fn add(&mut self, key: &[u8], _value: &[u8], entry_type: DBEntryType, _seq: u64, _file_num: u64)
        requires
            can_observe(old(self)@),
        ensures
            final(self)@ == collector_step(old(self)@, key@, entry_type),
    {
        if !keys::validate_data_key(key) {
            return ;
        }
        let (k, ts) = match types::split_encoded_key_on_ts(key) {
            Ok(p) => p,
            Err(_) => {
                self.props.num_corrupts = self.props.num_corrupts + 1;
                return ;
            },
        };
        if ts < self.props.min_ts {
            self.props.min_ts = ts;
        }
        if ts > self.props.max_ts {
            self.props.max_ts = ts;
        }
        if !crate::codec::bytes_eq(k, self.last_key.as_slice()) {
            self.props.num_keys = self.props.num_keys + 1;
            self.last_key = vstd::slice::slice_to_vec(k);
        }
        match entry_type {
            DBEntryType::Put => {
                self.props.num_puts = self.props.num_puts + 1;
            },
            DBEntryType::Delete => {
                self.props.num_deletes = self.props.num_deletes + 1;
            },
            _ => {},
        }
    }

    /// Serializes the accumulated statistics; the collector is then discarded.
    pub fn finish(&mut self) -> (r: PropertyMap)
        ensures
            r@ == spec_encode(old(self)@.props),
            final(self)@ == old(self)@,
    {
        self.props.encode()
    }
}

/// Stateless instantiator registered once with the engine; hands out one
/// fresh collector per file-build job.
pub struct UserPropertiesCollectorFactory {}

impl UserPropertiesCollectorFactory {
    pub fn new() -> (r: UserPropertiesCollectorFactory)
        ensures
            r == (UserPropertiesCollectorFactory {  }),
    {
        UserPropertiesCollectorFactory {  }
    }

    /// The name this factory is registered under.
    pub fn name(&self) -> (r: &'static str)
        ensures
            r@ == "tikv.user-properties-collector-factory"@,
    {
        "tikv.user-properties-collector-factory"
    }

    /// A fresh collector for one new file-build context.
    pub fn create_table_properties_collector(&mut self, _cf_id: u32) -> (r: UserPropertiesCollector)
        ensures
            r@ == initial_collector_state(),
    {
        UserPropertiesCollector::new()
    }
}

impl Default for UserPropertiesCollectorFactory {
    fn default() -> (r: UserPropertiesCollectorFactory)
        ensures
            r == (UserPropertiesCollectorFactory {  }),
    {
        UserPropertiesCollectorFactory {  }
    }
}

} // verus!
