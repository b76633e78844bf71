use engine_util::codec::{self, Error};
use engine_util::collector::{DBEntryType, UserPropertiesCollector, UserPropertiesCollectorFactory};
use engine_util::keys::data_key;
use engine_util::properties::{DecodeU64, PropertyMap, UserProperties};
use engine_util::types::append_ts;

fn encoded_entry_key(raw: &str, ts: u64) -> Vec<u8> {
    let mut k = data_key(raw.as_bytes());
    append_ts(&mut k, ts);
    k
}

#[test]
fn test_user_properties() {
    let cases = [
        ("ab", 2, DBEntryType::Put),
        ("ab", 0, DBEntryType::Delete),
        ("cd", 4, DBEntryType::Delete),
        ("cd", 3, DBEntryType::Put),
        ("ef", 6, DBEntryType::Put),
        ("gh", 7, DBEntryType::Delete),
    ];
    let mut collector = UserPropertiesCollector::new();
    for &(key, ts, entry_type) in &cases {
        let data_key = encoded_entry_key(key, ts);
        collector.add(&data_key, &[0], entry_type, 0, 0);
    }
    let props = UserProperties::decode(&collector.finish()).unwrap();
    assert_eq!(props.min_ts, 0);
    assert_eq!(props.max_ts, 7);
    assert_eq!(props.num_keys, 4);
    assert_eq!(props.num_puts, 3);
    assert_eq!(props.num_deletes, 3);
}

#[test]
fn test_collector_ignores_entries_outside_data_namespace() {
    let mut collector = UserPropertiesCollector::new();
    // A key without the data-namespace prefix changes nothing at all.
    collector.add("not-a-data-key".as_bytes(), &[0], DBEntryType::Put, 0, 0);
    let props = UserProperties::decode(&collector.finish()).unwrap();
    assert_eq!(props, UserProperties::new());
}

#[test]
fn test_collector_corrupt_key_counts_once() {
    let mut collector = UserPropertiesCollector::new();
    // In the data namespace but too short to carry a timestamp.
    collector.add("zab".as_bytes(), &[0], DBEntryType::Put, 0, 0);
    let props = UserProperties::decode(&collector.finish()).unwrap();
    assert_eq!(props.num_corrupts, 1);
    // No other counter moved: the record equals a fresh one plus the corrupt mark.
    let mut expected = UserProperties::new();
    expected.num_corrupts = 1;
    assert_eq!(props, expected);
}

#[test]
fn test_collector_counts_versions_of_one_key_once() {
    let mut collector = UserPropertiesCollector::new();
    for &ts in &[9u64, 5, 1] {
        let k = encoded_entry_key("same", ts);
        collector.add(&k, &[0], DBEntryType::Put, 0, 0);
    }
    let props = UserProperties::decode(&collector.finish()).unwrap();
    assert_eq!(props.num_keys, 1);
    assert_eq!(props.num_puts, 3);
    assert_eq!(props.min_ts, 1);
    assert_eq!(props.max_ts, 9);
}

#[test]
fn test_collector_merge_operand_counts_no_version() {
    let mut collector = UserPropertiesCollector::new();
    let k = encoded_entry_key("ab", 3);
    collector.add(&k, &[0], DBEntryType::Merge, 0, 0);
    let props = UserProperties::decode(&collector.finish()).unwrap();
    assert_eq!(props.num_keys, 1);
    assert_eq!(props.num_puts, 0);
    assert_eq!(props.num_deletes, 0);
    assert_eq!(props.min_ts, 3);
    assert_eq!(props.max_ts, 3);
}

#[test]
fn test_encode_decode_roundtrip() {
    let samples = [
        UserProperties::new(),
        UserProperties {
            min_ts: 3,
            max_ts: 17,
            num_keys: 4,
            num_puts: 2,
            num_deletes: 5,
            num_corrupts: 1,
        },
        UserProperties {
            min_ts: 0,
            max_ts: u64::MAX,
            num_keys: u64::MAX,
            num_puts: 0,
            num_deletes: u64::MAX,
            num_corrupts: 7,
        },
    ];
    for p in samples {
        let decoded = UserProperties::decode(&p.encode()).unwrap();
        assert_eq!(decoded, p);
    }
}

#[test]
fn test_decode_missing_key() {
    let empty = PropertyMap::new();
    assert_eq!(UserProperties::decode(&empty), Err(Error::KeyNotFound));
}

#[test]
fn test_decode_malformed_value() {
    // Start from a fully valid map, then shorten one value.
    let mut m = PropertyMap::new();
    for key in [
        "tikv.min_ts",
        "tikv.max_ts",
        "tikv.num_keys",
        "tikv.num_puts",
        "tikv.num_deletes",
    ] {
        let mut buf = Vec::new();
        codec::encode_u64(&mut buf, 0);
        m = m.insert(key.as_bytes().to_vec(), buf);
    }
    m = m.insert("tikv.num_corrupts".as_bytes().to_vec(), vec![1, 2, 3]);
    assert_eq!(UserProperties::decode(&m), Err(Error::Malformed));
}

#[test]
fn test_decode_u64_trait_lookup() {
    let mut m = PropertyMap::new();
    let mut buf = Vec::new();
    codec::encode_u64(&mut buf, 513);
    m = m.insert("tikv.num_keys".as_bytes().to_vec(), buf);
    assert_eq!(m.decode_u64("tikv.num_keys".as_bytes()), Ok(513));
    assert_eq!(m.decode_u64("tikv.num_puts".as_bytes()), Err(Error::KeyNotFound));
}

#[test]
fn test_codec_exact_bytes() {
    let mut buf = Vec::new();
    codec::encode_u64(&mut buf, 0x0102030405060708);
    assert_eq!(buf, vec![1, 2, 3, 4, 5, 6, 7, 8]);
    assert_eq!(codec::decode_u64(&buf), Ok(0x0102030405060708));
    assert_eq!(codec::decode_u64(&buf[..7]), Err(Error::Malformed));
    let mut big = Vec::new();
    codec::encode_u64(&mut big, u64::MAX);
    assert_eq!(big, vec![255; 8]);
}

#[test]
fn test_add_is_commutative_and_associative() {
    let a = UserProperties {
        min_ts: 5,
        max_ts: 10,
        num_keys: 3,
        num_puts: 2,
        num_deletes: 1,
        num_corrupts: 0,
    };
    let b = UserProperties {
        min_ts: 2,
        max_ts: 7,
        num_keys: 10,
        num_puts: 9,
        num_deletes: 1,
        num_corrupts: 4,
    };
    let c = UserProperties {
        min_ts: 8,
        max_ts: 30,
        num_keys: 1,
        num_puts: 1,
        num_deletes: 0,
        num_corrupts: 0,
    };
    let mut ab = a;
    ab.add(&b);
    let mut ba = b;
    ba.add(&a);
    assert_eq!(ab, ba);
    let mut ab_c = ab;
    ab_c.add(&c);
    let mut bc = b;
    bc.add(&c);
    let mut a_bc = a;
    a_bc.add(&bc);
    assert_eq!(ab_c, a_bc);
    // Merging the empty accumulator with any record yields that record.
    let mut empty_then_a = UserProperties::new();
    empty_then_a.add(&a);
    assert_eq!(empty_then_a, a);
    // The argument is never mutated.
    assert_eq!(b.num_keys, 10);
}

#[test]
fn test_num_versions() {
    let mut p = UserProperties::new();
    p.num_puts = 11;
    p.num_deletes = 31;
    assert_eq!(p.num_versions(), 42);
}

#[test]
fn test_collector_and_factory_names() {
    let c = UserPropertiesCollector::new();
    assert_eq!(c.name(), "tikv.user-properties-collector");
    let mut f = UserPropertiesCollectorFactory::new();
    assert_eq!(f.name(), "tikv.user-properties-collector-factory");
    let mut fresh = f.create_table_properties_collector(0);
    let props = UserProperties::decode(&fresh.finish()).unwrap();
    assert_eq!(props, UserProperties::new());
}
