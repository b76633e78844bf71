use engine_util::transform::{
    FixedPrefixSliceTransform, FixedSuffixSliceTransform, NoopSliceTransform,
};

#[test]
fn test_fixed_prefix_transform() {
    let t = FixedPrefixSliceTransform::new(3);
    // Too short for the prefix: out of domain, so a correct caller never
    // invokes transform on it.
    assert!(!t.in_domain("ab".as_bytes()));
    assert!(t.in_domain("abc".as_bytes()));
    assert!(t.in_domain("abcdef".as_bytes()));
    // Length at least the prefix: exactly the first bytes come back.
    assert_eq!(t.transform("abcdef".as_bytes()), "abc".as_bytes());
    assert_eq!(t.transform("abc".as_bytes()), "abc".as_bytes());
    assert!(t.in_range("anything".as_bytes()));
    assert!(t.in_range("".as_bytes()));
}

#[test]
fn test_fixed_suffix_transform() {
    let t = FixedSuffixSliceTransform::new(2);
    assert!(!t.in_domain("a".as_bytes()));
    assert!(t.in_domain("ab".as_bytes()));
    // Exactly the leading len - n bytes come back.
    let out = t.transform("abcdef".as_bytes());
    assert_eq!(out, "abcd".as_bytes());
    assert_eq!(out.len(), "abcdef".len() - 2);
    assert_eq!(t.transform("ab".as_bytes()), "".as_bytes());
    assert!(t.in_range("anything".as_bytes()));
}

#[test]
fn test_noop_transform() {
    let t = NoopSliceTransform;
    assert!(t.in_domain("".as_bytes()));
    assert!(t.in_domain("abc".as_bytes()));
    assert!(t.in_range("abc".as_bytes()));
    assert_eq!(t.transform("abc".as_bytes()), "abc".as_bytes());
    assert_eq!(t.transform("".as_bytes()), "".as_bytes());
}
