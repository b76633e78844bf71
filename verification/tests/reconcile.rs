use engine_util::reconcile::{CFOptions, OptionsSource, ReconcilePlan, reconcile_plan};

/// A stand-in options blob; reconciliation treats it as opaque.
#[derive(Clone, Debug, PartialEq, Eq)]
struct Opts(u32);

fn descriptor(names: &[(&str, u32)]) -> Vec<CFOptions<Opts>> {
    names.iter().map(|&(n, o)| CFOptions::new(n, Opts(o))).collect()
}

/// Applies a plan the way the engine would: a fresh engine is born with the
/// default family plus whatever the open call supplies; an existing engine
/// keeps its families across an open; then drops and creates run in order.
fn apply_plan(cfs: &mut Vec<String>, plan: &ReconcilePlan) {
    if plan.create_engine {
        cfs.clear();
        cfs.push("default".to_string());
        for e in &plan.opens {
            if !cfs.contains(&e.name) {
                cfs.push(e.name.clone());
            }
        }
    }
    for d in &plan.drops {
        cfs.retain(|c| c != d);
    }
    for c in &plan.creates {
        cfs.push(c.name.clone());
    }
}

fn reconcile(cfs: &mut Vec<String>, exists: bool, desc: &Vec<CFOptions<Opts>>) {
    let plan = reconcile_plan(exists, cfs, desc);
    apply_plan(cfs, &plan);
}

fn sorted(cfs: &[String]) -> Vec<&str> {
    let mut v: Vec<&str> = cfs.iter().map(|c| c.as_str()).collect();
    v.sort();
    v
}

#[test]
fn test_check_and_open() {
    let mut cfs: Vec<String> = Vec::new();

    // create db when db not exist
    reconcile(&mut cfs, false, &descriptor(&[("default", 0)]));
    assert_eq!(sorted(&cfs), vec!["default"]);

    // add cf1.
    reconcile(&mut cfs, true, &descriptor(&[("default", 0), ("cf1", 1)]));
    assert_eq!(sorted(&cfs), vec!["cf1", "default"]);

    // drop cf1.
    reconcile(&mut cfs, true, &descriptor(&[("default", 0)]));
    assert_eq!(sorted(&cfs), vec!["default"]);

    // never drop default cf
    reconcile(&mut cfs, true, &descriptor(&[]));
    assert_eq!(sorted(&cfs), vec!["default"]);
}

#[test]
fn test_bootstrap_creates_requested_families() {
    // From an empty directory, {default, cf1} yields exactly {default, cf1}.
    let mut cfs: Vec<String> = Vec::new();
    reconcile(&mut cfs, false, &descriptor(&[("default", 0), ("cf1", 1)]));
    assert_eq!(sorted(&cfs), vec!["cf1", "default"]);
}

#[test]
fn test_bootstrap_without_default_entry() {
    // A descriptor without the default family still yields it: the engine is
    // opened with no family supplied and holds its default regardless.
    let mut cfs: Vec<String> = Vec::new();
    let plan = reconcile_plan(false, &cfs, &descriptor(&[("cf1", 1)]));
    assert!(plan.create_engine);
    assert!(plan.opens.is_empty());
    apply_plan(&mut cfs, &plan);
    assert_eq!(sorted(&cfs), vec!["cf1", "default"]);
}

#[test]
fn test_drop_then_default_survives_empty_descriptor() {
    let mut cfs: Vec<String> = vec!["default".to_string(), "cf1".to_string()];
    reconcile(&mut cfs, true, &descriptor(&[("default", 0)]));
    assert_eq!(sorted(&cfs), vec!["default"]);
    reconcile(&mut cfs, true, &descriptor(&[]));
    assert_eq!(sorted(&cfs), vec!["default"]);
}

#[test]
fn test_default_present_after_any_sequence() {
    let mut cfs: Vec<String> = Vec::new();
    let rounds = [
        descriptor(&[("cf1", 1)]),
        descriptor(&[]),
        descriptor(&[("a", 1), ("b", 2), ("c", 3)]),
        descriptor(&[("b", 9)]),
    ];
    reconcile(&mut cfs, false, &rounds[0]);
    for desc in &rounds[1..] {
        reconcile(&mut cfs, true, desc);
        assert!(cfs.iter().any(|c| c == "default"));
    }
    assert_eq!(sorted(&cfs), vec!["b", "default"]);
}

#[test]
fn test_same_set_reordered_takes_fast_path() {
    // An identical set, however ordered, plans no drop and no create.
    let cfs: Vec<String> = vec!["default".to_string(), "cf1".to_string(), "cf2".to_string()];
    let desc = descriptor(&[("cf2", 2), ("default", 0), ("cf1", 1)]);
    let plan = reconcile_plan(true, &cfs, &desc);
    assert!(!plan.create_engine);
    assert!(plan.drops.is_empty());
    assert!(plan.creates.is_empty());
    // Every present family is opened with its own descriptor options.
    for e in &plan.opens {
        match e.source {
            OptionsSource::Descriptor(i) => assert_eq!(&desc[i].cf, &e.name),
            OptionsSource::Fresh => panic!("family {} lost its descriptor options", e.name),
        }
    }
}

#[test]
fn test_dropped_family_opens_with_fresh_options() {
    // A present family the descriptor no longer mentions is still opened
    // (momentarily, before being dropped), with fresh default options.
    let cfs: Vec<String> = vec!["default".to_string(), "old".to_string()];
    let desc = descriptor(&[("default", 0), ("new", 7)]);
    let plan = reconcile_plan(true, &cfs, &desc);
    assert_eq!(plan.opens.len(), 2);
    assert_eq!(plan.opens[0].name, "default");
    assert_eq!(plan.opens[0].source, OptionsSource::Descriptor(0));
    assert_eq!(plan.opens[1].name, "old");
    assert_eq!(plan.opens[1].source, OptionsSource::Fresh);
    assert_eq!(plan.drops, vec!["old".to_string()]);
    assert_eq!(plan.creates.len(), 1);
    assert_eq!(plan.creates[0].name, "new");
    assert_eq!(plan.creates[0].index, 1);
}

/// The engine-lifecycle slice of re-adding a removed peer: the peer's engine
/// directory is destroyed with its data, and re-adding the peer re-creates
/// the engine from an empty directory; reconciliation must then restore the
/// full requested family set, and keep it across further reconciliations.
fn readd_peer_engine_lifecycle() {
    let desc = descriptor(&[("default", 0), ("cf1", 1)]);

    // First life of the peer's store.
    let mut cfs: Vec<String> = Vec::new();
    reconcile(&mut cfs, false, &desc);
    assert_eq!(sorted(&cfs), vec!["cf1", "default"]);

    // The peer is removed: its engine directory is wiped.
    cfs.clear();

    // The peer is added back: the store bootstraps again and converges to
    // the same family set.
    reconcile(&mut cfs, false, &desc);
    assert_eq!(sorted(&cfs), vec!["cf1", "default"]);
    reconcile(&mut cfs, true, &desc);
    assert_eq!(sorted(&cfs), vec!["cf1", "default"]);
}

#[test]
fn test_node_readd_peer() {
    readd_peer_engine_lifecycle();
}

#[test]
fn test_server_readd_peer() {
    readd_peer_engine_lifecycle();
}

#[test]
fn test_rerun_plans_no_operations() {
    // A store already at its target plans no drop and no create call — both
    // when the descriptor names the default family (sets equal) and when it
    // does not (the present set carries one extra default).
    let cfs = vec!["default".to_string(), "cf1".to_string()];
    let plan = reconcile_plan(true, &cfs, &descriptor(&[("default", 0), ("cf1", 1)]));
    assert!(plan.drops.is_empty());
    assert!(plan.creates.is_empty());
    let cfs2 = vec!["default".to_string(), "b".to_string()];
    let plan2 = reconcile_plan(true, &cfs2, &descriptor(&[("b", 9)]));
    assert!(plan2.drops.is_empty());
    assert!(plan2.creates.is_empty());
}
