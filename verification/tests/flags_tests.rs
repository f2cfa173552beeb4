use bubble::flags::{FeatureFlag, FeatureFlagsApi, FeatureFlagsRegistry};

#[test]
fn feature_flags_api_smoke() {
    let mut local_handler = FeatureFlagsRegistry::new();

    // the fixed type ids of two marker types
    let flag1 = FeatureFlag::new(0x9e37_79b9_7f4a_7c15);
    let flag2 = FeatureFlag::new(0x0123_4567_89ab_cdef);

    assert!(!local_handler.is_enabled(flag1));
    assert!(!local_handler.is_enabled(flag2));

    local_handler.set_enabled(flag1, true);
    assert!(local_handler.is_enabled(flag1));
    assert!(!local_handler.is_enabled(flag2));

    local_handler.set_enabled(flag2, true);
    assert!(local_handler.is_enabled(flag1));
    assert!(local_handler.is_enabled(flag2));

    local_handler.set_enabled(flag1, false);
    assert!(!local_handler.is_enabled(flag1));
    assert!(local_handler.is_enabled(flag2));

    let all_enabled = local_handler.all_enabled();
    assert_eq!(all_enabled.len(), 1);
    assert!(all_enabled.contains(&flag2));
}

#[test]
fn flag_reads_back_and_leaves_others() {
    let mut flags = FeatureFlagsRegistry::new();
    let a = FeatureFlag::new(5);
    let b = FeatureFlag::new(3);
    let c = FeatureFlag::new(9);
    flags.set_enabled(a, true);
    flags.set_enabled(b, true);
    flags.set_enabled(c, true);
    // enabling twice keeps one entry
    flags.set_enabled(a, true);
    assert_eq!(flags.all_enabled().len(), 3);
    flags.set_enabled(b, false);
    assert!(!flags.is_enabled(b));
    assert!(flags.is_enabled(a));
    assert!(flags.is_enabled(c));
    // disabling a flag that is off changes nothing
    flags.set_enabled(b, false);
    assert_eq!(flags.all_enabled().len(), 2);
    let ordered: Vec<u64> = flags.enabled_in_order().iter().map(|f| f.0).collect();
    assert_eq!(ordered, vec![5, 9]);
}
