use bubble::registry::{AnyInterfaceHandle, ApiRegistry, VersionedName};
use bubble::version::Version;

fn find_matching_versions(actual_version: Version, available_versions: Vec<Version>) -> Vec<String> {
    let mut matched: Vec<String> = available_versions
        .iter()
        .filter(|v| v.caret_accepts(&actual_version))
        .map(|v| v.to_text())
        .collect();
    matched.sort();
    matched
}

fn texts(v: Vec<Version>) -> Vec<String> {
    let mut t: Vec<String> = v.iter().map(|v| v.to_text()).collect();
    t.sort();
    t
}

#[test]
fn test_set_version_matching() {
    // actual 1.2.3 against 1.2.3, 1.2.4, 2.0.0
    assert_eq!(
        find_matching_versions(
            Version::new(1, 2, 3),
            vec![Version::new(1, 2, 3), Version::new(1, 2, 4), Version::new(2, 0, 0)]
        ),
        texts(vec![Version::new(1, 2, 3)])
    );
    // actual 1.2.5 against 1.2.3, 1.2.4, 2.0.0
    assert_eq!(
        find_matching_versions(
            Version::new(1, 2, 5),
            vec![Version::new(1, 2, 3), Version::new(1, 2, 4), Version::new(2, 0, 0)]
        ),
        texts(vec![Version::new(1, 2, 3), Version::new(1, 2, 4)])
    );
    // actual 1.3.0 against 1.2.3, 1.2.4
    assert_eq!(
        find_matching_versions(Version::new(1, 3, 0), vec![Version::new(1, 2, 3), Version::new(1, 2, 4)]),
        texts(vec![Version::new(1, 2, 3), Version::new(1, 2, 4)])
    );
    // major version mismatch
    assert_eq!(
        find_matching_versions(Version::new(2, 0, 0), vec![Version::new(1, 2, 3), Version::new(1, 2, 4)]),
        Vec::<String>::new()
    );
    // pre-release versions
    assert_eq!(
        find_matching_versions(
            Version::new(1, 2, 0),
            vec![
                Version::parse("1.2.0-alpha").unwrap(),
                Version::parse("1.2.0-beta").unwrap(),
                Version::new(1, 2, 0),
            ]
        ),
        texts(vec![
            Version::parse("1.2.0-alpha").unwrap(),
            Version::parse("1.2.0-beta").unwrap(),
            Version::new(1, 2, 0),
        ])
    );
}

#[test]
fn version_parse_and_text() {
    let v = Version::parse("1.2.3-rc.1+build.5").unwrap();
    assert_eq!(v.major(), 1);
    assert_eq!(v.minor(), 2);
    assert_eq!(v.patch(), 3);
    assert_eq!(v.pre(), "rc.1");
    assert_eq!(v.build(), "build.5");
    assert_eq!(v.to_text(), "1.2.3-rc.1+build.5");
    assert!(Version::parse("1.2").is_none());
    assert!(Version::parse("01.2.3").is_none());
    assert_eq!(Version::new(0, 10, 7).to_text(), "0.10.7");
}

#[test]
fn version_order() {
    let a = Version::parse("1.2.0-alpha").unwrap();
    let b = Version::parse("1.2.0-beta").unwrap();
    let c = Version::new(1, 2, 0);
    assert!(a.precedes(&b));
    assert!(b.precedes(&c));
    assert!(!c.precedes(&a));
    assert!(Version::new(1, 2, 9).precedes(&Version::new(1, 10, 0)));
    assert!(Version::parse("1.0.0-alpha.2").unwrap().precedes(&Version::parse("1.0.0-alpha.10").unwrap()));
}

#[test]
fn caret_rules() {
    assert!(Version::new(1, 2, 3).caret_accepts(&Version::new(1, 9, 0)));
    assert!(!Version::new(1, 2, 3).caret_accepts(&Version::new(2, 0, 0)));
    assert!(!Version::new(1, 2, 3).caret_accepts(&Version::new(1, 2, 2)));
    assert!(Version::new(0, 2, 3).caret_accepts(&Version::new(0, 2, 9)));
    assert!(!Version::new(0, 2, 3).caret_accepts(&Version::new(0, 3, 0)));
    assert!(Version::new(0, 0, 3).caret_accepts(&Version::new(0, 0, 3)));
    assert!(!Version::new(0, 0, 3).caret_accepts(&Version::new(0, 0, 4)));
    // a pre-release only matches a requirement with one on the same triple
    assert!(!Version::new(1, 2, 0).caret_accepts(&Version::parse("1.3.0-alpha").unwrap()));
    assert!(Version::parse("1.3.0-alpha").unwrap().caret_accepts(&Version::parse("1.3.0-beta").unwrap()));
}

#[test]
fn registry_set_then_find() {
    let mut reg: ApiRegistry<u32, u32> = ApiRegistry::empty();
    let h = reg.set("render", Version::new(1, 2, 3), 7);
    assert_eq!(reg.load(h), Some(7));
    let found = reg.find("render", Version::new(1, 2, 0));
    assert_eq!(reg.load(found), Some(7));
    assert!(reg.get_optional("render", Version::new(2, 0, 0)).is_none());
    assert!(reg.get_optional("audio", Version::new(1, 2, 3)).is_none());
}

#[test]
fn registry_find_before_set_is_filled_later() {
    let mut reg: ApiRegistry<u32, u32> = ApiRegistry::empty();
    let early = reg.find("render", Version::new(1, 2, 3));
    assert_eq!(reg.load(early), None);
    reg.set("render", Version::new(1, 2, 4), 9);
    assert_eq!(reg.load(early), Some(9));
}

#[test]
fn registry_set_replaces_compatible_entries() {
    // the example of the registry's documentation: old 1.2.3, new 1.2.4
    let mut reg: ApiRegistry<u32, u32> = ApiRegistry::empty();
    let old = reg.set("render", Version::new(1, 2, 3), 1);
    let new = reg.set("render", Version::new(1, 2, 4), 2);
    assert_eq!(reg.load(old), Some(2));
    assert_eq!(reg.load(new), Some(2));
    // a lower version does not reach the newer entry
    reg.set("render", Version::new(1, 2, 3), 3);
    assert_eq!(reg.load(new), Some(2));
    assert_eq!(reg.load(old), Some(3));
    // find picks the greatest compatible version
    let f = reg.find("render", Version::new(1, 2, 0));
    assert_eq!(reg.load(f), Some(2));
    let mut versions: Vec<String> = reg.available_api_versions("render").iter().map(|v| v.to_text()).collect();
    versions.sort();
    assert_eq!(versions, vec!["1.2.3".to_string(), "1.2.4".to_string()]);
}

#[test]
fn registry_remove_exact_entry() {
    let mut reg: ApiRegistry<u32, u32> = ApiRegistry::empty();
    let h = reg.set("render", Version::new(1, 2, 3), 5);
    assert!(reg.remove("render", Version::new(1, 2, 4)).is_none());
    let removed = reg.remove("render", Version::new(1, 2, 3)).unwrap();
    assert_eq!(reg.load(removed), Some(5));
    assert_eq!(reg.load(h), Some(5));
    assert!(reg.get_optional("render", Version::new(1, 2, 3)).is_none());
    assert!(reg.remove("render", Version::new(1, 2, 3)).is_none());
}

fn iface(id: u64, payload: u32) -> AnyInterfaceHandle<u32> {
    AnyInterfaceHandle { instance_id: id, interface: payload }
}

#[test]
fn registry_interfaces() {
    let mut reg: ApiRegistry<u32, u32> = ApiRegistry::empty();
    reg.add_interface("tool", Version::new(1, 2, 3), iface(1, 10));
    reg.add_interface("tool", Version::new(1, 2, 3), iface(2, 20));
    // 1.2.4 is added to the 1.2.3 entry too
    reg.add_interface("tool", Version::new(1, 2, 4), iface(1, 11));
    let all = reg.get_interfaces("tool", Version::new(1, 2, 3)).unwrap();
    let ids: Vec<u64> = all.iter().map(|h| h.instance_id).collect();
    assert_eq!(ids, vec![1, 2]);
    assert_eq!(all[0].interface, 10);
    assert_eq!(reg.interface_count("tool", Version::new(1, 2, 3)), Some(2));
    assert_eq!(reg.interface_count("tool", Version::new(2, 0, 0)), None);
    // the 1.2.4 entry holds its first instance
    assert_eq!(reg.first_interface("tool", Version::new(1, 2, 4)).map(|h| h.interface), Some(11));
    assert!(reg.single_interface("tool", Version::new(1, 2, 3)).is_none());
    assert_eq!(reg.single_interface("tool", Version::new(1, 2, 4)).map(|p| p.0), Some(1));
    // removing instance 1 from 1.2.3 and compatible entries removes all of them
    reg.remove_interface("tool", Version::new(1, 2, 3), 1);
    let ids: Vec<u64> = reg.get_interfaces("tool", Version::new(1, 2, 3)).unwrap().iter().map(|h| h.instance_id).collect();
    assert_eq!(ids, vec![2]);
    assert!(reg.get_interfaces("tool", Version::new(1, 2, 4)).is_none());
    reg.remove_interface("tool", Version::new(1, 2, 3), 1);
    let ids: Vec<u64> = reg.get_interfaces("tool", Version::new(1, 2, 3)).unwrap().iter().map(|h| h.instance_id).collect();
    assert_eq!(ids, vec![2]);
    assert_eq!(reg.single_interface("tool", Version::new(1, 2, 3)).map(|p| p.0), Some(2));
}

#[test]
fn registry_shutdown_clears_entries() {
    let mut reg: ApiRegistry<u32, u32> = ApiRegistry::empty();
    let h = reg.set("render", Version::new(1, 0, 0), 1);
    reg.add_interface("tool", Version::new(1, 0, 0), iface(1, 1));
    reg.shutdown();
    assert!(reg.get_optional("render", Version::new(1, 0, 0)).is_none());
    assert!(reg.get_interfaces("tool", Version::new(1, 0, 0)).is_none());
    assert_eq!(reg.load(h), Some(1));
}

#[test]
fn versioned_name_new() {
    let n = VersionedName::new("render", Version::new(0, 1, 0));
    assert_eq!(n.name, "render");
    assert_eq!(n.version.to_text(), "0.1.0");
}

#[test]
fn remove_interface_removes_every_instance_of_the_id() {
    let mut reg: ApiRegistry<u32, u32> = ApiRegistry::empty();
    reg.add_interface("n", Version::new(1, 2, 3), iface(1, 1));
    reg.add_interface("n", Version::new(1, 2, 3), iface(2, 2));
    reg.add_interface("n", Version::new(1, 2, 4), iface(3, 3));
    reg.add_interface("n", Version::new(1, 2, 3), iface(1, 4));
    reg.remove_interface("n", Version::new(1, 2, 3), 1);
    let ids: Vec<u64> = reg.get_interfaces("n", Version::new(1, 2, 3)).unwrap().iter().map(|h| h.instance_id).collect();
    assert_eq!(ids, vec![2, 3]);
    assert_eq!(reg.interface_count("n", Version::new(1, 2, 4)), Some(1));
}

#[test]
fn lookup_picks_the_greatest_compatible_version() {
    let mut reg: ApiRegistry<u32, u32> = ApiRegistry::empty();
    reg.set("n", Version::new(1, 2, 3), 1);
    reg.set("n", Version::new(1, 4, 0), 2);
    reg.set("n", Version::new(2, 0, 0), 3);
    let h = reg.get_optional("n", Version::new(1, 2, 0)).unwrap();
    assert_eq!(reg.load(h), Some(2));
    assert!(reg.get_optional("n", Version::new(1, 5, 0)).is_none());
    let empty = reg.find("n", Version::new(1, 5, 0));
    assert_eq!(reg.load(empty), None);
    reg.set("n", Version::new(1, 5, 0), 4);
    assert_eq!(reg.load(empty), Some(4));
}

#[test]
fn interfaces_are_listed_once_per_id() {
    let mut reg: ApiRegistry<u32, u32> = ApiRegistry::empty();
    reg.add_interface("t", Version::new(1, 0, 0), iface(7, 1));
    reg.add_interface("t", Version::new(1, 1, 0), iface(7, 2));
    assert_eq!(reg.interface_count("t", Version::new(1, 0, 0)), Some(1));
    assert_eq!(reg.single_interface("t", Version::new(1, 0, 0)).map(|p| (p.0, p.1.interface)), Some((7, 1)));
    reg.add_interface("t", Version::new(1, 0, 0), iface(8, 3));
    assert_eq!(reg.interface_count("t", Version::new(1, 0, 0)), Some(2));
    assert!(reg.single_interface("t", Version::new(1, 0, 0)).is_none());
}

#[test]
fn set_leaves_incompatible_entries() {
    let mut reg: ApiRegistry<u32, u32> = ApiRegistry::empty();
    let a = reg.set("n", Version::new(1, 2, 3), 1);
    let b = reg.set("n", Version::new(1, 2, 4), 2);
    let c = reg.set("n", Version::new(2, 0, 0), 3);
    reg.set("n", Version::new(1, 2, 5), 5);
    assert_eq!(reg.load(a), Some(5));
    assert_eq!(reg.load(b), Some(5));
    assert_eq!(reg.load(c), Some(3));
}

#[test]
fn weak_handles_upgrade_to_their_slot() {
    let mut reg: ApiRegistry<u32, u32> = ApiRegistry::empty();
    let h = reg.set("n", Version::new(1, 0, 0), 4);
    let weak = h.downgrade();
    let strong = weak.upgrade().unwrap();
    assert_eq!(reg.load(strong), Some(4));
    reg.set("n", Version::new(1, 0, 1), 5);
    assert_eq!(reg.load(weak.upgrade().unwrap()), Some(5));
    reg.entries_are_distinct();
}
