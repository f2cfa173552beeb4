use bubble::bonsai::{BonsaiTreeMap, Retired};

#[test]
fn bonsai_insert_get_remove() {
    let mut map: BonsaiTreeMap<String> = BonsaiTreeMap::new();
    assert!(map.get(1).is_none());
    assert!(map.insert(1, "one".to_string()));
    assert!(map.insert(2, "two".to_string()));
    // a present key keeps its value
    assert!(!map.insert(1, "uno".to_string()));
    assert_eq!(map.get(1), Some(&"one".to_string()));
    assert_eq!(map.get(2), Some(&"two".to_string()));
    assert_eq!(map.remove(1), Some("one".to_string()));
    assert!(map.get(1).is_none());
    assert_eq!(map.remove(1), None);
    assert_eq!(map.get(2), Some(&"two".to_string()));
}

#[test]
fn smoke_bonsai_tree() {
    let mut map: BonsaiTreeMap<String> = BonsaiTreeMap::new();
    for i in 0..1000i64 {
        assert!(map.insert(i, i.to_string()));
    }
    for i in (0..1000i64).rev() {
        assert!(!map.insert(i, String::new()));
    }
    for i in 0..1000i64 {
        assert_eq!(map.get(i), Some(&i.to_string()));
    }
    for i in (0..1000i64).step_by(2) {
        assert_eq!(map.remove(i), Some(i.to_string()));
    }
    for i in 0..1000i64 {
        if i % 2 == 0 {
            assert!(map.get(i).is_none());
        } else {
            assert_eq!(map.get(i), Some(&i.to_string()));
        }
    }
    for i in (1..1000i64).step_by(2) {
        assert_eq!(map.remove(i), Some(i.to_string()));
    }
    for i in 0..1000i64 {
        assert!(map.get(i).is_none());
    }
}

#[test]
fn bonsai_descending_and_negative_keys() {
    let mut map: BonsaiTreeMap<i64> = BonsaiTreeMap::new();
    for i in (-500..500i64).rev() {
        assert!(map.insert(i, i * 3));
    }
    assert_eq!(map.get(-500), Some(&-1500));
    assert_eq!(map.get(499), Some(&1497));
    assert_eq!(map.remove(0), Some(0));
    assert_eq!(map.get(0), None);
    assert_eq!(map.get(1), Some(&3));
}

#[test]
fn retired_flag_bits() {
    assert!(Retired::new(true).retired());
    assert!(!Retired::new(false).retired());
    assert!(Retired::is_retired(3));
    assert!(!Retired::is_retired(2));
}

#[test]
fn remove_undoes_a_fresh_insert() {
    let mut map: BonsaiTreeMap<u32> = BonsaiTreeMap::new();
    for k in [5i64, -3, 12, 7, 0, 40, -20] {
        assert!(map.insert(k, (k * 2) as u32));
    }
    assert!(map.insert(9, 99));
    assert_eq!(map.remove(9), Some(99));
    for k in [5i64, -3, 12, 7, 0, 40, -20] {
        assert_eq!(map.get(k), Some(&((k * 2) as u32)));
    }
    assert!(map.get(9).is_none());
}
