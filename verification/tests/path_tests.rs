use bubble::path::{file_system_safe_name, OrdinalName, OrdinalNameManager};

#[test]
fn test_first_use_returns_original() {
    let mut manager = OrdinalNameManager::new();
    assert_eq!(manager.get_ordinal_name("bork"), "bork");
}

#[test]
fn test_basic_duplicate() {
    let mut manager = OrdinalNameManager::new();
    manager.update_ordinal("bork");
    assert_eq!(manager.get_ordinal_name("bork"), "bork (1)");
}

#[test]
fn test_existing_ordinal_first_use() {
    let mut manager = OrdinalNameManager::new();
    assert_eq!(manager.get_ordinal_name("bork (1)"), "bork");
}

#[test]
fn test_existing_ordinal_with_seen() {
    let mut manager = OrdinalNameManager::new();
    manager.update_ordinal("bork");
    assert_eq!(manager.get_ordinal_name("bork (1)"), "bork (1)");
}

#[test]
fn test_increment_from_existing_ordinal() {
    let mut manager = OrdinalNameManager::new();
    manager.update_ordinal("bork (1)");
    assert_eq!(manager.get_ordinal_name("bork (1)"), "bork (2)");
}

#[test]
fn test_increment_from_high_ordinal() {
    let mut manager = OrdinalNameManager::new();
    manager.update_ordinal("bork (271)");
    assert_eq!(manager.get_ordinal_name("bork (000)"), "bork (272)");
}

#[test]
fn test_name_with_dots() {
    let mut manager = OrdinalNameManager::new();
    manager.update_ordinal("bork_1.1");
    assert_eq!(manager.get_ordinal_name("bork_1.1"), "bork_1.1 (1)");
}

#[test]
fn test_name_with_spaced_ordinal() {
    let mut manager = OrdinalNameManager::new();
    manager.update_ordinal("bork ( 1)");
    assert_eq!(manager.get_ordinal_name("bork ( 1)"), "bork ( 1) (1)");
}

#[test]
fn test_increment_from_previous_high() {
    let mut manager = OrdinalNameManager::new();
    manager.update_ordinal("bork (7)");
    assert_eq!(manager.get_ordinal_name("bork"), "bork (8)");
}

#[test]
fn test_case_insensitive_matching() {
    let mut manager = OrdinalNameManager::new();
    manager.update_ordinal("bork (7)");
    assert_eq!(manager.get_ordinal_name("BORK"), "BORK (8)");
}

#[test]
fn test_multiple_duplicates() {
    let mut manager = OrdinalNameManager::new();
    manager.update_ordinal("bork");
    manager.update_ordinal("bork (1)");
    manager.update_ordinal("bork (2)");
    assert_eq!(manager.get_ordinal_name("bork"), "bork (3)");
}

#[test]
fn ordinal_name_parse_cases() {
    let p = OrdinalName::parse("bork (12)");
    assert_eq!(p.stem, "bork");
    assert_eq!(p.ordinal, Some(12));
    let p = OrdinalName::parse("bork (x)");
    assert_eq!(p.stem, "bork (x)");
    assert_eq!(p.ordinal, None);
    let p = OrdinalName::parse("bork ()");
    assert_eq!(p.stem, "bork ()");
    assert_eq!(p.ordinal, None);
    // does not fit in a u32
    let p = OrdinalName::parse("bork (4294967296)");
    assert_eq!(p.stem, "bork (4294967296)");
    assert_eq!(p.ordinal, None);
    let p = OrdinalName::parse("bork (4294967295)");
    assert_eq!(p.stem, "bork");
    assert_eq!(p.ordinal, Some(u32::MAX));
    let p = OrdinalName::parse("a\u{3000}(3)");
    assert_eq!(p.stem, "a");
    assert_eq!(p.ordinal, Some(3));
}

#[test]
fn ordinal_counter_saturates() {
    let mut manager = OrdinalNameManager::new();
    manager.update_ordinal("bork (4294967295)");
    assert_eq!(manager.checked_ordinal_name("bork"), None);
    let mut manager = OrdinalNameManager::new();
    assert_eq!(manager.checked_ordinal_name("bork (3)"), Some("bork".to_string()));
    manager.update_ordinal("bork");
    assert_eq!(manager.checked_ordinal_name("bork (3)"), Some("bork (1)".to_string()));
}

#[test]
fn safe_name_replaces_reserved_characters() {
    assert_eq!(file_system_safe_name("a/b<c>d:e\"f\\g|h?i*j"), Some("a_b_c_d_e_f_g_h_i_j".to_string()));
    assert_eq!(file_system_safe_name("tab\there"), Some("tab_here".to_string()));
    // U+0101 is no control character
    assert_eq!(file_system_safe_name("x\u{101}y"), Some("x\u{101}y".to_string()));
}

#[test]
fn safe_name_trims_trailing_spaces_and_periods() {
    assert_eq!(file_system_safe_name("name. . "), Some("name".to_string()));
    assert_eq!(file_system_safe_name(" .. "), None);
    assert_eq!(file_system_safe_name(""), None);
}

#[test]
fn safe_name_handles_dos_names() {
    assert_eq!(file_system_safe_name("con"), Some("con_reserved".to_string()));
    assert_eq!(file_system_safe_name("Lpt7"), Some("Lpt7_reserved".to_string()));
    assert_eq!(file_system_safe_name("COM0"), Some("COM0".to_string()));
    assert_eq!(file_system_safe_name("nul."), Some("nul_reserved".to_string()));
}

#[test]
fn safe_name_keeps_at_most_128_characters() {
    let long: String = std::iter::repeat('é').take(200).collect();
    let r = file_system_safe_name(&long).unwrap();
    assert_eq!(r.chars().count(), 128);
}

#[test]
fn safe_names_are_stable() {
    for name in ["con", "a<b>:c", "trailing. . ", "LPT9", "plain", "tab\there"] {
        let once = file_system_safe_name(name).unwrap();
        assert_eq!(file_system_safe_name(&once), Some(once.clone()));
    }
    let long: String = std::iter::repeat('x').take(200).collect();
    let once = file_system_safe_name(&long).unwrap();
    assert_eq!(once.chars().count(), 128);
    assert_eq!(file_system_safe_name(&once), Some(once.clone()));
}

#[test]
fn handed_out_names_are_known_again() {
    let mut manager = OrdinalNameManager::new();
    manager.update_ordinal("Bork");
    let first = manager.get_ordinal_name("bork");
    assert_eq!(first, "bork (1)");
    manager.update_ordinal(&first);
    let second = manager.get_ordinal_name("bork");
    assert_eq!(second, "bork (2)");
    // a name not seen is handed back without being recorded
    assert_eq!(manager.get_ordinal_name("other"), "other");
    assert_eq!(manager.get_ordinal_name("other"), "other");
}

#[test]
fn only_control_and_reserved_characters_are_replaced() {
    assert_eq!(file_system_safe_name("\u{0101}"), Some("\u{0101}".to_string()));
    assert_eq!(file_system_safe_name("a\u{4E01}b"), Some("a\u{4E01}b".to_string()));
    assert_eq!(file_system_safe_name("a\u{1}b\u{1f}c"), Some("a_b_c".to_string()));
    assert_eq!(file_system_safe_name(" . ."), None);
}
