use bubble::plugin::{PluginEntry, PluginTable};
use bubble::plugin::{modified_plugins, PluginDiskState};
use bubble::plugin::{
    build_meta, can_load_plugin, dummy, get_plugin_name_from_path, hot_reload_check_index,
    hot_reload_copy_path, increased_version_tick, inside_lib_fn, inside_static_plugin,
    is_hot_reload_copy, listed_plugin_file, modified_since_load, registry_version_accepted,
    OpenOutcome, PluginHandle, PluginInfo,
};
use bubble::version::Version;

#[test]
fn build_meta_text_parts() {
    assert_eq!(
        build_meta("1.80.0", "abcdef1234567890", false, "3", "x86_64-unknown-linux-gnu"),
        "1.80.0-abcdef123-release.3.x86-64-unknown-linux-gnu"
    );
    assert_eq!(
        build_meta("1.79.1", "0123456789", true, "0", "aarch64_apple_darwin"),
        "1.79.1-012345678-debug.0.aarch64-apple-darwin"
    );
}

#[test]
fn plugin_info_takes_build_metadata() {
    let info = PluginInfo::new("renderer", Version::new(0, 1, 0), "1.80.0-abcdef123-release.3-x86-64");
    assert_eq!(info.identifier, "renderer");
    assert_eq!(info.version.to_text(), "0.1.0+1.80.0-abcdef123-release.3-x86-64");
    assert!(PluginInfo::try_new("renderer", Version::new(0, 1, 0), "not valid!").is_none());
    let ok = PluginInfo::try_new("renderer", Version::new(0, 1, 0), "meta.1").unwrap();
    assert_eq!(ok.version.build(), "meta.1");
}

#[test]
fn plugin_name_is_last_component() {
    assert_eq!(get_plugin_name_from_path("plugins/test_plugin.dll"), "test_plugin.dll");
    assert_eq!(get_plugin_name_from_path("test_plugin"), "test_plugin");
    assert_eq!(get_plugin_name_from_path("/"), "");
    assert_eq!(get_plugin_name_from_path("plugins/.."), "");
}

#[test]
fn listed_plugin_files() {
    let ext = "so";
    assert!(listed_plugin_file("plugin1.so", ext));
    assert!(listed_plugin_file("plugin2.so", ext));
    assert!(!listed_plugin_file("plugin1.hot_reload.123.so", ext));
    assert!(!listed_plugin_file("plugin2.hot_reload.so", ext));
    assert!(!listed_plugin_file("not_a_plugin.txt", ext));
    assert!(!listed_plugin_file("another.hot_reload.456.so", ext));
}

#[test]
fn hot_reload_copies_to_clean_up() {
    assert!(!is_hot_reload_copy("test_plugin.dll", "test_plugin"));
    assert!(is_hot_reload_copy("test_plugin.hot_reload.1.dll", "test_plugin"));
    assert!(is_hot_reload_copy("test_plugin.hot_reload.42.dll", "test_plugin"));
    assert!(!is_hot_reload_copy("test_plugin.other.1.dll", "test_plugin"));
    assert!(!is_hot_reload_copy("test_plugin.hot_reload.dll", "test_plugin"));
    assert!(!is_hot_reload_copy("test_plugin.hot_reload.4x.dll", "test_plugin"));
    assert!(!is_hot_reload_copy("test_plugin.hot_reload.4.dll.pdb", "test_plugin"));
    assert!(!is_hot_reload_copy("other.hot_reload.4.dll", "test_plugin"));
}

#[test]
fn hot_reload_copy_names() {
    let reloaded = hot_reload_copy_path("plugins", "test_plugin", "dll", Some(123));
    assert_eq!(reloaded, "plugins/test_plugin.hot_reload.123.dll");
    let first = hot_reload_copy_path("plugins", "test_plugin", "dll", None);
    assert_eq!(first, "plugins/test_plugin.hot_reload.dll");
    let parts: Vec<&str> = first.strip_prefix("plugins/").unwrap().split('.').collect();
    assert_eq!(parts[0], "test_plugin");
    assert_eq!(parts[1], "hot_reload");
}

#[test]
fn reload_copies_are_cleaned_and_never_listed() {
    let name = "test_plugin.hot_reload.987654321.dll";
    assert_eq!(hot_reload_copy_path("d", "test_plugin", "dll", Some(987654321)), format!("d/{}", name));
    assert!(is_hot_reload_copy(name, "test_plugin"));
    assert!(!listed_plugin_file(name, "dll"));
    assert!(!listed_plugin_file("test_plugin.hot_reload.dll", "dll"));
}

#[test]
fn registry_version_check() {
    assert!(registry_version_accepted(&Version::new(0, 1, 0), &Version::new(0, 1, 0)));
    assert!(registry_version_accepted(&Version::new(0, 2, 0), &Version::new(0, 1, 0)));
    assert!(!registry_version_accepted(&Version::new(0, 1, 0), &Version::new(0, 1, 1)));
}

#[test]
fn hot_reload_bookkeeping() {
    assert_eq!(hot_reload_check_index(7, 3), 1);
    assert_eq!(hot_reload_check_index(2, 5), 2);
    assert!(modified_since_load(true, 10, Some(11)));
    assert!(!modified_since_load(true, 10, Some(10)));
    assert!(!modified_since_load(false, 10, Some(11)));
    assert!(!modified_since_load(true, 10, None));
    assert_eq!(increased_version_tick(4), 5);
    assert_eq!(increased_version_tick(u64::MAX), 0);
}

#[test]
fn can_load_plugin_outcomes() {
    assert_eq!(can_load_plugin(false, OpenOutcome::Opened), Ok(false));
    assert_eq!(can_load_plugin(true, OpenOutcome::Opened), Ok(true));
    assert_eq!(can_load_plugin(true, OpenOutcome::PermissionDenied), Ok(false));
    assert_eq!(can_load_plugin(true, OpenOutcome::WouldBlock), Ok(false));
    assert_eq!(can_load_plugin(true, OpenOutcome::OtherError), Err(()));
}

#[test]
fn static_plugin_entry_points() {
    dummy();
    assert_eq!(inside_static_plugin(1), 3);
    assert_eq!(inside_lib_fn(1), 2);
    assert_eq!(inside_lib_fn(-5), -4);
    let h = PluginHandle(3);
    assert_eq!(h.0, 3);
}

#[test]
fn whole_reload_pass_picks_modified_plugins() {
    let states = vec![
        PluginDiskState { hot_reloadable: true, last_modified: 10, modified_on_disk: Some(11) },
        PluginDiskState { hot_reloadable: true, last_modified: 10, modified_on_disk: Some(10) },
        PluginDiskState { hot_reloadable: false, last_modified: 10, modified_on_disk: Some(12) },
        PluginDiskState { hot_reloadable: true, last_modified: 10, modified_on_disk: None },
        PluginDiskState { hot_reloadable: true, last_modified: 3, modified_on_disk: Some(4) },
    ];
    assert_eq!(modified_plugins(&states), vec![0, 4]);
    assert!(modified_plugins(&Vec::new()).is_empty());
}

#[test]
fn build_meta_documented_format() {
    assert_eq!(
        build_meta("1.83.0", "90b35a6239c3d8bdabc530a6a0816f7ff89a0aaf", true, "0", "x86_64-unknown-linux-gnu"),
        "1.83.0-90b35a623-debug.0.x86-64-unknown-linux-gnu"
    );
}

fn meta(path: &str, dep_id: u64) -> bubble::plugin::PluginMeta {
    bubble::plugin::PluginMeta {
        path: path.to_string(),
        load_path: path.to_string(),
        name: get_plugin_name_from_path(path),
        plugin_info: PluginInfo::new("p", Version::new(0, 1, 0), ""),
        dep_id,
        hot_reloadable: true,
        last_modified: 7,
    }
}

#[test]
fn plugin_table_books() {
    let mut table: PluginTable<u32> = PluginTable::new();
    assert_eq!(table.version_tick(), 0);
    // a failed load still counts as a change
    assert!(table.record_load(None).is_none());
    assert_eq!(table.version_tick(), 1);
    let a = table.record_load(Some(PluginEntry { meta: meta("plugins/a.so", 1), library: 10 })).unwrap();
    assert_eq!(table.version_tick(), 3);
    let b = table.record_load(Some(PluginEntry { meta: meta("plugins/b.so", 2), library: 20 })).unwrap();
    assert_eq!(table.version_tick(), 5);
    assert_eq!(table.handles(), &vec![a.0, b.0]);
    assert_eq!(table.info(a).unwrap().name, "a.so");
    assert!(table.set_path(a, "other/c.so".to_string()));
    assert_eq!(table.info(a).unwrap().name, "c.so");
    assert_eq!(table.info(a).unwrap().path, "other/c.so");
    assert_eq!(table.version_tick(), 6);
    assert!(table.record_reload(b, Some(PluginEntry { meta: meta("plugins/b.so", 3), library: 21 })));
    assert_eq!(table.get(b).unwrap().library, 21);
    assert_eq!(table.version_tick(), 7);
    assert!(table.record_reload(b, None));
    assert_eq!(table.get(b).unwrap().library, 21);
    assert_eq!(table.version_tick(), 8);
    assert!(table.unload(a));
    assert_eq!(table.version_tick(), 9);
    assert!(table.info(a).is_none());
    assert_eq!(table.handles(), &vec![b.0]);
    // unloading again finds nothing and changes nothing
    assert!(!table.unload(a));
    assert!(!table.set_path(a, "x".to_string()));
    assert!(!table.record_reload(a, None));
    assert_eq!(table.version_tick(), 9);
}
