use bubble::hash::{PassHash, PrimitiveBuildHasher};
use bubble::macros::{constants_mod_name, dyn_ident, register_fn_name, snake_case, Version};
use bubble::os::SysThreadId;
use bubble::registry::ApiError;
use bubble::skip::{generate_height, height_from_draws, height_from_flips, MAX_HEIGHT};
use bubble::sync::{reset, NoLinkWrap};
use bubble::wand::{AnyPop, Id, Pop, PopTrait};
use std::hash::Hasher;

#[test]
fn snake_case_names() {
    assert_eq!(snake_case("MyStruct"), "my_struct");
    assert_eq!(snake_case("ApiRegistryApi"), "api_registry_api");
    assert_eq!(snake_case("already_snake"), "already_snake");
    assert_eq!(snake_case(""), "");
    assert_eq!(dyn_ident("PluginApi"), "DynPluginApi");
    assert_eq!(register_fn_name("TestInterface"), "register_test_interface");
    assert_eq!(constants_mod_name("PluginApi"), "plugin_api_constants");
}

#[test]
fn declaration_versions() {
    let v = Version::from_elements(&vec![0, 1, 2]).unwrap();
    assert_eq!((v.major, v.minor, v.patch), (0, 1, 2));
    assert!(Version::from_elements(&vec![0, 1]).is_none());
    assert!(Version::from_elements(&vec![0, 1, 2, 3]).is_none());
}

#[test]
fn hashers() {
    let mut h = PassHash.build_hasher();
    assert_eq!(h.finish(), 0);
    h.write_u64(0xdead_beef);
    assert_eq!(h.finish(), 0xdead_beef);
    let fx = PrimitiveBuildHasher.build_hasher();
    assert_eq!(fx.finish(), 0);
    let mut fx2 = PrimitiveBuildHasher.build_hasher();
    fx2.write_u64(1);
    assert_ne!(fx2.finish(), 0);
}

#[test]
fn tower_heights_stay_in_range() {
    let mut saw_one = false;
    for _ in 0..2000 {
        let h = generate_height();
        assert!(h >= 1 && h <= MAX_HEIGHT);
        if h == 1 {
            saw_one = true;
        }
    }
    assert!(saw_one);
}

#[test]
fn small_wrappers() {
    let w = NoLinkWrap::new(5u32);
    assert_eq!(*w.get(), 5);
    reset();
    assert_eq!(SysThreadId::from_raw(12).0, 12);
    let e = ApiError::NullEntry("render".to_string());
    assert!(e.message().starts_with("Null entry inside api registry"));
}

struct Mesh;
impl PopTrait for Mesh {}
struct Instance;

#[test]
fn pop_ids() {
    let id: Id<Instance, Mesh> = Id::new(7, 3);
    assert_eq!(id.id, 7);
    assert_eq!(id.erase().id, 7);
    assert!(Pop::Write(AnyPop {}).is_write());
    assert!(!Pop::Read(AnyPop {}).is_write());
}

#[test]
fn tower_heights_from_draws() {
    assert_eq!(height_from_draws(0, 7), 1);
    assert_eq!(height_from_draws(6, 7), 1);
    assert_eq!(height_from_draws(3, 0), 2);
    assert_eq!(height_from_draws(7, 5), 7);
    assert_eq!(height_from_draws(11, 30), MAX_HEIGHT);
    assert_eq!(height_from_draws(11, 100), MAX_HEIGHT);
}

#[test]
fn tower_heights_from_flips() {
    assert_eq!(height_from_flips(1, &vec![true, true]), 1);
    assert_eq!(height_from_flips(3, &vec![]), 2);
    assert_eq!(height_from_flips(3, &vec![true, true, false, true]), 4);
    assert_eq!(height_from_flips(7, &vec![true; 100]), MAX_HEIGHT);
}

#[test]
fn snake_case_of_ascii_names() {
    assert_eq!(snake_case("ApiRegistryApiConstants"), "api_registry_api_constants");
    assert_eq!(snake_case("HTTPApi"), "h_t_t_p_api");
    assert_eq!(snake_case("a1B2"), "a1_b2");
}
