//! The api registry: apis and interfaces registered by plugins, found again by
//! name and a compatible (caret) version.
//!
//! An api entry names a shared slot; the handle that `set` or `find` hands out
//! is that slot, so a handle taken before an api is registered sees it once a
//! compatible version is set. Interfaces may have several implementations per
//! name and version, told apart by their instance ids.
use vstd::prelude::*;
use crate::version::{caret_matches, version_lt, Version, VersionView};

verus! {

/// A name with a version, as plain values.
pub type NameView = (Seq<char>, VersionView);

/// The identity of an api or interface entry: its name and exact version.
pub struct VersionedName {
    pub name: String,
    pub version: Version,
}

impl View for VersionedName {
    type V = NameView;

    open spec fn view(&self) -> NameView {
        (self.name@, self.version@)
    }
}

impl VersionedName {
    pub fn new(name: &str, version: Version) -> (r: VersionedName)
        ensures
            r@ == (name@, version@),
    {
        VersionedName { name: name.to_owned(), version }
    }

    fn same(&self, other: &VersionedName) -> (r: bool)
        ensures
            r == (self@ == other@),
    {
        self.name == other.name && self.version.same(&other.version)
    }

    fn duplicate(&self) -> (r: VersionedName)
        ensures
            r@ == self@,
    {
        VersionedName { name: self.name.clone(), version: self.version.duplicate() }
    }
}

/// The error of an access to an api whose registry entry is empty.
pub enum ApiError {
    /// The entry of the named api holds nothing (it was removed, or the
    /// registry was shut down).
    NullEntry(String),
}

pub open spec fn null_entry_message() -> Seq<char> {
    "Null entry inside api registry, which usually means you're accessing this api after"@
}

impl ApiError {
    /// The error's text.
    pub fn message(&self) -> (r: String)
        ensures
            r@ == null_entry_message(),
    {
        match self {
            ApiError::NullEntry(_) => {
                let s = "Null entry inside api registry, which usually means you're accessing this api after";
                s.to_owned()
            },
        }
    }
}

/// The interface that the registry's tests register several
/// implementations of.
pub trait TestInterface {
    fn test1(&self) -> i32;

    fn test2(&self) -> i32;
}

/// A handle to an api slot of a registry. It stays valid for that registry
/// and sees whatever api is later stored in the slot.
#[derive(Clone, Copy)]
pub struct AnyApiHandle {
    slot: usize,
}

impl AnyApiHandle {
    pub closed spec fn slot(&self) -> nat {
        self.slot as nat
    }

    /// A weak handle to the same slot.
    pub fn downgrade(&self) -> (w: WeakAnyApiHandle)
        ensures
            w.slot() == self.slot(),
    {
        WeakAnyApiHandle { slot: self.slot }
    }
}

/// A weak handle to an api slot, kept inside an api to avoid a cycle of
/// handles. Slots belong to their registry and are never released while it
/// lives, so a weak handle always upgrades to the handle of its slot.
#[derive(Clone, Copy)]
pub struct WeakAnyApiHandle {
    slot: usize,
}

impl WeakAnyApiHandle {
    pub closed spec fn slot(&self) -> nat {
        self.slot as nat
    }

    /// The handle of the slot.
    pub fn upgrade(&self) -> (r: Option<AnyApiHandle>)
        ensures
            r matches Some(h) && h.slot() == self.slot(),
    {
        Some(AnyApiHandle { slot: self.slot })
    }
}

/// An interface implementation: its instance id and the implementation.
#[derive(Clone, Copy)]
pub struct AnyInterfaceHandle<I> {
    pub instance_id: u64,
    pub interface: I,
}

impl<I> View for AnyInterfaceHandle<I> {
    type V = (u64, I);

    open spec fn view(&self) -> (u64, I) {
        (self.instance_id, self.interface)
    }
}

struct ApiEntry {
    id: VersionedName,
    handle: AnyApiHandle,
}

struct InterfaceEntry<I> {
    id: VersionedName,
    instances: Vec<AnyInterfaceHandle<I>>,
}

/// The registry of apis (one implementation per name and version) and
/// interfaces (several implementations per name and version).
struct RegistryBooks<A, I> {
    apis: Vec<ApiEntry>,
    slots: Vec<Option<A>>,
    interfaces: Vec<InterfaceEntry<I>>,
}

/// The registry of apis (one implementation per name and version) and
/// interfaces (several implementations per name and version). Its books are
/// always well formed: that is the type's invariant.
pub struct ApiRegistry<A, I> {
    inner: RegistryBooks<A, I>,
}

impl<A, I> ApiRegistry<A, I> {
    #[verifier::type_invariant]
    closed spec fn books_well_formed(&self) -> bool {
        self.inner.well_formed()
    }

    /// The api entries: key and slot, in order.
    pub closed spec fn api_entries(&self) -> Seq<(NameView, usize)> {
        self.inner.api_entries()
    }

    /// The contents of the api slots.
    pub closed spec fn slots(&self) -> Seq<Option<A>> {
        self.inner.slots()
    }

    /// The interface entries: key and instances, in order.
    pub closed spec fn interface_entries(&self) -> Seq<(NameView, Seq<(u64, I)>)> {
        self.inner.interface_entries()
    }

    /// A handle of this registry.
    pub open spec fn holds(&self, h: AnyApiHandle) -> bool {
        h.slot() < self.slots().len()
    }

    /// No two api entries share a key or a slot, and every entry names a
    /// slot of the registry.
    pub open spec fn entries_distinct(&self) -> bool {
        &&& keys_distinct(self.api_entries())
        &&& slots_distinct(self.api_entries())
        &&& forall|j: int| 0 <= j < self.api_entries().len() ==> (#[trigger] self.api_entries()[j]).1 < self.slots().len()
    }

    /// Every registry's api entries are distinct (see `entries_distinct`);
    /// this makes the fact available to the caller, so that the laws on
    /// `set` and `remove` apply. It does nothing at run time.
    pub fn entries_are_distinct(&self)
        ensures
            self.entries_distinct(),
    {
        proof {
            use_type_invariant(self);
        }
    }

    /// An empty registry.
    pub fn empty() -> (r: ApiRegistry<A, I>)
        ensures
            r.api_entries() == Seq::<(NameView, usize)>::empty(),
            r.slots() == Seq::<Option<A>>::empty(),
            r.interface_entries() == Seq::<(NameView, Seq<(u64, I)>)>::empty(),
    {
        ApiRegistry { inner: RegistryBooks::empty() }
    }
}

impl<A: Copy, I: Copy> ApiRegistry<A, I> {
    /// Sets the api of `name` at `version`: stores `api` into that entry
    /// (creating it if needed) and into every entry of the same name whose
    /// caret requirement accepts `version`. Returns the entry's handle.
    pub fn set(&mut self, name: &str, version: Version, api: A) -> (h: AnyApiHandle)
        ensures
            final(self).holds(h),
            final(self).interface_entries() == old(self).interface_entries(),
            ({
                let key = (name@, version@);
                let stored = slots_after_set(old(self).api_entries(), old(self).slots(), name@, version@, api);
                if has_key(old(self).api_entries(), key) {
                    &&& final(self).api_entries() == old(self).api_entries()
                    &&& final(self).slots() == stored
                    &&& h.slot() == old(self).api_entries()[key_position(old(self).api_entries(), key)].1
                } else {
                    &&& final(self).api_entries() == old(self).api_entries().push((key, old(self).slots().len() as usize))
                    &&& final(self).slots() == stored.push(Some(api))
                    &&& h.slot() == old(self).slots().len()
                }
            }),
            final(self).slots()[h.slot() as int] == Some(api),
            forall|j: int|
                0 <= j < old(self).api_entries().len() ==> #[trigger] final(self).slots()[old(self).api_entries()[j].1 as int]
                    == (if set_reaches(old(self).api_entries()[j].0, name@, version@) {
                    Some(api)
                } else {
                    old(self).slots()[old(self).api_entries()[j].1 as int]
                }),
            forall|j: int|
                0 <= j < old(self).api_entries().len() && (#[trigger] old(self).api_entries()[j]).0.0 != name@
                    ==> final(self).slots()[old(self).api_entries()[j].1 as int] == old(self).slots()[old(
                    self,
                ).api_entries()[j].1 as int],
            forall|j: int|
                0 <= j < old(self).api_entries().len() && (#[trigger] old(self).api_entries()[j]).0.0 == name@
                    && caret_matches(old(self).api_entries()[j].0.1, version@) ==> final(self).slots()[old(
                    self,
                ).api_entries()[j].1 as int] == Some(api),
    {
        proof {
            use_type_invariant(&*self);
        }
        let ghost entries = self.api_entries();
        let ghost slots = self.slots();
        let mut inner = RegistryBooks::empty();
        std::mem::swap(&mut inner, &mut self.inner);
        let r = inner.set(name, version, api);
        self.inner = inner;
        proof {
            assert forall|j: int| 0 <= j < entries.len() implies #[trigger] self.slots()[entries[j].1 as int] == (
            if set_reaches(entries[j].0, name@, version@) {
                Some(api)
            } else {
                slots[entries[j].1 as int]
            }) by {
                if set_reaches(entries[j].0, name@, version@) {
                    law_set_fills_reached_entries(entries, slots, name@, version@, api, j);
                } else {
                    law_set_leaves_unreached_entries(entries, slots, name@, version@, api, j);
                }
            }
            if has_key(entries, (name@, version@)) {
                let p = key_position(entries, (name@, version@));
                law_set_fills_reached_entries(entries, slots, name@, version@, api, p);
            }
            assert forall|j: int| 0 <= j < entries.len() && (#[trigger] entries[j]).0.0 != name@ implies self.slots()[entries[j].1 as int] == slots[entries[j].1 as int] by {
                law_set_touches_only_its_name(entries, slots, name@, version@, api, j);
                law_set_leaves_unreached_entries(entries, slots, name@, version@, api, j);
            }
            assert forall|j: int| 0 <= j < entries.len() && (#[trigger] entries[j]).0.0 == name@ && caret_matches(entries[j].0.1, version@) implies self.slots()[entries[j].1 as int] == Some(api) by {
                law_set_touches_only_its_name(entries, slots, name@, version@, api, j);
                law_set_fills_reached_entries(entries, slots, name@, version@, api, j);
            }
        }
        r
    }

    /// Finds the api for `name` at a version compatible with `version`: the
    /// handle of the entry with the greatest version that `^version` accepts.
    /// Where no entry is compatible, the handle of the exact entry, created
    /// empty if needed, so that a later `set` of a compatible version fills it.
    pub fn find(&mut self, name: &str, version: Version) -> (h: AnyApiHandle)
        ensures
            final(self).holds(h),
            final(self).interface_entries() == old(self).interface_entries(),
            ({
                let key = (name@, version@);
                let entries = old(self).api_entries();
                match best_entry(entries, entries.len() as int, name@, version@) {
                    Some(b) => {
                        &&& final(self).api_entries() == entries
                        &&& final(self).slots() == old(self).slots()
                        &&& h.slot() == entries[b].1
                    },
                    None => if has_key(entries, key) {
                        &&& final(self).api_entries() == entries
                        &&& final(self).slots() == old(self).slots()
                        &&& h.slot() == entries[key_position(entries, key)].1
                    } else {
                        &&& final(self).api_entries() == entries.push((key, old(self).slots().len() as usize))
                        &&& final(self).slots() == old(self).slots().push(None)
                        &&& h.slot() == old(self).slots().len()
                    },
                }
            }),
    {
        proof {
            use_type_invariant(&*self);
        }
        let mut inner = RegistryBooks::empty();
        std::mem::swap(&mut inner, &mut self.inner);
        let r = inner.find(name, version);
        self.inner = inner;
        r
    }

    /// The handle of the entry that `find` would pick among the compatible
    /// ones, or `None`; nothing is created.
    pub fn get_optional(&self, name: &str, version: Version) -> (r: Option<AnyApiHandle>)
        ensures
            ({
                let entries = self.api_entries();
                match best_entry(entries, entries.len() as int, name@, version@) {
                    Some(b) => r matches Some(h) && h.slot() == entries[b].1,
                    None => r is None,
                }
            }),
            r matches Some(h) ==> self.holds(h),
    {
        proof {
            use_type_invariant(self);
        }
        self.inner.get_optional(name, version)
    }

    /// Removes the entry of exactly `name` at `version` and returns its
    /// handle; holders of the handle still see its api.
    pub fn remove(&mut self, name: &str, version: Version) -> (r: Option<AnyApiHandle>)
        ensures
            final(self).slots() == old(self).slots(),
            final(self).interface_entries() == old(self).interface_entries(),
            ({
                let key = (name@, version@);
                let entries = old(self).api_entries();
                if has_key(entries, key) {
                    let p = key_position(entries, key);
                    &&& r matches Some(h) && h.slot() == entries[p].1
                    &&& final(self).api_entries() == entries.remove(p)
                } else {
                    &&& r is None
                    &&& final(self).api_entries() == entries
                }
            }),
            !has_key(final(self).api_entries(), (name@, version@)),
    {
        proof {
            use_type_invariant(&*self);
        }
        let ghost entries = self.api_entries();
        let mut inner = RegistryBooks::empty();
        std::mem::swap(&mut inner, &mut self.inner);
        let r = inner.remove(name, version);
        self.inner = inner;
        proof {
            if has_key(entries, (name@, version@)) {
                law_removed_entry_is_gone(entries, (name@, version@));
            }
        }
        r
    }

    /// The api currently in the slot of `h` (`None` while nothing was set).
    pub fn load(&self, h: AnyApiHandle) -> (r: Option<A>)
        requires
            self.holds(h),
        ensures
            r == self.slots()[h.slot() as int],
    {
        proof {
            use_type_invariant(self);
        }
        self.inner.load(h)
    }

    /// The versions of the api entries named `name`, in entry order.
    pub fn available_api_versions(&self, name: &str) -> (r: Vec<Version>)
        ensures
            r@.map_values(|v: Version| v@) == versions_named(
                self.api_entries(),
                self.api_entries().len() as int,
                name@,
            ),
    {
        proof {
            use_type_invariant(self);
        }
        self.inner.available_api_versions(name)
    }

    /// Adds an implementation of the interface `name` at `version`: appended
    /// to that entry (created if needed) and to every entry of the same name
    /// whose caret requirement accepts `version`. Returns the implementation.
    pub fn add_interface(&mut self, name: &str, version: Version, interface: AnyInterfaceHandle<I>) -> (r:
        AnyInterfaceHandle<I>)
        ensures
            r == interface,
            final(self).api_entries() == old(self).api_entries(),
            final(self).slots() == old(self).slots(),
            final(self).interface_entries() == interfaces_after_add(
                old(self).interface_entries(),
                name@,
                version@,
                interface@,
            ),
            final(self).interface_entries().len() >= old(self).interface_entries().len(),
            forall|j: int|
                0 <= j < old(self).interface_entries().len() && (#[trigger] old(self).interface_entries()[j]).0.0
                    != name@ ==> final(self).interface_entries()[j] == old(self).interface_entries()[j],
    {
        proof {
            use_type_invariant(&*self);
        }
        let ghost entries = self.interface_entries();
        let mut inner = RegistryBooks::empty();
        std::mem::swap(&mut inner, &mut self.inner);
        let r = inner.add_interface(name, version, interface);
        self.inner = inner;
        proof {
            assert forall|j: int| 0 <= j < entries.len() && (#[trigger] entries[j]).0.0 != name@ implies self.interface_entries()[j] == entries[j] by {
                law_add_interface_touches_only_its_name(entries, name@, version@, interface@, j);
            }
            law_add_interface_touches_only_its_name(entries, name@, version@, interface@, 0);
        }
        r
    }

    /// All implementations of `name` at versions compatible with `version`,
    /// one per instance id (its first occurrence), in entry order; `None`
    /// where no compatible entry holds one.
    pub fn get_interfaces(&self, name: &str, version: Version) -> (r: Option<Vec<AnyInterfaceHandle<I>>>)
        ensures
            ({
                let all = compatible_instances(
                    self.interface_entries(),
                    self.interface_entries().len() as int,
                    name@,
                    version@,
                );
                if all.len() == 0 {
                    r is None
                } else {
                    r matches Some(v) && v@.map_values(|h: AnyInterfaceHandle<I>| h@) == unique_by_id(all)
                }
            }),
    {
        proof {
            use_type_invariant(self);
        }
        self.inner.get_interfaces(name, version)
    }

    /// The number of implementations `get_interfaces` returns.
    pub fn interface_count(&self, name: &str, version: Version) -> (r: Option<usize>)
        ensures
            ({
                let all = compatible_instances(
                    self.interface_entries(),
                    self.interface_entries().len() as int,
                    name@,
                    version@,
                );
                if all.len() == 0 {
                    r is None
                } else {
                    r == Some(unique_by_id(all).len() as usize)
                }
            }),
    {
        proof {
            use_type_invariant(self);
        }
        self.inner.interface_count(name, version)
    }

    /// The first implementation of the entry that a lookup for `name` with
    /// `^version` picks (the greatest compatible version).
    pub fn first_interface(&self, name: &str, version: Version) -> (r: Option<AnyInterfaceHandle<I>>)
        ensures
            ({
                let entries = self.interface_entries();
                match best_entry(entries, entries.len() as int, name@, version@) {
                    Some(b) => if entries[b].1.len() > 0 {
                        r matches Some(h) && h@ == entries[b].1[0]
                    } else {
                        r is None
                    },
                    None => r is None,
                }
            }),
    {
        proof {
            use_type_invariant(self);
        }
        self.inner.first_interface(name, version)
    }

    /// The implementation of `name` at versions compatible with `version`,
    /// with its instance id, where exactly one instance id occurs among them.
    pub fn single_interface(&self, name: &str, version: Version) -> (r: Option<(u64, AnyInterfaceHandle<I>)>)
        ensures
            ({
                let all = compatible_instances(
                    self.interface_entries(),
                    self.interface_entries().len() as int,
                    name@,
                    version@,
                );
                let u = unique_by_id(all);
                if u.len() == 1 {
                    r matches Some(p) && p.0 == u[0].0 && p.1@ == u[0]
                } else {
                    r is None
                }
            }),
    {
        proof {
            use_type_invariant(self);
        }
        self.inner.single_interface(name, version)
    }

    /// Empties the registry: no api or interface entry is left. Handles taken
    /// before still see the apis they saw.
    pub fn shutdown(&mut self)
        ensures
            final(self).api_entries() == Seq::<(NameView, usize)>::empty(),
            final(self).interface_entries() == Seq::<(NameView, Seq<(u64, I)>)>::empty(),
            final(self).slots() == old(self).slots(),
    {
        proof {
            use_type_invariant(&*self);
        }
        let mut inner = RegistryBooks::empty();
        std::mem::swap(&mut inner, &mut self.inner);
        let r = inner.shutdown();
        self.inner = inner;
        r
    }

    /// Removes every implementation with instance id `instance_id` from
    /// every entry named `name` whose version `^from_version` accepts.
    pub fn remove_interface(&mut self, name: &str, from_version: Version, instance_id: u64)
        ensures
            final(self).api_entries() == old(self).api_entries(),
            final(self).slots() == old(self).slots(),
            final(self).interface_entries() == lists_after_remove(
                old(self).interface_entries(),
                name@,
                from_version@,
                instance_id,
            ),
    {
        proof {
            use_type_invariant(&*self);
        }
        let mut inner = RegistryBooks::empty();
        std::mem::swap(&mut inner, &mut self.inner);
        let r = inner.remove_interface(name, from_version, instance_id);
        self.inner = inner;
        r
    }
}

/// Whether some entry of `s` has key `key`.
pub open spec fn has_key<T>(s: Seq<(NameView, T)>, key: NameView) -> bool {
    exists|j: int| 0 <= j < s.len() && (#[trigger] s[j]).0 == key
}

/// The position of the entry with key `key`.
pub open spec fn key_position<T>(s: Seq<(NameView, T)>, key: NameView) -> int {
    choose|j: int| 0 <= j < s.len() && (#[trigger] s[j]).0 == key
}

/// No two entries of `s` share a key.
pub open spec fn keys_distinct<T>(s: Seq<(NameView, T)>) -> bool {
    forall|i: int, j: int| 0 <= i < s.len() && 0 <= j < s.len() && i != j ==> (#[trigger] s[i]).0
        != (#[trigger] s[j]).0
}

/// No two api entries name the same slot.
pub open spec fn slots_distinct(s: Seq<(NameView, usize)>) -> bool {
    forall|i: int, j: int| 0 <= i < s.len() && 0 <= j < s.len() && i != j ==> (#[trigger] s[i]).1 != (
    #[trigger] s[j]).1
}

/// The entry that a lookup for `name` with caret requirement `req` picks
/// among the first `n` entries: of those named `name` whose version the
/// requirement accepts, the greatest version, a later entry winning a tie
/// (`Iterator::max_by`).
pub open spec fn best_entry<T>(s: Seq<(NameView, T)>, n: int, name: Seq<char>, req: VersionView) -> Option<int>
    decreases n,
{
    if n <= 0 {
        None
    } else {
        let prev = best_entry(s, n - 1, name, req);
        let e = s[n - 1];
        if e.0.0 == name && caret_matches(req, e.0.1) {
            match prev {
                Some(b) => if version_lt(e.0.1, s[b].0.1) { prev } else { Some(n - 1) },
                None => Some(n - 1),
            }
        } else {
            prev
        }
    }
}

/// Whether `set(name, ver, ..)` stores into the entry with key `key`: the entry
/// itself, or one of the same name whose caret requirement accepts `ver`.
pub open spec fn set_reaches(key: NameView, name: Seq<char>, ver: VersionView) -> bool {
    key.0 == name && (key.1 == ver || caret_matches(key.1, ver))
}

/// The slots after `set(name, ver, api)` stored into every entry it reaches.
pub open spec fn slots_after_set<A>(
    entries: Seq<(NameView, usize)>,
    slots: Seq<Option<A>>,
    name: Seq<char>,
    ver: VersionView,
    api: A,
) -> Seq<Option<A>> {
    Seq::new(
        slots.len(),
        |i: int|
            if exists|j: int|
                0 <= j < entries.len() && (#[trigger] entries[j]).1 == i && set_reaches(
                    entries[j].0,
                    name,
                    ver,
                ) {
                Some(api)
            } else {
                slots[i]
            },
    )
}

/// The interface lists after `add_interface(name, ver, h)` appended `h` to
/// every entry it reaches.
pub open spec fn lists_after_add<I>(
    entries: Seq<(NameView, Seq<(u64, I)>)>,
    name: Seq<char>,
    ver: VersionView,
    h: (u64, I),
) -> Seq<(NameView, Seq<(u64, I)>)> {
    Seq::new(
        entries.len(),
        |j: int|
            if set_reaches(entries[j].0, name, ver) {
                (entries[j].0, entries[j].1.push(h))
            } else {
                entries[j]
            },
    )
}

/// The interface entries after `add_interface(name, ver, h)`: `h` appended to
/// every entry it reaches, and a new entry `[h]` where `(name, ver)` had none.
pub open spec fn interfaces_after_add<I>(
    entries: Seq<(NameView, Seq<(u64, I)>)>,
    name: Seq<char>,
    ver: VersionView,
    h: (u64, I),
) -> Seq<(NameView, Seq<(u64, I)>)> {
    let added = lists_after_add(entries, name, ver, h);
    if has_key(entries, (name, ver)) {
        added
    } else {
        added.push(((name, ver), seq![h]))
    }
}

/// `list` without any instance with id `id`.
pub open spec fn without_id<I>(list: Seq<(u64, I)>, id: u64) -> Seq<(u64, I)>
    decreases list.len(),
{
    if list.len() == 0 {
        Seq::empty()
    } else {
        let rest = without_id(list.drop_last(), id);
        if list.last().0 == id { rest } else { rest.push(list.last()) }
    }
}

/// The interface lists after `remove_interface(name, from, id)`: every entry
/// named `name` whose version `^from` accepts loses its instances with id
/// `id`.
pub open spec fn lists_after_remove<I>(
    entries: Seq<(NameView, Seq<(u64, I)>)>,
    name: Seq<char>,
    from: VersionView,
    id: u64,
) -> Seq<(NameView, Seq<(u64, I)>)> {
    Seq::new(
        entries.len(),
        |j: int|
            if entries[j].0.0 == name && caret_matches(from, entries[j].0.1) {
                (entries[j].0, without_id(entries[j].1, id))
            } else {
                entries[j]
            },
    )
}

/// The instances of the first `n` entries named `name` whose version `^req`
/// accepts, in entry order.
pub open spec fn compatible_instances<I>(
    entries: Seq<(NameView, Seq<(u64, I)>)>,
    n: int,
    name: Seq<char>,
    req: VersionView,
) -> Seq<(u64, I)>
    decreases n,
{
    if n <= 0 {
        Seq::empty()
    } else {
        let prev = compatible_instances(entries, n - 1, name, req);
        let e = entries[n - 1];
        if e.0.0 == name && caret_matches(req, e.0.1) {
            prev + e.1
        } else {
            prev
        }
    }
}

/// Whether some instance of `s` has id `id`.
pub open spec fn has_id<I>(s: Seq<(u64, I)>, id: u64) -> bool {
    exists|k: int| 0 <= k < s.len() && (#[trigger] s[k]).0 == id
}

/// The first instance of each id, in order.
pub open spec fn unique_by_id<I>(s: Seq<(u64, I)>) -> Seq<(u64, I)>
    decreases s.len(),
{
    if s.len() == 0 {
        Seq::empty()
    } else {
        let d = unique_by_id(s.drop_last());
        if has_id(d, s.last().0) { d } else { d.push(s.last()) }
    }
}

/// The versions of the api entries named `name`, in entry order.
pub open spec fn versions_named(entries: Seq<(NameView, usize)>, n: int, name: Seq<char>) -> Seq<VersionView>
    decreases n,
{
    if n <= 0 {
        Seq::empty()
    } else {
        let prev = versions_named(entries, n - 1, name);
        if entries[n - 1].0.0 == name { prev.push(entries[n - 1].0.1) } else { prev }
    }
}

impl<A, I> RegistryBooks<A, I> {
    /// The api entries: key and slot, in order.
    pub closed spec fn api_entries(&self) -> Seq<(NameView, usize)> {
        Seq::new(self.apis@.len(), |i: int| (self.apis@[i].id@, self.apis@[i].handle.slot))
    }

    /// The contents of the api slots.
    pub closed spec fn slots(&self) -> Seq<Option<A>> {
        self.slots@
    }

    /// The interface entries: key and instances, in order.
    pub closed spec fn interface_entries(&self) -> Seq<(NameView, Seq<(u64, I)>)> {
        Seq::new(
            self.interfaces@.len(),
            |i: int|
                (
                    self.interfaces@[i].id@,
                    self.interfaces@[i].instances@.map_values(|h: AnyInterfaceHandle<I>| h@),
                ),
        )
    }

    /// Keys are distinct, every api entry names a slot of the registry, and
    /// no two api entries share a slot.
    pub open spec fn well_formed(&self) -> bool {
        &&& keys_distinct(self.api_entries())
        &&& keys_distinct(self.interface_entries())
        &&& slots_distinct(self.api_entries())
        &&& forall|j: int|
            0 <= j < self.api_entries().len() ==> (#[trigger] self.api_entries()[j]).1 < self.slots().len()
    }

    /// A handle of this registry.
    pub open spec fn holds(&self, h: AnyApiHandle) -> bool {
        h.slot() < self.slots().len()
    }

    /// An empty registry.
    pub fn empty() -> (r: RegistryBooks<A, I>)
        ensures
            r.well_formed(),
            r.api_entries() == Seq::<(NameView, usize)>::empty(),
            r.slots() == Seq::<Option<A>>::empty(),
            r.interface_entries() == Seq::<(NameView, Seq<(u64, I)>)>::empty(),
    {
        let r = RegistryBooks { apis: Vec::new(), slots: Vec::new(), interfaces: Vec::new() };
        assert(r.api_entries() =~= Seq::<(NameView, usize)>::empty());
        assert(r.interface_entries() =~= Seq::<(NameView, Seq<(u64, I)>)>::empty());
        r
    }
}


impl<A: Copy, I: Copy> RegistryBooks<A, I> {
    /// Position of the api entry with key `id`.
    fn api_position(&self, id: &VersionedName) -> (r: Option<usize>)
        requires
            self.well_formed(),
        ensures
            match r {
                Some(p) => p < self.api_entries().len() && self.api_entries()[p as int].0 == id@
                    && key_position(self.api_entries(), id@) == p,
                None => !has_key(self.api_entries(), id@),
            },
    {
        let mut j: usize = 0;
        while j < self.apis.len()
            invariant
                j <= self.apis@.len(),
                self.api_entries().len() == self.apis@.len(),
                forall|k: int| 0 <= k < j ==> (#[trigger] self.api_entries()[k]).0 != id@,
                self.well_formed(),
            decreases self.apis.len() - j,
        {
            if self.apis[j].id.same(id) {
                assert(self.api_entries()[j as int].0 == id@);
                let ghost k = key_position(self.api_entries(), id@);
                assert(self.api_entries()[k].0 == id@);
                return Some(j);
            }
            j = j + 1;
        }
        None
    }

    /// The api entry that a lookup for `name` with `^req` picks.
    fn best_api_index(&self, name: &String, req: &Version) -> (r: Option<usize>)
        ensures
            match r {
                Some(b) => best_entry(self.api_entries(), self.api_entries().len() as int, name@, req@)
                    == Some(b as int),
                None => best_entry(self.api_entries(), self.api_entries().len() as int, name@, req@)
                    is None,
            },
    {
        let mut best: Option<usize> = None;
        let mut j: usize = 0;
        while j < self.apis.len()
            invariant
                j <= self.apis@.len(),
                self.api_entries().len() == self.apis@.len(),
                match best {
                    Some(b) => b < j && best_entry(self.api_entries(), j as int, name@, req@) == Some(b as int),
                    None => best_entry(self.api_entries(), j as int, name@, req@) is None,
                },
            decreases self.apis.len() - j,
        {
            let e = &self.apis[j];
            if e.id.name == *name && req.caret_accepts(&e.id.version) {
                match best {
                    Some(b) => {
                        if !e.id.version.precedes(&self.apis[b].id.version) {
                            best = Some(j);
                        }
                    },
                    None => {
                        best = Some(j);
                    },
                }
            }
            j = j + 1;
        }
        best
    }

    /// Sets the api of `name` at `version`: stores `api` into that entry
    /// (creating it if needed) and into every entry of the same name whose
    /// caret requirement accepts `version`. Returns the entry's handle.
    pub fn set(&mut self, name: &str, version: Version, api: A) -> (h: AnyApiHandle)
        requires
            old(self).well_formed(),
        ensures
            final(self).well_formed(),
            final(self).holds(h),
            final(self).interface_entries() == old(self).interface_entries(),
            ({
                let key = (name@, version@);
                let stored = slots_after_set(old(self).api_entries(), old(self).slots(), name@, version@, api);
                if has_key(old(self).api_entries(), key) {
                    &&& final(self).api_entries() == old(self).api_entries()
                    &&& final(self).slots() == stored
                    &&& h.slot() == old(self).api_entries()[key_position(old(self).api_entries(), key)].1
                } else {
                    &&& final(self).api_entries() == old(self).api_entries().push((key, old(self).slots().len() as usize))
                    &&& final(self).slots() == stored.push(Some(api))
                    &&& h.slot() == old(self).slots().len()
                }
            }),
    {
        let id = VersionedName::new(name, version);
        let ghost entries = self.api_entries();
        let ghost old_slots = self.slots@;
        let mut j: usize = 0;
        while j < self.apis.len()
            invariant
                j <= self.apis@.len(),
                self.api_entries() == entries,
                self.interface_entries() == old(self).interface_entries(),
                entries == old(self).api_entries(),
                old_slots == old(self).slots(),
                old(self).well_formed(),
                id@ == (name@, version@),
                self.slots@ == Seq::new(
                    old_slots.len(),
                    |i: int|
                        if exists|k: int|
                            0 <= k < j && (#[trigger] entries[k]).1 == i && set_reaches(
                                entries[k].0,
                                name@,
                                version@,
                            ) {
                            Some(api)
                        } else {
                            old_slots[i]
                        },
                ),
            decreases self.apis.len() - j,
        {
            let reaches = self.apis[j].id.name == id.name && (self.apis[j].id.version.same(&id.version)
                || self.apis[j].id.version.caret_accepts(&id.version));
            let ghost before = self.slots@;
            if reaches {
                let s = self.apis[j].handle.slot;
                assert(entries[j as int].1 == s);
                self.slots.set(s, Some(api));
            }
            proof {
                assert forall|i: int| 0 <= i < old_slots.len() implies #[trigger] self.slots@[i] == (if exists|k: int|
                    0 <= k < j + 1 && (#[trigger] entries[k]).1 == i && set_reaches(entries[k].0, name@, version@) {
                    Some(api)
                } else {
                    old_slots[i]
                }) by {
                    if exists|k: int| 0 <= k < j && (#[trigger] entries[k]).1 == i && set_reaches(entries[k].0, name@, version@) {
                        let k = choose|k: int| 0 <= k < j && (#[trigger] entries[k]).1 == i && set_reaches(entries[k].0, name@, version@);
                        assert(0 <= k < j + 1 && entries[k].1 == i);
                    }
                }
            }
            j = j + 1;
            assert(self.slots@ =~= Seq::new(
                old_slots.len(),
                |i: int|
                    if exists|k: int|
                        0 <= k < j && (#[trigger] entries[k]).1 == i && set_reaches(
                            entries[k].0,
                            name@,
                            version@,
                        ) {
                        Some(api)
                    } else {
                        old_slots[i]
                    },
            ));
        }
        assert(self.slots@ =~= slots_after_set(entries, old_slots, name@, version@, api));
        match self.api_position(&id) {
            Some(p) => self.apis[p].handle,
            None => {
                let slot = self.slots.len();
                self.slots.push(Some(api));
                let handle = AnyApiHandle { slot };
                self.apis.push(ApiEntry { id, handle });
                proof {
                    assert(self.api_entries() =~= entries.push(((name@, version@), slot)));
                }
                handle
            },
        }
    }

    /// Finds the api for `name` at a version compatible with `version`: the
    /// handle of the entry with the greatest version that `^version` accepts.
    /// Where no entry is compatible, the handle of the exact entry, created
    /// empty if needed, so that a later `set` of a compatible version fills it.
    pub fn find(&mut self, name: &str, version: Version) -> (h: AnyApiHandle)
        requires
            old(self).well_formed(),
        ensures
            final(self).well_formed(),
            final(self).holds(h),
            final(self).interface_entries() == old(self).interface_entries(),
            ({
                let key = (name@, version@);
                let entries = old(self).api_entries();
                match best_entry(entries, entries.len() as int, name@, version@) {
                    Some(b) => {
                        &&& final(self).api_entries() == entries
                        &&& final(self).slots() == old(self).slots()
                        &&& h.slot() == entries[b].1
                    },
                    None => if has_key(entries, key) {
                        &&& final(self).api_entries() == entries
                        &&& final(self).slots() == old(self).slots()
                        &&& h.slot() == entries[key_position(entries, key)].1
                    } else {
                        &&& final(self).api_entries() == entries.push((key, old(self).slots().len() as usize))
                        &&& final(self).slots() == old(self).slots().push(None)
                        &&& h.slot() == old(self).slots().len()
                    },
                }
            }),
    {
        let id = VersionedName::new(name, version);
        let ghost entries = self.api_entries();
        proof {
            lemma_best_entry_in_range(entries, entries.len() as int, name@, id@.1);
        }
        match self.best_api_index(&id.name, &id.version) {
            Some(b) => self.apis[b].handle,
            None => match self.api_position(&id) {
                Some(p) => self.apis[p].handle,
                None => {
                    let slot = self.slots.len();
                    self.slots.push(None);
                    let handle = AnyApiHandle { slot };
                    self.apis.push(ApiEntry { id, handle });
                    proof {
                        assert(self.api_entries() =~= entries.push(((name@, version@), slot)));
                    }
                    handle
                },
            },
        }
    }

    /// The handle of the entry that `find` would pick among the compatible
    /// ones, or `None`; nothing is created.
    pub fn get_optional(&self, name: &str, version: Version) -> (r: Option<AnyApiHandle>)
        requires
            self.well_formed(),
        ensures
            ({
                let entries = self.api_entries();
                match best_entry(entries, entries.len() as int, name@, version@) {
                    Some(b) => r matches Some(h) && h.slot() == entries[b].1,
                    None => r is None,
                }
            }),
            r matches Some(h) ==> self.holds(h),
    {
        let id = VersionedName::new(name, version);
        proof {
            lemma_best_entry_in_range(self.api_entries(), self.api_entries().len() as int, name@, id@.1);
        }
        match self.best_api_index(&id.name, &id.version) {
            Some(b) => Some(self.apis[b].handle),
            None => None,
        }
    }

    /// Removes the entry of exactly `name` at `version` and returns its
    /// handle; holders of the handle still see its api.
    pub fn remove(&mut self, name: &str, version: Version) -> (r: Option<AnyApiHandle>)
        requires
            old(self).well_formed(),
        ensures
            final(self).well_formed(),
            final(self).slots() == old(self).slots(),
            final(self).interface_entries() == old(self).interface_entries(),
            ({
                let key = (name@, version@);
                let entries = old(self).api_entries();
                if has_key(entries, key) {
                    let p = key_position(entries, key);
                    &&& r matches Some(h) && h.slot() == entries[p].1
                    &&& final(self).api_entries() == entries.remove(p)
                } else {
                    &&& r is None
                    &&& final(self).api_entries() == entries
                }
            }),
    {
        let id = VersionedName::new(name, version);
        let ghost entries = self.api_entries();
        match self.api_position(&id) {
            Some(p) => {
                let e = self.apis.remove(p);
                proof {
                    assert(self.api_entries() =~= entries.remove(p as int));
                    assert forall|i: int, j: int|
                        0 <= i < self.api_entries().len() && 0 <= j < self.api_entries().len() && i
                            != j implies (#[trigger] self.api_entries()[i]).0 != (
                        #[trigger] self.api_entries()[j]).0 by {
                        let ii = if i < p { i } else { i + 1 };
                        let jj = if j < p { j } else { j + 1 };
                        assert(self.api_entries()[i] == entries[ii]);
                        assert(self.api_entries()[j] == entries[jj]);
                    }
                    assert forall|j: int| 0 <= j < self.api_entries().len() implies (
                    #[trigger] self.api_entries()[j]).1 < self.slots().len() by {
                        let jj = if j < p { j } else { j + 1 };
                        assert(self.api_entries()[j] == entries[jj]);
                    }
                }
                Some(e.handle)
            },
            None => None,
        }
    }

    /// The api currently in the slot of `h` (`None` while nothing was set).
    pub fn load(&self, h: AnyApiHandle) -> (r: Option<A>)
        requires
            self.holds(h),
        ensures
            r == self.slots()[h.slot() as int],
    {
        self.slots[h.slot]
    }

    /// The versions of the api entries named `name`, in entry order.
    pub fn available_api_versions(&self, name: &str) -> (r: Vec<Version>)
        ensures
            r@.map_values(|v: Version| v@) == versions_named(
                self.api_entries(),
                self.api_entries().len() as int,
                name@,
            ),
    {
        let name_string = name.to_owned();
        let mut versions: Vec<Version> = Vec::new();
        let mut j: usize = 0;
        while j < self.apis.len()
            invariant
                j <= self.apis@.len(),
                self.api_entries().len() == self.apis@.len(),
                name_string@ == name@,
                versions@.map_values(|v: Version| v@) == versions_named(self.api_entries(), j as int, name@),
            decreases self.apis.len() - j,
        {
            if self.apis[j].id.name == name_string {
                let v = self.apis[j].id.version.duplicate();
                versions.push(v);
            }
            j = j + 1;
            assert(versions@.map_values(|v: Version| v@) =~= versions_named(self.api_entries(), j as int, name@));
        }
        versions
    }


    /// Position of the interface entry with key `id`.
    fn interface_position(&self, id: &VersionedName) -> (r: Option<usize>)
        requires
            self.well_formed(),
        ensures
            match r {
                Some(p) => p < self.interface_entries().len() && self.interface_entries()[p as int].0
                    == id@ && key_position(self.interface_entries(), id@) == p,
                None => !has_key(self.interface_entries(), id@),
            },
    {
        let mut j: usize = 0;
        while j < self.interfaces.len()
            invariant
                j <= self.interfaces@.len(),
                self.interface_entries().len() == self.interfaces@.len(),
                forall|k: int| 0 <= k < j ==> (#[trigger] self.interface_entries()[k]).0 != id@,
                self.well_formed(),
            decreases self.interfaces.len() - j,
        {
            if self.interfaces[j].id.same(id) {
                assert(self.interface_entries()[j as int].0 == id@);
                let ghost k = key_position(self.interface_entries(), id@);
                assert(self.interface_entries()[k].0 == id@);
                return Some(j);
            }
            j = j + 1;
        }
        None
    }

    /// The interface entry that a lookup for `name` with `^req` picks.
    fn best_interface_index(&self, name: &String, req: &Version) -> (r: Option<usize>)
        ensures
            match r {
                Some(b) => best_entry(
                    self.interface_entries(),
                    self.interface_entries().len() as int,
                    name@,
                    req@,
                ) == Some(b as int),
                None => best_entry(
                    self.interface_entries(),
                    self.interface_entries().len() as int,
                    name@,
                    req@,
                ) is None,
            },
    {
        let mut best: Option<usize> = None;
        let mut j: usize = 0;
        while j < self.interfaces.len()
            invariant
                j <= self.interfaces@.len(),
                self.interface_entries().len() == self.interfaces@.len(),
                match best {
                    Some(b) => b < j && best_entry(self.interface_entries(), j as int, name@, req@)
                        == Some(b as int),
                    None => best_entry(self.interface_entries(), j as int, name@, req@) is None,
                },
            decreases self.interfaces.len() - j,
        {
            let e = &self.interfaces[j];
            if e.id.name == *name && req.caret_accepts(&e.id.version) {
                match best {
                    Some(b) => {
                        if !e.id.version.precedes(&self.interfaces[b].id.version) {
                            best = Some(j);
                        }
                    },
                    None => {
                        best = Some(j);
                    },
                }
            }
            j = j + 1;
        }
        best
    }

    /// Adds an implementation of the interface `name` at `version`: appended
    /// to that entry (created if needed) and to every entry of the same name
    /// whose caret requirement accepts `version`. Returns the implementation.
    pub fn add_interface(&mut self, name: &str, version: Version, interface: AnyInterfaceHandle<I>) -> (r:
        AnyInterfaceHandle<I>)
        requires
            old(self).well_formed(),
        ensures
            final(self).well_formed(),
            r == interface,
            final(self).api_entries() == old(self).api_entries(),
            final(self).slots() == old(self).slots(),
            final(self).interface_entries() == interfaces_after_add(
                old(self).interface_entries(),
                name@,
                version@,
                interface@,
            ),
    {
        let id = VersionedName::new(name, version);
        let ghost entries = self.interface_entries();
        let mut j: usize = 0;
        while j < self.interfaces.len()
            invariant
                j <= self.interfaces@.len(),
                self.interface_entries().len() == entries.len(),
                entries == old(self).interface_entries(),
                self.api_entries() == old(self).api_entries(),
                self.slots() == old(self).slots(),
                old(self).well_formed(),
                id@ == (name@, version@),
                forall|k: int|
                    0 <= k < entries.len() ==> #[trigger] self.interface_entries()[k] == (if k < j
                        && set_reaches(entries[k].0, name@, version@) {
                        (entries[k].0, entries[k].1.push(interface@))
                    } else {
                        entries[k]
                    }),
            decreases self.interfaces.len() - j,
        {
            let reaches = self.interfaces[j].id.name == id.name && (self.interfaces[j].id.version.same(
                &id.version,
            ) || self.interfaces[j].id.version.caret_accepts(&id.version));
            let ghost before = self.interface_entries();
            let ghost before_vec = self.interfaces@;
            let ghost old_inst = self.interfaces@[j as int].instances@;
            assert(before[j as int] == entries[j as int]);
            assert(old_inst.map_values(|h: AnyInterfaceHandle<I>| h@) == entries[j as int].1);
            if reaches {
                self.interfaces[j].instances.push(interface);
                proof {
                    assert(self.interfaces@[j as int].instances@ == old_inst.push(interface));
                    assert(self.interfaces@[j as int].instances@.map_values(|h: AnyInterfaceHandle<I>| h@)
                        =~= entries[j as int].1.push(interface@));
                    assert forall|k: int| 0 <= k < entries.len() && k != j implies #[trigger] self.interface_entries()[k] == before[k] by {
                        assert(self.interfaces@[k] == before_vec[k]);
                    }
                }
            }
            j = j + 1;
        }
        proof {
            assert(self.interface_entries() =~= lists_after_add(entries, name@, version@, interface@));
            assert forall|a: int, b: int|
                0 <= a < self.interface_entries().len() && 0 <= b < self.interface_entries().len() && a
                    != b implies (#[trigger] self.interface_entries()[a]).0 != (
                #[trigger] self.interface_entries()[b]).0 by {
                assert(self.interface_entries()[a].0 == entries[a].0);
                assert(self.interface_entries()[b].0 == entries[b].0);
            }
        }
        assert forall|k: int| 0 <= k < entries.len() implies (#[trigger] self.interface_entries()[k]).0
            == entries[k].0 by {}
        match self.interface_position(&id) {
            Some(p) => {
                assert(entries[p as int].0 == id@);
            },
            None => {
                let ghost before = self.interface_entries();
                assert(!has_key(entries, id@)) by {
                    if has_key(entries, id@) {
                        let w = choose|w: int| 0 <= w < entries.len() && (#[trigger] entries[w]).0 == id@;
                        assert(before[w].0 == id@);
                    }
                }
                let mut instances: Vec<AnyInterfaceHandle<I>> = Vec::new();
                instances.push(interface);
                self.interfaces.push(InterfaceEntry { id, instances });
                proof {
                    assert(self.interfaces@.last().instances@.map_values(|h: AnyInterfaceHandle<I>| h@)
                        =~= seq![interface@]);
                    assert(self.interface_entries() =~= before.push(((name@, version@), seq![interface@])));
                    assert forall|k: int| 0 <= k < before.len() implies (#[trigger] before[k]).0 != (name@, version@) by {
                        assert(before[k].0 == entries[k].0);
                    }
                }
            },
        }
        interface
    }

    /// The implementations of the entries named `name` whose version
    /// `^version` accepts, in entry order.
    fn compatible_list(&self, name: &String, req: &Version) -> (r: Vec<AnyInterfaceHandle<I>>)
        ensures
            r@.map_values(|h: AnyInterfaceHandle<I>| h@) == compatible_instances(
                self.interface_entries(),
                self.interface_entries().len() as int,
                name@,
                req@,
            ),
    {
        let mut flat: Vec<AnyInterfaceHandle<I>> = Vec::new();
        let mut j: usize = 0;
        while j < self.interfaces.len()
            invariant
                j <= self.interfaces@.len(),
                self.interface_entries().len() == self.interfaces@.len(),
                flat@.map_values(|h: AnyInterfaceHandle<I>| h@) == compatible_instances(
                    self.interface_entries(),
                    j as int,
                    name@,
                    req@,
                ),
            decreases self.interfaces.len() - j,
        {
            let e = &self.interfaces[j];
            if e.id.name == *name && req.caret_accepts(&e.id.version) {
                let ghost before = flat@.map_values(|h: AnyInterfaceHandle<I>| h@);
                let ghost list = self.interface_entries()[j as int].1;
                let mut k: usize = 0;
                while k < e.instances.len()
                    invariant
                        k <= e.instances@.len(),
                        list == e.instances@.map_values(|h: AnyInterfaceHandle<I>| h@),
                        flat@.map_values(|h: AnyInterfaceHandle<I>| h@) == before + list.take(k as int),
                    decreases e.instances.len() - k,
                {
                    assert(list[k as int] == e.instances@[k as int]@);
                    assert(list.take(k + 1) =~= list.take(k as int).push(list[k as int]));
                    let ghost fb = flat@;
                    flat.push(e.instances[k]);
                    assert(flat@.map_values(|h: AnyInterfaceHandle<I>| h@) =~= fb.map_values(|h: AnyInterfaceHandle<I>| h@).push(list[k as int]));
                    k = k + 1;
                    assert(flat@.map_values(|h: AnyInterfaceHandle<I>| h@) =~= before + list.take(k as int));
                }
                assert(list.take(k as int) =~= list);
            }
            j = j + 1;
        }
        flat
    }

    /// All implementations of `name` at versions compatible with `version`,
    /// one per instance id (its first occurrence), in entry order; `None`
    /// where no compatible entry holds one.
    pub fn get_interfaces(&self, name: &str, version: Version) -> (r: Option<Vec<AnyInterfaceHandle<I>>>)
        ensures
            ({
                let all = compatible_instances(
                    self.interface_entries(),
                    self.interface_entries().len() as int,
                    name@,
                    version@,
                );
                if all.len() == 0 {
                    r is None
                } else {
                    r matches Some(v) && v@.map_values(|h: AnyInterfaceHandle<I>| h@) == unique_by_id(all)
                }
            }),
    {
        broadcast use vstd::std_specs::hash::group_hash_axioms;

        let id = VersionedName::new(name, version);
        let flat = self.compatible_list(&id.name, &id.version);
        let ghost all = flat@.map_values(|h: AnyInterfaceHandle<I>| h@);
        if flat.len() == 0 {
            return None;
        }
        let mut unique: Vec<AnyInterfaceHandle<I>> = Vec::new();
        let mut seen: std::collections::HashSet<u64> = std::collections::HashSet::new();
        let mut k: usize = 0;
        while k < flat.len()
            invariant
                k <= flat@.len(),
                all == flat@.map_values(|h: AnyInterfaceHandle<I>| h@),
                unique@.map_values(|h: AnyInterfaceHandle<I>| h@) == unique_by_id(all.take(k as int)),
                forall|x: u64| seen@.contains(x) <==> has_id(unique_by_id(all.take(k as int)), x),
            decreases flat.len() - k,
        {
            let h = flat[k];
            let ghost d = unique_by_id(all.take(k as int));
            assert(all.take(k + 1).drop_last() =~= all.take(k as int));
            assert(all.take(k + 1).last() == h@);
            if seen.insert(h.instance_id) {
                unique.push(h);
                proof {
                    assert(unique@.map_values(|h: AnyInterfaceHandle<I>| h@) =~= d.push(h@));
                    assert forall|x: u64| seen@.contains(x) <==> has_id(d.push(h@), x) by {
                        if has_id(d.push(h@), x) && x != h.instance_id {
                            let w = choose|w: int| 0 <= w < d.push(h@).len() && (#[trigger] d.push(h@)[w]).0 == x;
                            assert(d[w].0 == x);
                        }
                        if has_id(d, x) {
                            let w = choose|w: int| 0 <= w < d.len() && (#[trigger] d[w]).0 == x;
                            assert(d.push(h@)[w].0 == x);
                        }
                        assert(d.push(h@)[d.len() as int].0 == h.instance_id);
                    }
                }
            }
            k = k + 1;
        }
        assert(all.take(flat.len() as int) =~= all);
        Some(unique)
    }

    /// The number of implementations `get_interfaces` returns.
    pub fn interface_count(&self, name: &str, version: Version) -> (r: Option<usize>)
        ensures
            ({
                let all = compatible_instances(
                    self.interface_entries(),
                    self.interface_entries().len() as int,
                    name@,
                    version@,
                );
                if all.len() == 0 {
                    r is None
                } else {
                    r == Some(unique_by_id(all).len() as usize)
                }
            }),
    {
        match self.get_interfaces(name, version) {
            Some(v) => Some(v.len()),
            None => None,
        }
    }

    /// The first implementation of the entry that a lookup for `name` with
    /// `^version` picks (the greatest compatible version).
    pub fn first_interface(&self, name: &str, version: Version) -> (r: Option<AnyInterfaceHandle<I>>)
        ensures
            ({
                let entries = self.interface_entries();
                match best_entry(entries, entries.len() as int, name@, version@) {
                    Some(b) => if entries[b].1.len() > 0 {
                        r matches Some(h) && h@ == entries[b].1[0]
                    } else {
                        r is None
                    },
                    None => r is None,
                }
            }),
    {
        let id = VersionedName::new(name, version);
        proof {
            lemma_best_entry_in_range(self.interface_entries(), self.interface_entries().len() as int, name@, id@.1);
        }
        match self.best_interface_index(&id.name, &id.version) {
            Some(b) => {
                if self.interfaces[b].instances.len() > 0 {
                    Some(self.interfaces[b].instances[0])
                } else {
                    None
                }
            },
            None => None,
        }
    }

    /// The implementation of `name` at versions compatible with `version`,
    /// with its instance id, where exactly one instance id occurs among them.
    pub fn single_interface(&self, name: &str, version: Version) -> (r: Option<(u64, AnyInterfaceHandle<I>)>)
        ensures
            ({
                let all = compatible_instances(
                    self.interface_entries(),
                    self.interface_entries().len() as int,
                    name@,
                    version@,
                );
                let u = unique_by_id(all);
                if u.len() == 1 {
                    r matches Some(p) && p.0 == u[0].0 && p.1@ == u[0]
                } else {
                    r is None
                }
            }),
    {
        match self.get_interfaces(name, version) {
            Some(v) => {
                if v.len() == 1 {
                    Some((v[0].instance_id, v[0]))
                } else {
                    None
                }
            },
            None => {
                proof {
                    let all = compatible_instances(
                        self.interface_entries(),
                        self.interface_entries().len() as int,
                        name@,
                        version@,
                    );
                    assert(all =~= Seq::<(u64, I)>::empty());
                    assert(unique_by_id(all).len() == 0);
                }
                None
            },
        }
    }

    /// Empties the registry: no api or interface entry is left. Handles taken
    /// before still see the apis they saw.
    pub fn shutdown(&mut self)
        requires
            old(self).well_formed(),
        ensures
            final(self).well_formed(),
            final(self).api_entries() == Seq::<(NameView, usize)>::empty(),
            final(self).interface_entries() == Seq::<(NameView, Seq<(u64, I)>)>::empty(),
            final(self).slots() == old(self).slots(),
    {
        self.apis.clear();
        self.interfaces.clear();
        assert(self.api_entries() =~= Seq::<(NameView, usize)>::empty());
        assert(self.interface_entries() =~= Seq::<(NameView, Seq<(u64, I)>)>::empty());
    }

    /// Removes every implementation with instance id `instance_id` from
    /// every entry named `name` whose version `^from_version` accepts.
    pub fn remove_interface(&mut self, name: &str, from_version: Version, instance_id: u64)
        requires
            old(self).well_formed(),
        ensures
            final(self).well_formed(),
            final(self).api_entries() == old(self).api_entries(),
            final(self).slots() == old(self).slots(),
            final(self).interface_entries() == lists_after_remove(
                old(self).interface_entries(),
                name@,
                from_version@,
                instance_id,
            ),
    {
        let id = VersionedName::new(name, from_version);
        let ghost entries = self.interface_entries();
        let mut j: usize = 0;
        while j < self.interfaces.len()
            invariant
                j <= self.interfaces@.len(),
                self.interface_entries().len() == entries.len(),
                entries == old(self).interface_entries(),
                self.api_entries() == old(self).api_entries(),
                self.slots() == old(self).slots(),
                id@ == (name@, from_version@),
                forall|k: int|
                    0 <= k < entries.len() ==> #[trigger] self.interface_entries()[k] == (if k < j
                        && entries[k].0.0 == name@ && caret_matches(from_version@, entries[k].0.1) {
                        (entries[k].0, without_id(entries[k].1, instance_id))
                    } else {
                        entries[k]
                    }),
            decreases self.interfaces.len() - j,
        {
            let compatible = self.interfaces[j].id.name == id.name && id.version.caret_accepts(
                &self.interfaces[j].id.version,
            );
            let ghost before = self.interface_entries();
            let ghost before_vec = self.interfaces@;
            let ghost old_inst = self.interfaces@[j as int].instances@;
            assert(before[j as int] == entries[j as int]);
            assert(old_inst.map_values(|h: AnyInterfaceHandle<I>| h@) == entries[j as int].1);
            if compatible {
                let kept = instances_without(&self.interfaces[j].instances, instance_id);
                self.interfaces[j].instances = kept;
                proof {
                    assert(self.interfaces@[j as int].instances@.map_values(|h: AnyInterfaceHandle<I>| h@)
                        == without_id(entries[j as int].1, instance_id));
                    assert forall|k: int| 0 <= k < entries.len() && k != j implies #[trigger] self.interface_entries()[k] == before[k] by {
                        assert(self.interfaces@[k] == before_vec[k]);
                    }
                }
            }
            j = j + 1;
        }
        proof {
            assert(self.interface_entries() =~= lists_after_remove(entries, name@, from_version@, instance_id));
            assert forall|a: int, b: int|
                0 <= a < self.interface_entries().len() && 0 <= b < self.interface_entries().len() && a
                    != b implies (#[trigger] self.interface_entries()[a]).0 != (
                #[trigger] self.interface_entries()[b]).0 by {
                assert(self.interface_entries()[a].0 == entries[a].0);
                assert(self.interface_entries()[b].0 == entries[b].0);
            }
        }
    }
}

/// The instances of `v` whose id is not `id`, in order.
fn instances_without<I: Copy>(v: &Vec<AnyInterfaceHandle<I>>, id: u64) -> (r: Vec<AnyInterfaceHandle<I>>)
    ensures
        r@.map_values(|h: AnyInterfaceHandle<I>| h@) == without_id(v@.map_values(|h: AnyInterfaceHandle<I>| h@), id),
{
    let ghost s = v@.map_values(|h: AnyInterfaceHandle<I>| h@);
    let mut r: Vec<AnyInterfaceHandle<I>> = Vec::new();
    let mut j: usize = 0;
    while j < v.len()
        invariant
            j <= v@.len(),
            s == v@.map_values(|h: AnyInterfaceHandle<I>| h@),
            r@.map_values(|h: AnyInterfaceHandle<I>| h@) == without_id(s.take(j as int), id),
        decreases v.len() - j,
    {
        assert(s.take(j + 1).drop_last() =~= s.take(j as int));
        assert(s.take(j + 1).last() == v@[j as int]@);
        let h = v[j];
        if h.instance_id != id {
            r.push(h);
            assert(r@.map_values(|h: AnyInterfaceHandle<I>| h@) =~= without_id(s.take(j as int), id).push(h@));
        }
        j = j + 1;
    }
    assert(s.take(v.len() as int) =~= s);
    r
}

/// The entry that `best_entry` picks is one of the first `n`.
proof fn lemma_best_entry_in_range<T>(s: Seq<(NameView, T)>, n: int, name: Seq<char>, req: VersionView)
    requires
        n <= s.len(),
    ensures
        best_entry(s, n, name, req) matches Some(b) ==> 0 <= b < n,
    decreases n,
{
    if n > 0 {
        lemma_best_entry_in_range(s, n - 1, name, req);
    }
}

/// `set` stores the api into every entry that it reaches: the entry of its
/// name and version and each entry of the same name whose caret requirement
/// accepts the version. So a handle found earlier for such an entry, even
/// while it was empty, loads the new api.
pub proof fn law_set_fills_reached_entries<A>(
    entries: Seq<(NameView, usize)>,
    slots: Seq<Option<A>>,
    name: Seq<char>,
    ver: VersionView,
    api: A,
    j: int,
)
    requires
        0 <= j < entries.len(),
        entries[j].1 < slots.len(),
        set_reaches(entries[j].0, name, ver),
    ensures
        slots_after_set(entries, slots, name, ver, api)[entries[j].1 as int] == Some(api),
{
    assert(0 <= j < entries.len() && entries[j].1 == entries[j].1 as int);
}

/// `set` changes no slot that none of the entries it reaches names.
pub proof fn law_set_keeps_other_slots<A>(
    entries: Seq<(NameView, usize)>,
    slots: Seq<Option<A>>,
    name: Seq<char>,
    ver: VersionView,
    api: A,
    i: int,
)
    requires
        0 <= i < slots.len(),
        forall|j: int|
            0 <= j < entries.len() && (#[trigger] entries[j]).1 == i ==> !set_reaches(entries[j].0, name, ver),
    ensures
        slots_after_set(entries, slots, name, ver, api)[i] == slots[i],
{
}

proof fn lemma_exact_entry_found<T>(s: Seq<(NameView, T)>, n: int, name: Seq<char>, ver: VersionView, p: int)
    requires
        0 <= p < n <= s.len(),
        s[p].0 == (name, ver),
    ensures
        best_entry(s, n, name, ver) is Some,
    decreases n,
{
    crate::version::law_caret_accepts_itself(ver);
    if p < n - 1 {
        lemma_exact_entry_found(s, n - 1, name, ver, p);
    }
}

/// A lookup of a name and version that has an entry finds an api entry: after
/// `set(name, v, ..)` or `find(name, v)`, `get_optional(name, v)` is `Some`.
pub proof fn law_entry_is_found<T>(entries: Seq<(NameView, T)>, name: Seq<char>, ver: VersionView)
    requires
        has_key(entries, (name, ver)),
    ensures
        best_entry(entries, entries.len() as int, name, ver) is Some,
{
    let p = choose|j: int| 0 <= j < entries.len() && (#[trigger] entries[j]).0 == (name, ver);
    lemma_exact_entry_found(entries, entries.len() as int, name, ver, p);
}

/// After `remove(name, v)` the registry holds no entry for `(name, v)`.
pub proof fn law_removed_entry_is_gone<T>(entries: Seq<(NameView, T)>, key: NameView)
    requires
        keys_distinct(entries),
        has_key(entries, key),
    ensures
        !has_key(entries.remove(key_position(entries, key)), key),
{
    let p = key_position(entries, key);
    let after = entries.remove(p);
    if has_key(after, key) {
        let q = choose|j: int| 0 <= j < after.len() && (#[trigger] after[j]).0 == key;
        if q < p {
            assert(after[q] == entries[q]);
        } else {
            assert(after[q] == entries[q + 1]);
        }
    }
}

proof fn lemma_compatible_holds<I>(
    entries: Seq<(NameView, Seq<(u64, I)>)>,
    n: int,
    name: Seq<char>,
    req: VersionView,
    p: int,
    k: int,
)
    requires
        0 <= p < n <= entries.len(),
        entries[p].0.0 == name,
        caret_matches(req, entries[p].0.1),
        0 <= k < entries[p].1.len(),
    ensures
        compatible_instances(entries, n, name, req).contains(entries[p].1[k]),
    decreases n,
{
    let prev = compatible_instances(entries, n - 1, name, req);
    if p == n - 1 {
        assert((prev + entries[p].1)[prev.len() + k] == entries[p].1[k]);
    } else {
        lemma_compatible_holds(entries, n - 1, name, req, p, k);
        let e = entries[n - 1];
        if e.0.0 == name && caret_matches(req, e.0.1) {
            let i = choose|i: int| 0 <= i < prev.len() && prev[i] == entries[p].1[k];
            assert((prev + e.1)[i] == prev[i]);
        }
    }
}

proof fn lemma_unique_keeps_ids<I>(s: Seq<(u64, I)>, id: u64)
    ensures
        has_id(unique_by_id(s), id) == has_id(s, id),
    decreases s.len(),
{
    if s.len() > 0 {
        let rest = s.drop_last();
        lemma_unique_keeps_ids(rest, id);
        let d = unique_by_id(rest);
        if has_id(s, id) && !has_id(rest, id) {
            assert(s.last().0 == id) by {
                let k = choose|k: int| 0 <= k < s.len() && (#[trigger] s[k]).0 == id;
                if k < s.len() - 1 {
                    assert(rest[k] == s[k]);
                }
            }
            if !has_id(d, id) {
                assert(d.push(s.last())[d.len() as int].0 == id);
            }
        }
        if has_id(rest, id) {
            let k = choose|k: int| 0 <= k < rest.len() && (#[trigger] rest[k]).0 == id;
            assert(s[k] == rest[k]);
        }
        if has_id(unique_by_id(s), id) && !has_id(d, id) {
            let u = unique_by_id(s);
            let k = choose|k: int| 0 <= k < u.len() && (#[trigger] u[k]).0 == id;
            if !has_id(d, s.last().0) {
                if k < d.len() {
                    assert(u[k] == d[k]);
                } else {
                    assert(s[s.len() - 1].0 == id);
                }
            }
        }
        if has_id(d, id) {
            if !has_id(d, s.last().0) {
                let k = choose|k: int| 0 <= k < d.len() && (#[trigger] d[k]).0 == id;
                assert(d.push(s.last())[k] == d[k]);
            }
        }
    }
}

/// An added interface implementation is listed: after `add_interface(name,
/// v, h)`, the implementations that `get_interfaces(name, v)` gathers hold
/// `h`, and its instance id survives the removal of duplicate ids.
pub proof fn law_added_interface_is_listed<I>(
    entries: Seq<(NameView, Seq<(u64, I)>)>,
    name: Seq<char>,
    ver: VersionView,
    h: (u64, I),
)
    ensures
        ({
            let after = interfaces_after_add(entries, name, ver, h);
            let all = compatible_instances(after, after.len() as int, name, ver);
            &&& all.contains(h)
            &&& has_id(unique_by_id(all), h.0)
        }),
{
    let after = interfaces_after_add(entries, name, ver, h);
    let added = lists_after_add(entries, name, ver, h);
    crate::version::law_caret_accepts_itself(ver);
    let p = if has_key(entries, (name, ver)) {
        key_position(entries, (name, ver))
    } else {
        entries.len() as int
    };
    assert(after[p].0 == (name, ver));
    let k = after[p].1.len() - 1;
    assert(after[p].1[k] == h);
    lemma_compatible_holds(after, after.len() as int, name, ver, p, k);
    let all = compatible_instances(after, after.len() as int, name, ver);
    let i = choose|i: int| 0 <= i < all.len() && all[i] == h;
    assert(has_id(all, h.0));
    lemma_unique_keeps_ids(all, h.0);
}

/// Removing an id leaves an entry with no instance of that id; the other
/// instances stay, in order.
pub proof fn law_removed_interface_is_gone<I>(list: Seq<(u64, I)>, id: u64, k: int)
    ensures
        !has_id(without_id(list, id), id),
        0 <= k < list.len() && list[k].0 != id ==> without_id(list, id).contains(list[k]),
    decreases list.len(),
{
    if list.len() > 0 {
        let rest = list.drop_last();
        law_removed_interface_is_gone(rest, id, k);
        let r = without_id(rest, id);
        if list.last().0 != id {
            if has_id(r.push(list.last()), id) {
                let q = choose|q: int| 0 <= q < r.push(list.last()).len() && (#[trigger] r.push(list.last())[q]).0 == id;
                if q < r.len() {
                    assert(r[q].0 == id);
                }
            }
            if 0 <= k < rest.len() && list[k].0 != id {
                assert(rest[k] == list[k]);
                let i = choose|i: int| 0 <= i < r.len() && r[i] == list[k];
                assert(r.push(list.last())[i] == list[k]);
            }
            if k == list.len() - 1 {
                assert(r.push(list.last())[r.len() as int] == list[k]);
            }
        } else if 0 <= k < rest.len() {
            assert(rest[k] == list[k]);
        }
    }
}

proof fn lemma_unique_parts<I>(s: Seq<(u64, I)>)
    ensures
        forall|a: int, b: int| 0 <= a < b < unique_by_id(s).len() ==> (#[trigger] unique_by_id(s)[a]).0 != (
        #[trigger] unique_by_id(s)[b]).0,
        forall|k: int| 0 <= k < unique_by_id(s).len() ==> s.contains(#[trigger] unique_by_id(s)[k]),
    decreases s.len(),
{
    if s.len() > 0 {
        let rest = s.drop_last();
        lemma_unique_parts(rest);
        let d = unique_by_id(rest);
        assert forall|k: int| 0 <= k < d.len() implies s.contains(#[trigger] d[k]) by {
            let i = choose|i: int| 0 <= i < rest.len() && rest[i] == d[k];
            assert(s[i] == rest[i]);
        }
        if !has_id(d, s.last().0) {
            let u = d.push(s.last());
            assert forall|a: int, b: int| 0 <= a < b < u.len() implies (#[trigger] u[a]).0 != (#[trigger] u[b]).0 by {
                if b == d.len() {
                    assert(u[a] == d[a]);
                } else {
                    assert(u[a] == d[a] && u[b] == d[b]);
                }
            }
            assert(s[s.len() - 1] == s.last());
            assert forall|k: int| 0 <= k < u.len() implies s.contains(#[trigger] u[k]) by {
                if k < d.len() {
                    assert(u[k] == d[k]);
                }
            }
        }
    }
}

/// What `get_interfaces` gathers holds each instance id of the compatible
/// implementations exactly once, each element taken from them; and
/// `single_interface` finds one exactly when a single instance id occurs.
pub proof fn law_interfaces_by_distinct_id<I>(s: Seq<(u64, I)>, x: u64)
    ensures
        forall|a: int, b: int| 0 <= a < b < unique_by_id(s).len() ==> (#[trigger] unique_by_id(s)[a]).0 != (
        #[trigger] unique_by_id(s)[b]).0,
        forall|k: int| 0 <= k < unique_by_id(s).len() ==> s.contains(#[trigger] unique_by_id(s)[k]),
        has_id(unique_by_id(s), x) == has_id(s, x),
        unique_by_id(s).len() == 1 <==> (s.len() > 0 && forall|k: int| 0 <= k < s.len() ==> (#[trigger] s[k]).0
            == s[0].0),
{
    lemma_unique_parts(s);
    lemma_unique_keeps_ids(s, x);
    let u = unique_by_id(s);
    if u.len() == 1 {
        assert(s.contains(u[0]));
        let i0 = choose|i: int| 0 <= i < s.len() && s[i] == u[0];
        assert forall|k: int| 0 <= k < s.len() implies (#[trigger] s[k]).0 == s[0].0 by {
            lemma_unique_keeps_ids(s, s[k].0);
            lemma_unique_keeps_ids(s, s[0].0);
            assert(has_id(s, s[k].0));
            assert(has_id(s, s[0].0));
        }
    }
    if s.len() > 0 && forall|k: int| 0 <= k < s.len() ==> (#[trigger] s[k]).0 == s[0].0 {
        lemma_unique_keeps_ids(s, s[0].0);
        assert(has_id(s, s[0].0));
        assert(u.len() >= 1);
        if u.len() > 1 {
            assert(s.contains(u[0]) && s.contains(u[1]));
            let i = choose|i: int| 0 <= i < s.len() && s[i] == u[0];
            let j = choose|j: int| 0 <= j < s.len() && s[j] == u[1];
            assert(u[0].0 != u[1].0);
        }
    }
}

/// Whether an entry is a candidate of a lookup for `name` with caret
/// requirement `req`.
pub open spec fn lookup_candidate<T>(e: (NameView, T), name: Seq<char>, req: VersionView) -> bool {
    e.0.0 == name && caret_matches(req, e.0.1)
}

proof fn lemma_best_is_greatest<T>(s: Seq<(NameView, T)>, n: int, name: Seq<char>, req: VersionView, pre: Seq<char>, build: Seq<char>)
    requires
        0 <= n <= s.len(),
        forall|k: int| 0 <= k < s.len() ==> (#[trigger] s[k]).0.1.3 == pre && s[k].0.1.4 == build,
    ensures
        best_entry(s, n, name, req) matches Some(b) ==> {
            &&& 0 <= b < n
            &&& lookup_candidate(s[b], name, req)
            &&& forall|j: int| 0 <= j < n && lookup_candidate(#[trigger] s[j], name, req) ==> !version_lt(
                s[b].0.1,
                s[j].0.1,
            )
        },
        best_entry(s, n, name, req) is None ==> forall|j: int| 0 <= j < n ==> !lookup_candidate(
            #[trigger] s[j],
            name,
            req,
        ),
    decreases n,
{
    assert forall|a: int, b: int| 0 <= a < s.len() && 0 <= b < s.len() implies version_lt(
        #[trigger] s[a].0.1,
        #[trigger] s[b].0.1,
    ) == triple_lt(s[a].0.1, s[b].0.1) by {
        assert(s[a].0.1.3 =~= s[b].0.1.3);
        assert(s[a].0.1.4 =~= s[b].0.1.4);
    }
    if n > 0 {
        lemma_best_is_greatest(s, n - 1, name, req, pre, build);
    }
}

/// The order of versions by their numbers alone.
pub open spec fn triple_lt(a: VersionView, b: VersionView) -> bool {
    ||| a.0 < b.0
    ||| a.0 == b.0 && a.1 < b.1
    ||| a.0 == b.0 && a.1 == b.1 && a.2 < b.2
}

/// A lookup picks the greatest compatible version: where `best_entry` finds
/// an entry, it is a candidate (the name, a version that `^req` accepts) and
/// no candidate has a greater version; where it finds none, there is no
/// candidate. Stated for entries that share their pre-release and build
/// texts (release versions among them), whose order is that of the numbers;
/// the order of differing pre-release texts is `semver`'s, of which nothing
/// more is known here.
pub proof fn law_lookup_picks_greatest<T>(
    entries: Seq<(NameView, T)>,
    name: Seq<char>,
    req: VersionView,
    pre: Seq<char>,
    build: Seq<char>,
    j: int,
)
    requires
        forall|k: int| 0 <= k < entries.len() ==> (#[trigger] entries[k]).0.1.3 == pre && entries[k].0.1.4 == build,
    ensures
        best_entry(entries, entries.len() as int, name, req) matches Some(b) ==> {
            &&& 0 <= b < entries.len()
            &&& lookup_candidate(entries[b], name, req)
            &&& (0 <= j < entries.len() && lookup_candidate(entries[j], name, req) ==> !version_lt(
                entries[b].0.1,
                entries[j].0.1,
            ))
        },
        best_entry(entries, entries.len() as int, name, req) is None ==> !(0 <= j < entries.len()
            && lookup_candidate(entries[j], name, req)),
{
    lemma_best_is_greatest(entries, entries.len() as int, name, req, pre, build);
}

/// In a registry whose entries name distinct slots, `set` leaves the api of
/// every entry it does not reach as it was: only the entry of its name and
/// version and the compatible entries change.
pub proof fn law_set_leaves_unreached_entries<A>(
    entries: Seq<(NameView, usize)>,
    slots: Seq<Option<A>>,
    name: Seq<char>,
    ver: VersionView,
    api: A,
    j: int,
)
    requires
        slots_distinct(entries),
        0 <= j < entries.len(),
        entries[j].1 < slots.len(),
        !set_reaches(entries[j].0, name, ver),
    ensures
        slots_after_set(entries, slots, name, ver, api)[entries[j].1 as int] == slots[entries[j].1 as int],
{
    let i = entries[j].1 as int;
    if exists|k: int| 0 <= k < entries.len() && (#[trigger] entries[k]).1 == i && set_reaches(entries[k].0, name, ver) {
        let k = choose|k: int| 0 <= k < entries.len() && (#[trigger] entries[k]).1 == i && set_reaches(entries[k].0, name, ver);
        assert(k != j);
        assert(entries[k].1 != entries[j].1);
    }
}

/// `set(name, ..)` changes the api of no entry of another name; it stores
/// `api` into every entry of its own name whose caret requirement accepts the
/// version (the entry of its name and version among them).
pub proof fn law_set_touches_only_its_name<A>(
    entries: Seq<(NameView, usize)>,
    slots: Seq<Option<A>>,
    name: Seq<char>,
    ver: VersionView,
    api: A,
    j: int,
)
    requires
        slots_distinct(entries),
        0 <= j < entries.len(),
        entries[j].1 < slots.len(),
    ensures
        entries[j].0.0 != name ==> !set_reaches(entries[j].0, name, ver) && slots_after_set(
            entries,
            slots,
            name,
            ver,
            api,
        )[entries[j].1 as int] == slots[entries[j].1 as int],
        entries[j].0.0 == name && (entries[j].0.1 == ver || caret_matches(entries[j].0.1, ver))
            ==> set_reaches(entries[j].0, name, ver) && slots_after_set(entries, slots, name, ver, api)[entries[j].1 as int]
            == Some(api),
{
    if entries[j].0.0 != name {
        law_set_leaves_unreached_entries(entries, slots, name, ver, api, j);
    }
    if entries[j].0.0 == name && (entries[j].0.1 == ver || caret_matches(entries[j].0.1, ver)) {
        law_set_fills_reached_entries(entries, slots, name, ver, api, j);
    }
}

/// `add_interface(name, ..)` leaves every interface entry of another name as
/// it was; entries are only ever added after the existing ones.
pub proof fn law_add_interface_touches_only_its_name<I>(
    entries: Seq<(NameView, Seq<(u64, I)>)>,
    name: Seq<char>,
    ver: VersionView,
    h: (u64, I),
    j: int,
)
    ensures
        interfaces_after_add(entries, name, ver, h).len() >= entries.len(),
        0 <= j < entries.len() && entries[j].0.0 != name ==> interfaces_after_add(entries, name, ver, h)[j]
            == entries[j],
{
    let added = lists_after_add(entries, name, ver, h);
    if 0 <= j < entries.len() && entries[j].0.0 != name {
        assert(!set_reaches(entries[j].0, name, ver));
        assert(added[j] == entries[j]);
        if !has_key(entries, (name, ver)) {
            assert(added.push(((name, ver), seq![h]))[j] == added[j]);
        }
    }
}

} // verus!
