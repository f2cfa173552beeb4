//! Plugin naming and bookkeeping: build metadata, plugin names from paths,
//! the hot-reload copies of plugin libraries, and the decisions of the
//! hot-reload check. Loading libraries and touching files is the
//! application's part.
use vstd::prelude::*;
use vstd::string::*;
use crate::text::{chars_of, string_push, path_file_name, path_file_name_of};
use crate::version::{build_ok, version_lt, Version, VersionView};
use crate::path::{all_ascii_digits, decimal, push_decimal};

verus! {

/// A plugin handle returned or accepted by the plugin api.
#[derive(PartialEq, Eq, Structural, Clone, Copy)]
pub struct PluginHandle(pub usize);

/// Replaces every `_` by `-`.
pub open spec fn dashes_for_underscores(s: Seq<char>) -> Seq<char> {
    s.map_values(|c: char| if c == '_' { '-' } else { c })
}

/// The build metadata of a plugin build:
/// `{rustc semver}-{first 9 of the rustc hash}-{debug|release}.{opt level}.{target triple with - for _}`.
pub open spec fn build_meta_text(
    rustc_semver: Seq<char>,
    rustc_hash: Seq<char>,
    debug: bool,
    opt_level: Seq<char>,
    target_triple: Seq<char>,
) -> Seq<char> {
    let kind = if debug {
        seq!['-', 'd', 'e', 'b', 'u', 'g', '.']
    } else {
        seq!['-', 'r', 'e', 'l', 'e', 'a', 's', 'e', '.']
    };
    rustc_semver + seq!['-'] + rustc_hash.take(9) + kind + opt_level + seq!['.'] + dashes_for_underscores(
        target_triple,
    )
}

/// The build metadata of a plugin build (see `build_meta_text`); `debug`
/// says whether the build is a debug build.
pub fn build_meta(rustc_semver: &str, rustc_hash: &str, debug: bool, opt_level: &str, target_triple: &str) -> (r:
    String)
    requires
        rustc_hash@.len() >= 9,
    ensures
        r@ == build_meta_text(rustc_semver@, rustc_hash@, debug, opt_level@, target_triple@),
{
    let mut r = String::new();
    r.append(rustc_semver);
    string_push(&mut r, '-');
    let hash = chars_of(rustc_hash);
    let mut i: usize = 0;
    let ghost before = r@;
    while i < 9
        invariant
            i <= 9,
            hash@ == rustc_hash@,
            hash@.len() >= 9,
            r@ == before + hash@.take(i as int),
        decreases 9 - i,
    {
        string_push(&mut r, hash[i]);
        i = i + 1;
        assert(r@ =~= before + hash@.take(i as int));
    }
    if debug {
        r.append("-debug.");
        proof {
            reveal_strlit("-debug.");
        }
    } else {
        r.append("-release.");
        proof {
            reveal_strlit("-release.");
        }
    }
    r.append(opt_level);
    string_push(&mut r, '.');
    let triple = chars_of(target_triple);
    let ghost mid = r@;
    let mut j: usize = 0;
    while j < triple.len()
        invariant
            j <= triple@.len(),
            triple@ == target_triple@,
            r@ == mid + dashes_for_underscores(triple@.take(j as int)),
        decreases triple.len() - j,
    {
        let c = triple[j];
        string_push(&mut r, if c == '_' { '-' } else { c });
        j = j + 1;
        assert(r@ =~= mid + dashes_for_underscores(triple@.take(j as int)));
    }
    assert(triple@.take(triple@.len() as int) =~= triple@);
    assert(r@ =~= build_meta_text(rustc_semver@, rustc_hash@, debug, opt_level@, target_triple@));
    r
}

/// The identifier and version of a plugin, its build details in the
/// version's build metadata.
pub struct PluginInfo {
    pub identifier: String,
    pub version: Version,
}

impl PluginInfo {
    /// The info of plugin `name` at `version`, with the build metadata replaced
    /// by `build_meta`.
    pub fn new(name: &str, version: Version, build_meta: &str) -> (r: PluginInfo)
        requires
            build_ok(build_meta@),
        ensures
            r.identifier@ == name@,
            r.version@ == (version@.0, version@.1, version@.2, version@.3, build_meta@),
    {
        let v = version.with_build(build_meta);
        PluginInfo { identifier: name.to_owned(), version: v.unwrap() }
    }

    /// Like `new`, but `None` where `semver` does not accept `build_meta` as
    /// build metadata.
    pub fn try_new(name: &str, version: Version, build_meta: &str) -> (r: Option<PluginInfo>)
        ensures
            match r {
                Some(info) => build_ok(build_meta@) && info.identifier@ == name@ && info.version@ == (
                    version@.0,
                    version@.1,
                    version@.2,
                    version@.3,
                    build_meta@,
                ),
                None => !build_ok(build_meta@),
            },
    {
        if crate::version::build_metadata_valid(build_meta) {
            Some(PluginInfo::new(name, version, build_meta))
        } else {
            None
        }
    }
}

/// The metadata of a loaded plugin.
pub struct PluginMeta {
    /// The identity path of the plugin.
    pub path: String,
    /// The path the library was loaded from (a copy when hot reloading).
    pub load_path: String,
    pub name: String,
    pub plugin_info: PluginInfo,
    pub dep_id: u64,
    pub hot_reloadable: bool,
    /// Last modification of the library, in seconds since the Unix epoch.
    pub last_modified: u64,
}

/// The plugin api: loads plugin libraries, keeps them in the plugin registry
/// and reloads those that changed on disk. The registry keeps its books in a
/// `PluginTable`; loading a library is the application's part.
pub trait PluginApi {
    /// Loads the library at `path`; `None` where it cannot be loaded.
    fn load(&self, path: &str, hot_reloadable: bool) -> Option<PluginHandle>;

    /// The registry's version tick, increased by every change of the registry.
    fn version_tick(&self) -> u64;

    fn unload(&self, handle: PluginHandle);

    fn reload(&self, handle: PluginHandle);

    /// The path the plugin is loaded from at its next reload.
    fn set_path(&self, handle: PluginHandle, new_path: String);

    /// Checks the loaded plugins for changes on disk and reloads those that
    /// changed.
    fn check_hot_reload_tick(&self) -> bool;

    fn info(&self, handle: PluginHandle) -> Option<PluginMeta>;
}

/// The entry function that the static plugin registers.
pub fn inside_static_plugin(x: i32) -> (r: i32)
    requires
        x <= i32::MAX - 2,
    ensures
        r == x + 2,
{
    x + 2
}

/// The entry function that the foundation library registers for itself.
pub fn inside_lib_fn(x: i32) -> (r: i32)
    requires
        x < i32::MAX,
    ensures
        r == x + 1,
{
    x + 1
}

/// Referenced by the application so that the static plugin is linked in.
pub fn dummy() {
}

/// The name of a plugin: the last component of its path, or the empty name.
pub fn get_plugin_name_from_path(path: &str) -> (r: String)
    ensures
        r@ == (match path_file_name_of(path@) {
            Some(n) => n,
            None => Seq::empty(),
        }),
{
    match path_file_name(path) {
        Some(n) => n,
        None => String::new(),
    }
}

/// `.hot_reload.`
pub open spec fn hot_reload_infix() -> Seq<char> {
    seq!['.', 'h', 'o', 't', '_', 'r', 'e', 'l', 'o', 'a', 'd', '.']
}

/// Whether `t` occurs in `s` at position `i`.
pub open spec fn occurs_at(s: Seq<char>, t: Seq<char>, i: int) -> bool {
    0 <= i && i + t.len() <= s.len() && s.subrange(i, i + t.len()) == t
}

pub open spec fn contains_text(s: Seq<char>, t: Seq<char>) -> bool {
    exists|i: int| occurs_at(s, t, i)
}

fn occurs_at_exec(s: &Vec<char>, t: &Vec<char>, i: usize) -> (b: bool)
    ensures
        b == occurs_at(s@, t@, i as int),
{
    if i > s.len() || t.len() > s.len() - i {
        return false;
    }
    let mut k: usize = 0;
    while k < t.len()
        invariant
            k <= t@.len(),
            i + t.len() <= s.len(),
            forall|m: int| 0 <= m < k ==> s@[i + m] == t@[m],
        decreases t.len() - k,
    {
        if s[i + k] != t[k] {
            assert(s@.subrange(i as int, i + t@.len())[k as int] != t@[k as int]);
            return false;
        }
        k = k + 1;
    }
    assert(s@.subrange(i as int, i + t@.len()) =~= t@);
    true
}

fn contains_exec(s: &Vec<char>, t: &Vec<char>) -> (b: bool)
    ensures
        b == contains_text(s@, t@),
{
    if t.len() == 0 {
        assert(s@.subrange(0, 0) =~= t@);
        assert(occurs_at(s@, t@, 0));
        return true;
    }
    if t.len() > s.len() {
        return false;
    }
    let mut i: usize = 0;
    while i <= s.len() - t.len()
        invariant
            t@.len() > 0,
            t@.len() <= s@.len(),
            forall|j: int| 0 <= j < i ==> !occurs_at(s@, t@, j),
        decreases s.len() - i,
    {
        if occurs_at_exec(s, t, i) {
            return true;
        }
        i = i + 1;
    }
    false
}

/// Whether a file of a plugin directory is listed as a plugin: not a
/// hot-reload copy, and ending in the platform's library extension.
pub open spec fn is_listed_plugin_file(file_name: Seq<char>, extension: Seq<char>) -> bool {
    !contains_text(file_name, hot_reload_infix()) && file_name.len() >= extension.len() && file_name.skip(
        file_name.len() - extension.len(),
    ) == extension
}

fn hot_reload_infix_chars() -> (v: Vec<char>)
    ensures
        v@ == hot_reload_infix(),
{
    let v = vec!['.', 'h', 'o', 't', '_', 'r', 'e', 'l', 'o', 'a', 'd', '.'];
    assert(v@ =~= hot_reload_infix());
    v
}

/// The file filter of `get_plugins_in_directory`.
pub fn listed_plugin_file(file_name: &str, extension: &str) -> (b: bool)
    ensures
        b == is_listed_plugin_file(file_name@, extension@),
{
    let name = chars_of(file_name);
    let ext = chars_of(extension);
    let infix = hot_reload_infix_chars();
    if contains_exec(&name, &infix) {
        return false;
    }
    if name.len() < ext.len() {
        return false;
    }
    let start = name.len() - ext.len();
    let r = occurs_at_exec(&name, &ext, start);
    assert(name@.skip(start as int) =~= name@.subrange(start as int, start + ext@.len()));
    r
}

/// Whether a directory entry is a hot-reload copy of the plugin with stem
/// `stem`: `{stem}.hot_reload.{digits}.{ext}`, the part after the prefix
/// split by `.` into exactly two parts, the first all ASCII digits.
pub open spec fn is_hot_reload_copy_name(entry: Seq<char>, stem: Seq<char>) -> bool {
    let prefix = stem + hot_reload_infix();
    let rest = entry.skip(prefix.len() as int);
    &&& entry.len() >= prefix.len()
    &&& entry.take(prefix.len() as int) == prefix
    &&& exists|d: int|
        0 <= d < rest.len() && rest[d] == '.' && (forall|k: int| 0 <= k < rest.len() && k != d
            ==> rest[k] != '.') && all_ascii_digits(rest.take(d))
}

/// The filter of the clean-up of hot-reload copies.
pub fn is_hot_reload_copy(entry: &str, stem: &str) -> (b: bool)
    ensures
        b == is_hot_reload_copy_name(entry@, stem@),
{
    let e = chars_of(entry);
    let mut prefix = chars_of(stem);
    let ghost stem_chars = prefix@;
    let infix = hot_reload_infix_chars();
    let mut i: usize = 0;
    while i < infix.len()
        invariant
            i <= infix@.len(),
            infix@ == hot_reload_infix(),
            prefix@ == stem_chars + infix@.take(i as int),
        decreases infix.len() - i,
    {
        prefix.push(infix[i]);
        i = i + 1;
        assert(prefix@ =~= stem_chars + infix@.take(i as int));
    }
    assert(infix@.take(infix@.len() as int) =~= infix@);
    if e.len() < prefix.len() || !occurs_at_exec(&e, &prefix, 0) {
        proof {
            if e.len() >= prefix.len() {
                assert(e@.subrange(0, prefix@.len() as int) =~= e@.take(prefix@.len() as int));
            }
        }
        return false;
    }
    assert(e@.subrange(0, prefix@.len() as int) =~= e@.take(prefix@.len() as int));
    let ghost rest = e@.skip(prefix@.len() as int);
    // scan the rest: count the dots, remember the first, check digits before it
    let base = prefix.len();
    let mut j: usize = base;
    let mut dots: usize = 0;
    let mut first_dot: usize = 0;
    let mut digits_before = true;
    while j < e.len()
        invariant
            base <= j <= e@.len(),
            rest == e@.skip(base as int),
            dots <= 2,
            dots == 0 ==> (forall|k: int| 0 <= k < j - base ==> rest[k] != '.') && (digits_before
                == all_ascii_digits(rest.take(j - base))),
            dots >= 1 ==> 0 <= first_dot < j - base && rest[first_dot as int] == '.' && (forall|k: int|
                0 <= k < first_dot ==> rest[k] != '.') && digits_before == all_ascii_digits(
                rest.take(first_dot as int),
            ),
            dots == 1 ==> forall|k: int| 0 <= k < j - base && k != first_dot ==> rest[k] != '.',
            dots == 2 ==> exists|k: int| 0 <= k < j - base && k != first_dot && rest[k] == '.',
        decreases e.len() - j,
    {
        let c = e[j];
        assert(rest[j - base] == c);
        if c == '.' {
            if dots == 0 {
                first_dot = j - base;
                dots = 1;
            } else if dots == 1 {
                dots = 2;
            }
        } else if dots == 0 {
            proof {
                assert(rest.take(j - base + 1) =~= rest.take(j - base).push(c));
                if digits_before && '0' <= c && c <= '9' {
                    assert forall|k: int| 0 <= k < rest.take(j - base + 1).len() implies crate::path::is_ascii_digit(
                        #[trigger] rest.take(j - base + 1)[k],
                    ) by {
                        if k < j - base {
                            assert(rest.take(j - base + 1)[k] == rest.take(j - base)[k]);
                        }
                    }
                }
                if all_ascii_digits(rest.take(j - base + 1)) {
                    assert(crate::path::is_ascii_digit(rest.take(j - base + 1)[j - base]));
                    assert forall|k: int| 0 <= k < rest.take(j - base).len() implies crate::path::is_ascii_digit(
                        #[trigger] rest.take(j - base)[k],
                    ) by {
                        assert(rest.take(j - base + 1)[k] == rest.take(j - base)[k]);
                    }
                }
            }
            digits_before = digits_before && '0' <= c && c <= '9';
        }
        j = j + 1;
    }
    let r = dots == 1 && digits_before;
    proof {
        if dots == 1 {
            assert(is_hot_reload_copy_name(e@, stem@) == digits_before) by {
                if digits_before {
                    assert(0 <= first_dot < rest.len() && rest[first_dot as int] == '.');
                } else {
                    if exists|d: int|
                        0 <= d < rest.len() && rest[d] == '.' && (forall|k: int| 0 <= k < rest.len() && k != d
                            ==> rest[k] != '.') && all_ascii_digits(rest.take(d)) {
                        let d = choose|d: int|
                            0 <= d < rest.len() && rest[d] == '.' && (forall|k: int| 0 <= k < rest.len() && k != d
                                ==> rest[k] != '.') && all_ascii_digits(rest.take(d));
                        assert(d == first_dot);
                    }
                }
            }
        } else if dots == 0 {
            assert(!is_hot_reload_copy_name(e@, stem@)) by {
                if exists|d: int|
                    0 <= d < rest.len() && rest[d] == '.' && (forall|k: int| 0 <= k < rest.len() && k != d
                        ==> rest[k] != '.') && all_ascii_digits(rest.take(d)) {
                    let d = choose|d: int|
                        0 <= d < rest.len() && rest[d] == '.' && (forall|k: int| 0 <= k < rest.len() && k != d
                            ==> rest[k] != '.') && all_ascii_digits(rest.take(d));
                    assert(rest[d] != '.');
                }
            }
        } else {
            assert(!is_hot_reload_copy_name(e@, stem@)) by {
                let k2 = choose|k: int| 0 <= k < j - base && k != first_dot && rest[k] == '.';
                if exists|d: int|
                    0 <= d < rest.len() && rest[d] == '.' && (forall|k: int| 0 <= k < rest.len() && k != d
                        ==> rest[k] != '.') && all_ascii_digits(rest.take(d)) {
                    let d = choose|d: int|
                        0 <= d < rest.len() && rest[d] == '.' && (forall|k: int| 0 <= k < rest.len() && k != d
                            ==> rest[k] != '.') && all_ascii_digits(rest.take(d));
                    assert(d == first_dot || d == k2);
                }
            }
        }
    }
    r
}

/// The file name of a hot-reload copy of the plugin with stem `stem` and
/// extension `ext`: `{stem}.hot_reload.{timestamp}.{ext}` when reloading,
/// `{stem}.hot_reload.{ext}` otherwise.
pub open spec fn hot_reload_copy_file(stem: Seq<char>, ext: Seq<char>, timestamp: Option<u64>) -> Seq<char> {
    let base = stem + seq!['.', 'h', 'o', 't', '_', 'r', 'e', 'l', 'o', 'a', 'd'];
    let named = match timestamp {
        Some(t) => base + seq!['.'] + decimal(t as nat),
        None => base,
    };
    named + seq!['.'] + ext
}

/// The path of the hot-reload copy: `{directory}/{copy file}`.
pub fn hot_reload_copy_path(directory: &str, stem: &str, ext: &str, timestamp: Option<u64>) -> (r: String)
    ensures
        r@ == directory@ + seq!['/'] + hot_reload_copy_file(stem@, ext@, timestamp),
{
    let mut r = String::new();
    r.append(directory);
    string_push(&mut r, '/');
    r.append(stem);
    r.append(".hot_reload");
    proof {
        reveal_strlit(".hot_reload");
    }
    match timestamp {
        Some(t) => {
            string_push(&mut r, '.');
            push_decimal(&mut r, t);
        },
        None => {},
    }
    string_push(&mut r, '.');
    r.append(ext);
    assert(r@ =~= directory@ + seq!['/'] + hot_reload_copy_file(stem@, ext@, timestamp));
    r
}

/// A plugin context loads where the registry's api version is not below the
/// version the plugin was built against.
pub fn registry_version_accepted(actual: &Version, requested: &Version) -> (r: bool)
    ensures
        r == !version_lt(actual@, requested@),
{
    !actual.precedes(requested)
}

/// The plugin that the hot-reload check looks at on this tick: the counter,
/// taken modulo the number of plugins.
pub fn hot_reload_check_index(counter: u64, plugin_count: usize) -> (r: usize)
    requires
        plugin_count > 0,
    ensures
        r == (counter as usize) % plugin_count,
        r < plugin_count,
{
    (counter as usize) % plugin_count
}

/// Whether a plugin counts as modified: it is hot reloadable and the
/// modification time read from disk (if it could be read) differs from the
/// one recorded at load.
pub fn modified_since_load(hot_reloadable: bool, last_modified: u64, modified_on_disk: Option<u64>) -> (r: bool)
    ensures
        r == (hot_reloadable && modified_on_disk is Some && modified_on_disk->0 != last_modified),
{
    match modified_on_disk {
        Some(m) => hot_reloadable && m != last_modified,
        None => false,
    }
}

/// What the hot-reload check knows of a loaded plugin: whether it is hot
/// reloadable, the modification time recorded at load, and the one read from
/// disk now (`None` where it could not be read).
pub struct PluginDiskState {
    pub hot_reloadable: bool,
    pub last_modified: u64,
    pub modified_on_disk: Option<u64>,
}

pub open spec fn state_modified(s: PluginDiskState) -> bool {
    s.hot_reloadable && s.modified_on_disk is Some && s.modified_on_disk->0 != s.last_modified
}

/// The positions of the plugins that a whole reload pass reloads: those
/// modified since they were loaded, in the order of the plugin handles.
pub fn modified_plugins(states: &Vec<PluginDiskState>) -> (r: Vec<usize>)
    ensures
        forall|k: int| 0 <= k < r@.len() ==> r@[k] < states@.len() && state_modified(states@[r@[k] as int]),
        forall|a: int, b: int| 0 <= a < b < r@.len() ==> r@[a] < r@[b],
        forall|i: int| 0 <= i < states@.len() && state_modified(#[trigger] states@[i]) ==> r@.contains(i as usize),
{
    let mut r: Vec<usize> = Vec::new();
    let mut i: usize = 0;
    while i < states.len()
        invariant
            i <= states@.len(),
            forall|k: int| 0 <= k < r@.len() ==> r@[k] < i && state_modified(states@[r@[k] as int]),
            forall|a: int, b: int| 0 <= a < b < r@.len() ==> r@[a] < r@[b],
            forall|j: int| 0 <= j < i && state_modified(#[trigger] states@[j]) ==> r@.contains(j as usize),
        decreases states.len() - i,
    {
        let s = &states[i];
        if modified_since_load(s.hot_reloadable, s.last_modified, s.modified_on_disk) {
            let ghost before = r@;
            r.push(i);
            proof {
                assert forall|j: int| 0 <= j < i + 1 && state_modified(#[trigger] states@[j]) implies r@.contains(j as usize) by {
                    if j < i {
                        let k = choose|k: int| 0 <= k < before.len() && before[k] == j as usize;
                        assert(r@[k] == j as usize);
                    } else {
                        assert(r@[before.len() as int] == i);
                    }
                }
            }
        }
        i = i + 1;
    }
    r
}

/// What opening a plugin library for appending gave.
#[derive(PartialEq, Eq, Structural, Clone, Copy)]
pub enum OpenOutcome {
    Opened,
    PermissionDenied,
    WouldBlock,
    OtherError,
}

/// Whether a plugin can be loaded: it exists and can be opened for writing.
/// Permission and locking errors mean it cannot (`Ok(false)`); any other
/// error is handed on (`Err`).
pub fn can_load_plugin(exists: bool, open: OpenOutcome) -> (r: Result<bool, ()>)
    ensures
        r == (if !exists {
            Ok(false)
        } else {
            match open {
                OpenOutcome::Opened => Ok(true),
                OpenOutcome::PermissionDenied => Ok(false),
                OpenOutcome::WouldBlock => Ok(false),
                OpenOutcome::OtherError => Err(()),
            }
        }),
{
    if !exists {
        return Ok(false);
    }
    match open {
        OpenOutcome::Opened => Ok(true),
        OpenOutcome::PermissionDenied => Ok(false),
        OpenOutcome::WouldBlock => Ok(false),
        OpenOutcome::OtherError => Err(()),
    }
}

/// The plugin registry's version tick after a change (it wraps).
pub fn increased_version_tick(tick: u64) -> (r: u64)
    ensures
        r == (if tick == u64::MAX { 0 } else { tick + 1 }),
{
    if tick == u64::MAX { 0 } else { tick + 1 }
}

/// A copy made while reloading (`{stem}.hot_reload.{timestamp}.{ext}`) is one
/// that the clean-up of hot-reload copies removes, for an extension without
/// a dot.
pub proof fn law_reload_copies_are_cleaned_up(stem: Seq<char>, ext: Seq<char>, timestamp: u64)
    requires
        forall|i: int| 0 <= i < ext.len() ==> ext[i] != '.',
    ensures
        is_hot_reload_copy_name(hot_reload_copy_file(stem, ext, Some(timestamp)), stem),
{
    let dec = decimal(timestamp as nat);
    crate::path::lemma_decimal(timestamp as nat);
    let entry = hot_reload_copy_file(stem, ext, Some(timestamp));
    let prefix = stem + hot_reload_infix();
    let rest = dec + seq!['.'] + ext;
    assert(entry =~= prefix + rest);
    assert(entry.take(prefix.len() as int) =~= prefix);
    assert(entry.skip(prefix.len() as int) =~= rest);
    let d = dec.len() as int;
    assert(rest[d] == '.');
    assert forall|k: int| 0 <= k < rest.len() && k != d implies rest[k] != '.' by {
        if k < d {
            assert(rest[k] == dec[k]);
            assert(crate::path::is_ascii_digit(dec[k]));
        } else {
            assert(rest[k] == ext[k - d - 1]);
        }
    }
    assert(rest.take(d) =~= dec);
}

/// No hot-reload copy is listed as a plugin of its directory.
pub proof fn law_copies_are_not_listed(stem: Seq<char>, ext: Seq<char>, timestamp: Option<u64>, listed_ext: Seq<char>)
    ensures
        !is_listed_plugin_file(hot_reload_copy_file(stem, ext, timestamp), listed_ext),
{
    let entry = hot_reload_copy_file(stem, ext, timestamp);
    let i = stem.len() as int;
    assert(entry.subrange(i, i + hot_reload_infix().len()) =~= hot_reload_infix());
    assert(occurs_at(entry, hot_reload_infix(), i));
}

/// The version tick after one change (it wraps).
pub open spec fn next_tick(t: u64) -> u64 {
    if t == u64::MAX { 0 } else { (t + 1) as u64 }
}

/// The plugin name that a plugin path gives (see `get_plugin_name_from_path`).
pub open spec fn plugin_name_of(path: Seq<char>) -> Seq<char> {
    match path_file_name_of(path) {
        Some(n) => n,
        None => Seq::empty(),
    }
}

/// `handles` without `h`.
pub open spec fn without_handle(handles: Seq<usize>, h: usize) -> Seq<usize>
    decreases handles.len(),
{
    if handles.len() == 0 {
        Seq::empty()
    } else {
        let rest = without_handle(handles.drop_last(), h);
        if handles.last() == h { rest } else { rest.push(handles.last()) }
    }
}

/// The handles other than `h`.
pub open spec fn other_than(h: usize) -> spec_fn(usize) -> bool {
    |x: usize| x != h
}

/// Unloading drops exactly the handle it names: the list that is left is the
/// old list with every `h` removed and every other handle kept, in order; a
/// handle other than `h` is in it exactly where it was in the old list, `h`
/// never is, and where `h` was not listed the list stays as it was.
pub proof fn law_unload_drops_only_its_handle(handles: Seq<usize>, h: usize)
    ensures
        without_handle(handles, h) == handles.filter(other_than(h)),
        !without_handle(handles, h).contains(h),
        forall|x: usize| x != h ==> (#[trigger] without_handle(handles, h).contains(x) <==> handles.contains(x)),
        !handles.contains(h) ==> without_handle(handles, h) == handles,
        without_handle(handles, h).len() <= handles.len(),
    decreases handles.len(),
{
    reveal(Seq::filter);
    let r = without_handle(handles, h);
    if handles.len() == 0 {
        assert(handles.filter(other_than(h)) =~= handles);
        assert(r =~= handles);
    } else {
        let init = handles.drop_last();
        let last = handles.last();
        law_unload_drops_only_its_handle(init, h);
        let rest = without_handle(init, h);
        assert(handles =~= init.push(last));
        assert forall|x: usize| x != h implies (r.contains(x) <==> handles.contains(x)) by {
            if handles.contains(x) {
                let i = choose|i: int| 0 <= i < handles.len() && handles[i] == x;
                if i == handles.len() - 1 {
                    assert(r[r.len() - 1] == x);
                } else {
                    assert(init[i] == x);
                    assert(init.contains(x));
                    assert(rest.contains(x));
                    let j = choose|j: int| 0 <= j < rest.len() && rest[j] == x;
                    assert(r[j] == x);
                }
            }
            if r.contains(x) {
                let j = choose|j: int| 0 <= j < r.len() && r[j] == x;
                if j < rest.len() {
                    assert(rest[j] == x);
                    assert(rest.contains(x));
                    assert(init.contains(x));
                    let i = choose|i: int| 0 <= i < init.len() && init[i] == x;
                    assert(handles[i] == x);
                } else {
                    assert(handles[handles.len() - 1] == x);
                }
            }
        }
        if r.contains(h) {
            let j = choose|j: int| 0 <= j < r.len() && r[j] == h;
            if j < rest.len() {
                assert(rest[j] == h);
                assert(rest.contains(h));
            }
        }
        if !handles.contains(h) {
            if init.contains(h) {
                let i = choose|i: int| 0 <= i < init.len() && init[i] == h;
                assert(handles[i] == h);
            }
            assert(handles[handles.len() - 1] == last);
        }
    }
}

/// A loaded plugin: its metadata and the loaded library.
pub struct PluginEntry<L> {
    pub meta: PluginMeta,
    pub library: L,
}

/// The plugin registry's books: the loaded plugins by handle, the handles in
/// load order, the plugins unloaded so far (kept, since their code may still
/// be in use) and the version tick, which rises on every change.
pub struct PluginTable<L> {
    slots: Vec<Option<PluginEntry<L>>>,
    handles: Vec<usize>,
    unloaded: Vec<PluginEntry<L>>,
    tick: u64,
}

impl<L> PluginTable<L> {
    pub closed spec fn entries(&self) -> Seq<Option<PluginEntry<L>>> {
        self.slots@
    }

    pub closed spec fn handle_list(&self) -> Seq<usize> {
        self.handles@
    }

    pub closed spec fn unloaded_list(&self) -> Seq<PluginEntry<L>> {
        self.unloaded@
    }

    pub closed spec fn tick(&self) -> u64 {
        self.tick
    }

    /// Whether `h` names a loaded plugin.
    pub open spec fn holds(&self, h: PluginHandle) -> bool {
        h.0 < self.entries().len() && self.entries()[h.0 as int] is Some
    }

    pub fn new() -> (t: PluginTable<L>)
        ensures
            t.entries() == Seq::<Option<PluginEntry<L>>>::empty(),
            t.handle_list() == Seq::<usize>::empty(),
            t.unloaded_list() == Seq::<PluginEntry<L>>::empty(),
            t.tick() == 0,
    {
        PluginTable { slots: Vec::new(), handles: Vec::new(), unloaded: Vec::new(), tick: 0 }
    }

    pub fn version_tick(&self) -> (r: u64)
        ensures
            r == self.tick(),
    {
        self.tick
    }

    /// The handles of the loaded plugins, in load order.
    pub fn handles(&self) -> (r: &Vec<usize>)
        ensures
            r@ == self.handle_list(),
    {
        &self.handles
    }

    /// The loaded plugin of `h`.
    pub fn get(&self, h: PluginHandle) -> (r: Option<&PluginEntry<L>>)
        ensures
            match r {
                Some(e) => self.holds(h) && self.entries()[h.0 as int] == Some(*e),
                None => !self.holds(h),
            },
    {
        if h.0 < self.slots.len() {
            match &self.slots[h.0] {
                Some(e) => Some(e),
                None => None,
            }
        } else {
            None
        }
    }

    /// The metadata of the loaded plugin of `h`.
    pub fn info(&self, h: PluginHandle) -> (r: Option<&PluginMeta>)
        ensures
            match r {
                Some(m) => self.holds(h) && self.entries()[h.0 as int]->Some_0.meta == *m,
                None => !self.holds(h),
            },
    {
        match self.get(h) {
            Some(e) => Some(&e.meta),
            None => None,
        }
    }

    /// Records a load attempt: the tick rises once for the attempt and once
    /// more where a plugin was loaded, which gets a new handle at the end of
    /// the handle list.
    pub fn record_load(&mut self, loaded: Option<PluginEntry<L>>) -> (h: Option<PluginHandle>)
        ensures
            final(self).unloaded_list() == old(self).unloaded_list(),
            match loaded {
                Some(e) => {
                    &&& h == Some(PluginHandle(old(self).entries().len() as usize))
                    &&& final(self).entries() == old(self).entries().push(Some(e))
                    &&& final(self).handle_list() == old(self).handle_list().push(old(self).entries().len() as usize)
                    &&& final(self).tick() == next_tick(next_tick(old(self).tick()))
                },
                None => {
                    &&& h is None
                    &&& final(self).entries() == old(self).entries()
                    &&& final(self).handle_list() == old(self).handle_list()
                    &&& final(self).tick() == next_tick(old(self).tick())
                },
            },
    {
        self.tick = increased_version_tick(self.tick);
        match loaded {
            Some(e) => {
                let key = self.slots.len();
                self.slots.push(Some(e));
                self.tick = increased_version_tick(self.tick);
                self.handles.push(key);
                Some(PluginHandle(key))
            },
            None => None,
        }
    }

    /// Unloads the plugin of `h`: it moves to the unloaded list, its handle
    /// leaves the handle list and the tick rises. Nothing happens where `h`
    /// names no loaded plugin.
    pub fn unload(&mut self, h: PluginHandle) -> (found: bool)
        ensures
            found == old(self).holds(h),
            found ==> {
                &&& final(self).entries() == old(self).entries().update(h.0 as int, None)
                &&& final(self).handle_list() == without_handle(old(self).handle_list(), h.0)
                &&& final(self).handle_list() == old(self).handle_list().filter(other_than(h.0))
                &&& !final(self).handle_list().contains(h.0)
                &&& forall|x: usize| x != h.0 ==> (#[trigger] final(self).handle_list().contains(x)
                    <==> old(self).handle_list().contains(x))
                &&& final(self).unloaded_list() == old(self).unloaded_list().push(
                    old(self).entries()[h.0 as int]->Some_0,
                )
                &&& final(self).tick() == next_tick(old(self).tick())
            },
            !found ==> {
                &&& final(self).entries() == old(self).entries()
                &&& final(self).handle_list() == old(self).handle_list()
                &&& final(self).unloaded_list() == old(self).unloaded_list()
                &&& final(self).tick() == old(self).tick()
            },
    {
        if h.0 >= self.slots.len() {
            return false;
        }
        let taken = self.slots[h.0].take();
        match taken {
            Some(e) => {
                self.unloaded.push(e);
                let mut kept: Vec<usize> = Vec::new();
                let mut i: usize = 0;
                while i < self.handles.len()
                    invariant
                        i <= self.handles@.len(),
                        self.handles@ == old(self).handles@,
                        kept@ == without_handle(self.handles@.take(i as int), h.0),
                    decreases self.handles.len() - i,
                {
                    assert(self.handles@.take(i + 1).drop_last() =~= self.handles@.take(i as int));
                    let x = self.handles[i];
                    if x != h.0 {
                        kept.push(x);
                    }
                    i = i + 1;
                }
                assert(self.handles@.take(self.handles@.len() as int) =~= self.handles@);
                proof {
                    law_unload_drops_only_its_handle(self.handles@, h.0);
                }
                self.handles = kept;
                self.tick = increased_version_tick(self.tick);
                proof {
                    assert(self.slots@ =~= old(self).slots@.update(h.0 as int, None));
                }
                true
            },
            None => false,
        }
    }

    /// Records a reload of the plugin of `h`: where a new library was loaded,
    /// it takes the old one's place and the old one moves to the unloaded
    /// list; either way the tick rises. Nothing happens where `h` names no
    /// loaded plugin.
    pub fn record_reload(&mut self, h: PluginHandle, reloaded: Option<PluginEntry<L>>) -> (found: bool)
        ensures
            found == old(self).holds(h),
            final(self).handle_list() == old(self).handle_list(),
            found ==> final(self).tick() == next_tick(old(self).tick()),
            !found ==> final(self).tick() == old(self).tick(),
            match reloaded {
                Some(e) if found => {
                    &&& final(self).entries() == old(self).entries().update(h.0 as int, Some(e))
                    &&& final(self).unloaded_list() == old(self).unloaded_list().push(
                        old(self).entries()[h.0 as int]->Some_0,
                    )
                },
                _ => {
                    &&& final(self).entries() == old(self).entries()
                    &&& final(self).unloaded_list() == old(self).unloaded_list()
                },
            },
    {
        if h.0 >= self.slots.len() || self.slots[h.0].is_none() {
            return false;
        }
        match reloaded {
            Some(e) => {
                let old_entry = self.slots[h.0].take();
                self.slots.set(h.0, Some(e));
                match old_entry {
                    Some(o) => self.unloaded.push(o),
                    None => {},
                }
            },
            None => {},
        }
        self.tick = increased_version_tick(self.tick);
        true
    }

    /// Sets the path of the plugin of `h`, and its name from the path; the
    /// tick rises. Nothing happens where `h` names no loaded plugin.
    pub fn set_path(&mut self, h: PluginHandle, new_path: String) -> (found: bool)
        ensures
            found == old(self).holds(h),
            final(self).handle_list() == old(self).handle_list(),
            final(self).unloaded_list() == old(self).unloaded_list(),
            final(self).entries().len() == old(self).entries().len(),
            forall|j: int| 0 <= j < old(self).entries().len() && j != h.0 ==> final(self).entries()[j] == old(
                self,
            ).entries()[j],
            found ==> final(self).tick() == next_tick(old(self).tick()),
            !found ==> final(self).tick() == old(self).tick() && final(self).entries() == old(self).entries(),
            found ==> (final(self).entries()[h.0 as int] matches Some(e) && {
                let o = old(self).entries()[h.0 as int]->Some_0;
                &&& e.library == o.library
                &&& e.meta.path@ == new_path@
                &&& e.meta.name@ == plugin_name_of(new_path@)
                &&& e.meta.load_path == o.meta.load_path
                &&& e.meta.plugin_info == o.meta.plugin_info
                &&& e.meta.dep_id == o.meta.dep_id
                &&& e.meta.hot_reloadable == o.meta.hot_reloadable
                &&& e.meta.last_modified == o.meta.last_modified
            }),
    {
        if h.0 >= self.slots.len() {
            return false;
        }
        let taken = self.slots[h.0].take();
        match taken {
            Some(mut e) => {
                let name = get_plugin_name_from_path(new_path.as_str());
                e.meta.path = new_path;
                e.meta.name = name;
                self.slots.set(h.0, Some(e));
                self.tick = increased_version_tick(self.tick);
                true
            },
            None => {
                proof {
                    assert(self.slots@ =~= old(self).slots@);
                }
                false
            },
        }
    }
}

} // verus!
