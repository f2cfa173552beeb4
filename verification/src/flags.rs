//! Runtime feature flags: a set of flags, each named by the fixed type id of a
//! marker type, that plugins enable and disable while running.
use vstd::prelude::*;

verus! {

/// A feature flag, named by the fixed type id of its marker type.
#[derive(PartialEq, Eq, Structural, Clone, Copy)]
pub struct FeatureFlag(pub u64);

impl FeatureFlag {
    /// The flag of the marker type whose fixed type id is `type_id`.
    pub fn new(type_id: u64) -> (r: FeatureFlag)
        ensures
            r.0 == type_id,
    {
        FeatureFlag(type_id)
    }
}

/// The enabled flags, kept in ascending order of their ids.
pub struct FeatureFlagsRegistry {
    flags: Vec<u64>,
}

pub open spec fn strictly_ascending(s: Seq<u64>) -> bool {
    forall|i: int, j: int| 0 <= i < j < s.len() ==> s[i] < s[j]
}

/// The enabled ids after enabling (`true`) or disabling (`false`) `id`.
pub open spec fn flags_after_set(ids: Set<u64>, id: u64, enabled: bool) -> Set<u64> {
    if enabled { ids.insert(id) } else { ids.remove(id) }
}

/// The runtime feature flags api.
pub trait FeatureFlagsApi {
    /// The ids of the enabled flags.
    spec fn enabled_ids(&self) -> Set<u64>;

    /// Whether `flag` is enabled.
    fn is_enabled(&self, flag: FeatureFlag) -> (r: bool)
        ensures
            r == self.enabled_ids().contains(flag.0);

    /// Enables or disables `flag`.
    fn set_enabled(&mut self, flag: FeatureFlag, enabled: bool)
        ensures
            final(self).enabled_ids() == flags_after_set(old(self).enabled_ids(), flag.0, enabled);

    /// The enabled flags, each once, in ascending order of their ids.
    fn all_enabled(&self) -> (r: Vec<FeatureFlag>)
        ensures
            forall|x: u64| self.enabled_ids().contains(x) <==> exists|i: int|
                0 <= i < r@.len() && (#[trigger] r@[i]).0 == x,
            forall|i: int, j: int| 0 <= i < j < r@.len() ==> (#[trigger] r@[i]).0 < (#[trigger] r@[j]).0;
}

impl FeatureFlagsRegistry {
    #[verifier::type_invariant]
    closed spec fn ascending(self) -> bool {
        strictly_ascending(self.flags@)
    }

    /// The enabled flag ids, ascending.
    pub closed spec fn ids(&self) -> Seq<u64> {
        self.flags@
    }

    /// No flag enabled.
    pub fn new() -> (r: FeatureFlagsRegistry)
        ensures
            r.ids() == Seq::<u64>::empty(),
    {
        FeatureFlagsRegistry { flags: Vec::new() }
    }

    /// The position where `id` is, or where it would be inserted.
    fn position(&self, id: u64) -> (r: usize)
        ensures
            r <= self.ids().len(),
            forall|i: int| 0 <= i < r ==> self.ids()[i] < id,
            forall|i: int| r <= i < self.ids().len() ==> self.ids()[i] >= id,
    {
        proof {
            use_type_invariant(self);
        }
        let mut i: usize = 0;
        while i < self.flags.len() && self.flags[i] < id
            invariant
                i <= self.flags@.len(),
                strictly_ascending(self.flags@),
                forall|k: int| 0 <= k < i ==> self.flags@[k] < id,
            decreases self.flags.len() - i,
        {
            i = i + 1;
        }
        i
    }

    /// The flags ascending by id.
    pub fn enabled_in_order(&self) -> (r: Vec<FeatureFlag>)
        ensures
            r@.len() == self.ids().len(),
            forall|i: int| 0 <= i < r@.len() ==> (#[trigger] r@[i]).0 == self.ids()[i],
    {
        let mut r: Vec<FeatureFlag> = Vec::new();
        let mut i: usize = 0;
        while i < self.flags.len()
            invariant
                i <= self.flags@.len(),
                r@.len() == i,
                forall|k: int| 0 <= k < i ==> (#[trigger] r@[k]).0 == self.flags@[k],
            decreases self.flags.len() - i,
        {
            r.push(FeatureFlag(self.flags[i]));
            i = i + 1;
        }
        r
    }
}

impl FeatureFlagsApi for FeatureFlagsRegistry {
    open spec fn enabled_ids(&self) -> Set<u64> {
        self.ids().to_set()
    }

    fn is_enabled(&self, flag: FeatureFlag) -> (r: bool) {
        let p = self.position(flag.0);
        let r = p < self.flags.len() && self.flags[p] == flag.0;
        proof {
            if self.ids().to_set().contains(flag.0) {
                let w = choose|w: int| 0 <= w < self.ids().len() && self.ids()[w] == flag.0;
                assert(self.ids().contains(flag.0));
                if !r {
                    use_type_invariant(self);
                    assert(w >= p as int);
                    if w > p as int {
                        assert(self.ids()[p as int] < self.ids()[w]);
                    }
                }
            }
            if r {
                assert(self.ids().contains(flag.0));
            }
        }
        r
    }

    fn set_enabled(&mut self, flag: FeatureFlag, enabled: bool) {
        proof {
            use_type_invariant(&*self);
        }
        let ghost before = self.flags@;
        let id = flag.0;
        let p = self.position(id);
        let present = p < self.flags.len() && self.flags[p] == id;
        if enabled {
            if !present {
                let mut flags: Vec<u64> = Vec::new();
                std::mem::swap(&mut flags, &mut self.flags);
                flags.insert(p, id);
                proof {
                    assert(flags@ =~= before.insert(p as int, id));
                    assert forall|a: int, b: int| 0 <= a < b < flags@.len() implies flags@[a] < flags@[b] by {
                        let aa = if a < p { a } else if a == p { -1 } else { a - 1 };
                        let bb = if b < p { b } else if b == p { -1 } else { b - 1 };
                        if aa >= 0 && bb >= 0 {
                            assert(before[aa] < before[bb]);
                        }
                    }
                }
                self.flags = flags;
                proof {
                    assert forall|x: u64| #[trigger] self.flags@.to_set().contains(x) == before.to_set().insert(id).contains(x) by {
                        if before.contains(x) {
                            let w = choose|w: int| 0 <= w < before.len() && before[w] == x;
                            if w < p as int {
                                assert(self.flags@[w] == x);
                            } else {
                                assert(self.flags@[w + 1] == x);
                            }
                        }
                        if x == id {
                            assert(self.flags@[p as int] == id);
                        }
                        if self.flags@.contains(x) {
                            let w = choose|w: int| 0 <= w < self.flags@.len() && self.flags@[w] == x;
                            if w < p as int {
                                assert(before[w] == x);
                            } else if w > p as int {
                                assert(before[w - 1] == x);
                            }
                        }
                    }
                    assert(self.flags@.to_set() =~= before.to_set().insert(id));
                }
            } else {
                proof {
                    assert(before.to_set() =~= before.to_set().insert(id)) by {
                        assert(before.contains(id));
                    }
                }
            }
        } else {
            if present {
                let mut flags: Vec<u64> = Vec::new();
                std::mem::swap(&mut flags, &mut self.flags);
                flags.remove(p);
                proof {
                    assert(flags@ =~= before.remove(p as int));
                    assert forall|a: int, b: int| 0 <= a < b < flags@.len() implies flags@[a] < flags@[b] by {
                        let aa = if a < p { a } else { a + 1 };
                        let bb = if b < p { b } else { b + 1 };
                        assert(before[aa] < before[bb]);
                    }
                }
                self.flags = flags;
                proof {
                    assert forall|x: u64| #[trigger] self.flags@.to_set().contains(x) == before.to_set().remove(id).contains(x) by {
                        if before.contains(x) && x != id {
                            let w = choose|w: int| 0 <= w < before.len() && before[w] == x;
                            if w < p as int {
                                assert(self.flags@[w] == x);
                            } else {
                                assert(w != p as int);
                                assert(self.flags@[w - 1] == x);
                            }
                        }
                        if self.flags@.contains(x) {
                            let w = choose|w: int| 0 <= w < self.flags@.len() && self.flags@[w] == x;
                            if w < p as int {
                                assert(before[w] == x);
                            } else {
                                assert(before[w + 1] == x);
                                assert(before[p as int] < before[w + 1]);
                            }
                        }
                    }
                    assert(self.flags@.to_set() =~= before.to_set().remove(id));
                }
            } else {
                proof {
                    assert(before.to_set() =~= before.to_set().remove(id)) by {
                        if before.contains(id) {
                            let w = choose|w: int| 0 <= w < before.len() && before[w] == id;
                            if w > p as int {
                                assert(before[p as int] < before[w]);
                            }
                        }
                    }
                }
            }
        }
    }

    fn all_enabled(&self) -> (r: Vec<FeatureFlag>) {
        proof {
            use_type_invariant(self);
        }
        let r = self.enabled_in_order();
        proof {
            assert forall|x: u64| self.enabled_ids().contains(x) <==> exists|i: int|
                0 <= i < r@.len() && (#[trigger] r@[i]).0 == x by {
                if self.ids().contains(x) {
                    let w = choose|w: int| 0 <= w < self.ids().len() && self.ids()[w] == x;
                    assert(r@[w].0 == x);
                }
                if exists|i: int| 0 <= i < r@.len() && (#[trigger] r@[i]).0 == x {
                    let i = choose|i: int| 0 <= i < r@.len() && (#[trigger] r@[i]).0 == x;
                    assert(self.ids()[i] == x);
                }
            }
        }
        r
    }
}

/// A flag reads back as it was last set, and setting one flag leaves every
/// other flag as it was.
pub proof fn law_flag_reads_back(ids: Set<u64>, id: u64, enabled: bool, other: u64)
    ensures
        flags_after_set(ids, id, enabled).contains(id) == enabled,
        other != id ==> flags_after_set(ids, id, enabled).contains(other) == ids.contains(other),
{
}

} // verus!
