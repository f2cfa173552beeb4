//! Hashers for keys that are hashes already.
use vstd::prelude::*;

verus! {

/// Builds `PassHasher`s, for keys whose `Hash` writes one well-distributed
/// `u64` once.
pub struct PassHash;

/// A hasher whose result is the last `u64` written to it.
pub struct PassHasher(pub u64);

impl PassHash {
    pub fn build_hasher(&self) -> (r: PassHasher)
        ensures
            r.0 == 0,
    {
        PassHasher(0)
    }
}

impl PassHasher {
    pub fn finish(&self) -> (r: u64)
        ensures
            r == self.0,
    {
        self.0
    }

    pub fn write_u64(&mut self, i: u64)
        ensures
            final(self).0 == i,
    {
        self.0 = i;
    }
}

/// Builds `rustc_hash` hashers: fast for integers and structs of integers.
pub struct PrimitiveBuildHasher;

#[verifier::external_type_specification]
#[verifier::external_body]
pub struct ExFxHasher(rustc_hash::FxHasher);

/// Calls `rustc_hash::FxHasher::default`, a hasher with a zero state. The
/// state is hidden in the type, so nothing is stated of the result.
#[verifier::external_body]
fn fx_hasher_default() -> rustc_hash::FxHasher {
    rustc_hash::FxHasher::default()
}

impl PrimitiveBuildHasher {
    /// A new `FxHasher`; its state is hidden in the outside type, so nothing
    /// is stated of it.
    pub fn build_hasher(&self) -> rustc_hash::FxHasher {
        fx_hasher_default()
    }
}

} // verus!
