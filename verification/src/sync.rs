//! Wrappers for values shared through reference-counted cells.
use vstd::prelude::*;

verus! {

/// A wrapper for a value that holds no counted link to another value.
pub struct NoLinkWrap<T>(pub T);

impl<T> NoLinkWrap<T> {
    pub fn new(value: T) -> (r: NoLinkWrap<T>)
        ensures
            r.0 == value,
    {
        NoLinkWrap(value)
    }

    /// The wrapped value.
    pub fn get(&self) -> (r: &T)
        ensures
            *r == self.0,
    {
        &self.0
    }
}

/// Clears the storage of plugin statics and thread-locals. The concurrent map
/// that holds them supports no clearing, so nothing is removed.
pub fn reset() {
}

/// What a concurrent map hands out for a key it holds: access to the value.
pub trait OutputHolder<V> {
    fn output(&self) -> &V;
}

} // verus!
