//! Owned, comparable element identity for caches and `:scope`.

use vstd::prelude::*;

verus! {

/// Opaque element identity: equal values denote the same DOM element.
#[derive(Debug, Clone, Copy, PartialEq, Eq, Hash, Structural)]
pub struct OpaqueElement(pub u64);

impl OpaqueElement {
    /// Create from a raw `u64` identity value.
    pub fn new(id: u64) -> (r: OpaqueElement)
        ensures
            r.0 == id,
    {
        OpaqueElement(id)
    }

    /// Create from an address: a pointer cast to `usize`, for pointer-based DOMs.
    pub fn from_ptr(addr: usize) -> (r: OpaqueElement)
        ensures
            r.0 == addr as u64,
    {
        OpaqueElement(addr as u64)
    }

    /// Returns the raw identity value.
    pub fn raw(self) -> (r: u64)
        ensures
            r == self.0,
    {
        self.0
    }

    /// Whether two identities denote the same element.
    pub fn same(self, other: OpaqueElement) -> (r: bool)
        ensures
            r == (self == other),
    {
        self.0 == other.0
    }
}

} // verus!
