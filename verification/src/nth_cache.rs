//! Cache of `:nth-child` / `:nth-of-type` index computations.
//!
//! Six maps, one per nth variant (their key spaces differ), plus a
//! generation counter bumped when the DOM changes.

use vstd::prelude::*;
use std::collections::HashMap;
use crate::has_cache::{pair_key, make_pair_key};
use crate::opaque::OpaqueElement;

verus! {

broadcast use vstd::std_specs::hash::group_hash_axioms;

/// Cached nth-index computations for the current restyle pass.
pub struct NthIndexCache {
    pub nth_child: HashMap<u64, i32>,
    pub nth_last_child: HashMap<u64, i32>,
    pub nth_of_type: HashMap<u64, i32>,
    pub nth_last_of_type: HashMap<u64, i32>,
    pub nth_child_of: HashMap<u128, i32>,
    pub nth_last_child_of: HashMap<u128, i32>,
    pub generation: u32,
}

impl View for NthIndexCache {
    type V = (Map<u64, i32>, Map<u64, i32>, Map<u64, i32>, Map<u64, i32>, Map<u128, i32>, Map<u128, i32>);

    open spec fn view(&self) -> (Map<u64, i32>, Map<u64, i32>, Map<u64, i32>, Map<u64, i32>, Map<u128, i32>, Map<u128, i32>) {
        (
            self.nth_child@,
            self.nth_last_child@,
            self.nth_of_type@,
            self.nth_last_of_type@,
            self.nth_child_of@,
            self.nth_last_child_of@,
        )
    }
}

/// Whether all six maps are empty.
pub open spec fn all_empty(v: (Map<u64, i32>, Map<u64, i32>, Map<u64, i32>, Map<u64, i32>, Map<u128, i32>, Map<u128, i32>)) -> bool {
    &&& v.0 == Map::<u64, i32>::empty()
    &&& v.1 == Map::<u64, i32>::empty()
    &&& v.2 == Map::<u64, i32>::empty()
    &&& v.3 == Map::<u64, i32>::empty()
    &&& v.4 == Map::<u128, i32>::empty()
    &&& v.5 == Map::<u128, i32>::empty()
}

impl NthIndexCache {
    /// An empty cache at generation 0.
    pub fn new() -> (r: NthIndexCache)
        ensures
            all_empty(r@),
            r.generation == 0,
    {
        NthIndexCache {
            nth_child: HashMap::new(),
            nth_last_child: HashMap::new(),
            nth_of_type: HashMap::new(),
            nth_last_of_type: HashMap::new(),
            nth_child_of: HashMap::new(),
            nth_last_child_of: HashMap::new(),
            generation: 0,
        }
    }

    /// Clear all cached entries (the generation is kept).
    pub fn clear(&mut self)
        ensures
            all_empty(final(self)@),
            final(self).generation == old(self).generation,
    {
        self.nth_child.clear();
        self.nth_last_child.clear();
        self.nth_of_type.clear();
        self.nth_last_of_type.clear();
        self.nth_child_of.clear();
        self.nth_last_child_of.clear();
    }

    /// Advance the generation (wrapping) and drop every entry.
    pub fn bump_generation(&mut self)
        ensures
            all_empty(final(self)@),
            final(self).generation == (if old(self).generation == u32::MAX {
                0
            } else {
                (old(self).generation + 1) as u32
            }),
    {
        self.generation = self.generation.wrapping_add(1);
        self.clear();
    }

    /// Current generation counter.
    pub fn generation(&self) -> (r: u32)
        ensures
            r == self.generation,
    {
        self.generation
    }

    /// Every map but `nth_child`.
    pub open spec fn other_maps_except_nth_child(&self) -> (Map<u64, i32>, Map<u64, i32>, Map<u64, i32>, Map<u128, i32>, Map<u128, i32>) {
        (self.nth_last_child@, self.nth_of_type@, self.nth_last_of_type@, self.nth_child_of@, self.nth_last_child_of@)
    }

    /// Every map but `nth_last_child`.
    pub open spec fn other_maps_except_nth_last_child(&self) -> (Map<u64, i32>, Map<u64, i32>, Map<u64, i32>, Map<u128, i32>, Map<u128, i32>) {
        (self.nth_child@, self.nth_of_type@, self.nth_last_of_type@, self.nth_child_of@, self.nth_last_child_of@)
    }

    /// Every map but `nth_of_type`.
    pub open spec fn other_maps_except_nth_of_type(&self) -> (Map<u64, i32>, Map<u64, i32>, Map<u64, i32>, Map<u128, i32>, Map<u128, i32>) {
        (self.nth_child@, self.nth_last_child@, self.nth_last_of_type@, self.nth_child_of@, self.nth_last_child_of@)
    }

    /// Every map but `nth_last_of_type`.
    pub open spec fn other_maps_except_nth_last_of_type(&self) -> (Map<u64, i32>, Map<u64, i32>, Map<u64, i32>, Map<u128, i32>, Map<u128, i32>) {
        (self.nth_child@, self.nth_last_child@, self.nth_of_type@, self.nth_child_of@, self.nth_last_child_of@)
    }

    /// Every map but `nth_child_of`.
    pub open spec fn other_maps_except_nth_child_of(&self) -> (Map<u64, i32>, Map<u64, i32>, Map<u64, i32>, Map<u64, i32>, Map<u128, i32>) {
        (self.nth_child@, self.nth_last_child@, self.nth_of_type@, self.nth_last_of_type@, self.nth_last_child_of@)
    }

    /// Every map but `nth_last_child_of`.
    pub open spec fn other_maps_except_nth_last_child_of(&self) -> (Map<u64, i32>, Map<u64, i32>, Map<u64, i32>, Map<u64, i32>, Map<u128, i32>) {
        (self.nth_child@, self.nth_last_child@, self.nth_of_type@, self.nth_last_of_type@, self.nth_child_of@)
    }

    /// Get or compute the `:nth-child` index of an element.
    pub fn nth_child<F: FnOnce() -> i32>(&mut self, el: OpaqueElement, compute: F) -> (r: i32)
        requires
            call_requires(compute, ()),
        ensures
            old(self).nth_child@.contains_key(el.0) ==> {
                &&& r == old(self).nth_child@[el.0]
                &&& final(self)@ == old(self)@
            },
            !old(self).nth_child@.contains_key(el.0) ==> {
                &&& call_ensures(compute, (), r)
                &&& final(self).nth_child@ == old(self).nth_child@.insert(el.0, r)
            },
            final(self).other_maps_except_nth_child() == old(self).other_maps_except_nth_child(),
            final(self).generation == old(self).generation,
    {
        let k = el.0;
        match self.nth_child.get(&k) {
            Some(v) => *v,
            None => {
                let v = compute();
                self.nth_child.insert(k, v);
                v
            },
        }
    }

    /// Get or compute the `:nth-last-child` index of an element.
    pub fn nth_last_child<F: FnOnce() -> i32>(&mut self, el: OpaqueElement, compute: F) -> (r: i32)
        requires
            call_requires(compute, ()),
        ensures
            old(self).nth_last_child@.contains_key(el.0) ==> {
                &&& r == old(self).nth_last_child@[el.0]
                &&& final(self)@ == old(self)@
            },
            !old(self).nth_last_child@.contains_key(el.0) ==> {
                &&& call_ensures(compute, (), r)
                &&& final(self).nth_last_child@ == old(self).nth_last_child@.insert(el.0, r)
            },
            final(self).other_maps_except_nth_last_child() == old(self).other_maps_except_nth_last_child(),
            final(self).generation == old(self).generation,
    {
        let k = el.0;
        match self.nth_last_child.get(&k) {
            Some(v) => *v,
            None => {
                let v = compute();
                self.nth_last_child.insert(k, v);
                v
            },
        }
    }

    /// Get or compute the `:nth-of-type` index of an element.
    pub fn nth_of_type<F: FnOnce() -> i32>(&mut self, el: OpaqueElement, compute: F) -> (r: i32)
        requires
            call_requires(compute, ()),
        ensures
            old(self).nth_of_type@.contains_key(el.0) ==> {
                &&& r == old(self).nth_of_type@[el.0]
                &&& final(self)@ == old(self)@
            },
            !old(self).nth_of_type@.contains_key(el.0) ==> {
                &&& call_ensures(compute, (), r)
                &&& final(self).nth_of_type@ == old(self).nth_of_type@.insert(el.0, r)
            },
            final(self).other_maps_except_nth_of_type() == old(self).other_maps_except_nth_of_type(),
            final(self).generation == old(self).generation,
    {
        let k = el.0;
        match self.nth_of_type.get(&k) {
            Some(v) => *v,
            None => {
                let v = compute();
                self.nth_of_type.insert(k, v);
                v
            },
        }
    }

    /// Get or compute the `:nth-last-of-type` index of an element.
    pub fn nth_last_of_type<F: FnOnce() -> i32>(&mut self, el: OpaqueElement, compute: F) -> (r: i32)
        requires
            call_requires(compute, ()),
        ensures
            old(self).nth_last_of_type@.contains_key(el.0) ==> {
                &&& r == old(self).nth_last_of_type@[el.0]
                &&& final(self)@ == old(self)@
            },
            !old(self).nth_last_of_type@.contains_key(el.0) ==> {
                &&& call_ensures(compute, (), r)
                &&& final(self).nth_last_of_type@ == old(self).nth_last_of_type@.insert(el.0, r)
            },
            final(self).other_maps_except_nth_last_of_type() == old(self).other_maps_except_nth_last_of_type(),
            final(self).generation == old(self).generation,
    {
        let k = el.0;
        match self.nth_last_of_type.get(&k) {
            Some(v) => *v,
            None => {
                let v = compute();
                self.nth_last_of_type.insert(k, v);
                v
            },
        }
    }

    /// Get or compute the `:nth-child(... of S)` index, keyed by element and selector.
    pub fn nth_child_of<F: FnOnce() -> i32>(&mut self, el: OpaqueElement, selector_key: usize, compute: F) -> (r: i32)
        requires
            call_requires(compute, ()),
        ensures
            old(self).nth_child_of@.contains_key(pair_key(el, selector_key)) ==> {
                &&& r == old(self).nth_child_of@[pair_key(el, selector_key)]
                &&& final(self)@ == old(self)@
            },
            !old(self).nth_child_of@.contains_key(pair_key(el, selector_key)) ==> {
                &&& call_ensures(compute, (), r)
                &&& final(self).nth_child_of@ == old(self).nth_child_of@.insert(pair_key(el, selector_key), r)
            },
            final(self).other_maps_except_nth_child_of() == old(self).other_maps_except_nth_child_of(),
            final(self).generation == old(self).generation,
    {
        let k = make_pair_key(el, selector_key);
        match self.nth_child_of.get(&k) {
            Some(v) => *v,
            None => {
                let v = compute();
                self.nth_child_of.insert(k, v);
                v
            },
        }
    }

    /// Get or compute the `:nth-last-child(... of S)` index, keyed by element and selector.
    pub fn nth_last_child_of<F: FnOnce() -> i32>(&mut self, el: OpaqueElement, selector_key: usize, compute: F) -> (r: i32)
        requires
            call_requires(compute, ()),
        ensures
            old(self).nth_last_child_of@.contains_key(pair_key(el, selector_key)) ==> {
                &&& r == old(self).nth_last_child_of@[pair_key(el, selector_key)]
                &&& final(self)@ == old(self)@
            },
            !old(self).nth_last_child_of@.contains_key(pair_key(el, selector_key)) ==> {
                &&& call_ensures(compute, (), r)
                &&& final(self).nth_last_child_of@ == old(self).nth_last_child_of@.insert(pair_key(el, selector_key), r)
            },
            final(self).other_maps_except_nth_last_child_of() == old(self).other_maps_except_nth_last_child_of(),
            final(self).generation == old(self).generation,
    {
        let k = make_pair_key(el, selector_key);
        match self.nth_last_child_of.get(&k) {
            Some(v) => *v,
            None => {
                let v = compute();
                self.nth_last_child_of.insert(k, v);
                v
            },
        }
    }

}

} // verus!
