//! Cache of `:has()` results, keyed by (element, selector) identity.
//!
//! Valid for one restyle pass: call `clear()` between passes.

use vstd::prelude::*;
use std::collections::HashMap;
use crate::opaque::OpaqueElement;

verus! {

broadcast use vstd::std_specs::hash::group_hash_axioms;

/// Cached result of a `:has()` evaluation.
#[derive(Debug, Clone, Copy, PartialEq, Eq, Hash, Structural)]
pub enum HasResult {
    /// The `:has()` selector matched this element.
    Matched,
    /// The `:has()` selector did not match this element.
    NotMatched,
}

/// The cached result of a boolean.
pub open spec fn spec_has_result(b: bool) -> HasResult {
    if b {
        HasResult::Matched
    } else {
        HasResult::NotMatched
    }
}

impl HasResult {
    /// Convert to a boolean for matching.
    pub fn matched(self) -> (r: bool)
        ensures
            r == (self == HasResult::Matched),
    {
        matches!(self, HasResult::Matched)
    }

    /// The cached result of a boolean.
    pub fn from_bool(matched: bool) -> (r: HasResult)
        ensures
            r == spec_has_result(matched),
    {
        if matched {
            HasResult::Matched
        } else {
            HasResult::NotMatched
        }
    }
}

impl From<bool> for HasResult {
    fn from(matched: bool) -> (r: HasResult) {
        HasResult::from_bool(matched)
    }
}

impl vstd::std_specs::convert::FromSpecImpl<bool> for HasResult {
    open spec fn obeys_from_spec() -> bool {
        true
    }

    open spec fn from_spec(v: bool) -> HasResult {
        spec_has_result(v)
    }
}

/// The single map key of an (element, selector) pair; distinct pairs give distinct keys.
pub open spec fn pair_key(element: OpaqueElement, selector_key: usize) -> u128 {
    (element.0 as int * 0x10000000000000000int + selector_key as int) as u128
}

/// Builds the map key of an (element, selector) pair.
pub fn make_pair_key(element: OpaqueElement, selector_key: usize) -> (r: u128)
    ensures
        r == pair_key(element, selector_key),
{
    let hi: u128 = (element.0 as u128) * 0x10000000000000000u128;
    hi + (selector_key as u64) as u128
}

/// Distinct (element, selector) pairs never share a key.
pub proof fn lemma_pair_key_injective(e1: OpaqueElement, s1: usize, e2: OpaqueElement, s2: usize)
    ensures
        pair_key(e1, s1) == pair_key(e2, s2) ==> e1 == e2 && s1 == s2,
{
    let a1 = e1.0 as int;
    let a2 = e2.0 as int;
    let b1 = s1 as int;
    let b2 = s2 as int;
    assert(0 <= b1 < 0x10000000000000000int && 0 <= b2 < 0x10000000000000000int);
    if a1 * 0x10000000000000000int + b1 == a2 * 0x10000000000000000int + b2 {
        assert(a1 == a2 && b1 == b2) by (nonlinear_arith)
            requires
                a1 * 0x10000000000000000int + b1 == a2 * 0x10000000000000000int + b2,
                0 <= b1 < 0x10000000000000000int,
                0 <= b2 < 0x10000000000000000int,
                0 <= a1,
                0 <= a2,
        ;
    }
}

/// Cache for `:has()` selector evaluation results.
pub struct HasCache {
    results: HashMap<u128, HasResult>,
}

impl View for HasCache {
    type V = Map<u128, HasResult>;

    closed spec fn view(&self) -> Map<u128, HasResult> {
        self.results@
    }
}

impl HasCache {
    /// Create a new empty cache.
    pub fn new() -> (r: HasCache)
        ensures
            r@ == Map::<u128, HasResult>::empty(),
    {
        HasCache { results: HashMap::new() }
    }

    /// Look up a cached `:has()` result.
    pub fn get(&self, element: OpaqueElement, selector_key: usize) -> (r: Option<HasResult>)
        ensures
            r == (if self@.contains_key(pair_key(element, selector_key)) {
                Some(self@[pair_key(element, selector_key)])
            } else {
                None
            }),
    {
        let k = make_pair_key(element, selector_key);
        match self.results.get(&k) {
            Some(v) => Some(*v),
            None => None,
        }
    }

    /// Store a `:has()` evaluation result.
    pub fn insert(&mut self, element: OpaqueElement, selector_key: usize, result: HasResult)
        ensures
            final(self)@ == old(self)@.insert(pair_key(element, selector_key), result),
    {
        let k = make_pair_key(element, selector_key);
        self.results.insert(k, result);
    }

    /// Get a cached result, or compute it with `compute`, cache it and return it.
    pub fn get_or_insert<F: FnOnce() -> bool>(
        &mut self,
        element: OpaqueElement,
        selector_key: usize,
        compute: F,
    ) -> (r: bool)
        requires
            call_requires(compute, ()),
        ensures
            old(self)@.contains_key(pair_key(element, selector_key)) ==> {
                &&& r == (old(self)@[pair_key(element, selector_key)] == HasResult::Matched)
                &&& final(self)@ == old(self)@
            },
            !old(self)@.contains_key(pair_key(element, selector_key)) ==> {
                &&& call_ensures(compute, (), r)
                &&& final(self)@ == old(self)@.insert(
                    pair_key(element, selector_key),
                    spec_has_result(r),
                )
                &&& final(self)@.len() == old(self)@.len() + 1
            },
            final(self)@.dom().finite(),
    {
        proof {
            vstd::std_specs::hash::axiom_hashmap_view_finite_dom(self.results);
        }
        match self.get(element, selector_key) {
            Some(v) => v.matched(),
            None => {
                let b = compute();
                self.insert(element, selector_key, HasResult::from_bool(b));
                proof {
                    vstd::std_specs::hash::axiom_hashmap_view_finite_dom(self.results);
                }
                b
            },
        }
    }

    /// Clear all cached results.
    pub fn clear(&mut self)
        ensures
            final(self)@ == Map::<u128, HasResult>::empty(),
    {
        self.results.clear();
    }

    /// Number of cached entries.
    pub fn len(&self) -> (r: usize)
        ensures
            r as nat == self@.len(),
            self@.dom().finite(),
    {
        proof {
            vstd::std_specs::hash::axiom_hashmap_view_finite_dom(self.results);
        }
        self.results.len()
    }

    /// Whether the cache is empty.
    pub fn is_empty(&self) -> (r: bool)
        ensures
            r == (self@.len() == 0),
            self@.dom().finite(),
    {
        proof {
            vstd::std_specs::hash::axiom_hashmap_view_finite_dom(self.results);
        }
        let r = self.results.is_empty();
        proof {
            if !r {
                assert(self@.dom().len() > 0 || self@.dom().len() == 0);
            }
        }
        r
    }
}

/// A stored result is read back for the same pair, and storing one pair
/// leaves every other pair unchanged.
pub proof fn lemma_get_after_insert(
    m: Map<u128, HasResult>,
    e1: OpaqueElement,
    s1: usize,
    res: HasResult,
    e2: OpaqueElement,
    s2: usize,
)
    ensures
        m.insert(pair_key(e1, s1), res)[pair_key(e1, s1)] == res,
        (e1 != e2 || s1 != s2) ==> (m.insert(pair_key(e1, s1), res).contains_key(pair_key(e2, s2))
            == m.contains_key(pair_key(e2, s2))),
        (e1 != e2 || s1 != s2) && m.contains_key(pair_key(e2, s2)) ==> m.insert(
            pair_key(e1, s1),
            res,
        )[pair_key(e2, s2)] == m[pair_key(e2, s2)],
{
    lemma_pair_key_injective(e1, s1, e2, s2);
}

} // verus!
