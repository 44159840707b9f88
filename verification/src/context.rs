//! Matching context: the shared state of one selector matching pass.
//!
//! Bloom filter, `:scope` element, `:visited` policy, quirks mode, caches
//! and the selector flags collected while matching.

use vstd::prelude::*;
use crate::bloom::AncestorBloom;
use crate::flags::{ElementSelectorFlags, MatchingFlags};
use crate::has_cache::HasCache;
use crate::nth_cache::{NthIndexCache, all_empty};
use crate::opaque::OpaqueElement;

verus! {

/// How to handle `:visited` and `:link` during matching.
#[derive(Debug, Clone, Copy, PartialEq, Eq, Hash, Structural)]
pub enum VisitedHandling {
    /// All links treated as unvisited: `:visited` never matches.
    AllLinksUnvisited,
    /// Both `:link` and `:visited` match any link.
    AllLinksVisitedAndUnvisited,
    /// The relevant link is treated as visited, all others as unvisited.
    RelevantLinkVisited,
}

impl VisitedHandling {
    /// The default policy: all links unvisited.
    pub fn default_policy() -> (r: VisitedHandling)
        ensures
            r == VisitedHandling::AllLinksUnvisited,
    {
        VisitedHandling::AllLinksUnvisited
    }
}

/// HTML document quirks mode.
#[derive(Debug, Clone, Copy, PartialEq, Eq, Hash, Structural)]
pub enum QuirksMode {
    /// Standards mode: class names are case-sensitive.
    NoQuirks,
    /// Limited quirks mode: class names are still case-sensitive.
    LimitedQuirks,
    /// Full quirks mode: class names match ASCII case-insensitively.
    Quirks,
}

impl QuirksMode {
    /// Whether class name matching should be case-insensitive.
    pub fn classes_case_insensitive(self) -> (r: bool)
        ensures
            r == (self == QuirksMode::Quirks),
    {
        matches!(self, QuirksMode::Quirks)
    }
}

/// Caches shared across all matching in a single restyle pass.
pub struct SelectorCaches {
    /// Cache for `:nth-child` / `:nth-of-type` index computations.
    pub nth: NthIndexCache,
    /// Cache for `:has()` evaluation results.
    pub has: HasCache,
}

impl SelectorCaches {
    /// Empty caches.
    pub fn new() -> (r: SelectorCaches)
        ensures
            all_empty(r.nth@),
            r.nth.generation == 0,
            r.has@ == Map::<u128, crate::has_cache::HasResult>::empty(),
    {
        SelectorCaches { nth: NthIndexCache::new(), has: HasCache::new() }
    }

    /// Clear all caches.
    pub fn clear(&mut self)
        ensures
            all_empty(final(self).nth@),
            final(self).nth.generation == old(self).nth.generation,
            final(self).has@ == Map::<u128, crate::has_cache::HasResult>::empty(),
    {
        self.nth.clear();
        self.has.clear();
    }
}

/// Central state holder for a selector matching pass.
pub struct MatchingContext<'a> {
    /// Bloom filter for ancestor fast-rejection.
    pub bloom_filter: Option<&'a AncestorBloom>,
    /// The element that `:scope` matches; `None` means `:root`.
    pub scope_element: Option<OpaqueElement>,
    /// The current relevant link for `:visited` matching.
    pub relevant_link: Option<OpaqueElement>,
    /// `:visited` / `:link` matching policy.
    pub visited_handling: VisitedHandling,
    /// Quirks mode (class name case sensitivity).
    pub quirks_mode: QuirksMode,
    /// Behaviour flags.
    pub flags: MatchingFlags,
    /// Shared caches.
    pub caches: &'a mut SelectorCaches,
    /// Selector flags collected while matching.
    pub collected_element_flags: ElementSelectorFlags,
}

impl<'a> MatchingContext<'a> {
    /// A context with the given caches and every optional feature off.
    pub fn new(caches: &'a mut SelectorCaches) -> (r: MatchingContext<'a>)
        ensures
            r.bloom_filter is None,
            r.scope_element is None,
            r.relevant_link is None,
            r.visited_handling == VisitedHandling::AllLinksUnvisited,
            r.quirks_mode == QuirksMode::NoQuirks,
            r.flags.0 == 0,
            r.collected_element_flags.0 == 0,
    {
        MatchingContext {
            bloom_filter: None,
            scope_element: None,
            relevant_link: None,
            visited_handling: VisitedHandling::AllLinksUnvisited,
            quirks_mode: QuirksMode::NoQuirks,
            flags: MatchingFlags::empty(),
            caches,
            collected_element_flags: ElementSelectorFlags::empty(),
        }
    }

    /// A context for a normal restyle pass with a Bloom filter, collecting selector flags.
    pub fn for_restyle(
        bloom: &'a AncestorBloom,
        quirks_mode: QuirksMode,
        caches: &'a mut SelectorCaches,
    ) -> (r: MatchingContext<'a>)
        ensures
            r.bloom_filter == Some(bloom),
            r.scope_element is None,
            r.relevant_link is None,
            r.visited_handling == VisitedHandling::AllLinksUnvisited,
            r.quirks_mode == quirks_mode,
            r.flags.0 == MatchingFlags::COLLECT_SELECTOR_FLAGS,
            r.collected_element_flags.0 == 0,
    {
        MatchingContext {
            bloom_filter: Some(bloom),
            scope_element: None,
            relevant_link: None,
            visited_handling: VisitedHandling::AllLinksUnvisited,
            quirks_mode,
            flags: MatchingFlags::from_bits(MatchingFlags::COLLECT_SELECTOR_FLAGS),
            caches,
            collected_element_flags: ElementSelectorFlags::empty(),
        }
    }

    /// A context for invalidation matching (relaxed, conservative).
    pub fn for_invalidation(caches: &'a mut SelectorCaches) -> (r: MatchingContext<'a>)
        ensures
            r.bloom_filter is None,
            r.scope_element is None,
            r.relevant_link is None,
            r.visited_handling == VisitedHandling::AllLinksVisitedAndUnvisited,
            r.quirks_mode == QuirksMode::NoQuirks,
            r.flags.0 == MatchingFlags::MATCHING_FOR_INVALIDATION,
            r.collected_element_flags.0 == 0,
    {
        MatchingContext {
            bloom_filter: None,
            scope_element: None,
            relevant_link: None,
            visited_handling: VisitedHandling::AllLinksVisitedAndUnvisited,
            quirks_mode: QuirksMode::NoQuirks,
            flags: MatchingFlags::from_bits(MatchingFlags::MATCHING_FOR_INVALIDATION),
            caches,
            collected_element_flags: ElementSelectorFlags::empty(),
        }
    }

    /// Whether we're matching for invalidation.
    pub fn matching_for_invalidation(&self) -> (r: bool)
        ensures
            r == (self.flags.0 & MatchingFlags::MATCHING_FOR_INVALIDATION
                == MatchingFlags::MATCHING_FOR_INVALIDATION),
    {
        self.flags.contains(MatchingFlags::from_bits(MatchingFlags::MATCHING_FOR_INVALIDATION))
    }

    /// Whether selector flags are collected during matching.
    pub fn needs_selector_flags(&self) -> (r: bool)
        ensures
            r == self.spec_needs_flags(),
    {
        self.flags.contains(MatchingFlags::from_bits(MatchingFlags::COLLECT_SELECTOR_FLAGS))
    }

    /// Whether the collect-selector-flags bit is set.
    pub open spec fn spec_needs_flags(&self) -> bool {
        self.flags.0 & MatchingFlags::COLLECT_SELECTOR_FLAGS == MatchingFlags::COLLECT_SELECTOR_FLAGS
    }

    /// Record a selector flag on the current element, when flags are collected.
    pub fn add_element_flag(&mut self, flag: u16)
        ensures
            final(self).collected_element_flags.0 == (if old(self).spec_needs_flags() {
                old(self).collected_element_flags.0 | flag
            } else {
                old(self).collected_element_flags.0
            }),
            final(self).flags == old(self).flags,
            final(self).bloom_filter == old(self).bloom_filter,
            final(self).scope_element == old(self).scope_element,
            final(self).relevant_link == old(self).relevant_link,
            final(self).visited_handling == old(self).visited_handling,
            final(self).quirks_mode == old(self).quirks_mode,
            *final(self).caches == *old(self).caches,
    {
        if self.needs_selector_flags() {
            self.collected_element_flags = self.collected_element_flags.union(
                ElementSelectorFlags::from_bits(flag),
            );
        }
    }

    /// Read and reset the collected element selector flags.
    pub fn take_element_flags(&mut self) -> (r: ElementSelectorFlags)
        ensures
            r == old(self).collected_element_flags,
            final(self).collected_element_flags.0 == 0,
            final(self).flags == old(self).flags,
            final(self).scope_element == old(self).scope_element,
            final(self).visited_handling == old(self).visited_handling,
            final(self).quirks_mode == old(self).quirks_mode,
    {
        let flags = self.collected_element_flags;
        self.collected_element_flags = ElementSelectorFlags::empty();
        flags
    }
}

} // verus!
