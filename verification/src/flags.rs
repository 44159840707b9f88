//! Element selector flags (collected during matching for invalidation) and
//! matching behaviour flags.

use vstd::prelude::*;

verus! {

/// Flags set on elements as a side effect of matching, telling the restyle
/// system which kinds of selectors affected an element.
#[derive(Debug, Clone, Copy, PartialEq, Eq, Hash, Structural)]
pub struct ElementSelectorFlags(pub u16);

impl ElementSelectorFlags {
    /// A child/descendant combinator matched this element as an ancestor.
    pub const HAS_SLOW_SELECTOR: u16 = 1u16;
    /// A general sibling combinator matched this element's sibling context.
    pub const HAS_SLOW_SELECTOR_LATER_SIBLINGS: u16 = 2u16;
    /// An `:nth-child()` / `:nth-last-child()` / `:nth-of-type()` selector was tested.
    pub const HAS_SLOW_SELECTOR_NTH: u16 = 4u16;
    /// An `:nth-child(... of S)` selector was tested.
    pub const HAS_SLOW_SELECTOR_NTH_OF: u16 = 8u16;
    /// A `:first-child` / `:last-child` / `:only-child` (or of-type) selector was tested.
    pub const HAS_EDGE_CHILD_SELECTOR: u16 = 16u16;
    /// An `:empty` selector was tested.
    pub const HAS_EMPTY_SELECTOR: u16 = 32u16;
    /// This element anchors a `:has()` relative selector.
    pub const ANCHORS_RELATIVE_SELECTOR: u16 = 64u16;
    /// This element was traversed during `:has()` matching without being its subject.
    pub const ANCHORS_RELATIVE_SELECTOR_NON_SUBJECT: u16 = 128u16;
    /// The `:has()` selector searches siblings.
    pub const RELATIVE_SELECTOR_SEARCH_SIBLING: u16 = 256u16;
    /// The `:has()` selector searches ancestors.
    pub const RELATIVE_SELECTOR_SEARCH_ANCESTOR: u16 = 512u16;

    /// No flag set.
    pub fn empty() -> (r: ElementSelectorFlags)
        ensures
            r.0 == 0,
    {
        ElementSelectorFlags(0u16)
    }

    /// The flags with the given bits.
    pub fn from_bits(bits: u16) -> (r: ElementSelectorFlags)
        ensures
            r.0 == bits,
    {
        ElementSelectorFlags(bits)
    }

    /// The bits of these flags.
    pub fn bits(self) -> (r: u16)
        ensures
            r == self.0,
    {
        self.0
    }

    /// Whether every bit of `other` is set here.
    pub fn contains(self, other: ElementSelectorFlags) -> (r: bool)
        ensures
            r == (self.0 & other.0 == other.0),
    {
        self.0 & other.0 == other.0
    }

    /// Whether no bit is set.
    pub fn is_empty(self) -> (r: bool)
        ensures
            r == (self.0 == 0),
    {
        self.0 == 0
    }

    /// The union of two flag sets.
    pub fn union(self, other: ElementSelectorFlags) -> (r: ElementSelectorFlags)
        ensures
            r.0 == self.0 | other.0,
    {
        ElementSelectorFlags(self.0 | other.0)
    }
}

/// Flags controlling how the matching engine behaves.
#[derive(Debug, Clone, Copy, PartialEq, Eq, Hash, Structural)]
pub struct MatchingFlags(pub u8);

impl MatchingFlags {
    /// Collect `ElementSelectorFlags` during matching.
    pub const COLLECT_SELECTOR_FLAGS: u8 = 1u8;
    /// Matching for invalidation (relaxed mode).
    pub const MATCHING_FOR_INVALIDATION: u8 = 2u8;

    /// No flag set.
    pub fn empty() -> (r: MatchingFlags)
        ensures
            r.0 == 0,
    {
        MatchingFlags(0u8)
    }

    /// The flags with the given bits.
    pub fn from_bits(bits: u8) -> (r: MatchingFlags)
        ensures
            r.0 == bits,
    {
        MatchingFlags(bits)
    }

    /// Whether every bit of `other` is set here.
    pub fn contains(self, other: MatchingFlags) -> (r: bool)
        ensures
            r == (self.0 & other.0 == other.0),
    {
        self.0 & other.0 == other.0
    }

    /// The union of two flag sets.
    pub fn union(self, other: MatchingFlags) -> (r: MatchingFlags)
        ensures
            r.0 == self.0 | other.0,
    {
        MatchingFlags(self.0 | other.0)
    }
}

} // verus!
