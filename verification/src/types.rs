//! Core selector data types.
//!
//! A selector list is a list of complex selectors; a complex selector is a
//! sequence of components stored **right-to-left**: the rightmost compound
//! (the key compound) comes first, and a `Combinator` component separates
//! compounds. `div > .item:hover` is stored as
//! `[PseudoClass(Hover), Class("item"), Combinator(Child), Type("div")]`.

use vstd::prelude::*;
use crate::atom::Atom;
use crate::small_buf::AtomBuf;
use crate::attr::AttrSelector;
use crate::pseudo_class::{ElementState, PseudoClass, spec_state_flag, spec_is_structural};
use crate::pseudo_element::PseudoElement;
use crate::specificity::Specificity;

verus! {

/// CSS text direction for the `:dir()` pseudo-class.
#[derive(Debug, Clone, Copy, PartialEq, Eq, Hash, Structural)]
pub enum Direction {
    Ltr,
    Rtl,
}

/// Relationship between two compound selectors.
#[derive(Debug, Clone, Copy, PartialEq, Eq, Hash, Structural)]
pub enum Combinator {
    /// ` ` — descendant.
    Descendant,
    /// `>` — child.
    Child,
    /// `+` — next sibling.
    NextSibling,
    /// `~` — later sibling.
    LaterSibling,
    /// `||` — column.
    Column,
}

/// A comma-separated list of selectors; matches if any selector matches.
#[derive(Debug, PartialEq, Eq)]
pub struct SelectorList(pub Vec<Selector>);

/// A complex selector: components right-to-left, with parse-time metadata.
#[derive(Debug, PartialEq, Eq)]
pub struct Selector {
    /// Components in matching order (right-to-left).
    pub comps: Vec<Component>,
    /// Specificity computed at parse time.
    pub spec: Specificity,
    /// Hints computed at parse time.
    pub hint: SelectorHints,
}

impl Selector {
    /// Returns the specificity of this selector, computed at parse time.
    pub fn specificity(&self) -> (r: Specificity)
        ensures
            r == self.spec,
    {
        self.spec
    }

    /// Returns the components (right-to-left order).
    pub fn components(&self) -> (r: &[Component])
        ensures
            r@ == self.comps@,
    {
        self.comps.as_slice()
    }

    /// Returns pre-computed hints for fast rejection and rule bucketing.
    pub fn hints(&self) -> (r: &SelectorHints)
        ensures
            *r == self.hint,
    {
        &self.hint
    }
}

/// Pre-computed selector metadata for fast rejection and rule bucketing.
#[derive(Debug, Clone, PartialEq, Eq)]
pub struct SelectorHints {
    /// State bits required by state pseudo-classes of the key compound.
    pub required_state: ElementState,
    /// The key selector used for rule bucketing.
    pub key: KeySelector,
    /// Dependency analysis.
    pub deps: SelectorDeps,
}

/// Parse-time dependency analysis, packed into a `u16` of flags and a count.
#[derive(Debug, Clone, Copy, PartialEq, Eq, Structural)]
pub struct SelectorDeps {
    /// Packed dependency flag bits (`DEP_*`).
    pub flags: u16,
    /// Total number of components (truncated to 16 bits).
    pub component_count: u16,
}

/// Dependency flag: `:nth-*`.
pub const DEP_NTH: u16 = 1u16;
/// Dependency flag: `:empty`.
pub const DEP_EMPTY: u16 = 2u16;
/// Dependency flag: first/last/only child or of-type.
pub const DEP_EDGE_CHILD: u16 = 4u16;
/// Dependency flag: `:visited` or `:link`.
pub const DEP_VISITED: u16 = 8u16;
/// Dependency flag: `:has()`.
pub const DEP_HAS: u16 = 16u16;
/// Dependency flag: `:scope`.
pub const DEP_SCOPE: u16 = 32u16;
/// Dependency flag: combinators.
pub const DEP_COMBINATORS: u16 = 64u16;

impl SelectorDeps {
    /// The packed flag bits.
    pub open spec fn bits(&self) -> u16 {
        self.flags
    }

    /// Whether a flag bit is set.
    pub open spec fn has_bit(&self, bit: u16) -> bool {
        self.flags & bit != 0
    }

    /// No dependency and zero components.
    pub fn new() -> (r: SelectorDeps)
        ensures
            r.bits() == 0,
            r.component_count == 0,
    {
        SelectorDeps { flags: 0, component_count: 0 }
    }

    /// Uses `:nth-child`, `:nth-of-type`, or related.
    pub fn depends_on_nth(&self) -> (r: bool)
        ensures
            r == self.has_bit(DEP_NTH),
    {
        self.flags & DEP_NTH != 0
    }

    /// Uses `:empty`.
    pub fn depends_on_empty(&self) -> (r: bool)
        ensures
            r == self.has_bit(DEP_EMPTY),
    {
        self.flags & DEP_EMPTY != 0
    }

    /// Uses first/last/only child or of-type.
    pub fn depends_on_edge_child(&self) -> (r: bool)
        ensures
            r == self.has_bit(DEP_EDGE_CHILD),
    {
        self.flags & DEP_EDGE_CHILD != 0
    }

    /// Uses `:visited` or `:link`.
    pub fn depends_on_visited(&self) -> (r: bool)
        ensures
            r == self.has_bit(DEP_VISITED),
    {
        self.flags & DEP_VISITED != 0
    }

    /// Uses `:has()`.
    pub fn depends_on_has(&self) -> (r: bool)
        ensures
            r == self.has_bit(DEP_HAS),
    {
        self.flags & DEP_HAS != 0
    }

    /// Uses `:scope`.
    pub fn depends_on_scope(&self) -> (r: bool)
        ensures
            r == self.has_bit(DEP_SCOPE),
    {
        self.flags & DEP_SCOPE != 0
    }

    /// Uses combinators.
    pub fn has_combinators(&self) -> (r: bool)
        ensures
            r == self.has_bit(DEP_COMBINATORS),
    {
        self.flags & DEP_COMBINATORS != 0
    }

    /// Sets one flag bit.
    pub fn set_bit(&mut self, bit: u16)
        ensures
            final(self).bits() == old(self).bits() | bit,
            final(self).component_count == old(self).component_count,
    {
        self.flags = self.flags | bit;
    }

    /// Marks `:nth-*` use.
    pub fn set_nth(&mut self)
        ensures
            final(self).bits() == old(self).bits() | DEP_NTH,
            final(self).component_count == old(self).component_count,
    {
        self.set_bit(DEP_NTH);
    }

    /// Marks `:empty` use.
    pub fn set_empty(&mut self)
        ensures
            final(self).bits() == old(self).bits() | DEP_EMPTY,
            final(self).component_count == old(self).component_count,
    {
        self.set_bit(DEP_EMPTY);
    }

    /// Marks edge-child use.
    pub fn set_edge_child(&mut self)
        ensures
            final(self).bits() == old(self).bits() | DEP_EDGE_CHILD,
            final(self).component_count == old(self).component_count,
    {
        self.set_bit(DEP_EDGE_CHILD);
    }

    /// Marks `:visited`/`:link` use.
    pub fn set_visited(&mut self)
        ensures
            final(self).bits() == old(self).bits() | DEP_VISITED,
            final(self).component_count == old(self).component_count,
    {
        self.set_bit(DEP_VISITED);
    }

    /// Marks `:has()` use.
    pub fn set_has(&mut self)
        ensures
            final(self).bits() == old(self).bits() | DEP_HAS,
            final(self).component_count == old(self).component_count,
    {
        self.set_bit(DEP_HAS);
    }

    /// Marks `:scope` use.
    pub fn set_scope(&mut self)
        ensures
            final(self).bits() == old(self).bits() | DEP_SCOPE,
            final(self).component_count == old(self).component_count,
    {
        self.set_bit(DEP_SCOPE);
    }

    /// Marks combinator use.
    pub fn set_combinators(&mut self)
        ensures
            final(self).bits() == old(self).bits() | DEP_COMBINATORS,
            final(self).component_count == old(self).component_count,
    {
        self.set_bit(DEP_COMBINATORS);
    }
}

/// The key selector: the simple selector used for rule bucketing.
/// Priority in the key compound: ID > Class > Type > Universal.
#[derive(Debug, Clone, PartialEq, Eq)]
pub enum KeySelector {
    /// Bucket by element ID.
    Id(Atom),
    /// Bucket by class name.
    Class(Atom),
    /// Bucket by tag name.
    Type(Atom),
    /// No specific key.
    Universal,
}

/// Namespace constraint for type and universal selectors.
#[derive(Debug, Clone, PartialEq, Eq, Hash)]
pub enum NamespaceConstraint {
    /// `*|` — any namespace.
    Any,
    /// `|` — no namespace.
    NoNamespace,
    /// `ns|` — the given namespace.
    Specific(Atom),
}

/// A single component in a selector.
#[derive(Debug, PartialEq, Eq)]
pub enum Component {
    /// `*`
    Universal,
    /// `div`
    Type(Atom),
    /// `#foo`
    Id(Atom),
    /// `.bar`
    Class(Atom),
    /// `ns|` prefix of a type or universal selector.
    Namespace(NamespaceConstraint),
    /// `[attr]`, `[attr=val]`, ...
    Attribute(AttrSelector),
    /// `:hover`, `:first-child`, ...
    PseudoClass(PseudoClass),
    /// `:not(...)`
    Negation(SelectorList),
    /// `:is(...)`
    Is(SelectorList),
    /// `:where(...)`
    Where(SelectorList),
    /// `:is(...)` whose arguments are all single components.
    IsSingle(Vec<Component>),
    /// `:not(...)` whose arguments are all single components.
    NotSingle(Vec<Component>),
    /// `:where(...)` whose arguments are all single components.
    WhereSingle(Vec<Component>),
    /// `:has(...)`
    Has(RelativeSelectorList),
    /// `:nth-child(An+B [of S])`
    NthChild(NthData),
    /// `:nth-last-child(An+B [of S])`
    NthLastChild(NthData),
    /// `:nth-of-type(An+B)`
    NthOfType(i32, i32),
    /// `:nth-last-of-type(An+B)`
    NthLastOfType(i32, i32),
    /// `:lang(en, fr)`
    Lang(AtomBuf),
    /// `:dir(ltr)`
    Dir(Direction),
    /// `::before`, ...
    PseudoElement(PseudoElement),
    /// `:state(name)`
    State(Atom),
    /// `:host`
    Host,
    /// `:host(...)`
    HostFunction(SelectorList),
    /// `:host-context(...)`
    HostContext(SelectorList),
    /// `::slotted(...)`
    Slotted(SelectorList),
    /// `::part(a b)`
    Part(AtomBuf),
    /// `::highlight(name)`
    Highlight(Atom),
    /// `&`
    Nesting,
    /// A combinator between compounds.
    Combinator(Combinator),
}

/// A list of relative selectors used inside `:has()`.
#[derive(Debug, PartialEq, Eq)]
pub struct RelativeSelectorList {
    /// The relative selectors.
    pub selectors: Vec<RelativeSelector>,
    /// Identity of this list for the `:has()` cache (hash of its text).
    pub cache_key: usize,
}

/// A relative selector: a leading combinator and a selector.
#[derive(Debug, PartialEq, Eq)]
pub struct RelativeSelector {
    /// The leading combinator (`Descendant` if omitted).
    pub combinator: Combinator,
    /// The selector to match against the related element.
    pub selector: Selector,
    /// Pre-computed traversal direction.
    pub traversal: HasTraversal,
}

/// Pre-computed `:has()` traversal direction.
#[derive(Debug, Clone, Copy, PartialEq, Eq, Hash, Structural)]
pub enum HasTraversal {
    /// Walk all descendants.
    Subtree,
    /// Direct children only.
    Children,
    /// Next sibling only.
    NextSibling,
    /// All subsequent siblings.
    Siblings,
}

/// The traversal for a leading combinator and the inner selector's combinator use.
pub open spec fn spec_traversal(comb: Combinator, inner_has_combinators: bool) -> HasTraversal {
    match comb {
        Combinator::Descendant => HasTraversal::Subtree,
        Combinator::Child => if inner_has_combinators {
            HasTraversal::Subtree
        } else {
            HasTraversal::Children
        },
        Combinator::NextSibling => if inner_has_combinators {
            HasTraversal::Subtree
        } else {
            HasTraversal::NextSibling
        },
        Combinator::LaterSibling => if inner_has_combinators {
            HasTraversal::Subtree
        } else {
            HasTraversal::Siblings
        },
        Combinator::Column => HasTraversal::Subtree,
    }
}

impl HasTraversal {
    /// Compute from a leading combinator and the inner selector's dependency flags.
    pub fn from_combinator(comb: Combinator, inner_has_combinators: bool) -> (r: HasTraversal)
        ensures
            r == spec_traversal(comb, inner_has_combinators),
    {
        match comb {
            Combinator::Descendant => HasTraversal::Subtree,
            Combinator::Child => {
                if inner_has_combinators {
                    HasTraversal::Subtree
                } else {
                    HasTraversal::Children
                }
            },
            Combinator::NextSibling => {
                if inner_has_combinators {
                    HasTraversal::Subtree
                } else {
                    HasTraversal::NextSibling
                }
            },
            Combinator::LaterSibling => {
                if inner_has_combinators {
                    HasTraversal::Subtree
                } else {
                    HasTraversal::Siblings
                }
            },
            Combinator::Column => HasTraversal::Subtree,
        }
    }
}

/// Parsed `An+B` data for `:nth-child()` and related pseudo-classes.
#[derive(Debug, PartialEq, Eq)]
pub struct NthData {
    pub a: i32,
    pub b: i32,
    /// Optional selector filter: `:nth-child(2n of .active)`.
    pub of_selector: Option<SelectorList>,
}

/// Whether the 1-based `index` is matched by `An+B`: for `A = 0` the index
/// equals `B`; otherwise `index - B` is `A` times some natural number `n`.
pub open spec fn spec_nth_formula(a: int, b: int, index: int) -> bool {
    if a == 0 {
        index == b
    } else {
        exists|n: int| n >= 0 && #[trigger] (a * n) == index - b
    }
}

proof fn lemma_pos_multiple(m: int, e: int)
    requires
        m > 0,
    ensures
        (exists|n: int| n >= 0 && #[trigger] (m * n) == e) == (e >= 0 && e % m == 0),
{
    if exists|n: int| n >= 0 && #[trigger] (m * n) == e {
        let n = choose|n: int| n >= 0 && #[trigger] (m * n) == e;
        vstd::arithmetic::div_mod::lemma_mod_multiples_basic(n, m);
        vstd::arithmetic::mul::lemma_mul_is_commutative(m, n);
        assert(m * n >= 0) by (nonlinear_arith)
            requires
                m > 0,
                n >= 0,
        ;
    }
    if e >= 0 && e % m == 0 {
        vstd::arithmetic::div_mod::lemma_fundamental_div_mod(e, m);
        let q = e / m;
        assert(m * q == e);
        assert(q >= 0) by (nonlinear_arith)
            requires
                m > 0,
                e >= 0,
                m * q == e,
        ;
    }
}

proof fn lemma_formula(a: int, d: int)
    requires
        a != 0,
    ensures
        (exists|n: int| n >= 0 && #[trigger] (a * n) == d) == (if a > 0 {
            d >= 0 && d % a == 0
        } else {
            d <= 0 && (-d) % (-a) == 0
        }),
{
    if a > 0 {
        lemma_pos_multiple(a, d);
    } else {
        let m = -a;
        lemma_pos_multiple(m, -d);
        if exists|n: int| n >= 0 && #[trigger] (a * n) == d {
            let n = choose|n: int| n >= 0 && #[trigger] (a * n) == d;
            assert(m * n == -d) by (nonlinear_arith)
                requires
                    m == -a,
                    a * n == d,
            ;
        }
        if exists|n: int| n >= 0 && #[trigger] (m * n) == -d {
            let n = choose|n: int| n >= 0 && #[trigger] (m * n) == -d;
            assert(a * n == d) by (nonlinear_arith)
                requires
                    m == -a,
                    m * n == -d,
            ;
        }
    }
}

impl NthData {
    /// Returns `true` if the given 1-based index matches this An+B formula.
    pub fn matches_index(&self, index: i32) -> (r: bool)
        ensures
            r == spec_nth_formula(self.a as int, self.b as int, index as int),
    {
        Self::formula(self.a, self.b, index)
    }

    /// An+B formula check: `A == 0` needs `index == B`; otherwise
    /// `index - B` must be a non-negative multiple of `A`.
    pub fn formula(a: i32, b: i32, index: i32) -> (r: bool)
        ensures
            r == spec_nth_formula(a as int, b as int, index as int),
    {
        if a == 0 {
            return index == b;
        }
        let diff: i64 = index as i64 - b as i64;
        proof {
            lemma_formula(a as int, diff as int);
        }
        if a > 0 {
            diff >= 0 && (diff as u64) % (a as u64) == 0
        } else {
            let m: i64 = -(a as i64);
            diff <= 0 && ((-diff) as u64) % (m as u64) == 0
        }
    }
}

/// Whether a component is a combinator.
pub open spec fn is_combinator(c: Component) -> bool {
    c is Combinator
}

/// Whether some component of `comps` is a combinator.
pub open spec fn has_combinator(comps: Seq<Component>) -> bool {
    exists|i: int| 0 <= i < comps.len() && is_combinator(#[trigger] comps[i])
}

/// Start of the rightmost compound of parse-order components: one past the
/// last combinator, or 0 when there is none.
pub open spec fn rightmost_start(comps: Seq<Component>) -> int
    decreases comps.len(),
{
    if comps.len() == 0 {
        0
    } else if is_combinator(comps.last()) {
        comps.len() as int
    } else {
        rightmost_start(comps.drop_last())
    }
}

/// The key selector after folding one component, from `key`.
pub open spec fn key_step(key: KeySelector, c: Component) -> KeySelector {
    match c {
        Component::Id(atom) => KeySelector::Id(atom),
        Component::Class(atom) => if key is Id {
            key
        } else {
            KeySelector::Class(atom)
        },
        Component::Type(atom) => if key is Universal {
            KeySelector::Type(atom)
        } else {
            key
        },
        _ => key,
    }
}

/// The key selector of a compound, folded left to right from `Universal`.
pub open spec fn key_of(comps: Seq<Component>) -> KeySelector
    decreases comps.len(),
{
    if comps.len() == 0 {
        KeySelector::Universal
    } else {
        key_step(key_of(comps.drop_last()), comps.last())
    }
}

/// The state bits a component requires.
pub open spec fn state_bits_of(c: Component) -> u64 {
    match c {
        Component::PseudoClass(pc) => match spec_state_flag(pc) {
            Some(f) => f.0,
            None => 0,
        },
        _ => 0,
    }
}

/// The union of the state bits required by a compound.
pub open spec fn required_state_of(comps: Seq<Component>) -> u64
    decreases comps.len(),
{
    if comps.len() == 0 {
        0
    } else {
        required_state_of(comps.drop_last()) | state_bits_of(comps.last())
    }
}

/// Some component satisfies the pseudo-class test `p`.
pub open spec fn any_pseudo(comps: Seq<Component>, p: spec_fn(PseudoClass) -> bool) -> bool {
    exists|i: int|
        0 <= i < comps.len() && (#[trigger] comps[i] matches Component::PseudoClass(pc) && p(pc))
}

/// The dependency flag bits of parse-order components.
pub open spec fn deps_bits_of(comps: Seq<Component>) -> u16 {
    (if any_pseudo(comps, |pc: PseudoClass| pc == PseudoClass::Visited || pc == PseudoClass::Link) {
        DEP_VISITED
    } else {
        0u16
    }) | (if any_pseudo(comps, |pc: PseudoClass| pc == PseudoClass::Empty) {
        DEP_EMPTY
    } else {
        0u16
    }) | (if any_pseudo(comps, |pc: PseudoClass| is_edge_child(pc)) {
        DEP_EDGE_CHILD
    } else {
        0u16
    }) | (if any_pseudo(comps, |pc: PseudoClass| pc == PseudoClass::Scope) {
        DEP_SCOPE
    } else {
        0u16
    }) | (if exists|i: int| 0 <= i < comps.len() && is_nth(#[trigger] comps[i]) {
        DEP_NTH
    } else {
        0u16
    }) | (if exists|i: int| 0 <= i < comps.len() && (#[trigger] comps[i] is Has) {
        DEP_HAS
    } else {
        0u16
    }) | (if rightmost_start(comps) > 0 {
        DEP_COMBINATORS
    } else {
        0u16
    })
}

/// First/last/only child or of-type.
pub open spec fn is_edge_child(pc: PseudoClass) -> bool {
    pc == PseudoClass::FirstChild || pc == PseudoClass::LastChild || pc == PseudoClass::OnlyChild
        || pc == PseudoClass::FirstOfType || pc == PseudoClass::LastOfType || pc
        == PseudoClass::OnlyOfType
}

/// One of the four `:nth-*` components.
pub open spec fn is_nth(c: Component) -> bool {
    c is NthChild || c is NthLastChild || c is NthOfType || c is NthLastOfType
}

/// The hints of parse-order components: key and required state from the
/// rightmost compound, dependency flags from all components.
pub open spec fn spec_hints(comps: Seq<Component>) -> (KeySelector, u64, u16, u16) {
    let key_comps = comps.skip(rightmost_start(comps));
    (
        key_of(key_comps),
        required_state_of(key_comps),
        deps_bits_of(comps),
        comps.len() as u16,
    )
}

/// Whether hints agree with `spec_hints` of the given parse-order components.
pub open spec fn hints_match(h: SelectorHints, comps: Seq<Component>) -> bool {
    let s = spec_hints(comps);
    &&& key_view(h.key) == key_view(s.0)
    &&& h.required_state.0 == s.1
    &&& h.deps.bits() == s.2
    &&& h.deps.component_count == s.3
}


/// The kind and name of a key selector.
pub open spec fn key_view(k: KeySelector) -> (u8, Seq<char>) {
    match k {
        KeySelector::Id(a) => (0u8, a@),
        KeySelector::Class(a) => (1u8, a@),
        KeySelector::Type(a) => (2u8, a@),
        KeySelector::Universal => (3u8, Seq::empty()),
    }
}

/// A copy of a key selector with the same kind and name.
pub fn dup_key(k: &KeySelector) -> (r: KeySelector)
    ensures
        r == *k,
        key_view(r) == key_view(*k),
{
    match k {
        KeySelector::Id(a) => KeySelector::Id(a.dup()),
        KeySelector::Class(a) => KeySelector::Class(a.dup()),
        KeySelector::Type(a) => KeySelector::Type(a.dup()),
        KeySelector::Universal => KeySelector::Universal,
    }
}

/// Some component of `comps` is a pseudo-class satisfying `p`.
proof fn lemma_any_pseudo_push(comps: Seq<Component>, c: Component, p: spec_fn(PseudoClass) -> bool)
    ensures
        any_pseudo(comps.push(c), p) == (any_pseudo(comps, p) || (c matches Component::PseudoClass(
            pc,
        ) && p(pc))),
{
    if any_pseudo(comps, p) {
        let i = choose|i: int|
            0 <= i < comps.len() && (#[trigger] comps[i] matches Component::PseudoClass(pc) && p(
                pc,
            ));
        assert(comps.push(c)[i] == comps[i]);
    }
    if c matches Component::PseudoClass(pc) && p(pc) {
        assert(comps.push(c)[comps.len() as int] == c);
    }
    if any_pseudo(comps.push(c), p) {
        let i = choose|i: int|
            0 <= i < comps.push(c).len() && (#[trigger] comps.push(c)[i] matches Component::PseudoClass(pc)
                && p(pc));
        if i < comps.len() {
            assert(comps[i] == comps.push(c)[i]);
        }
    }
}

/// Whether component `i` is a combinator.
fn is_combinator_at(comps: &[Component], i: usize) -> (r: bool)
    requires
        i < comps@.len(),
    ensures
        r == is_combinator(comps@[i as int]),
{
    match &comps[i] {
        Component::Combinator(_) => true,
        _ => false,
    }
}

/// The state bits a component requires.
fn state_bits(c: &Component) -> (r: u64)
    ensures
        r == state_bits_of(*c),
{
    match c {
        Component::PseudoClass(pc) => match pc.state_flag() {
            Some(f) => f.0,
            None => 0,
        },
        _ => 0,
    }
}

impl SelectorHints {
    /// Compute hints from components in parse order (left to right): key
    /// and required state from the rightmost compound, dependency flags from
    /// all components.
    pub fn compute_parse_order(comps: &[Component]) -> (r: SelectorHints)
        ensures
            hints_match(r, comps@),
    {
        let n = comps.len();
        let mut rs: usize = n;
        proof {
            assert(comps@.take(n as int) =~= comps@);
        }
        while rs > 0 && !is_combinator_at(comps, rs - 1)
            invariant
                rs <= n,
                n == comps@.len(),
                rightmost_start(comps@) == rightmost_start(comps@.take(rs as int)),
            decreases rs,
        {
            proof {
                assert(comps@.take(rs as int).drop_last() =~= comps@.take(rs as int - 1));
            }
            rs = rs - 1;
        }
        proof {
            if rs > 0 {
                assert(comps@.take(rs as int).last() == comps@[rs as int - 1]);
            } else {
                assert(comps@.take(0) =~= Seq::<Component>::empty());
            }
        }
        let mut key = KeySelector::Universal;
        let mut state: u64 = 0;
        let mut i: usize = rs;
        proof {
            assert(comps@.subrange(rs as int, rs as int) =~= Seq::<Component>::empty());
        }
        while i < n
            invariant
                rs <= i <= n,
                n == comps@.len(),
                key_view(key) == key_view(key_of(comps@.subrange(rs as int, i as int))),
                state == required_state_of(comps@.subrange(rs as int, i as int)),
            decreases n - i,
        {
            let ghost before = comps@.subrange(rs as int, i as int);
            proof {
                assert(comps@.subrange(rs as int, i as int + 1).drop_last() =~= before);
                assert(comps@.subrange(rs as int, i as int + 1).last() == comps@[i as int]);
            }
            match &comps[i] {
                Component::Id(a) => {
                    key = KeySelector::Id(a.dup());
                },
                Component::Class(a) => {
                    match key {
                        KeySelector::Id(_) => {},
                        _ => {
                            key = KeySelector::Class(a.dup());
                        },
                    }
                },
                Component::Type(a) => {
                    match key {
                        KeySelector::Universal => {
                            key = KeySelector::Type(a.dup());
                        },
                        _ => {},
                    }
                },
                _ => {},
            }
            state = state | state_bits(&comps[i]);
            proof {
                let k0 = key_of(before);
                let c = comps@[i as int];
                assert(key_view(key_step(k0, c)) == key_view(key));
            }
            i = i + 1;
        }
        proof {
            assert(comps@.subrange(rs as int, n as int) =~= comps@.skip(rightmost_start(comps@)));
        }
        let mut vis = false;
        let mut emp = false;
        let mut edge = false;
        let mut scope = false;
        let mut nth = false;
        let mut has = false;
        let mut j: usize = 0;
        let ghost pv = |pc: PseudoClass| pc == PseudoClass::Visited || pc == PseudoClass::Link;
        let ghost pe = |pc: PseudoClass| pc == PseudoClass::Empty;
        let ghost pg = |pc: PseudoClass| is_edge_child(pc);
        let ghost ps = |pc: PseudoClass| pc == PseudoClass::Scope;
        proof {
            assert(comps@.take(0) =~= Seq::<Component>::empty());
        }
        while j < n
            invariant
                j <= n,
                n == comps@.len(),
                forall|pc: PseudoClass| #[trigger] pv(pc) == (pc == PseudoClass::Visited || pc
                    == PseudoClass::Link),
                forall|pc: PseudoClass| #[trigger] pe(pc) == (pc == PseudoClass::Empty),
                forall|pc: PseudoClass| #[trigger] pg(pc) == is_edge_child(pc),
                forall|pc: PseudoClass| #[trigger] ps(pc) == (pc == PseudoClass::Scope),
                vis == any_pseudo(comps@.take(j as int), pv),
                emp == any_pseudo(comps@.take(j as int), pe),
                edge == any_pseudo(comps@.take(j as int), pg),
                scope == any_pseudo(comps@.take(j as int), ps),
                nth == exists|k: int| 0 <= k < j && is_nth(#[trigger] comps@[k]),
                has == exists|k: int| 0 <= k < j && (#[trigger] comps@[k] is Has),
            decreases n - j,
        {
            let c = &comps[j];
            proof {
                assert(comps@.take(j as int + 1) =~= comps@.take(j as int).push(*c));
                lemma_any_pseudo_push(comps@.take(j as int), *c, pv);
                lemma_any_pseudo_push(comps@.take(j as int), *c, pe);
                lemma_any_pseudo_push(comps@.take(j as int), *c, pg);
                lemma_any_pseudo_push(comps@.take(j as int), *c, ps);
            }
            match c {
                Component::PseudoClass(pc) => {
                    let is_v = match pc {
                        PseudoClass::Visited | PseudoClass::Link => true,
                        _ => false,
                    };
                    let is_e = match pc {
                        PseudoClass::Empty => true,
                        _ => false,
                    };
                    let is_g = match pc {
                        PseudoClass::FirstChild | PseudoClass::LastChild | PseudoClass::OnlyChild
                        | PseudoClass::FirstOfType | PseudoClass::LastOfType
                        | PseudoClass::OnlyOfType => true,
                        _ => false,
                    };
                    let is_s = match pc {
                        PseudoClass::Scope => true,
                        _ => false,
                    };
                    proof {
                        assert(pv(*pc) == is_v);
                        assert(pe(*pc) == is_e);
                        assert(pg(*pc) == is_g);
                        assert(ps(*pc) == is_s);
                    }
                    vis = vis || is_v;
                    emp = emp || is_e;
                    edge = edge || is_g;
                    scope = scope || is_s;
                },
                Component::NthChild(_) | Component::NthLastChild(_) | Component::NthOfType(_, _)
                | Component::NthLastOfType(_, _) => {
                    nth = true;
                },
                Component::Has(_) => {
                    has = true;
                },
                _ => {},
            }
            j = j + 1;
        }
        proof {
            assert(comps@.take(n as int) =~= comps@);
        }
        let flags: u16 = (if vis {
            DEP_VISITED
        } else {
            0u16
        }) | (if emp {
            DEP_EMPTY
        } else {
            0u16
        }) | (if edge {
            DEP_EDGE_CHILD
        } else {
            0u16
        }) | (if scope {
            DEP_SCOPE
        } else {
            0u16
        }) | (if nth {
            DEP_NTH
        } else {
            0u16
        }) | (if has {
            DEP_HAS
        } else {
            0u16
        }) | (if rs > 0 {
            DEP_COMBINATORS
        } else {
            0u16
        });
        let count = #[verifier::truncate] (n as u16);
        SelectorHints {
            required_state: ElementState(state),
            key,
            deps: SelectorDeps { flags, component_count: count },
        }
    }
}


/// A top-level selector is well formed when its hints are those of its
/// components read in parse order.
pub open spec fn selector_wf(sel: Selector) -> bool {
    hints_match(sel.hint, sel.comps@.reverse())
}

/// Hints of a sub-selector (an argument of a functional pseudo-class):
/// no key, no required state, only the combinator flag and the count.
pub open spec fn sub_hints_ok(h: SelectorHints, comps: Seq<Component>) -> bool {
    &&& h.required_state.0 == 0
    &&& h.key == KeySelector::Universal
    &&& h.deps.flags == (if comps.len() > 1 && has_combinator(comps) {
        DEP_COMBINATORS
    } else {
        0u16
    })
    &&& h.deps.component_count == comps.len() as u16
}

/// The components reversed into a new vector.
fn reversed(comps: Vec<Component>) -> (r: Vec<Component>)
    ensures
        r@ == comps@.reverse(),
{
    let mut src = comps;
    let mut out: Vec<Component> = Vec::new();
    let ghost orig = src@;
    while src.len() > 0
        invariant
            src@ == orig.take(src@.len() as int),
            src@.len() <= orig.len(),
            out@ == orig.skip(src@.len() as int).reverse(),
        decreases src@.len(),
    {
        let c = src.pop().unwrap();
        proof {
            let n = src@.len();
            assert(orig.skip(n as int).reverse() =~= orig.skip(n as int + 1).reverse().push(
                orig[n as int],
            ));
            assert(src@ =~= orig.take(n as int));
        }
        out.push(c);
    }
    proof {
        assert(orig.skip(0) =~= orig);
    }
    out
}

impl Selector {
    /// Build a selector from parse-order components (left to right), stored
    /// right to left.
    pub fn from_parse_order(comps: Vec<Component>, spec: Specificity, hint: SelectorHints) -> (r:
        Selector)
        ensures
            r.comps@ == comps@.reverse(),
            r.spec == spec,
            r.hint == hint,
    {
        Selector { comps: reversed(comps), spec, hint }
    }

    /// Build an argument selector of a functional pseudo-class: no key, no
    /// required state, only the combinator flag and the component count.
    pub fn from_parse_order_sub(comps: Vec<Component>, spec: Specificity) -> (r: Selector)
        ensures
            r.comps@ == comps@.reverse(),
            r.spec == spec,
            sub_hints_ok(r.hint, comps@),
    {
        let n = comps.len();
        let mut comb = false;
        if n > 1 {
            let mut i: usize = 0;
            while i < n
                invariant
                    i <= n,
                    n == comps@.len(),
                    comb == exists|k: int| 0 <= k < i && is_combinator(#[trigger] comps@[k]),
                decreases n - i,
            {
                if is_combinator_at(comps.as_slice(), i) {
                    comb = true;
                }
                i = i + 1;
            }
        }
        let flags: u16 = if comb {
            DEP_COMBINATORS
        } else {
            0u16
        };
        let hint = SelectorHints {
            required_state: ElementState(0),
            key: KeySelector::Universal,
            deps: SelectorDeps { flags, component_count: #[verifier::truncate] (n as u16) },
        };
        Selector { comps: reversed(comps), spec, hint }
    }
}

} // verus!
