//! Invalidation maps: which selectors reference which names.
//!
//! At stylesheet insertion time each selector is walked (nested lists
//! included, as the selector visitor walks them) and an entry naming it is
//! recorded under every class, id, tag and attribute name it references,
//! once per reference. State pseudo-classes add their state bits to
//! `state_deps`; selectors with structural pseudo-classes are listed in
//! `structural_deps`. Names are kept in hash buckets keyed by the 64-bit
//! hash of the name.

use vstd::prelude::*;
use std::collections::HashMap;
use crate::atom::Atom;
use crate::fxhash::{fx_hash_str, hash_str};
use crate::small_buf::{EntryBuf, entry_items};
use crate::pseudo_class::{ElementState, PseudoClass, spec_is_structural, spec_state_flag};
use crate::specificity::Specificity;
use crate::types::{Component, RelativeSelector, Selector, SelectorList};

verus! {

/// A reference to a selector of the stylesheet, with its specificity.
#[derive(Debug, Clone, Copy, PartialEq, Eq, Structural)]
pub struct InvalidationEntry {
    /// Index of the selector in the stylesheet's selector numbering.
    pub selector_index: u32,
    /// Specificity, for cascade ordering.
    pub specificity: Specificity,
}

/// The entries recorded under one name.
#[derive(Debug)]
struct NameDeps {
    name: Atom,
    entries: EntryBuf,
}

/// Which kind of name a reference is.
#[derive(Debug, Clone, Copy, PartialEq, Eq, Structural)]
pub enum RefKind {
    Class,
    Id,
    Type,
    Attr,
}

/// The entries of the first group named `n`, or none.
spec fn group_entries(groups: Seq<NameDeps>, n: Seq<char>) -> Seq<InvalidationEntry>
    decreases groups.len(),
{
    if groups.len() == 0 {
        Seq::empty()
    } else if groups[0].name@ == n {
        groups[0].entries@
    } else {
        group_entries(groups.drop_first(), n)
    }
}

/// Every group of a bucket holds at least one entry.
spec fn groups_ok(gs: Seq<NameDeps>) -> bool {
    forall|i: int| 0 <= i < gs.len() ==> (#[trigger] gs[i]).entries@.len() > 0
}

/// Every bucket of a map has only non-empty groups.
spec fn map_groups_ok(m: Map<u64, Vec<NameDeps>>) -> bool {
    forall|h: u64| m.contains_key(h) ==> groups_ok(#[trigger] m[h]@)
}

/// A count that stops at the largest `usize`.
pub open spec fn sat_count(n: nat) -> int {
    if n <= usize::MAX {
        n as int
    } else {
        usize::MAX as int
    }
}

/// The entries recorded under `n` in a bucket map.
spec fn deps_of(m: Map<u64, Vec<NameDeps>>, n: Seq<char>) -> Seq<InvalidationEntry> {
    if m.contains_key(fx_hash_str(n)) {
        group_entries(m[fx_hash_str(n)]@, n)
    } else {
        Seq::empty()
    }
}

/// `e` repeated `k` times.
pub open spec fn repeat(e: InvalidationEntry, k: nat) -> Seq<InvalidationEntry> {
    Seq::new(k, |i: int| e)
}

/// Number of references to name `n` of kind `k` made directly by one
/// component.
pub open spec fn direct_ref(c: Component, k: RefKind, n: Seq<char>) -> nat {
    match c {
        Component::Class(a) => if k == RefKind::Class && a@ == n {
            1
        } else {
            0
        },
        Component::Id(a) => if k == RefKind::Id && a@ == n {
            1
        } else {
            0
        },
        Component::Type(a) => if k == RefKind::Type && a@ == n {
            1
        } else {
            0
        },
        Component::Attribute(at) => if k == RefKind::Attr && at.name@ == n {
            1
        } else {
            0
        },
        _ => 0,
    }
}

/// References to `n` of kind `k` in a component and its nested lists.
pub open spec fn refs_comp(c: Component, k: RefKind, n: Seq<char>) -> nat
    decreases c, 0nat,
{
    direct_ref(c, k, n) + match c {
        Component::Negation(l) => refs_sels(l.0@, k, n),
        Component::Is(l) => refs_sels(l.0@, k, n),
        Component::Where(l) => refs_sels(l.0@, k, n),
        Component::IsSingle(cs) => refs_comps(cs@, k, n),
        Component::NotSingle(cs) => refs_comps(cs@, k, n),
        Component::WhereSingle(cs) => refs_comps(cs@, k, n),
        Component::Has(rl) => refs_rels(rl.selectors@, k, n),
        Component::NthChild(nth) => match nth.of_selector {
            Some(l) => refs_sels(l.0@, k, n),
            None => 0,
        },
        Component::NthLastChild(nth) => match nth.of_selector {
            Some(l) => refs_sels(l.0@, k, n),
            None => 0,
        },
        Component::HostFunction(l) => refs_sels(l.0@, k, n),
        Component::HostContext(l) => refs_sels(l.0@, k, n),
        Component::Slotted(l) => refs_sels(l.0@, k, n),
        _ => 0,
    }
}

/// References in a sequence of components.
pub open spec fn refs_comps(cs: Seq<Component>, k: RefKind, n: Seq<char>) -> nat
    decreases cs, 0nat,
{
    if cs.len() == 0 {
        0
    } else {
        refs_comp(cs[0], k, n) + refs_comps(cs.drop_first(), k, n)
    }
}

/// References in a sequence of selectors.
pub open spec fn refs_sels(sels: Seq<Selector>, k: RefKind, n: Seq<char>) -> nat
    decreases sels, 0nat,
{
    if sels.len() == 0 {
        0
    } else {
        refs_comps(sels[0].comps@, k, n) + refs_sels(sels.drop_first(), k, n)
    }
}

/// References in the selectors of relative selectors.
pub open spec fn refs_rels(rels: Seq<RelativeSelector>, k: RefKind, n: Seq<char>) -> nat
    decreases rels, 0nat,
{
    if rels.len() == 0 {
        0
    } else {
        refs_comps(rels[0].selector.comps@, k, n) + refs_rels(rels.drop_first(), k, n)
    }
}

/// State bits and structural use of a component itself.
pub open spec fn own_marks(c: Component) -> (u64, bool) {
    match c {
        Component::PseudoClass(pc) => (
            match spec_state_flag(pc) {
                Some(f) => f.0,
                None => 0u64,
            },
            spec_is_structural(pc),
        ),
        Component::NthChild(_) => (0u64, true),
        Component::NthLastChild(_) => (0u64, true),
        Component::NthOfType(_, _) => (0u64, true),
        Component::NthLastOfType(_, _) => (0u64, true),
        _ => (0u64, false),
    }
}

/// State bits and structural use of the lists nested in a component.
pub open spec fn nested_marks(c: Component) -> (u64, bool)
    decreases c, 1nat,
{
    match c {
        Component::Negation(l) => marks_sels(l.0@),
        Component::Is(l) => marks_sels(l.0@),
        Component::Where(l) => marks_sels(l.0@),
        Component::IsSingle(cs) => marks_comps(cs@),
        Component::NotSingle(cs) => marks_comps(cs@),
        Component::WhereSingle(cs) => marks_comps(cs@),
        Component::Has(rl) => marks_rels(rl.selectors@),
        Component::NthChild(nth) => match nth.of_selector {
            Some(l) => marks_sels(l.0@),
            None => (0u64, false),
        },
        Component::NthLastChild(nth) => match nth.of_selector {
            Some(l) => marks_sels(l.0@),
            None => (0u64, false),
        },
        Component::HostFunction(l) => marks_sels(l.0@),
        Component::HostContext(l) => marks_sels(l.0@),
        Component::Slotted(l) => marks_sels(l.0@),
        _ => (0u64, false),
    }
}

/// State bits and structural use of one component and its nested lists.
pub open spec fn marks_comp(c: Component) -> (u64, bool)
    decreases c, 2nat,
{
    let own = own_marks(c);
    let nested = nested_marks(c);
    (own.0 | nested.0, own.1 || nested.1)
}

/// State bits and structural use of a sequence of components.
pub open spec fn marks_comps(cs: Seq<Component>) -> (u64, bool)
    decreases cs, 0nat,
{
    if cs.len() == 0 {
        (0u64, false)
    } else {
        let a = marks_comp(cs[0]);
        let b = marks_comps(cs.drop_first());
        (a.0 | b.0, a.1 || b.1)
    }
}

/// State bits and structural use of a sequence of selectors.
pub open spec fn marks_sels(sels: Seq<Selector>) -> (u64, bool)
    decreases sels, 0nat,
{
    if sels.len() == 0 {
        (0u64, false)
    } else {
        let a = marks_comps(sels[0].comps@);
        let b = marks_sels(sels.drop_first());
        (a.0 | b.0, a.1 || b.1)
    }
}

/// State bits and structural use of relative selectors.
pub open spec fn marks_rels(rels: Seq<RelativeSelector>) -> (u64, bool)
    decreases rels, 0nat,
{
    if rels.len() == 0 {
        (0u64, false)
    } else {
        let a = marks_comps(rels[0].selector.comps@);
        let b = marks_rels(rels.drop_first());
        (a.0 | b.0, a.1 || b.1)
    }
}

/// The entry of the selector at `index`.
pub open spec fn entry_of(index: int, sel: Selector) -> InvalidationEntry {
    InvalidationEntry { selector_index: index as u32, specificity: sel.spec }
}

/// The entries a list of selectors numbered from `base` adds under name
/// `n` of kind `k`, in list order.
pub open spec fn list_contrib(sels: Seq<Selector>, base: int, k: RefKind, n: Seq<char>) -> Seq<
    InvalidationEntry,
>
    decreases sels.len(),
{
    if sels.len() == 0 {
        Seq::empty()
    } else {
        list_contrib(sels.drop_last(), base, k, n) + repeat(
            entry_of(base + sels.len() - 1, sels.last()),
            refs_comps(sels.last().comps@, k, n),
        )
    }
}

/// The state bits a list of selectors references.
pub open spec fn list_bits(sels: Seq<Selector>) -> u64
    decreases sels.len(),
{
    if sels.len() == 0 {
        0
    } else {
        list_bits(sels.drop_last()) | marks_comps(sels.last().comps@).0
    }
}

/// The entries of the structural selectors of a list numbered from `base`.
pub open spec fn list_structural(sels: Seq<Selector>, base: int) -> Seq<InvalidationEntry>
    decreases sels.len(),
{
    if sels.len() == 0 {
        Seq::empty()
    } else if marks_comps(sels.last().comps@).1 {
        list_structural(sels.drop_last(), base).push(entry_of(base + sels.len() - 1, sels.last()))
    } else {
        list_structural(sels.drop_last(), base)
    }
}

/// The name of kind `k` that a component carries itself, if any: the class
/// of `.c`, the id of `#i`, the tag of a type selector, the attribute of
/// `[a ...]`.
pub open spec fn own_name(c: Component, k: RefKind) -> Option<Seq<char>> {
    match (c, k) {
        (Component::Class(a), RefKind::Class) => Some(a@),
        (Component::Id(a), RefKind::Id) => Some(a@),
        (Component::Type(a), RefKind::Type) => Some(a@),
        (Component::Attribute(at), RefKind::Attr) => Some(at.name@),
        _ => None,
    }
}

/// The component sequences of a list of selectors.
pub open spec fn sel_comp_seqs(sels: Seq<Selector>) -> Seq<Seq<Component>> {
    Seq::new(sels.len(), |i: int| sels[i].comps@)
}

/// The component sequences nested directly in a component: the selectors of
/// the argument list of `:not()`, `:is()`, `:where()`, `:has()`, `:host()`,
/// `:host-context()`, `::slotted()` and of the `of` list of `:nth-child()`
/// and `:nth-last-child()`, and the arguments of a flattened `:is()`,
/// `:not()` or `:where()`.
pub open spec fn nested_seqs(c: Component) -> Seq<Seq<Component>> {
    match c {
        Component::Negation(l) => sel_comp_seqs(l.0@),
        Component::Is(l) => sel_comp_seqs(l.0@),
        Component::Where(l) => sel_comp_seqs(l.0@),
        Component::IsSingle(cs) => seq![cs@],
        Component::NotSingle(cs) => seq![cs@],
        Component::WhereSingle(cs) => seq![cs@],
        Component::Has(rl) => Seq::new(
            rl.selectors@.len(),
            |i: int| rl.selectors@[i].selector.comps@,
        ),
        Component::NthChild(nth) => match nth.of_selector {
            Some(l) => sel_comp_seqs(l.0@),
            None => Seq::empty(),
        },
        Component::NthLastChild(nth) => match nth.of_selector {
            Some(l) => sel_comp_seqs(l.0@),
            None => Seq::empty(),
        },
        Component::HostFunction(l) => sel_comp_seqs(l.0@),
        Component::HostContext(l) => sel_comp_seqs(l.0@),
        Component::Slotted(l) => sel_comp_seqs(l.0@),
        _ => Seq::empty(),
    }
}

/// Some component of `cs`, or of a list nested at most `depth` levels
/// below it, carries the name `n` of kind `k`.
pub open spec fn mentions(cs: Seq<Component>, k: RefKind, n: Seq<char>, depth: nat) -> bool
    decreases depth,
{
    exists|i: int|
        0 <= i < cs.len() && (own_name(#[trigger] cs[i], k) == Some(n) || (depth > 0
            && exists|j: int|
            0 <= j < nested_seqs(cs[i]).len() && mentions(
                #[trigger] nested_seqs(cs[i])[j],
                k,
                n,
                (depth - 1) as nat,
            )))
}

proof fn lemma_refs_comps_at(cs: Seq<Component>, k: RefKind, n: Seq<char>, i: int)
    requires
        0 <= i < cs.len(),
    ensures
        refs_comps(cs, k, n) >= refs_comp(cs[i], k, n),
    decreases cs.len(),
{
    if i > 0 {
        lemma_refs_comps_at(cs.drop_first(), k, n, i - 1);
    }
}

proof fn lemma_refs_sels_at(sels: Seq<Selector>, k: RefKind, n: Seq<char>, i: int)
    requires
        0 <= i < sels.len(),
    ensures
        refs_sels(sels, k, n) >= refs_comps(sels[i].comps@, k, n),
    decreases sels.len(),
{
    if i > 0 {
        lemma_refs_sels_at(sels.drop_first(), k, n, i - 1);
    }
}

proof fn lemma_refs_rels_at(rels: Seq<RelativeSelector>, k: RefKind, n: Seq<char>, i: int)
    requires
        0 <= i < rels.len(),
    ensures
        refs_rels(rels, k, n) >= refs_comps(rels[i].selector.comps@, k, n),
    decreases rels.len(),
{
    if i > 0 {
        lemma_refs_rels_at(rels.drop_first(), k, n, i - 1);
    }
}

/// A component references every name its nested sequences reference.
proof fn lemma_refs_comp_nested(c: Component, k: RefKind, n: Seq<char>, j: int)
    requires
        0 <= j < nested_seqs(c).len(),
    ensures
        refs_comp(c, k, n) >= refs_comps(nested_seqs(c)[j], k, n),
{
    match c {
        Component::Negation(l) => lemma_refs_sels_at(l.0@, k, n, j),
        Component::Is(l) => lemma_refs_sels_at(l.0@, k, n, j),
        Component::Where(l) => lemma_refs_sels_at(l.0@, k, n, j),
        Component::Has(rl) => lemma_refs_rels_at(rl.selectors@, k, n, j),
        Component::NthChild(nth) => match nth.of_selector {
            Some(l) => lemma_refs_sels_at(l.0@, k, n, j),
            None => {},
        },
        Component::NthLastChild(nth) => match nth.of_selector {
            Some(l) => lemma_refs_sels_at(l.0@, k, n, j),
            None => {},
        },
        Component::HostFunction(l) => lemma_refs_sels_at(l.0@, k, n, j),
        Component::HostContext(l) => lemma_refs_sels_at(l.0@, k, n, j),
        Component::Slotted(l) => lemma_refs_sels_at(l.0@, k, n, j),
        _ => {},
    }
}

/// Every name that a component sequence mentions, at any depth of nested
/// lists (the `of` list of `:nth-child()` included), is referenced by it
/// at least once.
pub proof fn lemma_mention_is_referenced(cs: Seq<Component>, k: RefKind, n: Seq<char>, depth: nat)
    requires
        mentions(cs, k, n, depth),
    ensures
        refs_comps(cs, k, n) >= 1,
    decreases depth,
{
    let i = choose|i: int|
        0 <= i < cs.len() && (own_name(#[trigger] cs[i], k) == Some(n) || (depth > 0
            && exists|j: int|
            0 <= j < nested_seqs(cs[i]).len() && mentions(
                #[trigger] nested_seqs(cs[i])[j],
                k,
                n,
                (depth - 1) as nat,
            )));
    lemma_refs_comps_at(cs, k, n, i);
    if own_name(cs[i], k) != Some(n) {
        let j = choose|j: int|
            0 <= j < nested_seqs(cs[i]).len() && mentions(
                #[trigger] nested_seqs(cs[i])[j],
                k,
                n,
                (depth - 1) as nat,
            );
        lemma_mention_is_referenced(nested_seqs(cs[i])[j], k, n, (depth - 1) as nat);
        lemma_refs_comp_nested(cs[i], k, n, j);
    }
}

/// The entries a list adds under a name hold the entry of every selector
/// that references the name.
proof fn lemma_list_contrib_has(sels: Seq<Selector>, base: int, k: RefKind, n: Seq<char>, i: int)
    requires
        0 <= i < sels.len(),
        refs_comps(sels[i].comps@, k, n) >= 1,
    ensures
        list_contrib(sels, base, k, n).contains(entry_of(base + i, sels[i])),
    decreases sels.len(),
{
    let front = list_contrib(sels.drop_last(), base, k, n);
    let tail = repeat(
        entry_of(base + sels.len() - 1, sels.last()),
        refs_comps(sels.last().comps@, k, n),
    );
    if i == sels.len() - 1 {
        assert((front + tail)[front.len() as int] == entry_of(base + i, sels[i]));
    } else {
        lemma_list_contrib_has(sels.drop_last(), base, k, n, i);
        let p = choose|p: int| 0 <= p < front.len() && front[p] == entry_of(base + i, sels[i]);
        assert((front + tail)[p] == entry_of(base + i, sels[i]));
    }
}

/// The state bits a component tests itself: those of a state
/// pseudo-class.
pub open spec fn own_state(c: Component) -> Option<u64> {
    match c {
        Component::PseudoClass(pc) => match spec_state_flag(pc) {
            Some(f) => Some(f.0),
            None => None,
        },
        _ => None,
    }
}

/// The component is itself structural: a structural pseudo-class or one of
/// the `:nth-*` selectors.
pub open spec fn own_structural(c: Component) -> bool {
    match c {
        Component::PseudoClass(pc) => spec_is_structural(pc),
        Component::NthChild(_) => true,
        Component::NthLastChild(_) => true,
        Component::NthOfType(_, _) => true,
        Component::NthLastOfType(_, _) => true,
        _ => false,
    }
}

/// Some component of `cs`, or of a list nested at most `depth` levels
/// below it, tests the state bits `f`.
pub open spec fn tests_state(cs: Seq<Component>, f: u64, depth: nat) -> bool
    decreases depth,
{
    exists|i: int|
        0 <= i < cs.len() && (own_state(#[trigger] cs[i]) == Some(f) || (depth > 0
            && exists|j: int|
            0 <= j < nested_seqs(cs[i]).len() && tests_state(
                #[trigger] nested_seqs(cs[i])[j],
                f,
                (depth - 1) as nat,
            )))
}

/// Some component of `cs`, or of a list nested at most `depth` levels
/// below it, is structural.
pub open spec fn tests_structure(cs: Seq<Component>, depth: nat) -> bool
    decreases depth,
{
    exists|i: int|
        0 <= i < cs.len() && (own_structural(#[trigger] cs[i]) || (depth > 0 && exists|j: int|
            0 <= j < nested_seqs(cs[i]).len() && tests_structure(
                #[trigger] nested_seqs(cs[i])[j],
                (depth - 1) as nat,
            )))
}

/// `x` holds every bit of `m`.
pub open spec fn has_bits(x: u64, m: u64) -> bool {
    x & m == m
}

proof fn lemma_or_bits(x: u64, y: u64, z: u64)
    by (bit_vector)
    ensures
        (x | y) & x == x,
        (x | y) & y == y,
        (x & y == y && y & z == z) ==> x & z == z,
{
}

proof fn lemma_marks_comps_at(cs: Seq<Component>, i: int)
    requires
        0 <= i < cs.len(),
    ensures
        has_bits(marks_comps(cs).0, marks_comp(cs[i]).0),
        marks_comp(cs[i]).1 ==> marks_comps(cs).1,
    decreases cs.len(),
{
    let a = marks_comp(cs[0]).0;
    let b = marks_comps(cs.drop_first()).0;
    lemma_or_bits(a, b, marks_comp(cs[i]).0);
    if i > 0 {
        lemma_marks_comps_at(cs.drop_first(), i - 1);
        lemma_or_bits(a | b, b, marks_comp(cs[i]).0);
    }
}

proof fn lemma_marks_sels_at(sels: Seq<Selector>, i: int)
    requires
        0 <= i < sels.len(),
    ensures
        has_bits(marks_sels(sels).0, marks_comps(sels[i].comps@).0),
        marks_comps(sels[i].comps@).1 ==> marks_sels(sels).1,
    decreases sels.len(),
{
    let a = marks_comps(sels[0].comps@).0;
    let b = marks_sels(sels.drop_first()).0;
    lemma_or_bits(a, b, 0);
    if i > 0 {
        lemma_marks_sels_at(sels.drop_first(), i - 1);
        lemma_or_bits(a | b, b, marks_comps(sels[i].comps@).0);
    }
}

proof fn lemma_marks_rels_at(rels: Seq<RelativeSelector>, i: int)
    requires
        0 <= i < rels.len(),
    ensures
        has_bits(marks_rels(rels).0, marks_comps(rels[i].selector.comps@).0),
        marks_comps(rels[i].selector.comps@).1 ==> marks_rels(rels).1,
    decreases rels.len(),
{
    let a = marks_comps(rels[0].selector.comps@).0;
    let b = marks_rels(rels.drop_first()).0;
    lemma_or_bits(a, b, 0);
    if i > 0 {
        lemma_marks_rels_at(rels.drop_first(), i - 1);
        lemma_or_bits(a | b, b, marks_comps(rels[i].selector.comps@).0);
    }
}

/// A component's marks hold those of each sequence nested in it.
proof fn lemma_marks_comp_nested(c: Component, j: int)
    requires
        0 <= j < nested_seqs(c).len(),
    ensures
        has_bits(marks_comp(c).0, marks_comps(nested_seqs(c)[j]).0),
        marks_comps(nested_seqs(c)[j]).1 ==> marks_comp(c).1,
{
    let inner = marks_comps(nested_seqs(c)[j]).0;
    match c {
        Component::Negation(l) => lemma_marks_sels_at(l.0@, j),
        Component::Is(l) => lemma_marks_sels_at(l.0@, j),
        Component::Where(l) => lemma_marks_sels_at(l.0@, j),
        Component::Has(rl) => lemma_marks_rels_at(rl.selectors@, j),
        Component::NthChild(nth) => match nth.of_selector {
            Some(l) => lemma_marks_sels_at(l.0@, j),
            None => {},
        },
        Component::NthLastChild(nth) => match nth.of_selector {
            Some(l) => lemma_marks_sels_at(l.0@, j),
            None => {},
        },
        Component::HostFunction(l) => lemma_marks_sels_at(l.0@, j),
        Component::HostContext(l) => lemma_marks_sels_at(l.0@, j),
        Component::Slotted(l) => lemma_marks_sels_at(l.0@, j),
        _ => {
            lemma_or_bits(0, 0, 0);
        },
    }
    let n = nested_marks(c).0;
    lemma_or_bits(own_marks(c).0, n, inner);
    lemma_or_bits(own_marks(c).0 | n, n, inner);
}

/// Every state bit set that a component sequence tests, at any depth of
/// nested lists (the `of` list of `:nth-child()` included), is among the
/// state bits it marks.
pub proof fn lemma_tested_state_is_marked(cs: Seq<Component>, f: u64, depth: nat)
    requires
        tests_state(cs, f, depth),
    ensures
        has_bits(marks_comps(cs).0, f),
    decreases depth,
{
    let i = choose|i: int|
        0 <= i < cs.len() && (own_state(#[trigger] cs[i]) == Some(f) || (depth > 0
            && exists|j: int|
            0 <= j < nested_seqs(cs[i]).len() && tests_state(
                #[trigger] nested_seqs(cs[i])[j],
                f,
                (depth - 1) as nat,
            )));
    lemma_marks_comps_at(cs, i);
    let m = marks_comp(cs[i]).0;
    if own_state(cs[i]) == Some(f) {
        lemma_or_bits(own_marks(cs[i]).0, nested_marks(cs[i]).0, 0);
        lemma_or_bits(marks_comps(cs).0, m, f);
    } else {
        let j = choose|j: int|
            0 <= j < nested_seqs(cs[i]).len() && tests_state(
                #[trigger] nested_seqs(cs[i])[j],
                f,
                (depth - 1) as nat,
            );
        lemma_tested_state_is_marked(nested_seqs(cs[i])[j], f, (depth - 1) as nat);
        lemma_marks_comp_nested(cs[i], j);
        let inner = marks_comps(nested_seqs(cs[i])[j]).0;
        lemma_or_bits(m, inner, f);
        lemma_or_bits(marks_comps(cs).0, m, inner);
        lemma_or_bits(marks_comps(cs).0, inner, f);
    }
}

/// A component sequence with a structural component at any depth of nested
/// lists is marked structural.
pub proof fn lemma_tested_structure_is_marked(cs: Seq<Component>, depth: nat)
    requires
        tests_structure(cs, depth),
    ensures
        marks_comps(cs).1,
    decreases depth,
{
    let i = choose|i: int|
        0 <= i < cs.len() && (own_structural(#[trigger] cs[i]) || (depth > 0 && exists|j: int|
            0 <= j < nested_seqs(cs[i]).len() && tests_structure(
                #[trigger] nested_seqs(cs[i])[j],
                (depth - 1) as nat,
            )));
    lemma_marks_comps_at(cs, i);
    if !own_structural(cs[i]) {
        let j = choose|j: int|
            0 <= j < nested_seqs(cs[i]).len() && tests_structure(
                #[trigger] nested_seqs(cs[i])[j],
                (depth - 1) as nat,
            );
        lemma_tested_structure_is_marked(nested_seqs(cs[i])[j], (depth - 1) as nat);
        lemma_marks_comp_nested(cs[i], j);
    }
}

/// The state bits of a list hold those of each of its selectors.
proof fn lemma_list_bits_at(sels: Seq<Selector>, i: int)
    requires
        0 <= i < sels.len(),
    ensures
        has_bits(list_bits(sels), marks_comps(sels[i].comps@).0),
    decreases sels.len(),
{
    let a = list_bits(sels.drop_last());
    let b = marks_comps(sels.last().comps@).0;
    lemma_or_bits(a, b, 0);
    if i < sels.len() - 1 {
        lemma_list_bits_at(sels.drop_last(), i);
        lemma_or_bits(a | b, a, marks_comps(sels[i].comps@).0);
    }
}

/// The structural entries of a list hold the entry of each structural
/// selector.
proof fn lemma_list_structural_has(sels: Seq<Selector>, base: int, i: int)
    requires
        0 <= i < sels.len(),
        marks_comps(sels[i].comps@).1,
    ensures
        list_structural(sels, base).contains(entry_of(base + i, sels[i])),
    decreases sels.len(),
{
    let front = list_structural(sels.drop_last(), base);
    if i == sels.len() - 1 {
        assert(front.push(entry_of(base + i, sels[i]))[front.len() as int] == entry_of(
            base + i,
            sels[i],
        ));
    } else {
        lemma_list_structural_has(sels.drop_last(), base, i);
        let p = choose|p: int| 0 <= p < front.len() && front[p] == entry_of(base + i, sels[i]);
        if marks_comps(sels.last().comps@).1 {
            assert(front.push(entry_of(base + sels.len() - 1, sels.last()))[p] == front[p]);
        }
    }
}

/// Inverted index from names to the selectors that reference them.
#[derive(Debug)]
pub struct InvalidationMap {
    class_map: HashMap<u64, Vec<NameDeps>>,
    id_map: HashMap<u64, Vec<NameDeps>>,
    type_map: HashMap<u64, Vec<NameDeps>>,
    attr_map: HashMap<u64, Vec<NameDeps>>,
    state_deps: ElementState,
    structural_entries: EntryBuf,
    count: u32,
    class_names: usize,
    id_names: usize,
}

impl InvalidationMap {
    /// The entries recorded under name `n` of kind `k`.
    pub closed spec fn deps(&self, k: RefKind, n: Seq<char>) -> Seq<InvalidationEntry> {
        match k {
            RefKind::Class => deps_of(self.class_map@, n),
            RefKind::Id => deps_of(self.id_map@, n),
            RefKind::Type => deps_of(self.type_map@, n),
            RefKind::Attr => deps_of(self.attr_map@, n),
        }
    }

    /// The union of the state bits referenced.
    pub closed spec fn state_bits(&self) -> u64 {
        self.state_deps.0
    }

    /// The entries of selectors with structural pseudo-classes.
    pub closed spec fn structural(&self) -> Seq<InvalidationEntry> {
        entry_items(self.structural_entries)
    }

    /// Number of selectors indexed.
    pub closed spec fn indexed(&self) -> u32 {
        self.count
    }

    /// The names of kind `k` under which some entry is recorded.
    pub closed spec fn names(&self, k: RefKind) -> Set<Seq<char>> {
        Set::new(|n: Seq<char>| self.deps(k, n).len() > 0)
    }

    /// Well-formedness: no bucket holds an empty group, the class and id
    /// name sets are finite, and the class and id counters are their sizes.
    #[verifier::opaque]
    pub closed spec fn wf(&self) -> bool {
        &&& map_groups_ok(self.class_map@)
        &&& map_groups_ok(self.id_map@)
        &&& map_groups_ok(self.type_map@)
        &&& map_groups_ok(self.attr_map@)
        &&& self.names(RefKind::Class).finite()
        &&& self.names(RefKind::Id).finite()
        &&& self.class_names == sat_count(self.names(RefKind::Class).len())
        &&& self.id_names == sat_count(self.names(RefKind::Id).len())
    }

    /// Well-formedness depends only on the buckets and the name counters.
    proof fn lemma_wf_frame(a: InvalidationMap, b: InvalidationMap)
        requires
            a.wf(),
            a.class_map == b.class_map,
            a.id_map == b.id_map,
            a.type_map == b.type_map,
            a.attr_map == b.attr_map,
            a.class_names == b.class_names,
            a.id_names == b.id_names,
        ensures
            b.wf(),
    {
        reveal(InvalidationMap::wf);
        assert(a.names(RefKind::Class) =~= b.names(RefKind::Class));
        assert(a.names(RefKind::Id) =~= b.names(RefKind::Id));
    }

    /// A new empty map.
    pub fn new() -> (r: InvalidationMap)
        ensures
            r.wf(),
            forall|k: RefKind, n: Seq<char>| #[trigger] r.deps(k, n) == Seq::<InvalidationEntry>::empty(),
            r.state_bits() == 0,
            r.structural() == Seq::<InvalidationEntry>::empty(),
            r.indexed() == 0,
    {
        let r = InvalidationMap {
            class_map: HashMap::new(),
            id_map: HashMap::new(),
            type_map: HashMap::new(),
            attr_map: HashMap::new(),
            state_deps: ElementState::empty(),
            structural_entries: EntryBuf::new(),
            count: 0,
            class_names: 0,
            id_names: 0,
        };
        proof {
            reveal(InvalidationMap::wf);
            assert(r.names(RefKind::Class) =~= Set::<Seq<char>>::empty());
            assert(r.names(RefKind::Id) =~= Set::<Seq<char>>::empty());
        }
        r
    }

    /// Index a selector list: selector `i` gets index `base_index + i`.
    /// Under every name a selector references, its entry is recorded once per
    /// reference; state bits are added; structural selectors are listed.
    pub fn add_selector_list(&mut self, list: &SelectorList, base_index: u32)
        requires
            old(self).wf(),
            base_index as int + list.0@.len() <= u32::MAX + 1,
            old(self).indexed() as int + list.0@.len() <= u32::MAX,
        ensures
            final(self).wf(),
            final(self).indexed() == old(self).indexed() + list.0@.len(),
            forall|k: RefKind, n: Seq<char>|
                #[trigger] final(self).deps(k, n) == old(self).deps(k, n) + list_contrib(
                    list.0@,
                    base_index as int,
                    k,
                    n,
                ),
            final(self).state_bits() == old(self).state_bits() | list_bits(list.0@),
            final(self).structural() == old(self).structural() + list_structural(
                list.0@,
                base_index as int,
            ),
            forall|i: int, k: RefKind, n: Seq<char>, d: nat|
                0 <= i < list.0@.len() && #[trigger] mentions(list.0@[i].comps@, k, n, d)
                    ==> final(self).deps(k, n).contains(
                    entry_of(base_index as int + i, list.0@[i]),
                ),
            forall|i: int, f: u64, d: nat|
                0 <= i < list.0@.len() && #[trigger] tests_state(list.0@[i].comps@, f, d)
                    ==> has_bits(final(self).state_bits(), f),
            forall|i: int, d: nat|
                0 <= i < list.0@.len() && #[trigger] tests_structure(list.0@[i].comps@, d)
                    ==> final(self).structural().contains(
                    entry_of(base_index as int + i, list.0@[i]),
                ),
    {
        let mut i: usize = 0;
        proof {
            let s = old(self).state_bits();
            assert(s | 0u64 == s) by (bit_vector);
            assert(list.0@.take(0) =~= Seq::<Selector>::empty());
            assert(old(self).structural() + Seq::<InvalidationEntry>::empty() =~= old(
                self,
            ).structural());
            assert forall|k: RefKind, n: Seq<char>| #[trigger] self.deps(k, n) == old(self).deps(
                k,
                n,
            ) + list_contrib(list.0@.take(0), base_index as int, k, n) by {
                assert(old(self).deps(k, n) + Seq::<InvalidationEntry>::empty() =~= old(self).deps(
                    k,
                    n,
                ));
            }
        }
        while i < list.0.len()
            invariant
                self.wf(),
                i <= list.0@.len(),
                base_index as int + list.0@.len() <= u32::MAX + 1,
                self.indexed() == old(self).indexed() + i,
                old(self).indexed() as int + list.0@.len() <= u32::MAX,
                forall|k: RefKind, n: Seq<char>|
                    #[trigger] self.deps(k, n) == old(self).deps(k, n) + list_contrib(
                        list.0@.take(i as int),
                        base_index as int,
                        k,
                        n,
                    ),
                self.state_bits() == old(self).state_bits() | list_bits(list.0@.take(i as int)),
                self.structural() == old(self).structural() + list_structural(
                    list.0@.take(i as int),
                    base_index as int,
                ),
            decreases list.0@.len() - i,
        {
            let selector = &list.0[i];
            let idx: u32 = base_index + (i as u32);
            let entry = InvalidationEntry { selector_index: idx, specificity: selector.specificity() };
            let ghost before = *self;
            self.add_selector(selector, entry);
            let ghost mid = *self;
            self.count = self.count + 1;
            proof {
                InvalidationMap::lemma_wf_frame(mid, *self);
            }
            proof {
                let t0 = list.0@.take(i as int);
                let t1 = list.0@.take(i as int + 1);
                assert(t1.drop_last() =~= t0);
                assert(t1.last() == list.0@[i as int]);
                assert(entry == entry_of(base_index as int + t1.len() - 1, t1.last()));
                let a = old(self).state_bits();
                let b = list_bits(t0);
                let c = marks_comps(selector.comps@).0;
                assert((a | b) | c == a | (b | c)) by (bit_vector);
                assert forall|k: RefKind, n: Seq<char>| #[trigger] self.deps(k, n) == old(
                    self,
                ).deps(k, n) + list_contrib(t1, base_index as int, k, n) by {
                    assert(before.deps(k, n) == old(self).deps(k, n) + list_contrib(
                        t0,
                        base_index as int,
                        k,
                        n,
                    ));
                    assert(mid.deps(k, n) == before.deps(k, n) + repeat(
                        entry,
                        refs_comps(selector.comps@, k, n),
                    ));
                    assert(self.deps(k, n) == mid.deps(k, n));
                    assert(old(self).deps(k, n) + list_contrib(t0, base_index as int, k, n)
                        + repeat(entry, refs_comps(selector.comps@, k, n)) =~= old(self).deps(k, n)
                        + (list_contrib(t0, base_index as int, k, n) + repeat(
                        entry,
                        refs_comps(selector.comps@, k, n),
                    )));
                }
                if marks_comps(selector.comps@).1 {
                    assert(old(self).structural() + list_structural(t0, base_index as int).push(
                        entry,
                    ) =~= (old(self).structural() + list_structural(t0, base_index as int)).push(
                        entry,
                    ));
                }
            }
            i = i + 1;
        }
        proof {
            assert(list.0@.take(i as int) =~= list.0@);
            assert forall|i: int, k: RefKind, n: Seq<char>, d: nat|
                0 <= i < list.0@.len() && #[trigger] mentions(list.0@[i].comps@, k, n, d)
                    implies self.deps(k, n).contains(
                    entry_of(base_index as int + i, list.0@[i]),
                ) by {
                lemma_mention_is_referenced(list.0@[i].comps@, k, n, d);
                lemma_list_contrib_has(list.0@, base_index as int, k, n, i);
                let c = list_contrib(list.0@, base_index as int, k, n);
                let p = choose|p: int|
                    0 <= p < c.len() && c[p] == entry_of(base_index as int + i, list.0@[i]);
                assert((old(self).deps(k, n) + c)[old(self).deps(k, n).len() + p] == c[p]);
            }
            assert forall|i: int, f: u64, d: nat|
                0 <= i < list.0@.len() && #[trigger] tests_state(list.0@[i].comps@, f, d)
                    implies has_bits(self.state_bits(), f) by {
                lemma_tested_state_is_marked(list.0@[i].comps@, f, d);
                lemma_list_bits_at(list.0@, i);
                let lb = list_bits(list.0@);
                let m = marks_comps(list.0@[i].comps@).0;
                lemma_or_bits(lb, m, f);
                lemma_or_bits(old(self).state_bits(), lb, f);
                lemma_or_bits(old(self).state_bits() | lb, lb, f);
            }
            assert forall|i: int, d: nat|
                0 <= i < list.0@.len() && #[trigger] tests_structure(list.0@[i].comps@, d)
                    implies self.structural().contains(
                    entry_of(base_index as int + i, list.0@[i]),
                ) by {
                lemma_tested_structure_is_marked(list.0@[i].comps@, d);
                lemma_list_structural_has(list.0@, base_index as int, i);
                let c = list_structural(list.0@, base_index as int);
                let p = choose|p: int|
                    0 <= p < c.len() && c[p] == entry_of(base_index as int + i, list.0@[i]);
                assert((old(self).structural() + c)[old(self).structural().len() + p] == c[p]);
            }
        }
    }

    /// Index one selector under `entry`.
    pub fn add_selector(&mut self, selector: &Selector, entry: InvalidationEntry)
        requires
            old(self).wf(),
        ensures
            final(self).wf(),
            forall|k: RefKind, n: Seq<char>|
                #[trigger] final(self).deps(k, n) == old(self).deps(k, n) + repeat(
                    entry,
                    refs_comps(selector.comps@, k, n),
                ),
            final(self).state_bits() == old(self).state_bits() | marks_comps(selector.comps@).0,
            final(self).structural() == if marks_comps(selector.comps@).1 {
                old(self).structural().push(entry)
            } else {
                old(self).structural()
            },
            final(self).indexed() == old(self).indexed(),
    {
        let structural = self.walk_comps(selector.comps.as_slice(), entry);
        let ghost mw = *self;
        if structural {
            self.structural_entries.push(entry);
        }
        proof {
            InvalidationMap::lemma_wf_frame(mw, *self);
        }
        proof {
            assert forall|k: RefKind, n: Seq<char>| #[trigger] self.deps(k, n) == old(self).deps(
                k,
                n,
            ) + repeat(entry, refs_comps(selector.comps@, k, n)) by {
                assert(self.deps(k, n) == mw.deps(k, n));
            }
        }
    }

    /// Selectors that reference the given class name.
    pub fn class_deps(&self, class: &Atom) -> (r: Vec<InvalidationEntry>)
        ensures
            r@ == self.deps(RefKind::Class, class@),
    {
        lookup(&self.class_map, class)
    }

    /// Selectors that reference the given id.
    pub fn id_deps(&self, id: &Atom) -> (r: Vec<InvalidationEntry>)
        ensures
            r@ == self.deps(RefKind::Id, id@),
    {
        lookup(&self.id_map, id)
    }

    /// Selectors that reference the given tag name.
    pub fn type_deps(&self, tag: &Atom) -> (r: Vec<InvalidationEntry>)
        ensures
            r@ == self.deps(RefKind::Type, tag@),
    {
        lookup(&self.type_map, tag)
    }

    /// Selectors that reference the given attribute name.
    pub fn attr_deps(&self, attr: &Atom) -> (r: Vec<InvalidationEntry>)
        ensures
            r@ == self.deps(RefKind::Attr, attr@),
    {
        lookup(&self.attr_map, attr)
    }

    /// Selectors that use structural pseudo-classes.
    pub fn structural_deps(&self) -> (r: &[InvalidationEntry])
        ensures
            r@ == self.structural(),
    {
        self.structural_entries.as_slice()
    }

    /// All state flags referenced by any selector.
    pub fn state_deps(&self) -> (r: ElementState)
        ensures
            r.0 == self.state_bits(),
    {
        self.state_deps
    }

    /// Whether any selector references one of the given state flags.
    pub fn depends_on_state(&self, state: ElementState) -> (r: bool)
        ensures
            r == (self.state_bits() & state.0 != 0),
    {
        self.state_deps.intersects(state)
    }

    /// Number of indexed selectors.
    pub fn selector_count(&self) -> (r: u32)
        ensures
            r == self.indexed(),
    {
        self.count
    }

    /// Number of distinct class names recorded (stopping at the largest
    /// `usize`).
    pub fn class_count(&self) -> (r: usize)
        requires
            self.wf(),
        ensures
            self.names(RefKind::Class).finite(),
            r == sat_count(self.names(RefKind::Class).len()),
    {
        proof {
            reveal(InvalidationMap::wf);
        }
        self.class_names
    }

    /// Number of distinct ids recorded (stopping at the largest `usize`).
    pub fn id_count(&self) -> (r: usize)
        requires
            self.wf(),
        ensures
            self.names(RefKind::Id).finite(),
            r == sat_count(self.names(RefKind::Id).len()),
    {
        proof {
            reveal(InvalidationMap::wf);
        }
        self.id_names
    }

    /// Remove every entry.
    pub fn clear(&mut self)
        ensures
            final(self).wf(),
            forall|k: RefKind, n: Seq<char>|
                #[trigger] final(self).deps(k, n) == Seq::<InvalidationEntry>::empty(),
            final(self).state_bits() == 0,
            final(self).structural() == Seq::<InvalidationEntry>::empty(),
            final(self).indexed() == 0,
    {
        *self = InvalidationMap::new();
    }

    fn record(&mut self, k: RefKind, name: &Atom, entry: InvalidationEntry)
        requires
            old(self).wf(),
        ensures
            final(self).wf(),
            forall|kk: RefKind, n: Seq<char>|
                #[trigger] final(self).deps(kk, n) == old(self).deps(kk, n) + if kk == k && n
                    == name@ {
                    seq![entry]
                } else {
                    Seq::<InvalidationEntry>::empty()
                },
            final(self).state_bits() == old(self).state_bits(),
            final(self).structural() == old(self).structural(),
            final(self).indexed() == old(self).indexed(),
    {
        proof {
            reveal(InvalidationMap::wf);
        }
        let ghost classes = self.names(RefKind::Class);
        let ghost ids = self.names(RefKind::Id);
        match k {
            RefKind::Class => {
                let fresh = push_dep(&mut self.class_map, name, entry);
                if fresh && self.class_names < usize::MAX {
                    self.class_names = self.class_names + 1;
                }
                proof {
                    assert(fresh == !classes.contains(name@));
                    assert(self.names(RefKind::Class) =~= classes.insert(name@));
                    assert(self.names(RefKind::Id) =~= ids);
                }
            },
            RefKind::Id => {
                let fresh = push_dep(&mut self.id_map, name, entry);
                if fresh && self.id_names < usize::MAX {
                    self.id_names = self.id_names + 1;
                }
                proof {
                    assert(fresh == !ids.contains(name@));
                    assert(self.names(RefKind::Id) =~= ids.insert(name@));
                    assert(self.names(RefKind::Class) =~= classes);
                }
            },
            RefKind::Type => {
                push_dep(&mut self.type_map, name, entry);
                proof {
                    assert(self.names(RefKind::Class) =~= classes);
                    assert(self.names(RefKind::Id) =~= ids);
                }
            },
            RefKind::Attr => {
                push_dep(&mut self.attr_map, name, entry);
                proof {
                    assert(self.names(RefKind::Class) =~= classes);
                    assert(self.names(RefKind::Id) =~= ids);
                }
            },
        }
    }
}

/// The entries recorded under `name` in a bucket map.
fn lookup(m: &HashMap<u64, Vec<NameDeps>>, name: &Atom) -> (r: Vec<InvalidationEntry>)
    ensures
        r@ == deps_of(m@, name@),
{
    let h = hash_str(name.as_str());
    match m.get(&h) {
        Some(groups) => {
            proof {
                assert(m@.contains_key(h));
                assert(m@[h] == *groups);
            }
            let mut i: usize = 0;
            proof {
                assert(groups@.skip(0) =~= groups@);
            }
            while i < groups.len()
                invariant
                    i <= groups@.len(),
                    h == fx_hash_str(name@),
                    m@.contains_key(h),
                    m@[h] == *groups,
                    group_entries(groups@, name@) == group_entries(groups@.skip(i as int), name@),
                decreases groups@.len() - i,
            {
                proof {
                    assert(groups@.skip(i as int).drop_first() =~= groups@.skip(i as int + 1));
                }
                if groups[i].name.same(name) {
                    proof {
                        assert(groups@.skip(i as int)[0] == groups@[i as int]);
                    }
                    return copy_entries(groups[i].entries.as_slice());
                }
                i = i + 1;
            }
            proof {
                assert(groups@.skip(i as int) =~= Seq::<NameDeps>::empty());
            }
            Vec::new()
        },
        None => Vec::new(),
    }
}

/// A copy of a slice of entries.
fn copy_entries(s: &[InvalidationEntry]) -> (r: Vec<InvalidationEntry>)
    ensures
        r@ == s@,
{
    let mut out: Vec<InvalidationEntry> = Vec::new();
    let mut i: usize = 0;
    while i < s.len()
        invariant
            i <= s@.len(),
            out@ == s@.take(i as int),
        decreases s@.len() - i,
    {
        out.push(s[i]);
        i = i + 1;
        proof {
            assert(out@ =~= s@.take(i as int));
        }
    }
    proof {
        assert(s@.take(i as int) =~= s@);
    }
    out
}

/// Appends `entry` to the group of `name` (creating it if needed): whether
/// a new group was created.
fn push_to_group(groups: &mut Vec<NameDeps>, name: &Atom, entry: InvalidationEntry) -> (r: bool)
    requires
        groups_ok(old(groups)@),
    ensures
        groups_ok(final(groups)@),
        r == (group_entries(old(groups)@, name@).len() == 0),
        forall|n: Seq<char>|
            #[trigger] group_entries(final(groups)@, n) == group_entries(old(groups)@, n) + if n
                == name@ {
                seq![entry]
            } else {
                Seq::<InvalidationEntry>::empty()
            },
    decreases old(groups)@.len(),
{
    if groups.len() == 0 {
        let mut entries = EntryBuf::new();
        entries.push(entry);
        groups.push(NameDeps { name: name.dup(), entries });
        proof {
            assert forall|n: Seq<char>| #[trigger] group_entries(groups@, n) == group_entries(
                old(groups)@,
                n,
            ) + if n == name@ {
                seq![entry]
            } else {
                Seq::<InvalidationEntry>::empty()
            } by {
                assert(group_entries(old(groups)@, n) =~= Seq::<InvalidationEntry>::empty());
                assert(groups@.drop_first() =~= Seq::<NameDeps>::empty());
                assert(group_entries(groups@.drop_first(), n) =~= Seq::<InvalidationEntry>::empty());
                if n == name@ {
                    assert(groups@[0].entries@ =~= seq![entry]);
                    assert(Seq::<InvalidationEntry>::empty() + seq![entry] =~= seq![entry]);
                } else {
                    assert(Seq::<InvalidationEntry>::empty() + Seq::<InvalidationEntry>::empty()
                        =~= Seq::<InvalidationEntry>::empty());
                }
            }
        }
        return true;
    }
    let ghost og = old(groups)@;
    let mut first = groups.remove(0);
    let ghost rest0 = groups@;
    proof {
        assert(rest0 =~= og.drop_first());
    }
    if first.name.same(name) {
        let ghost fe = first.entries@;
        first.entries.push(entry);
        groups.insert(0, first);
        proof {
            assert(groups@.drop_first() =~= rest0);
            assert forall|n: Seq<char>| #[trigger] group_entries(groups@, n) == group_entries(
                og,
                n,
            ) + if n == name@ {
                seq![entry]
            } else {
                Seq::<InvalidationEntry>::empty()
            } by {
                if n == name@ {
                    assert(group_entries(og, n) == fe);
                    assert(groups@[0].entries@ =~= fe + seq![entry]);
                } else {
                    assert(group_entries(og, n) == group_entries(rest0, n));
                    assert(group_entries(groups@, n) == group_entries(rest0, n));
                    assert(group_entries(og, n) + Seq::<InvalidationEntry>::empty() =~= group_entries(
                        og,
                        n,
                    ));
                }
            }
        }
        false
    } else {
        let ghost fname = first.name@;
        let fresh = push_to_group(groups, name, entry);
        let ghost rest1 = groups@;
        groups.insert(0, first);
        proof {
            assert(groups@.drop_first() =~= rest1);
            assert forall|n: Seq<char>| #[trigger] group_entries(groups@, n) == group_entries(
                og,
                n,
            ) + if n == name@ {
                seq![entry]
            } else {
                Seq::<InvalidationEntry>::empty()
            } by {
                if n == fname {
                    assert(n != name@);
                    assert(group_entries(og, n) == og[0].entries@);
                    assert(group_entries(groups@, n) == og[0].entries@);
                    assert(group_entries(og, n) + Seq::<InvalidationEntry>::empty() =~= group_entries(
                        og,
                        n,
                    ));
                } else {
                    assert(group_entries(og, n) == group_entries(rest0, n));
                    assert(group_entries(groups@, n) == group_entries(rest1, n));
                }
            }
        }
        fresh
    }
}

/// Records `entry` under `name` in a bucket map: whether the name is new.
fn push_dep(m: &mut HashMap<u64, Vec<NameDeps>>, name: &Atom, entry: InvalidationEntry) -> (r: bool)
    requires
        map_groups_ok(old(m)@),
    ensures
        map_groups_ok(final(m)@),
        r == (deps_of(old(m)@, name@).len() == 0),
        forall|n: Seq<char>|
            #[trigger] deps_of(final(m)@, n) == deps_of(old(m)@, n) + if n == name@ {
                seq![entry]
            } else {
                Seq::<InvalidationEntry>::empty()
            },
{
    let h = hash_str(name.as_str());
    let mut groups = match m.remove(&h) {
        Some(g) => g,
        None => Vec::new(),
    };
    let fresh = push_to_group(&mut groups, name, entry);
    m.insert(h, groups);
    proof {
        assert forall|n: Seq<char>| #[trigger] deps_of(m@, n) == deps_of(old(m)@, n) + if n
            == name@ {
            seq![entry]
        } else {
            Seq::<InvalidationEntry>::empty()
        } by {
            if fx_hash_str(n) == h {
                if !old(m)@.contains_key(h) {
                    assert(group_entries(Seq::<NameDeps>::empty(), n) == Seq::<
                        InvalidationEntry,
                    >::empty());
                }
            } else {
                if n == name@ {
                    assert(false);
                }
            }
        }
    }
    fresh
}

proof fn lemma_repeat_add(e: InvalidationEntry, a: nat, b: nat)
    ensures
        repeat(e, a) + repeat(e, b) =~= repeat(e, a + b),
{
}

impl InvalidationMap {
    fn walk_comps(&mut self, comps: &[Component], entry: InvalidationEntry) -> (r: bool)
        requires
            old(self).wf(),
        ensures
            final(self).wf(),
            forall|k: RefKind, n: Seq<char>|
                #[trigger] final(self).deps(k, n) == old(self).deps(k, n) + repeat(
                    entry,
                    refs_comps(comps@, k, n),
                ),
            final(self).state_bits() == old(self).state_bits() | marks_comps(comps@).0,
            r == marks_comps(comps@).1,
            final(self).structural() == old(self).structural(),
            final(self).indexed() == old(self).indexed(),
        decreases comps@, 0nat,
    {
        if comps.len() == 0 {
            proof {
                let s = old(self).state_bits();
                assert(s | 0u64 == s) by (bit_vector);
                assert forall|k: RefKind, n: Seq<char>| #[trigger] self.deps(k, n) == old(
                    self,
                ).deps(k, n) + repeat(entry, refs_comps(comps@, k, n)) by {
                    assert(old(self).deps(k, n) + repeat(entry, 0) =~= old(self).deps(k, n));
                }
            }
            return false;
        }
        let ghost s0 = self.state_bits();
        let ghost m0 = *self;
        let a = self.walk_comp(&comps[0], entry);
        let ghost m1 = *self;
        let rest = vstd::slice::slice_subrange(comps, 1, comps.len());
        proof {
            assert(rest@ =~= comps@.drop_first());
        }
        let b = self.walk_comps(rest, entry);
        proof {
            let x = marks_comp(comps@[0]).0;
            let y = marks_comps(rest@).0;
            assert((s0 | x) | y == s0 | (x | y)) by (bit_vector);
            assert forall|k: RefKind, n: Seq<char>| #[trigger] self.deps(k, n) == old(self).deps(
                k,
                n,
            ) + repeat(entry, refs_comps(comps@, k, n)) by {
                lemma_repeat_add(entry, refs_comp(comps@[0], k, n), refs_comps(rest@, k, n));
                assert(m1.deps(k, n) == old(self).deps(k, n) + repeat(
                    entry,
                    refs_comp(comps@[0], k, n),
                ));
                assert(self.deps(k, n) == m1.deps(k, n) + repeat(entry, refs_comps(rest@, k, n)));
                assert(old(self).deps(k, n) + repeat(entry, refs_comp(comps@[0], k, n)) + repeat(
                    entry,
                    refs_comps(rest@, k, n),
                ) =~= old(self).deps(k, n) + (repeat(entry, refs_comp(comps@[0], k, n)) + repeat(
                    entry,
                    refs_comps(rest@, k, n),
                )));
            }
        }
        a || b
    }

    fn walk_sels(&mut self, sels: &[Selector], entry: InvalidationEntry) -> (r: bool)
        requires
            old(self).wf(),
        ensures
            final(self).wf(),
            forall|k: RefKind, n: Seq<char>|
                #[trigger] final(self).deps(k, n) == old(self).deps(k, n) + repeat(
                    entry,
                    refs_sels(sels@, k, n),
                ),
            final(self).state_bits() == old(self).state_bits() | marks_sels(sels@).0,
            r == marks_sels(sels@).1,
            final(self).structural() == old(self).structural(),
            final(self).indexed() == old(self).indexed(),
        decreases sels@, 0nat,
    {
        if sels.len() == 0 {
            proof {
                let s = old(self).state_bits();
                assert(s | 0u64 == s) by (bit_vector);
                assert forall|k: RefKind, n: Seq<char>| #[trigger] self.deps(k, n) == old(
                    self,
                ).deps(k, n) + repeat(entry, refs_sels(sels@, k, n)) by {
                    assert(old(self).deps(k, n) + repeat(entry, 0) =~= old(self).deps(k, n));
                }
            }
            return false;
        }
        let ghost s0 = self.state_bits();
        let a = self.walk_comps(sels[0].comps.as_slice(), entry);
        let ghost m1 = *self;
        let rest = vstd::slice::slice_subrange(sels, 1, sels.len());
        proof {
            assert(rest@ =~= sels@.drop_first());
        }
        let b = self.walk_sels(rest, entry);
        proof {
            let x = marks_comps(sels@[0].comps@).0;
            let y = marks_sels(rest@).0;
            assert((s0 | x) | y == s0 | (x | y)) by (bit_vector);
            assert forall|k: RefKind, n: Seq<char>| #[trigger] self.deps(k, n) == old(self).deps(
                k,
                n,
            ) + repeat(entry, refs_sels(sels@, k, n)) by {
                lemma_repeat_add(entry, refs_comps(sels@[0].comps@, k, n), refs_sels(rest@, k, n));
                assert(old(self).deps(k, n) + repeat(entry, refs_comps(sels@[0].comps@, k, n))
                    + repeat(entry, refs_sels(rest@, k, n)) =~= old(self).deps(k, n) + (repeat(
                    entry,
                    refs_comps(sels@[0].comps@, k, n),
                ) + repeat(entry, refs_sels(rest@, k, n))));
            }
        }
        a || b
    }

    fn walk_rels(&mut self, rels: &[RelativeSelector], entry: InvalidationEntry) -> (r: bool)
        requires
            old(self).wf(),
        ensures
            final(self).wf(),
            forall|k: RefKind, n: Seq<char>|
                #[trigger] final(self).deps(k, n) == old(self).deps(k, n) + repeat(
                    entry,
                    refs_rels(rels@, k, n),
                ),
            final(self).state_bits() == old(self).state_bits() | marks_rels(rels@).0,
            r == marks_rels(rels@).1,
            final(self).structural() == old(self).structural(),
            final(self).indexed() == old(self).indexed(),
        decreases rels@, 0nat,
    {
        if rels.len() == 0 {
            proof {
                let s = old(self).state_bits();
                assert(s | 0u64 == s) by (bit_vector);
                assert forall|k: RefKind, n: Seq<char>| #[trigger] self.deps(k, n) == old(
                    self,
                ).deps(k, n) + repeat(entry, refs_rels(rels@, k, n)) by {
                    assert(old(self).deps(k, n) + repeat(entry, 0) =~= old(self).deps(k, n));
                }
            }
            return false;
        }
        let ghost s0 = self.state_bits();
        let a = self.walk_comps(rels[0].selector.comps.as_slice(), entry);
        let rest = vstd::slice::slice_subrange(rels, 1, rels.len());
        proof {
            assert(rest@ =~= rels@.drop_first());
        }
        let b = self.walk_rels(rest, entry);
        proof {
            let x = marks_comps(rels@[0].selector.comps@).0;
            let y = marks_rels(rest@).0;
            assert((s0 | x) | y == s0 | (x | y)) by (bit_vector);
            assert forall|k: RefKind, n: Seq<char>| #[trigger] self.deps(k, n) == old(self).deps(
                k,
                n,
            ) + repeat(entry, refs_rels(rels@, k, n)) by {
                lemma_repeat_add(
                    entry,
                    refs_comps(rels@[0].selector.comps@, k, n),
                    refs_rels(rest@, k, n),
                );
                assert(old(self).deps(k, n) + repeat(entry, refs_comps(rels@[0].selector.comps@, k, n))
                    + repeat(entry, refs_rels(rest@, k, n)) =~= old(self).deps(k, n) + (repeat(
                    entry,
                    refs_comps(rels@[0].selector.comps@, k, n),
                ) + repeat(entry, refs_rels(rest@, k, n))));
            }
        }
        a || b
    }

    fn walk_comp(&mut self, c: &Component, entry: InvalidationEntry) -> (r: bool)
        requires
            old(self).wf(),
        ensures
            final(self).wf(),
            forall|k: RefKind, n: Seq<char>|
                #[trigger] final(self).deps(k, n) == old(self).deps(k, n) + repeat(
                    entry,
                    refs_comp(*c, k, n),
                ),
            final(self).state_bits() == old(self).state_bits() | marks_comp(*c).0,
            r == marks_comp(*c).1,
            final(self).structural() == old(self).structural(),
            final(self).indexed() == old(self).indexed(),
        decreases c, 0nat,
    {
        let ghost s0 = self.state_bits();
        let mut own_bits: u64 = 0;
        let mut own_struct = false;
        match c {
            Component::PseudoClass(pc) => {
                match pc.state_flag() {
                    Some(f) => {
                        own_bits = f.0;
                    },
                    None => {},
                }
                own_struct = pc.is_structural();
            },
            Component::NthChild(_) | Component::NthLastChild(_) | Component::NthOfType(_, _)
            | Component::NthLastOfType(_, _) => {
                own_struct = true;
            },
            _ => {},
        }
        let ghost before_bits = *self;
        self.state_deps = ElementState(self.state_deps.0 | own_bits);
        let ghost m0 = *self;
        proof {
            InvalidationMap::lemma_wf_frame(before_bits, *self);
        }
        proof {
            assert forall|k: RefKind, n: Seq<char>| #[trigger] m0.deps(k, n) == old(self).deps(
                k,
                n,
            ) by {}
        }
        match c {
            Component::Class(a) => {
                self.record(RefKind::Class, a, entry);
            },
            Component::Id(a) => {
                self.record(RefKind::Id, a, entry);
            },
            Component::Type(a) => {
                self.record(RefKind::Type, a, entry);
            },
            Component::Attribute(at) => {
                self.record(RefKind::Attr, &at.name, entry);
            },
            _ => {},
        }
        proof {
            assert forall|k: RefKind, n: Seq<char>| #[trigger] self.deps(k, n) == old(self).deps(
                k,
                n,
            ) + repeat(entry, direct_ref(*c, k, n)) by {
                assert(m0.deps(k, n) == old(self).deps(k, n));
                if direct_ref(*c, k, n) == 1 {
                    assert(repeat(entry, 1) =~= seq![entry]);
                } else {
                    assert(repeat(entry, 0) =~= Seq::<InvalidationEntry>::empty());
                    assert(old(self).deps(k, n) + repeat(entry, 0) =~= old(self).deps(k, n));
                }
            }
        }
        let ghost m1 = *self;
        proof {
            let t = self.state_bits();
            assert(t | 0u64 == t) by (bit_vector);
        }
        let ghost s1 = self.state_bits();
        let nested = match c {
            Component::Negation(l) => self.walk_sels(l.0.as_slice(), entry),
            Component::Is(l) => self.walk_sels(l.0.as_slice(), entry),
            Component::Where(l) => self.walk_sels(l.0.as_slice(), entry),
            Component::IsSingle(cs) => self.walk_comps(cs.as_slice(), entry),
            Component::NotSingle(cs) => self.walk_comps(cs.as_slice(), entry),
            Component::WhereSingle(cs) => self.walk_comps(cs.as_slice(), entry),
            Component::Has(rl) => self.walk_rels(rl.selectors.as_slice(), entry),
            Component::NthChild(nth) | Component::NthLastChild(nth) => match &nth.of_selector {
                Some(l) => self.walk_sels(l.0.as_slice(), entry),
                None => false,
            },
            Component::HostFunction(l) | Component::HostContext(l) | Component::Slotted(l) => {
                self.walk_sels(l.0.as_slice(), entry)
            },
            _ => false,
        };
        proof {
            let x = own_bits;
            let y = self.state_bits();
            assert(s1 == s0 | x);
            let z = nested_marks(*c).0;
            assert(y == s1 | z);
            assert((s0 | x) | z == s0 | (x | z)) by (bit_vector);
            assert(marks_comp(*c).0 == x | z);
            assert forall|k: RefKind, n: Seq<char>| #[trigger] self.deps(k, n) == old(self).deps(
                k,
                n,
            ) + repeat(entry, refs_comp(*c, k, n)) by {
                let d = direct_ref(*c, k, n);
                let rest = (refs_comp(*c, k, n) - d) as nat;
                assert(m1.deps(k, n) == old(self).deps(k, n) + repeat(entry, d));
                assert(self.deps(k, n) == m1.deps(k, n) + repeat(entry, rest));
                lemma_repeat_add(entry, d, rest);
                assert(old(self).deps(k, n) + repeat(entry, d) + repeat(entry, rest) =~= old(
                    self,
                ).deps(k, n) + (repeat(entry, d) + repeat(entry, rest)));
            }
        }
        own_struct || nested
    }
}

} // verus!
