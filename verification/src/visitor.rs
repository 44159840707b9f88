//! Structural traversal of parsed selectors.
//!
//! A [`SelectorVisitor`] is called for every simple selector, attribute
//! name, combinator context and nested selector list of a selector, in
//! storage order (right to left). Returning `false` from any method stops
//! the traversal; returning `false` from `visit_selector_list` skips that
//! list only. Flattened `:is()`/`:not()`/`:where()` arguments and the
//! selectors of `:has()` are presented as ordinary selector lists.

use vstd::prelude::*;
use crate::atom::Atom;
use crate::small_buf::AtomBuf;
use crate::attr::{AttrOperation, AttrSelector};
use crate::specificity::Specificity;
use crate::types::{
    Combinator, Component, NamespaceConstraint, NthData, RelativeSelector, RelativeSelectorList,
    Selector, SelectorList, dup_key, sub_hints_ok,
};

verus! {

/// Where in the selector tree a nested list sits.
#[derive(Debug, Clone, Copy, PartialEq, Eq, Hash, Structural)]
pub struct SelectorListKind(pub u8);

impl SelectorListKind {
    /// Inside `:not(...)`.
    pub const NEGATION: u8 = 1u8;
    /// Inside `:is(...)`.
    pub const IS: u8 = 2u8;
    /// Inside `:where(...)`.
    pub const WHERE: u8 = 4u8;
    /// Inside `:nth-child(... of <selector-list>)`.
    pub const NTH_OF: u8 = 8u8;
    /// Inside `:has(...)`.
    pub const HAS: u8 = 16u8;

    /// The kind with the given bits.
    pub fn from_bits(bits: u8) -> (r: SelectorListKind)
        ensures
            r.0 == bits,
    {
        SelectorListKind(bits)
    }

    /// The bits of this kind.
    pub fn bits(self) -> (r: u8)
        ensures
            r == self.0,
    {
        self.0
    }

    /// Whether every bit of `other` is set here.
    pub fn contains(self, other: SelectorListKind) -> (r: bool)
        ensures
            r == (self.0 & other.0 == other.0),
    {
        self.0 & other.0 == other.0
    }
}

/// Visitor for traversing the structure of parsed selectors. Every method
/// returns whether to continue; by default, `true`.
pub trait SelectorVisitor {
    /// Visit the name of an attribute selector.
    fn visit_attribute_selector(&mut self, name: &Atom) -> (r: bool)
        default_ensures
            r,
    {
        true
    }

    /// Visit a simple selector (any component but a combinator).
    fn visit_simple_selector(&mut self, component: &Component) -> (r: bool)
        default_ensures
            r,
    {
        true
    }

    /// Visit the combinator to the right of the current compound; `None`
    /// for the rightmost compound.
    fn visit_combinator(&mut self, combinator: Option<Combinator>) -> (r: bool)
        default_ensures
            r,
    {
        true
    }

    /// Visit a nested selector list before recursing into it; returning
    /// `false` skips the list.
    fn visit_selector_list(&mut self, kind: SelectorListKind, list: &SelectorList) -> (r: bool)
        default_ensures
            r,
    {
        true
    }
}

/// Walk a selector, calling the visitor for each component. Returns `false`
/// when the visitor stopped the walk.
pub fn visit_selector<V: SelectorVisitor>(selector: &Selector, visitor: &mut V) -> (r: bool)
    decreases selector, 1nat,
{
    let mut combinator_to_right: Option<Combinator> = None;
    let mut i: usize = 0;
    while i < selector.comps.len()
        invariant
            i <= selector.comps@.len(),
        decreases selector.comps@.len() - i,
    {
        let component = &selector.comps[i];
        match component {
            Component::Combinator(c) => {
                if !visitor.visit_combinator(combinator_to_right) {
                    return false;
                }
                combinator_to_right = Some(*c);
            },
            _ => {
                if !visit_component(component, visitor) {
                    return false;
                }
            },
        }
        i = i + 1;
    }
    visitor.visit_combinator(combinator_to_right)
}

/// Walk every selector of a list. Returns `false` when the visitor stopped.
pub fn visit_selector_list<V: SelectorVisitor>(list: &SelectorList, visitor: &mut V) -> (r: bool)
    decreases list, 0nat,
{
    let mut i: usize = 0;
    while i < list.0.len()
        invariant
            i <= list.0@.len(),
        decreases list.0@.len() - i,
    {
        if !visit_selector(&list.0[i], visitor) {
            return false;
        }
        i = i + 1;
    }
    true
}

/// Visit a nested list of the given kind: ask the visitor, then recurse.
fn visit_nested<V: SelectorVisitor>(kind: u8, list: &SelectorList, visitor: &mut V) -> (r: bool)
    decreases list, 1nat,
{
    if visitor.visit_selector_list(SelectorListKind(kind), list) {
        visit_selector_list(list, visitor)
    } else {
        true
    }
}

/// `b` is a copy of `a`: the same component, where the vectors and name
/// buffers it holds count as the same when their items are copies in order.
pub open spec fn same_comp(a: Component, b: Component) -> bool
    decreases a,
{
    match a {
        Component::Negation(x) => b matches Component::Negation(y) && same_list(x, y),
        Component::Is(x) => b matches Component::Is(y) && same_list(x, y),
        Component::Where(x) => b matches Component::Where(y) && same_list(x, y),
        Component::HostFunction(x) => b matches Component::HostFunction(y) && same_list(x, y),
        Component::HostContext(x) => b matches Component::HostContext(y) && same_list(x, y),
        Component::Slotted(x) => b matches Component::Slotted(y) && same_list(x, y),
        Component::IsSingle(x) => b matches Component::IsSingle(y) && same_comps(x@, y@),
        Component::NotSingle(x) => b matches Component::NotSingle(y) && same_comps(x@, y@),
        Component::WhereSingle(x) => b matches Component::WhereSingle(y) && same_comps(x@, y@),
        Component::Has(x) => b matches Component::Has(y) && same_rel_list(x, y),
        Component::NthChild(x) => b matches Component::NthChild(y) && same_nth(x, y),
        Component::NthLastChild(x) => b matches Component::NthLastChild(y) && same_nth(x, y),
        Component::Lang(x) => b matches Component::Lang(y) && x@ == y@,
        Component::Part(x) => b matches Component::Part(y) && x@ == y@,
        _ => a == b,
    }
}

/// `t` is a copy of `s`, item by item.
pub open spec fn same_comps(s: Seq<Component>, t: Seq<Component>) -> bool
    decreases s,
{
    &&& s.len() == t.len()
    &&& forall|i: int| 0 <= i < s.len() ==> same_comp(#[trigger] s[i], t[i])
}

/// `b` is a copy of the selector `a`: copied components, the same
/// specificity and hints.
pub open spec fn same_sel(a: Selector, b: Selector) -> bool
    decreases a,
{
    &&& same_comps(a.comps@, b.comps@)
    &&& a.spec == b.spec
    &&& a.hint == b.hint
}

/// `b` is a copy of the selector list `a`, selector by selector.
pub open spec fn same_list(a: SelectorList, b: SelectorList) -> bool
    decreases a,
{
    &&& a.0@.len() == b.0@.len()
    &&& forall|i: int| 0 <= i < a.0@.len() ==> same_sel(#[trigger] a.0@[i], b.0@[i])
}

/// `b` is a copy of the `An+B` data `a`.
pub open spec fn same_nth(a: NthData, b: NthData) -> bool
    decreases a,
{
    &&& a.a == b.a
    &&& a.b == b.b
    &&& match a.of_selector {
        Some(x) => b.of_selector matches Some(y) && same_list(x, y),
        None => b.of_selector is None,
    }
}

/// `b` is a copy of the relative selector list `a`.
pub open spec fn same_rel_list(a: RelativeSelectorList, b: RelativeSelectorList) -> bool
    decreases a,
{
    &&& a.cache_key == b.cache_key
    &&& a.selectors@.len() == b.selectors@.len()
    &&& forall|i: int|
        0 <= i < a.selectors@.len() ==> {
            &&& (#[trigger] a.selectors@[i]).combinator == b.selectors@[i].combinator
            &&& a.selectors@[i].traversal == b.selectors@[i].traversal
            &&& same_sel(a.selectors@[i].selector, b.selectors@[i].selector)
        }
}

/// A copy of an attribute selector.
fn copy_attr(a: &AttrSelector) -> (r: AttrSelector)
    ensures
        r == *a,
{
    let operation = match &a.operation {
        AttrOperation::Exists => AttrOperation::Exists,
        AttrOperation::Equals(v, c) => AttrOperation::Equals(v.dup(), *c),
        AttrOperation::Includes(v, c) => AttrOperation::Includes(v.dup(), *c),
        AttrOperation::DashMatch(v, c) => AttrOperation::DashMatch(v.dup(), *c),
        AttrOperation::Prefix(v, c) => AttrOperation::Prefix(v.dup(), *c),
        AttrOperation::Suffix(v, c) => AttrOperation::Suffix(v.dup(), *c),
        AttrOperation::Substring(v, c) => AttrOperation::Substring(v.dup(), *c),
    };
    AttrSelector { name: a.name.dup(), operation }
}

/// A buffer holding copies of the given names, in order.
fn copy_atoms(v: &[Atom]) -> (r: AtomBuf)
    ensures
        r@ == v@,
{
    let mut out = AtomBuf::new();
    let mut i: usize = 0;
    while i < v.len()
        invariant
            i <= v@.len(),
            out@ == v@.take(i as int),
        decreases v@.len() - i,
    {
        out.push(v[i].dup());
        i = i + 1;
    }
    out
}

/// Copies of the given components, in order.
fn copy_comps(v: &Vec<Component>) -> (r: Vec<Component>)
    ensures
        same_comps(v@, r@),
    decreases v, 0nat,
{
    let mut out: Vec<Component> = Vec::new();
    let mut i: usize = 0;
    while i < v.len()
        invariant
            i <= v@.len(),
            out@.len() == i,
            forall|k: int| 0 <= k < i ==> same_comp(#[trigger] v@[k], out@[k]),
        decreases v@.len() - i,
    {
        out.push(copy_component(&v[i]));
        i = i + 1;
    }
    out
}

/// A copy of a selector.
fn copy_selector(s: &Selector) -> (r: Selector)
    ensures
        same_sel(*s, r),
    decreases s, 0nat,
{
    Selector {
        comps: copy_comps(&s.comps),
        spec: s.spec,
        hint: crate::types::SelectorHints {
            required_state: s.hint.required_state,
            key: dup_key(&s.hint.key),
            deps: s.hint.deps,
        },
    }
}

/// A copy of a selector list.
fn copy_list(l: &SelectorList) -> (r: SelectorList)
    ensures
        same_list(*l, r),
    decreases l, 0nat,
{
    let mut out: Vec<Selector> = Vec::new();
    let mut i: usize = 0;
    while i < l.0.len()
        invariant
            i <= l.0@.len(),
            out@.len() == i,
            forall|k: int| 0 <= k < i ==> same_sel(#[trigger] l.0@[k], out@[k]),
        decreases l.0@.len() - i,
    {
        out.push(copy_selector(&l.0[i]));
        i = i + 1;
    }
    SelectorList(out)
}

/// A copy of `An+B` data.
fn copy_nth(n: &NthData) -> (r: NthData)
    ensures
        same_nth(*n, r),
    decreases n, 0nat,
{
    let of_selector = match &n.of_selector {
        Some(l) => Some(copy_list(l)),
        None => None,
    };
    NthData { a: n.a, b: n.b, of_selector }
}

/// A copy of a relative selector list.
fn copy_rel_list(rl: &RelativeSelectorList) -> (r: RelativeSelectorList)
    ensures
        same_rel_list(*rl, r),
    decreases rl, 0nat,
{
    let mut out: Vec<RelativeSelector> = Vec::new();
    let mut i: usize = 0;
    while i < rl.selectors.len()
        invariant
            i <= rl.selectors@.len(),
            out@.len() == i,
            forall|k: int|
                0 <= k < i ==> {
                    &&& (#[trigger] rl.selectors@[k]).combinator == out@[k].combinator
                    &&& rl.selectors@[k].traversal == out@[k].traversal
                    &&& same_sel(rl.selectors@[k].selector, out@[k].selector)
                },
        decreases rl.selectors@.len() - i,
    {
        let r = &rl.selectors[i];
        out.push(
            RelativeSelector {
                combinator: r.combinator,
                selector: copy_selector(&r.selector),
                traversal: r.traversal,
            },
        );
        i = i + 1;
    }
    RelativeSelectorList { selectors: out, cache_key: rl.cache_key }
}

/// A deep copy of a component.
fn copy_component(c: &Component) -> (r: Component)
    ensures
        same_comp(*c, r),
    decreases c, 0nat,
{
    match c {
        Component::Universal => Component::Universal,
        Component::Type(a) => Component::Type(a.dup()),
        Component::Id(a) => Component::Id(a.dup()),
        Component::Class(a) => Component::Class(a.dup()),
        Component::Namespace(ns) => Component::Namespace(
            match ns {
                NamespaceConstraint::Any => NamespaceConstraint::Any,
                NamespaceConstraint::NoNamespace => NamespaceConstraint::NoNamespace,
                NamespaceConstraint::Specific(u) => NamespaceConstraint::Specific(u.dup()),
            },
        ),
        Component::Attribute(a) => Component::Attribute(copy_attr(a)),
        Component::PseudoClass(pc) => Component::PseudoClass(*pc),
        Component::Negation(l) => Component::Negation(copy_list(l)),
        Component::Is(l) => Component::Is(copy_list(l)),
        Component::Where(l) => Component::Where(copy_list(l)),
        Component::IsSingle(cs) => Component::IsSingle(copy_comps(cs)),
        Component::NotSingle(cs) => Component::NotSingle(copy_comps(cs)),
        Component::WhereSingle(cs) => Component::WhereSingle(copy_comps(cs)),
        Component::Has(rl) => Component::Has(copy_rel_list(rl)),
        Component::NthChild(n) => Component::NthChild(copy_nth(n)),
        Component::NthLastChild(n) => Component::NthLastChild(copy_nth(n)),
        Component::NthOfType(a, b) => Component::NthOfType(*a, *b),
        Component::NthLastOfType(a, b) => Component::NthLastOfType(*a, *b),
        Component::Lang(l) => Component::Lang(copy_atoms(l.as_slice())),
        Component::Dir(d) => Component::Dir(*d),
        Component::PseudoElement(pe) => Component::PseudoElement(*pe),
        Component::State(a) => Component::State(a.dup()),
        Component::Host => Component::Host,
        Component::HostFunction(l) => Component::HostFunction(copy_list(l)),
        Component::HostContext(l) => Component::HostContext(copy_list(l)),
        Component::Slotted(l) => Component::Slotted(copy_list(l)),
        Component::Part(p) => Component::Part(copy_atoms(p.as_slice())),
        Component::Highlight(a) => Component::Highlight(a.dup()),
        Component::Nesting => Component::Nesting,
        Component::Combinator(cb) => Component::Combinator(*cb),
    }
}

/// Flattened arguments presented as a list of one-component selectors.
fn comps_to_selector_list(comps: &[Component]) -> (r: SelectorList)
    ensures
        r.0@.len() == comps@.len(),
        forall|i: int|
            0 <= i < comps@.len() ==> {
                &&& (#[trigger] r.0@[i]).comps@.len() == 1
                &&& same_comp(comps@[i], r.0@[i].comps@[0])
                &&& r.0@[i].spec.0 == 0
                &&& sub_hints_ok(r.0@[i].hint, r.0@[i].comps@)
            },
{
    let mut sels: Vec<Selector> = Vec::new();
    let mut i: usize = 0;
    while i < comps.len()
        invariant
            i <= comps@.len(),
            sels@.len() == i,
            forall|k: int|
                0 <= k < i ==> {
                    &&& (#[trigger] sels@[k]).comps@.len() == 1
                    &&& same_comp(comps@[k], sels@[k].comps@[0])
                    &&& sels@[k].spec.0 == 0
                    &&& sub_hints_ok(sels@[k].hint, sels@[k].comps@)
                },
        decreases comps@.len() - i,
    {
        let mut v: Vec<Component> = Vec::new();
        v.push(copy_component(&comps[i]));
        proof {
            assert(v@.reverse() =~= v@);
        }
        let sel = Selector::from_parse_order_sub(v, Specificity::zero());
        sels.push(sel);
        i = i + 1;
    }
    SelectorList(sels)
}

/// The selectors of a `:has()` argument as a list.
fn rel_selectors_list(rl: &RelativeSelectorList) -> (r: SelectorList)
    ensures
        r.0@.len() == rl.selectors@.len(),
        forall|i: int|
            0 <= i < rl.selectors@.len() ==> same_sel(
                (#[trigger] rl.selectors@[i]).selector,
                r.0@[i],
            ),
{
    let mut sels: Vec<Selector> = Vec::new();
    let mut i: usize = 0;
    while i < rl.selectors.len()
        invariant
            i <= rl.selectors@.len(),
            sels@.len() == i,
            forall|k: int|
                0 <= k < i ==> same_sel((#[trigger] rl.selectors@[k]).selector, sels@[k]),
        decreases rl.selectors@.len() - i,
    {
        sels.push(copy_selector(&rl.selectors[i].selector));
        i = i + 1;
    }
    SelectorList(sels)
}

/// Walk the one-component selectors that stand for flattened arguments:
/// each is walked as `visit_selector` walks a selector of one component.
fn visit_singles<V: SelectorVisitor>(comps: &Vec<Component>, visitor: &mut V) -> (r: bool)
    decreases comps, 0nat,
{
    let mut i: usize = 0;
    while i < comps.len()
        invariant
            i <= comps@.len(),
        decreases comps@.len() - i,
    {
        let component = &comps[i];
        match component {
            Component::Combinator(c) => {
                if !visitor.visit_combinator(None) {
                    return false;
                }
                if !visitor.visit_combinator(Some(*c)) {
                    return false;
                }
            },
            _ => {
                if !visit_component(component, visitor) {
                    return false;
                }
                if !visitor.visit_combinator(None) {
                    return false;
                }
            },
        }
        i = i + 1;
    }
    true
}

/// Walk the selectors of a `:has()` argument.
fn visit_relative<V: SelectorVisitor>(rl: &RelativeSelectorList, visitor: &mut V) -> (r: bool)
    decreases rl, 0nat,
{
    let mut i: usize = 0;
    while i < rl.selectors.len()
        invariant
            i <= rl.selectors@.len(),
        decreases rl.selectors@.len() - i,
    {
        if !visit_selector(&rl.selectors[i].selector, visitor) {
            return false;
        }
        i = i + 1;
    }
    true
}

/// Visit one component and recurse into its nested lists.
fn visit_component<V: SelectorVisitor>(component: &Component, visitor: &mut V) -> (r: bool)
    decreases component, 2nat,
{
    if !visitor.visit_simple_selector(component) {
        return false;
    }
    match component {
        Component::Attribute(attr) => visitor.visit_attribute_selector(&attr.name),
        Component::Negation(list) => visit_nested(SelectorListKind::NEGATION, list, visitor),
        Component::Is(list) => visit_nested(SelectorListKind::IS, list, visitor),
        Component::Where(list) => visit_nested(SelectorListKind::WHERE, list, visitor),
        Component::IsSingle(comps) => {
            let list = comps_to_selector_list(comps.as_slice());
            if visitor.visit_selector_list(SelectorListKind(SelectorListKind::IS), &list) {
                visit_singles(comps, visitor)
            } else {
                true
            }
        },
        Component::NotSingle(comps) => {
            let list = comps_to_selector_list(comps.as_slice());
            if visitor.visit_selector_list(SelectorListKind(SelectorListKind::NEGATION), &list) {
                visit_singles(comps, visitor)
            } else {
                true
            }
        },
        Component::WhereSingle(comps) => {
            let list = comps_to_selector_list(comps.as_slice());
            if visitor.visit_selector_list(SelectorListKind(SelectorListKind::WHERE), &list) {
                visit_singles(comps, visitor)
            } else {
                true
            }
        },
        Component::Has(rel_list) => {
            let list = rel_selectors_list(rel_list);
            if visitor.visit_selector_list(SelectorListKind(SelectorListKind::HAS), &list) {
                visit_relative(rel_list, visitor)
            } else {
                true
            }
        },
        Component::NthChild(nth) | Component::NthLastChild(nth) => match &nth.of_selector {
            Some(of_sel) => visit_nested(SelectorListKind::NTH_OF, of_sel, visitor),
            None => true,
        },
        Component::HostFunction(list) | Component::HostContext(list) | Component::Slotted(list) => {
            visit_selector_list(list, visitor)
        },
        _ => true,
    }
}

} // verus!
