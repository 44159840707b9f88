//! The `Element` trait: the bridge between the selector engine and a DOM.
//!
//! The engine reads a DOM only through this trait. Each query has a spec
//! function that names its answer, and the executable query returns exactly
//! that answer. Four measures (`spec_depth`, `spec_preceding`,
//! `spec_following`, `spec_height`) bound the tree walks the engine makes;
//! `element_laws` states that each walk decreases its measure and that
//! `opaque()` identifies the element.

use vstd::prelude::*;
use crate::atom::Atom;
use crate::attr::opt_view;
use crate::opaque::OpaqueElement;
use crate::pseudo_class::ElementState;
use crate::types::Direction;

verus! {

/// The view of an optional atom reference.
pub open spec fn opt_atom_view(a: Option<&Atom>) -> Option<Seq<char>> {
    match a {
        Some(x) => Some(x@),
        None => None,
    }
}

/// A DOM element that can be matched against CSS selectors.
///
/// Each query comes with a model function (`spec_*`) that names its answer.
/// An implementation that states its model defines `obeys_model` as true
/// and the model functions; the defaults describe no DOM, and the matching
/// contracts, which ask for [`element_laws`], promise nothing for them.
pub trait Element: Sized + Clone {
    /// Whether the implementation defines the model functions.
    open spec fn obeys_model() -> bool {
        false
    }

    /// Tag name.
    open spec fn spec_local_name(&self) -> Seq<char> {
        Seq::empty()
    }

    /// The ID attribute, if any.
    open spec fn spec_id(&self) -> Option<Seq<char>> {
        None
    }

    /// The classes of the element.
    open spec fn spec_classes(&self) -> Seq<Seq<char>> {
        Seq::empty()
    }

    /// The value of the attribute called `name`, if present.
    open spec fn spec_attr(&self, name: Seq<char>) -> Option<Seq<char>> {
        None
    }

    /// Parent element.
    open spec fn spec_parent(&self) -> Option<Self> {
        None
    }

    /// Previous sibling element.
    open spec fn spec_prev_sibling(&self) -> Option<Self> {
        None
    }

    /// Next sibling element.
    open spec fn spec_next_sibling(&self) -> Option<Self> {
        None
    }

    /// First child element.
    open spec fn spec_first_child(&self) -> Option<Self> {
        None
    }

    /// Last child element.
    open spec fn spec_last_child(&self) -> Option<Self> {
        None
    }

    /// Interaction and form state bits.
    open spec fn spec_state(&self) -> u64 {
        0
    }

    /// Whether this is the document root element.
    open spec fn spec_is_root(&self) -> bool {
        false
    }

    /// Whether the element has no children and no text.
    open spec fn spec_is_empty(&self) -> bool {
        false
    }

    /// 1-based index among siblings.
    open spec fn spec_child_index(&self) -> u32 {
        0
    }

    /// Number of sibling elements, self included.
    open spec fn spec_child_count(&self) -> u32 {
        0
    }

    /// 1-based index among siblings of the same type.
    open spec fn spec_child_index_of_type(&self) -> u32 {
        0
    }

    /// Number of siblings of the same type, self included.
    open spec fn spec_child_count_of_type(&self) -> u32 {
        0
    }

    /// Identity of the element.
    open spec fn spec_opaque(&self) -> u64 {
        0
    }

    /// Computed text direction.
    open spec fn spec_direction(&self) -> Direction {
        Direction::Ltr
    }

    /// Namespace URI.
    open spec fn spec_namespace(&self) -> Option<Seq<char>> {
        None
    }

    /// Newly inserted and not styled yet.
    open spec fn spec_is_newly_inserted(&self) -> bool {
        false
    }

    /// Whether the element hosts a shadow tree.
    open spec fn spec_is_shadow_host(&self) -> bool {
        false
    }

    /// The shadow host whose tree holds this element.
    open spec fn spec_containing_shadow_host(&self) -> Option<Self> {
        None
    }

    /// Whether the element is assigned to a slot.
    open spec fn spec_is_in_slot(&self) -> bool {
        false
    }

    /// The slot the element is assigned to.
    open spec fn spec_assigned_slot(&self) -> Option<Self> {
        None
    }

    /// Whether the element exposes part `name`.
    open spec fn spec_is_part(&self, name: Seq<char>) -> bool {
        false
    }

    /// Whether the element has custom state `name`.
    open spec fn spec_has_custom_state(&self, name: Seq<char>) -> bool {
        false
    }

    /// The column element of a table cell.
    open spec fn spec_column_element(&self) -> Option<Self> {
        None
    }

    /// Ancestor measure: decreases from an element to its parent, and to its
    /// containing shadow host.
    open spec fn spec_depth(&self) -> nat {
        0
    }

    /// Number of preceding siblings.
    open spec fn spec_preceding(&self) -> nat {
        0
    }

    /// Number of following siblings.
    open spec fn spec_following(&self) -> nat {
        0
    }

    /// Subtree height: a child's height is below its parent's.
    open spec fn spec_height(&self) -> nat {
        0
    }

    /// Tag name.
    fn local_name(&self) -> (r: &Atom)
        ensures
            r@ == self.spec_local_name(),
    ;

    /// The element's ID attribute, if any.
    fn id(&self) -> (r: Option<&Atom>)
        ensures
            opt_atom_view(r) == self.spec_id(),
    ;

    /// Returns `true` if the element has the given class.
    fn has_class(&self, class: &Atom) -> (r: bool)
        ensures
            r == self.spec_classes().contains(class@),
    ;

    /// All classes on this element.
    fn class_list(&self) -> (r: Vec<Atom>)
        ensures
            r@.len() == self.spec_classes().len(),
            forall|i: int| 0 <= i < r@.len() ==> (#[trigger] r@[i])@ == self.spec_classes()[i],
    ;

    /// The value of the given attribute, if present.
    fn attr(&self, name: &Atom) -> (r: Option<&str>)
        ensures
            opt_view(r) == self.spec_attr(name@),
    ;

    /// Parent element, or `None` if this is the root.
    fn parent_element(&self) -> (r: Option<Self>)
        ensures
            r == self.spec_parent(),
    ;

    /// Previous sibling element.
    fn prev_sibling_element(&self) -> (r: Option<Self>)
        ensures
            r == self.spec_prev_sibling(),
    ;

    /// Next sibling element.
    fn next_sibling_element(&self) -> (r: Option<Self>)
        ensures
            r == self.spec_next_sibling(),
    ;

    /// First child element.
    fn first_child_element(&self) -> (r: Option<Self>)
        ensures
            r == self.spec_first_child(),
    ;

    /// Last child element.
    fn last_child_element(&self) -> (r: Option<Self>)
        ensures
            r == self.spec_last_child(),
    ;

    /// Interaction and form state flags.
    fn state(&self) -> (r: ElementState)
        ensures
            r.0 == self.spec_state(),
    ;

    /// Whether this is the document root element.
    fn is_root(&self) -> (r: bool)
        ensures
            r == self.spec_is_root(),
    ;

    /// Whether this element has no child elements and no text content.
    fn is_empty(&self) -> (r: bool)
        ensures
            r == self.spec_is_empty(),
    ;

    /// 1-based index among siblings.
    fn child_index(&self) -> (r: u32)
        ensures
            r == self.spec_child_index(),
    ;

    /// Total number of sibling elements (including self).
    fn child_count(&self) -> (r: u32)
        ensures
            r == self.spec_child_count(),
    ;

    /// 1-based index among siblings of the same type.
    fn child_index_of_type(&self) -> (r: u32)
        ensures
            r == self.spec_child_index_of_type(),
    ;

    /// Total siblings of the same type (including self).
    fn child_count_of_type(&self) -> (r: u32)
        ensures
            r == self.spec_child_count_of_type(),
    ;

    /// Opaque identity for caching and comparison.
    fn opaque(&self) -> (r: OpaqueElement)
        ensures
            r.0 == self.spec_opaque(),
    ;

    /// Computed text direction.
    fn direction(&self) -> (r: Direction)
        ensures
            r == self.spec_direction(),
    ;

    /// The element's namespace URI, if any.
    fn namespace(&self) -> (r: Option<&Atom>)
        ensures
            opt_atom_view(r) == self.spec_namespace(),
    ;

    /// Whether this element was just inserted and not yet styled.
    fn is_newly_inserted(&self) -> (r: bool)
        ensures
            r == self.spec_is_newly_inserted(),
    ;

    /// Whether this element is a shadow host.
    fn is_shadow_host(&self) -> (r: bool)
        ensures
            r == self.spec_is_shadow_host(),
    ;

    /// The shadow host that contains this element's shadow tree, if any.
    fn containing_shadow_host(&self) -> (r: Option<Self>)
        ensures
            r == self.spec_containing_shadow_host(),
    ;

    /// Whether this element has been distributed into a slot.
    fn is_in_slot(&self) -> (r: bool)
        ensures
            r == self.spec_is_in_slot(),
    ;

    /// The slot this element is assigned to, if any.
    fn assigned_slot(&self) -> (r: Option<Self>)
        ensures
            r == self.spec_assigned_slot(),
    ;

    /// Whether this element exposes the given part name.
    fn is_part(&self, name: &Atom) -> (r: bool)
        ensures
            r == self.spec_is_part(name@),
    ;

    /// Whether this element has the given custom state.
    fn has_custom_state(&self, name: &Atom) -> (r: bool)
        ensures
            r == self.spec_has_custom_state(name@),
    ;

    /// The column element a table cell belongs to.
    fn column_element(&self) -> (r: Option<Self>)
        ensures
            r == self.spec_column_element(),
    ;
}

/// The DOM laws the engine relies on: the model is defined, every walk the
/// engine makes ends (walking to a parent, a containing shadow host, a
/// sibling or a first child decreases a measure), a previous sibling has
/// the same parent and depth, and `opaque()` identifies the element. A
/// finite DOM with unique identities, whose depth counts ancestors, meets
/// them.
pub open spec fn element_laws<E: Element>() -> bool {
    &&& E::obeys_model()
    &&& forall|e: E| #[trigger] e.spec_parent() matches Some(p) ==> p.spec_depth() < e.spec_depth()
    &&& forall|e: E| #[trigger] e.spec_containing_shadow_host() matches Some(h) ==> h.spec_depth()
        < e.spec_depth()
    &&& forall|e: E| #[trigger] e.spec_prev_sibling() matches Some(s) ==> s.spec_preceding()
        < e.spec_preceding() && s.spec_parent() == e.spec_parent() && s.spec_depth()
        == e.spec_depth()
    &&& forall|e: E| #[trigger] e.spec_next_sibling() matches Some(s) ==> s.spec_following()
        < e.spec_following() && s.spec_height() < e.spec_height()
    &&& forall|e: E| #[trigger] e.spec_first_child() matches Some(c) ==> c.spec_height()
        < e.spec_height()
    &&& forall|a: E, b: E| #[trigger] a.spec_opaque() == #[trigger] b.spec_opaque() ==> a == b
}

/// The measures decrease along each walk from `e`.
pub proof fn lemma_tree_measures<E: Element>(e: E)
    requires
        element_laws::<E>(),
    ensures
        e.spec_parent() matches Some(p) ==> p.spec_depth() < e.spec_depth(),
        e.spec_containing_shadow_host() matches Some(h) ==> h.spec_depth() < e.spec_depth(),
        e.spec_prev_sibling() matches Some(s) ==> s.spec_preceding() < e.spec_preceding()
            && s.spec_parent() == e.spec_parent() && s.spec_depth() == e.spec_depth(),
        e.spec_next_sibling() matches Some(s) ==> s.spec_following() < e.spec_following()
            && s.spec_height() < e.spec_height(),
        e.spec_first_child() matches Some(c) ==> c.spec_height() < e.spec_height(),
{
    assert(e.spec_parent() matches Some(p) ==> p.spec_depth() < e.spec_depth());
    assert(e.spec_containing_shadow_host() matches Some(h) ==> h.spec_depth() < e.spec_depth());
    assert(e.spec_prev_sibling() matches Some(s) ==> s.spec_preceding() < e.spec_preceding()
        && s.spec_parent() == e.spec_parent() && s.spec_depth() == e.spec_depth());
    assert(e.spec_next_sibling() matches Some(s) ==> s.spec_following() < e.spec_following()
        && s.spec_height() < e.spec_height());
    assert(e.spec_first_child() matches Some(c) ==> c.spec_height() < e.spec_height());
}

/// Two elements with the same identity are the same element.
pub proof fn lemma_opaque_unique<E: Element>(a: E, b: E)
    requires
        element_laws::<E>(),
    ensures
        a.spec_opaque() == b.spec_opaque() ==> a == b,
{
}

} // verus!
