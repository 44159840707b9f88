//! Right-to-left selector matching.
//!
//! Three entry points with increasing capability:
//!
//! 1. [`matches`]: no context.
//! 2. [`matches_with_bloom`]: a Bloom filter prunes descendant walks.
//! 3. [`matches_in_context`]: Bloom filter, `:scope`, `:visited` policy,
//!    quirks mode, selector flag collection.
//!
//! The meaning of a match is given by the spec functions of this module:
//! `spec_matches_comps` walks the components right to left, exactly as the
//! engine does, and every executable function returns its spec function's
//! value.

use vstd::prelude::*;
use crate::atom::{Atom, eq_ignore_ascii_case};
use crate::attr::spec_attr_matches;
use crate::bloom::{AncestorBloom, element_hashes, spec_hash_atom, spec_might_contain};
use crate::context::{MatchingContext, QuirksMode, SelectorCaches, VisitedHandling};
use crate::element::{Element, element_laws, lemma_opaque_unique, lemma_tree_measures};
use crate::flags::ElementSelectorFlags;
use crate::opaque::OpaqueElement;
use crate::pseudo_class::{ElementState, PseudoClass, spec_state_flag};
use crate::specificity::Specificity;
use crate::types::{
    Combinator, Component, HasTraversal, NamespaceConstraint, NthData, RelativeSelector,
    RelativeSelectorList, Selector, SelectorList, DEP_COMBINATORS, spec_nth_formula,
};

verus! {

/// What a matching context contributes to the meaning of a match.
#[derive(Debug, Clone, Copy, PartialEq, Eq, Structural)]
pub struct MatchMode {
    /// Quirks mode (class matching).
    pub quirks: QuirksMode,
    /// `:visited` / `:link` policy.
    pub visited: VisitedHandling,
    /// The relevant link.
    pub relevant_link: Option<OpaqueElement>,
    /// The `:scope` element.
    pub scope: Option<OpaqueElement>,
}

/// The matching mode of a context.
pub open spec fn mode_of(ctx: MatchingContext) -> MatchMode {
    MatchMode {
        quirks: ctx.quirks_mode,
        visited: ctx.visited_handling,
        relevant_link: ctx.relevant_link,
        scope: ctx.scope_element,
    }
}

/// `LINK` state bit.
pub open spec fn link_bit() -> u64 {
    ElementState::LINK
}

/// `VISITED` state bit.
pub open spec fn visited_bit() -> u64 {
    ElementState::VISITED
}

/// Every bit of `bits` is set in the element state.
pub open spec fn state_has<E: Element>(el: E, bits: u64) -> bool {
    el.spec_state() & bits == bits
}

/// Class match: exact, or ASCII case-insensitive in quirks mode.
pub open spec fn spec_class_match<E: Element>(
    class: Seq<char>,
    el: E,
    mode: Option<MatchMode>,
) -> bool {
    if mode matches Some(m) && m.quirks == QuirksMode::Quirks {
        exists|i: int|
            0 <= i < el.spec_classes().len() && eq_ignore_ascii_case(
                #[trigger] el.spec_classes()[i],
                class,
            )
    } else {
        el.spec_classes().contains(class)
    }
}

/// `:visited` / `:link` under a visited policy.
pub open spec fn spec_visited_link<E: Element>(pc: PseudoClass, el: E, m: MatchMode) -> bool {
    match m.visited {
        VisitedHandling::AllLinksUnvisited => pc == PseudoClass::Link && state_has(el, link_bit()),
        VisitedHandling::AllLinksVisitedAndUnvisited => el.spec_state() & (link_bit()
            | visited_bit()) != 0,
        VisitedHandling::RelevantLinkVisited => if m.relevant_link == Some(
            OpaqueElement(el.spec_opaque()),
        ) {
            pc == PseudoClass::Visited && state_has(el, visited_bit())
        } else {
            pc == PseudoClass::Link && state_has(el, link_bit())
        },
    }
}

/// `:scope` (and `&`): the scope element, or the root without one.
pub open spec fn spec_scope<E: Element>(el: E, mode: Option<MatchMode>) -> bool {
    match mode {
        Some(m) => match m.scope {
            Some(s) => el.spec_opaque() == s.0,
            None => el.spec_is_root(),
        },
        None => el.spec_is_root(),
    }
}

/// Pseudo-class matching.
pub open spec fn spec_pseudo<E: Element>(pc: PseudoClass, el: E, mode: Option<MatchMode>) -> bool {
    match spec_state_flag(pc) {
        Some(f) => if (pc == PseudoClass::Visited || pc == PseudoClass::Link) && mode is Some {
            spec_visited_link(pc, el, mode->0)
        } else {
            state_has(el, f.0)
        },
        None => match pc {
            PseudoClass::AnyLink => el.spec_state() & (link_bit() | visited_bit()) != 0,
            PseudoClass::Root => el.spec_is_root(),
            PseudoClass::Empty => el.spec_is_empty(),
            PseudoClass::FirstChild => el.spec_child_index() == 1,
            PseudoClass::LastChild => el.spec_child_index() == el.spec_child_count(),
            PseudoClass::OnlyChild => el.spec_child_count() == 1,
            PseudoClass::FirstOfType => el.spec_child_index_of_type() == 1,
            PseudoClass::LastOfType => el.spec_child_index_of_type()
                == el.spec_child_count_of_type(),
            PseudoClass::OnlyOfType => el.spec_child_count_of_type() == 1,
            PseudoClass::Scope => spec_scope(el, mode),
            _ => false,
        },
    }
}

/// `count + 1 - index` with `i32` wrap-around, as computed from `u32` counts.
pub open spec fn from_end_index(count: u32, index: u32) -> i32 {
    ((count as i32) as int + 1 - (index as i32) as int) as i32
}

/// 1-based index for `:nth-child` (or from the end for `:nth-last-child`).
pub open spec fn spec_child_pos<E: Element>(el: E, from_end: bool) -> i32 {
    if from_end {
        from_end_index(el.spec_child_count(), el.spec_child_index())
    } else {
        el.spec_child_index() as i32
    }
}

/// 1-based index for `:nth-of-type` (or from the end).
pub open spec fn spec_type_pos<E: Element>(el: E, from_end: bool) -> i32 {
    if from_end {
        from_end_index(el.spec_child_count_of_type(), el.spec_child_index_of_type())
    } else {
        el.spec_child_index_of_type() as i32
    }
}

/// `:lang()` value test against one language.
pub open spec fn lang_matches(value: Seq<char>, target: Seq<char>) -> bool {
    eq_ignore_ascii_case(value, target) || (value.len() > target.len() && value[target.len() as int]
        == '-' && eq_ignore_ascii_case(value.take(target.len() as int), target))
}

/// The name of the `lang` attribute.
pub open spec fn lang_name() -> Seq<char> {
    seq!['l', 'a', 'n', 'g']
}

/// `:lang()`: the nearest ancestor-or-self `lang` attribute matches a language.
pub open spec fn spec_lang<E: Element>(langs: Seq<Atom>, el: E) -> bool
    decreases el.spec_depth(),
    when element_laws::<E>()
{
    match el.spec_attr(lang_name()) {
        Some(v) => exists|i: int| 0 <= i < langs.len() && lang_matches(v, #[trigger] langs[i]@),
        None => match el.spec_parent() {
            Some(p) => {
                proof {
                    lemma_tree_measures(el);
                }
                spec_lang(langs, p)
            },
            None => false,
        },
    }
}

/// The Bloom pre-check for a descendant combinator: every type, id and
/// class of the next compound may be in the filter.
pub open spec fn spec_bloom_ok(comps: Seq<Component>, bloom: Seq<u8>) -> bool
    decreases comps.len(),
{
    if comps.len() == 0 {
        true
    } else {
        match comps[0] {
            Component::Combinator(_) => true,
            Component::Type(a) => spec_might_contain(bloom, spec_hash_atom(a@)) && spec_bloom_ok(
                comps.drop_first(),
                bloom,
            ),
            Component::Id(a) => spec_might_contain(bloom, spec_hash_atom(a@)) && spec_bloom_ok(
                comps.drop_first(),
                bloom,
            ),
            Component::Class(a) => spec_might_contain(bloom, spec_hash_atom(a@)) && spec_bloom_ok(
                comps.drop_first(),
                bloom,
            ),
            _ => spec_bloom_ok(comps.drop_first(), bloom),
        }
    }
}

/// A selector matches with no context: required state, then components.
pub open spec fn spec_sel_match<E: Element>(sel: Selector, el: E) -> bool
    decreases sel, 0nat, 0nat,
{
    state_has(el, sel.hint.required_state.0) && spec_matches_comps(
        sel.comps@,
        el,
        None,
        None,
    )
}

/// Some selector of `sels` matches with no context.
pub open spec fn spec_any_sel_match<E: Element>(sels: Seq<Selector>, el: E) -> bool
    decreases sels, 0nat, 0nat,
{
    if sels.len() == 0 {
        false
    } else {
        spec_sel_match(sels[0], el) || spec_any_sel_match(sels.drop_first(), el)
    }
}

/// Components walked right to left from `el`.
pub open spec fn spec_matches_comps<E: Element>(
    comps: Seq<Component>,
    el: E,
    bloom: Option<Seq<u8>>,
    mode: Option<MatchMode>,
) -> bool
    decreases comps, 0nat, 0nat,
{
    if comps.len() == 0 {
        true
    } else {
        let rest = comps.drop_first();
        match comps[0] {
            Component::Combinator(cb) => match cb {
                Combinator::Child => match el.spec_parent() {
                    Some(p) => spec_matches_comps(rest, p, bloom, mode),
                    None => false,
                },
                Combinator::Descendant => (match bloom {
                    Some(b) => spec_bloom_ok(rest, b),
                    None => true,
                }) && spec_descendant(rest, el, bloom, mode),
                Combinator::NextSibling => match el.spec_prev_sibling() {
                    Some(s) => spec_matches_comps(rest, s, bloom, mode),
                    None => false,
                },
                Combinator::LaterSibling => spec_later_sibling(rest, el, bloom, mode),
                Combinator::Column => match el.spec_column_element() {
                    Some(c) => spec_matches_comps(rest, c, bloom, mode),
                    None => false,
                },
            },
            c => spec_simple(c, el, bloom, mode) && spec_matches_comps(rest, el, bloom, mode),
        }
    }
}

/// Some ancestor of `el` matches `comps`.
pub open spec fn spec_descendant<E: Element>(
    comps: Seq<Component>,
    el: E,
    bloom: Option<Seq<u8>>,
    mode: Option<MatchMode>,
) -> bool
    decreases comps, el.spec_depth(), 0nat,
    when element_laws::<E>()
{
    match el.spec_parent() {
        Some(p) => {
            proof {
                lemma_tree_measures(el);
            }
            spec_matches_comps(comps, p, bloom, mode) || spec_descendant(comps, p, bloom, mode)
        },
        None => false,
    }
}

/// Some preceding sibling of `el` matches `comps`.
pub open spec fn spec_later_sibling<E: Element>(
    comps: Seq<Component>,
    el: E,
    bloom: Option<Seq<u8>>,
    mode: Option<MatchMode>,
) -> bool
    decreases comps, el.spec_preceding(), 0nat,
    when element_laws::<E>()
{
    match el.spec_prev_sibling() {
        Some(s) => {
            proof {
                lemma_tree_measures(el);
            }
            spec_matches_comps(comps, s, bloom, mode) || spec_later_sibling(comps, s, bloom, mode)
        },
        None => false,
    }
}

/// The common single-component shortcuts of list matching: class, type,
/// id and universal are tested directly (class without quirks handling).
pub open spec fn spec_shortcut<E: Element>(
    c: Component,
    el: E,
    bloom: Option<Seq<u8>>,
    mode: Option<MatchMode>,
) -> bool
    decreases c, 1nat, 0nat,
{
    match c {
        Component::Class(cl) => el.spec_classes().contains(cl@),
        Component::Type(n) => el.spec_local_name() == n@,
        Component::Id(i) => el.spec_id() == Some(i@),
        Component::Universal => true,
        other => spec_simple(other, el, bloom, mode),
    }
}

/// Every component passes its shortcut test (compound-only selectors).
pub open spec fn spec_all_shortcut<E: Element>(
    comps: Seq<Component>,
    el: E,
    bloom: Option<Seq<u8>>,
    mode: Option<MatchMode>,
) -> bool
    decreases comps, 0nat, 0nat,
{
    if comps.len() == 0 {
        true
    } else {
        spec_shortcut(comps[0], el, bloom, mode) && spec_all_shortcut(
            comps.drop_first(),
            el,
            bloom,
            mode,
        )
    }
}

/// Argument of `:host()`, `:host-context()`, `::slotted()` (and of
/// multi-component `:is()`/`:not()`/`:where()` arguments).
pub open spec fn spec_in_list<E: Element>(
    sel: Selector,
    el: E,
    bloom: Option<Seq<u8>>,
    mode: Option<MatchMode>,
) -> bool
    decreases sel, 0nat, 0nat,
{
    if !state_has(el, sel.hint.required_state.0) {
        false
    } else if sel.comps@.len() == 1 {
        spec_shortcut(sel.comps@[0], el, bloom, mode)
    } else if sel.hint.deps.flags & DEP_COMBINATORS == 0 {
        spec_all_shortcut(sel.comps@, el, bloom, mode)
    } else {
        spec_matches_comps(sel.comps@, el, bloom, mode)
    }
}

/// Argument of `:is()`, `:not()`, `:where()`.
pub open spec fn spec_sub<E: Element>(
    sel: Selector,
    el: E,
    bloom: Option<Seq<u8>>,
    mode: Option<MatchMode>,
) -> bool
    decreases sel, 1nat, 0nat,
{
    if sel.comps@.len() == 1 {
        spec_shortcut(sel.comps@[0], el, bloom, mode)
    } else {
        spec_in_list(sel, el, bloom, mode)
    }
}

/// Some selector of `sels` matches as an `:is()` argument.
pub open spec fn spec_any_sub<E: Element>(
    sels: Seq<Selector>,
    el: E,
    bloom: Option<Seq<u8>>,
    mode: Option<MatchMode>,
) -> bool
    decreases sels, 0nat, 0nat,
{
    if sels.len() == 0 {
        false
    } else {
        spec_sub(sels[0], el, bloom, mode) || spec_any_sub(sels.drop_first(), el, bloom, mode)
    }
}

/// Some selector of `sels` matches as a `:host()` argument.
pub open spec fn spec_any_in_list<E: Element>(
    sels: Seq<Selector>,
    el: E,
    bloom: Option<Seq<u8>>,
    mode: Option<MatchMode>,
) -> bool
    decreases sels, 0nat, 0nat,
{
    if sels.len() == 0 {
        false
    } else {
        spec_in_list(sels[0], el, bloom, mode) || spec_any_in_list(
            sels.drop_first(),
            el,
            bloom,
            mode,
        )
    }
}

/// Some component of `comps` matches (flattened `:is()`).
pub open spec fn spec_any_simple<E: Element>(
    comps: Seq<Component>,
    el: E,
    bloom: Option<Seq<u8>>,
    mode: Option<MatchMode>,
) -> bool
    decreases comps, 0nat, 0nat,
{
    if comps.len() == 0 {
        false
    } else {
        spec_simple(comps[0], el, bloom, mode) || spec_any_simple(
            comps.drop_first(),
            el,
            bloom,
            mode,
        )
    }
}

/// The element that `:host-context()` tests after `el`: the parent, or
/// across the shadow boundary the containing shadow host.
pub open spec fn host_context_next<E: Element>(el: E) -> Option<E> {
    match el.spec_parent() {
        Some(p) => Some(p),
        None => el.spec_containing_shadow_host(),
    }
}

/// `:host-context()`: `el` or one of its ancestors across shadow boundaries
/// matches an argument.
pub open spec fn spec_host_context<E: Element>(
    sels: Seq<Selector>,
    el: E,
    bloom: Option<Seq<u8>>,
    mode: Option<MatchMode>,
) -> bool
    decreases sels, el.spec_depth() + 1, 0nat,
    when element_laws::<E>()
{
    spec_any_in_list(sels, el, bloom, mode) || match host_context_next(el) {
        Some(n) => {
            proof {
                lemma_tree_measures(el);
            }
            spec_host_context(sels, n, bloom, mode)
        },
        None => false,
    }
}

/// The children of `parent` from `c` on: one matches `sel`.
pub open spec fn spec_children_match<E: Element>(sel: Selector, parent: E, c: Option<E>) -> bool
    decreases sel, 1nat, match c {
        Some(x) => x.spec_following() + 1,
        None => 0,
    },
    when element_laws::<E>()
{
    match c {
        Some(x) => {
            proof {
                lemma_tree_measures(x);
            }
            spec_sel_match(sel, x) || spec_children_match(sel, parent, x.spec_next_sibling())
        },
        None => false,
    }
}

/// The following siblings from `s` on: one matches `sel`.
pub open spec fn spec_siblings_match<E: Element>(sel: Selector, s: Option<E>) -> bool
    decreases sel, 1nat, match s {
        Some(x) => x.spec_following() + 1,
        None => 0,
    },
    when element_laws::<E>()
{
    match s {
        Some(x) => {
            proof {
                lemma_tree_measures(x);
            }
            spec_sel_match(sel, x) || spec_siblings_match(sel, x.spec_next_sibling())
        },
        None => false,
    }
}

/// A descendant of `el` matches `sel`.
pub open spec fn spec_subtree_match<E: Element>(sel: Selector, el: E) -> bool
    decreases sel, 2 * el.spec_height() + 2, 0nat,
    when element_laws::<E>()
{
    proof {
        lemma_tree_measures(el);
    }
    spec_subtree_children(sel, el, el.spec_first_child())
}

/// A child of `parent` from `c` on, or a descendant of it, matches `sel`.
pub open spec fn spec_subtree_children<E: Element>(sel: Selector, parent: E, c: Option<E>) -> bool
    decreases sel, 2 * parent.spec_height() + 1, match c {
        Some(x) => x.spec_following() + 1,
        None => 0,
    },
    when element_laws::<E>()
{
    match c {
        Some(x) => if x.spec_height() < parent.spec_height() {
            proof {
                lemma_tree_measures(x);
            }
            spec_sel_match(sel, x) || spec_subtree_match(sel, x) || spec_subtree_children(
                sel,
                parent,
                x.spec_next_sibling(),
            )
        } else {
            false
        },
        None => false,
    }
}

/// One relative selector of `:has()` matches around `el`.
pub open spec fn spec_relative<E: Element>(rel: RelativeSelector, el: E) -> bool
    decreases rel, 0nat, 0nat,
{
    match rel.traversal {
        HasTraversal::Children => spec_children_match(rel.selector, el, el.spec_first_child()),
        HasTraversal::Subtree => spec_subtree_match(rel.selector, el),
        HasTraversal::NextSibling => match el.spec_next_sibling() {
            Some(n) => spec_sel_match(rel.selector, n),
            None => false,
        },
        HasTraversal::Siblings => spec_siblings_match(rel.selector, el.spec_next_sibling()),
    }
}

/// Some relative selector of `rels` matches around `el`.
pub open spec fn spec_any_relative<E: Element>(rels: Seq<RelativeSelector>, el: E) -> bool
    decreases rels, 0nat, 0nat,
{
    if rels.len() == 0 {
        false
    } else {
        spec_relative(rels[0], el) || spec_any_relative(rels.drop_first(), el)
    }
}

/// `:has()`.
pub open spec fn spec_has<E: Element>(rl: RelativeSelectorList, el: E) -> bool
    decreases rl, 0nat, 0nat,
{
    spec_any_relative(rl.selectors@, el)
}

/// Number of siblings before `el` (after it, with `from_end`) that match
/// some selector of `sels`.
pub open spec fn spec_count_matching<E: Element>(
    sels: Seq<Selector>,
    s: Option<E>,
    from_end: bool,
) -> nat
    decreases sels, 1nat, match s {
        Some(x) => if from_end {
            x.spec_following() + 1
        } else {
            x.spec_preceding() + 1
        },
        None => 0,
    },
    when element_laws::<E>()
{
    match s {
        Some(x) => {
            proof {
                lemma_tree_measures(x);
            }
            let next = if from_end {
                x.spec_next_sibling()
            } else {
                x.spec_prev_sibling()
            };
            (if spec_any_sel_match(sels, x) {
                1nat
            } else {
                0nat
            }) + spec_count_matching(sels, next, from_end)
        },
        None => 0,
    }
}

/// The 1-based index after `n` counted siblings, saturating at `i32::MAX`.
pub open spec fn count_index(n: nat) -> i32 {
    if n + 1 <= i32::MAX {
        (n + 1) as i32
    } else {
        i32::MAX
    }
}

/// The first sibling looked at when counting for `:nth-child(... of S)`.
pub open spec fn first_counted<E: Element>(el: E, from_end: bool) -> Option<E> {
    if from_end {
        el.spec_next_sibling()
    } else {
        el.spec_prev_sibling()
    }
}

/// `:nth-child()` / `:nth-last-child()`.
pub open spec fn spec_nth<E: Element>(nth: NthData, el: E, from_end: bool) -> bool
    decreases nth, 0nat, 0nat,
{
    match nth.of_selector {
        None => spec_nth_formula(nth.a as int, nth.b as int, spec_child_pos(el, from_end) as int),
        Some(of) => spec_any_sel_match(of.0@, el) && spec_nth_formula(
            nth.a as int,
            nth.b as int,
            count_index(spec_count_matching(of.0@, first_counted(el, from_end), from_end))
                as int,
        ),
    }
}

/// The element exposes every part name.
pub open spec fn spec_all_parts<E: Element>(el: E, parts: Seq<Atom>) -> bool {
    forall|i: int| 0 <= i < parts.len() ==> el.spec_is_part(#[trigger] parts[i]@)
}

/// One simple selector (a component that is not a combinator).
pub open spec fn spec_simple<E: Element>(
    c: Component,
    el: E,
    bloom: Option<Seq<u8>>,
    mode: Option<MatchMode>,
) -> bool
    decreases c, 0nat, 0nat,
{
    match c {
        Component::Universal => true,
        Component::Type(n) => el.spec_local_name() == n@,
        Component::Id(i) => el.spec_id() == Some(i@),
        Component::Namespace(ns) => match ns {
            NamespaceConstraint::Any => true,
            NamespaceConstraint::NoNamespace => el.spec_namespace() is None,
            NamespaceConstraint::Specific(u) => el.spec_namespace() == Some(u@),
        },
        Component::Class(cl) => spec_class_match(cl@, el, mode),
        Component::Attribute(a) => spec_attr_matches(a.operation, el.spec_attr(a.name@)),
        Component::PseudoClass(pc) => spec_pseudo(pc, el, mode),
        Component::PseudoElement(_) => true,
        Component::Negation(list) => !spec_any_sub(list.0@, el, bloom, mode),
        Component::Is(list) => spec_any_sub(list.0@, el, bloom, mode),
        Component::Where(list) => spec_any_sub(list.0@, el, bloom, mode),
        Component::IsSingle(cs) => spec_any_simple(cs@, el, bloom, mode),
        Component::WhereSingle(cs) => spec_any_simple(cs@, el, bloom, mode),
        Component::NotSingle(cs) => !spec_any_simple(cs@, el, bloom, mode),
        Component::Has(rl) => spec_has(rl, el),
        Component::NthChild(nth) => spec_nth(nth, el, false),
        Component::NthLastChild(nth) => spec_nth(nth, el, true),
        Component::NthOfType(a, b) => spec_nth_formula(
            a as int,
            b as int,
            spec_type_pos(el, false) as int,
        ),
        Component::NthLastOfType(a, b) => spec_nth_formula(
            a as int,
            b as int,
            spec_type_pos(el, true) as int,
        ),
        Component::Lang(langs) => spec_lang(langs@, el),
        Component::Dir(d) => el.spec_direction() == d,
        Component::Nesting => spec_scope(el, mode),
        Component::State(n) => el.spec_has_custom_state(n@),
        Component::Host => el.spec_is_shadow_host(),
        Component::HostFunction(list) => el.spec_is_shadow_host() && spec_any_in_list(
            list.0@,
            el,
            bloom,
            mode,
        ),
        Component::HostContext(list) => el.spec_is_shadow_host() && spec_host_context(
            list.0@,
            el,
            bloom,
            mode,
        ),
        Component::Slotted(list) => el.spec_is_in_slot() && spec_any_in_list(
            list.0@,
            el,
            bloom,
            mode,
        ),
        Component::Part(parts) => spec_all_parts(el, parts@),
        Component::Highlight(_) => true,
        Component::Combinator(_) => false,
    }
}



/// Every hash `push` records for `x` may be in the filter.
pub open spec fn hashes_in<E: Element>(b: Seq<u8>, x: E) -> bool {
    forall|k: int|
        0 <= k < element_hashes(x).len() ==> spec_might_contain(b, #[trigger] element_hashes(x)[k])
}

/// The filter holds every ancestor of `el`: each was pushed and not popped.
pub open spec fn holds_ancestors<E: Element>(b: Seq<u8>, el: E) -> bool
    decreases el.spec_depth(),
    when element_laws::<E>()
{
    match el.spec_parent() {
        Some(p) => {
            proof {
                lemma_tree_measures(el);
            }
            hashes_in(b, p) && holds_ancestors(b, p)
        },
        None => true,
    }
}

/// Not quirks mode: no mode, or a mode without quirks.
pub open spec fn no_quirks(mode: Option<MatchMode>) -> bool {
    !(mode matches Some(m) && m.quirks == QuirksMode::Quirks)
}

/// A component whose matching, with a filter that holds the ancestors of
/// the element, stays among the element, its ancestors and their previous
/// siblings: any combinator but the column combinator, and nested selectors
/// (`:is()`, `:not()`, `:where()`, `:host()`, `::slotted()`) that do the
/// same. `:host-context()` crosses shadow boundaries and is left out.
pub open spec fn filter_safe(c: Component) -> bool
    decreases c, 0nat,
{
    match c {
        Component::Combinator(cb) => cb != Combinator::Column,
        Component::Negation(l) => all_filter_safe(l.0@),
        Component::Is(l) => all_filter_safe(l.0@),
        Component::Where(l) => all_filter_safe(l.0@),
        Component::HostFunction(l) => all_filter_safe(l.0@),
        Component::Slotted(l) => all_filter_safe(l.0@),
        Component::IsSingle(cs) => forall|i: int|
            0 <= i < cs@.len() ==> filter_safe(#[trigger] cs@[i]),
        Component::NotSingle(cs) => forall|i: int|
            0 <= i < cs@.len() ==> filter_safe(#[trigger] cs@[i]),
        Component::WhereSingle(cs) => forall|i: int|
            0 <= i < cs@.len() ==> filter_safe(#[trigger] cs@[i]),
        Component::HostContext(_) => false,
        _ => true,
    }
}

/// Every component of every selector of a list is filter-safe.
pub open spec fn all_filter_safe(sels: Seq<Selector>) -> bool
    decreases sels, 0nat,
{
    forall|i: int| 0 <= i < sels.len() ==> comps_filter_safe(#[trigger] sels[i].comps@)
}

/// Every component is filter-safe.
pub open spec fn comps_filter_safe(comps: Seq<Component>) -> bool
    decreases comps, 0nat,
{
    forall|i: int| 0 <= i < comps.len() ==> filter_safe(#[trigger] comps[i])
}

/// When an element matches the leading compound of `comps`, the filter
/// pre-check passes for every filter that holds the element's hashes.
proof fn lemma_filter_admits<E: Element>(comps: Seq<Component>, a: E, b: Seq<u8>, mode: Option<MatchMode>)
    requires
        spec_matches_comps(comps, a, None, mode),
        hashes_in(b, a),
        no_quirks(mode),
    ensures
        spec_bloom_ok(comps, b),
    decreases comps.len(),
{
    if comps.len() > 0 && !(comps[0] is Combinator) {
        let c = comps[0];
        assert(spec_simple(c, a, None, mode) && spec_matches_comps(comps.drop_first(), a, None, mode));
        lemma_filter_admits(comps.drop_first(), a, b, mode);
        lemma_hash_of_leading(c, a, b, mode);
    }
}

/// A type, id or class selector that matches `a` has its hash among the
/// hashes `push` records for `a`.
#[verifier::spinoff_prover]
proof fn lemma_hash_of_leading<E: Element>(c: Component, a: E, b: Seq<u8>, mode: Option<MatchMode>)
    requires
        spec_simple(c, a, None, mode),
        hashes_in(b, a),
        no_quirks(mode),
    ensures
        match c {
            Component::Type(n) => spec_might_contain(b, spec_hash_atom(n@)),
            Component::Id(i) => spec_might_contain(b, spec_hash_atom(i@)),
            Component::Class(cl) => spec_might_contain(b, spec_hash_atom(cl@)),
            _ => true,
        },
{
    let hs = element_hashes(a);
    let base = seq![spec_hash_atom(a.spec_local_name())] + (match a.spec_id() {
        Some(i) => seq![spec_hash_atom(i)],
        None => Seq::<u32>::empty(),
    });
    let cls = a.spec_classes().map_values(|x: Seq<char>| spec_hash_atom(x));
    assert(hs == base + cls);
    match c {
        Component::Type(n) => {
            assert(hs[0] == spec_hash_atom(n@));
        },
        Component::Id(i) => {
            assert(a.spec_id() == Some(i@));
            assert(hs[1] == spec_hash_atom(i@));
        },
        Component::Class(cl) => {
            assert(a.spec_classes().contains(cl@));
            let j = choose|j: int| 0 <= j < a.spec_classes().len() && a.spec_classes()[j] == cl@;
            assert(hs[base.len() + j] == cls[j]);
            assert(cls[j] == spec_hash_atom(cl@));
        },
        _ => {},
    }
}

/// A previous sibling has the ancestors of the element.
proof fn lemma_sibling_ancestors<E: Element>(el: E, s: E, b: Seq<u8>)
    requires
        element_laws::<E>(),
        el.spec_prev_sibling() == Some(s),
        holds_ancestors(b, el),
    ensures
        holds_ancestors(b, s),
{
    lemma_tree_measures(el);
    match el.spec_parent() {
        Some(p) => {
            lemma_tree_measures(s);
        },
        None => {},
    }
}

/// The rest of a filter-safe sequence is filter-safe.
proof fn lemma_rest_safe(comps: Seq<Component>)
    requires
        comps.len() > 0,
        comps_filter_safe(comps),
    ensures
        comps_filter_safe(comps.drop_first()),
        filter_safe(comps[0]),
{
    let rest = comps.drop_first();
    assert forall|i: int| 0 <= i < rest.len() implies filter_safe(#[trigger] rest[i]) by {
        assert(rest[i] == comps[i + 1]);
    }
}

/// Walking an ancestor chain agrees with and without the filter, and a
/// successful walk passes the filter's pre-check.
proof fn lemma_descendant_filter<E: Element>(comps: Seq<Component>, el: E, b: Seq<u8>, mode: Option<MatchMode>)
    requires
        element_laws::<E>(),
        comps_filter_safe(comps),
        holds_ancestors(b, el),
        no_quirks(mode),
    ensures
        spec_descendant(comps, el, Some(b), mode) == spec_descendant(comps, el, None, mode),
        spec_descendant(comps, el, None, mode) ==> spec_bloom_ok(comps, b),
    decreases comps, el.spec_depth() + 1, 0nat,
{
    lemma_tree_measures(el);
    match el.spec_parent() {
        Some(p) => {
            lemma_comps_filter(comps, p, b, mode);
            lemma_descendant_filter(comps, p, b, mode);
            if spec_matches_comps(comps, p, None, mode) {
                lemma_filter_admits(comps, p, b, mode);
            }
        },
        None => {},
    }
}

/// Walking the previous siblings agrees with and without the filter.
proof fn lemma_later_filter<E: Element>(comps: Seq<Component>, el: E, b: Seq<u8>, mode: Option<MatchMode>)
    requires
        element_laws::<E>(),
        comps_filter_safe(comps),
        holds_ancestors(b, el),
        no_quirks(mode),
    ensures
        spec_later_sibling(comps, el, Some(b), mode) == spec_later_sibling(comps, el, None, mode),
    decreases comps, el.spec_depth(), el.spec_preceding() + 1,
{
    lemma_tree_measures(el);
    match el.spec_prev_sibling() {
        Some(s) => {
            lemma_sibling_ancestors(el, s, b);
            lemma_comps_filter(comps, s, b, mode);
            lemma_later_filter(comps, s, b, mode);
        },
        None => {},
    }
}

/// Matching agrees with and without a filter that holds every ancestor,
/// for filter-safe components.
proof fn lemma_comps_filter<E: Element>(comps: Seq<Component>, el: E, b: Seq<u8>, mode: Option<MatchMode>)
    requires
        element_laws::<E>(),
        comps_filter_safe(comps),
        holds_ancestors(b, el),
        no_quirks(mode),
    ensures
        spec_matches_comps(comps, el, Some(b), mode) == spec_matches_comps(comps, el, None, mode),
    decreases comps, el.spec_depth(), 0nat,
{
    if comps.len() > 0 {
        let rest = comps.drop_first();
        lemma_rest_safe(comps);
        lemma_tree_measures(el);
        match comps[0] {
            Component::Combinator(cb) => {
                match cb {
                    Combinator::Child => {
                        match el.spec_parent() {
                            Some(p) => {
                                lemma_comps_filter(rest, p, b, mode);
                            },
                            None => {},
                        }
                    },
                    Combinator::Descendant => {
                        lemma_descendant_filter(rest, el, b, mode);
                    },
                    Combinator::NextSibling => {
                        match el.spec_prev_sibling() {
                            Some(s) => {
                                lemma_sibling_ancestors(el, s, b);
                                lemma_comps_filter(rest, s, b, mode);
                            },
                            None => {},
                        }
                    },
                    Combinator::LaterSibling => {
                        lemma_later_filter(rest, el, b, mode);
                    },
                    Combinator::Column => {},
                }
            },
            c => {
                lemma_simple_filter(c, el, b, mode);
                lemma_comps_filter(rest, el, b, mode);
            },
        }
    }
}

/// A filter-safe simple selector means the same with and without the filter.
proof fn lemma_simple_filter<E: Element>(c: Component, el: E, b: Seq<u8>, mode: Option<MatchMode>)
    requires
        element_laws::<E>(),
        filter_safe(c),
        holds_ancestors(b, el),
        no_quirks(mode),
    ensures
        spec_simple(c, el, Some(b), mode) == spec_simple(c, el, None, mode),
    decreases c, 0nat, 0nat,
{
    match c {
        Component::Negation(l) => lemma_any_sub_filter(l.0@, el, b, mode),
        Component::Is(l) => lemma_any_sub_filter(l.0@, el, b, mode),
        Component::Where(l) => lemma_any_sub_filter(l.0@, el, b, mode),
        Component::HostFunction(l) => lemma_any_in_list_filter(l.0@, el, b, mode),
        Component::Slotted(l) => lemma_any_in_list_filter(l.0@, el, b, mode),
        Component::IsSingle(cs) => lemma_any_simple_filter(cs@, el, b, mode),
        Component::NotSingle(cs) => lemma_any_simple_filter(cs@, el, b, mode),
        Component::WhereSingle(cs) => lemma_any_simple_filter(cs@, el, b, mode),
        _ => {},
    }
}

proof fn lemma_any_simple_filter<E: Element>(cs: Seq<Component>, el: E, b: Seq<u8>, mode: Option<MatchMode>)
    requires
        element_laws::<E>(),
        forall|i: int| 0 <= i < cs.len() ==> filter_safe(#[trigger] cs[i]),
        holds_ancestors(b, el),
        no_quirks(mode),
    ensures
        spec_any_simple(cs, el, Some(b), mode) == spec_any_simple(cs, el, None, mode),
    decreases cs, 0nat, 0nat,
{
    if cs.len() > 0 {
        lemma_rest_safe(cs);
        lemma_simple_filter(cs[0], el, b, mode);
        lemma_any_simple_filter(cs.drop_first(), el, b, mode);
    }
}

proof fn lemma_shortcut_filter<E: Element>(c: Component, el: E, b: Seq<u8>, mode: Option<MatchMode>)
    requires
        element_laws::<E>(),
        filter_safe(c),
        holds_ancestors(b, el),
        no_quirks(mode),
    ensures
        spec_shortcut(c, el, Some(b), mode) == spec_shortcut(c, el, None, mode),
    decreases c, 1nat, 0nat,
{
    lemma_simple_filter(c, el, b, mode);
}

proof fn lemma_all_shortcut_filter<E: Element>(comps: Seq<Component>, el: E, b: Seq<u8>, mode: Option<MatchMode>)
    requires
        element_laws::<E>(),
        comps_filter_safe(comps),
        holds_ancestors(b, el),
        no_quirks(mode),
    ensures
        spec_all_shortcut(comps, el, Some(b), mode) == spec_all_shortcut(comps, el, None, mode),
    decreases comps, 0nat, 0nat,
{
    if comps.len() > 0 {
        lemma_rest_safe(comps);
        lemma_shortcut_filter(comps[0], el, b, mode);
        lemma_all_shortcut_filter(comps.drop_first(), el, b, mode);
    }
}

proof fn lemma_in_list_filter<E: Element>(sel: Selector, el: E, b: Seq<u8>, mode: Option<MatchMode>)
    requires
        element_laws::<E>(),
        comps_filter_safe(sel.comps@),
        holds_ancestors(b, el),
        no_quirks(mode),
    ensures
        spec_in_list(sel, el, Some(b), mode) == spec_in_list(sel, el, None, mode),
    decreases sel, 0nat, 0nat,
{
    if sel.comps@.len() > 0 {
        lemma_rest_safe(sel.comps@);
        lemma_shortcut_filter(sel.comps@[0], el, b, mode);
    }
    lemma_all_shortcut_filter(sel.comps@, el, b, mode);
    lemma_comps_filter(sel.comps@, el, b, mode);
}

proof fn lemma_sub_filter<E: Element>(sel: Selector, el: E, b: Seq<u8>, mode: Option<MatchMode>)
    requires
        element_laws::<E>(),
        comps_filter_safe(sel.comps@),
        holds_ancestors(b, el),
        no_quirks(mode),
    ensures
        spec_sub(sel, el, Some(b), mode) == spec_sub(sel, el, None, mode),
    decreases sel, 1nat, 0nat,
{
    if sel.comps@.len() > 0 {
        lemma_rest_safe(sel.comps@);
        lemma_shortcut_filter(sel.comps@[0], el, b, mode);
    }
    lemma_in_list_filter(sel, el, b, mode);
}

proof fn lemma_any_sub_filter<E: Element>(sels: Seq<Selector>, el: E, b: Seq<u8>, mode: Option<MatchMode>)
    requires
        element_laws::<E>(),
        all_filter_safe(sels),
        holds_ancestors(b, el),
        no_quirks(mode),
    ensures
        spec_any_sub(sels, el, Some(b), mode) == spec_any_sub(sels, el, None, mode),
    decreases sels, 0nat, 0nat,
{
    if sels.len() > 0 {
        let rest = sels.drop_first();
        assert(comps_filter_safe(sels[0].comps@));
        assert forall|i: int| 0 <= i < rest.len() implies comps_filter_safe(
            #[trigger] rest[i].comps@,
        ) by {
            assert(rest[i] == sels[i + 1]);
        }
        lemma_sub_filter(sels[0], el, b, mode);
        lemma_any_sub_filter(rest, el, b, mode);
    }
}

proof fn lemma_any_in_list_filter<E: Element>(sels: Seq<Selector>, el: E, b: Seq<u8>, mode: Option<MatchMode>)
    requires
        element_laws::<E>(),
        all_filter_safe(sels),
        holds_ancestors(b, el),
        no_quirks(mode),
    ensures
        spec_any_in_list(sels, el, Some(b), mode) == spec_any_in_list(sels, el, None, mode),
    decreases sels, 0nat, 0nat,
{
    if sels.len() > 0 {
        let rest = sels.drop_first();
        assert(comps_filter_safe(sels[0].comps@));
        assert forall|i: int| 0 <= i < rest.len() implies comps_filter_safe(
            #[trigger] rest[i].comps@,
        ) by {
            assert(rest[i] == sels[i + 1]);
        }
        lemma_in_list_filter(sels[0], el, b, mode);
        lemma_any_in_list_filter(rest, el, b, mode);
    }
}

/// The filter only prunes: outside quirks mode, matching with a filter
/// that holds every ancestor of the element (each pushed and not popped)
/// gives the result of matching without one, for every selector whose
/// walk stays among the element, its ancestors and their previous
/// siblings (no column combinator, no `:host-context()`), in any matching
/// mode without quirks; without a mode, this is the plain match.
pub proof fn lemma_bloom_only_prunes<E: Element>(
    sel: Selector,
    el: E,
    b: Seq<u8>,
    mode: Option<MatchMode>,
)
    requires
        element_laws::<E>(),
        comps_filter_safe(sel.comps@),
        holds_ancestors(b, el),
        no_quirks(mode),
    ensures
        spec_matches_comps(sel.comps@, el, Some(b), mode) == spec_matches_comps(
            sel.comps@,
            el,
            None,
            mode,
        ),
        mode is None ==> ((state_has(el, sel.hint.required_state.0) && spec_matches_comps(
            sel.comps@,
            el,
            Some(b),
            None,
        )) == spec_sel_match(sel, el)),
{
    lemma_comps_filter(sel.comps@, el, b, mode);
}

/// `:where()` matches exactly where `:is()` with the same arguments does,
/// in both the list and the single-component form; only their specificity
/// differs.
pub proof fn lemma_where_matches_as_is<E: Element>(
    l: SelectorList,
    singles: Vec<Component>,
    el: E,
    bloom: Option<Seq<u8>>,
    mode: Option<MatchMode>,
)
    ensures
        spec_simple(Component::Where(l), el, bloom, mode) == spec_simple(
            Component::Is(l),
            el,
            bloom,
            mode,
        ),
        spec_simple(Component::WhereSingle(singles), el, bloom, mode) == spec_simple(
            Component::IsSingle(singles),
            el,
            bloom,
            mode,
        ),
{
}

/// The counters of an optional Bloom filter.
pub open spec fn bloom_view(b: Option<&AncestorBloom>) -> Option<Seq<u8>> {
    match b {
        Some(x) => Some(x@),
        None => None,
    }
}

/// An optional Bloom filter is well formed.
pub open spec fn bloom_wf(b: Option<&AncestorBloom>) -> bool {
    match b {
        Some(x) => x.wf(),
        None => true,
    }
}

/// The matching mode in use: the context's, or none.
pub open spec fn mode_opt(ctx: MatchingContext, use_ctx: bool) -> Option<MatchMode> {
    if use_ctx {
        Some(mode_of(ctx))
    } else {
        None
    }
}

/// Every cached sibling position is the position of the element it is
/// keyed by: the plain `:nth-*` caches agree with the DOM.
pub open spec fn caches_coherent<E: Element>(c: SelectorCaches) -> bool {
    &&& forall|e: E| #[trigger] c.nth.nth_child@.contains_key(e.spec_opaque())
        ==> c.nth.nth_child@[e.spec_opaque()] == spec_child_pos(e, false)
    &&& forall|e: E| #[trigger] c.nth.nth_last_child@.contains_key(e.spec_opaque())
        ==> c.nth.nth_last_child@[e.spec_opaque()] == spec_child_pos(e, true)
    &&& forall|e: E| #[trigger] c.nth.nth_of_type@.contains_key(e.spec_opaque())
        ==> c.nth.nth_of_type@[e.spec_opaque()] == spec_type_pos(e, false)
    &&& forall|e: E| #[trigger] c.nth.nth_last_of_type@.contains_key(e.spec_opaque())
        ==> c.nth.nth_last_of_type@[e.spec_opaque()] == spec_type_pos(e, true)
}

/// The results of a pass can be trusted: no context is in use, or its
/// caches agree with the DOM.
pub open spec fn ctx_trusted<E: Element>(ctx: MatchingContext, use_ctx: bool) -> bool {
    !use_ctx || caches_coherent::<E>(*ctx.caches)
}

/// A matching pass keeps the context's settings and only adds selector flags.
pub open spec fn ctx_settings_kept(old: MatchingContext, new: MatchingContext) -> bool {
    &&& new.bloom_filter == old.bloom_filter
    &&& new.scope_element == old.scope_element
    &&& new.relevant_link == old.relevant_link
    &&& new.visited_handling == old.visited_handling
    &&& new.quirks_mode == old.quirks_mode
    &&& new.flags == old.flags
    &&& old.collected_element_flags.0 | new.collected_element_flags.0
        == new.collected_element_flags.0
}

/// A matching pass keeps the settings, only adds selector flags, and keeps
/// coherent caches coherent.
pub open spec fn ctx_kept<E: Element>(old: MatchingContext, new: MatchingContext) -> bool {
    &&& ctx_settings_kept(old, new)
    &&& caches_coherent::<E>(*old.caches) ==> caches_coherent::<E>(*new.caches)
}

/// Only selector flags were added.
pub open spec fn ctx_flag_only(old: MatchingContext, new: MatchingContext) -> bool {
    ctx_settings_kept(old, new) && *new.caches == *old.caches
}

/// Nothing in the context changed.
pub open spec fn ctx_same(old: MatchingContext, new: MatchingContext) -> bool {
    ctx_flag_only(old, new) && new.collected_element_flags == old.collected_element_flags
}

proof fn lemma_or_trans(a: u16, b: u16, c: u16)
    requires
        a | b == b,
        b | c == c,
    ensures
        a | c == c,
{
    assert(a | b == b && b | c == c ==> a | c == c) by (bit_vector);
}

proof fn lemma_or_refl(a: u16)
    ensures
        a | a == a,
{
    assert(a | a == a) by (bit_vector);
}

/// Two passes in a row keep the context as one pass does.
pub proof fn lemma_kept_trans<E: Element>(a: MatchingContext, b: MatchingContext, c: MatchingContext)
    requires
        ctx_kept::<E>(a, b),
        ctx_kept::<E>(b, c),
    ensures
        ctx_kept::<E>(a, c),
{
    lemma_or_trans(
        a.collected_element_flags.0,
        b.collected_element_flags.0,
        c.collected_element_flags.0,
    );
}

/// An empty pass keeps the context.
pub proof fn lemma_kept_refl<E: Element>(a: MatchingContext)
    ensures
        ctx_kept::<E>(a, a),
        ctx_same(a, a),
{
    lemma_or_refl(a.collected_element_flags.0);
}

/// Empty caches agree with every DOM.
pub proof fn lemma_empty_caches_coherent<E: Element>(c: SelectorCaches)
    requires
        crate::nth_cache::all_empty(c.nth@),
    ensures
        caches_coherent::<E>(c),
{
}

/// Record a selector flag when a context is in use.
fn note_flag(ctx: &mut MatchingContext, use_ctx: bool, flag: u16)
    ensures
        ctx_flag_only(*old(ctx), *final(ctx)),
        !use_ctx ==> ctx_same(*old(ctx), *final(ctx)),
{
    proof {
        lemma_or_refl(ctx.collected_element_flags.0);
    }
    if use_ctx {
        ctx.add_element_flag(flag);
        proof {
            let a = old(ctx).collected_element_flags.0;
            assert(a | (a | flag) == a | flag) by (bit_vector);
        }
    }
}

/// The Bloom pre-check of a descendant combinator.
fn bloom_might_match(comps: &[Component], bloom: &AncestorBloom) -> (r: bool)
    requires
        bloom.wf(),
    ensures
        r == spec_bloom_ok(comps@, bloom@),
    decreases comps@.len(),
{
    if comps.len() == 0 {
        return true;
    }
    let rest = vstd::slice::slice_subrange(comps, 1, comps.len());
    proof {
        assert(rest@ =~= comps@.drop_first());
    }
    match &comps[0] {
        Component::Combinator(_) => true,
        Component::Type(a) => {
            bloom.might_contain(AncestorBloom::hash_atom(a)) && bloom_might_match(rest, bloom)
        },
        Component::Id(a) => {
            bloom.might_contain(AncestorBloom::hash_atom(a)) && bloom_might_match(rest, bloom)
        },
        Component::Class(a) => {
            bloom.might_contain(AncestorBloom::hash_atom(a)) && bloom_might_match(rest, bloom)
        },
        _ => bloom_might_match(rest, bloom),
    }
}

/// Optional atom equals an atom.
fn opt_atom_is(a: Option<&Atom>, b: &Atom) -> (r: bool)
    ensures
        r == (crate::element::opt_atom_view(a) == Some(b@)),
{
    match a {
        Some(x) => x.same(b),
        None => false,
    }
}

/// Class matching, ASCII case-insensitive in quirks mode.
fn match_class<E: Element>(class: &Atom, el: &E, ctx: &MatchingContext, use_ctx: bool) -> (r:
    bool)
    requires
        element_laws::<E>(),
    ensures
        r == spec_class_match(class@, *el, mode_opt(*ctx, use_ctx)),
{
    if use_ctx && ctx.quirks_mode.classes_case_insensitive() {
        let classes = el.class_list();
        let mut i: usize = 0;
        while i < classes.len()
            invariant
                element_laws::<E>(),
                use_ctx,
                ctx.quirks_mode == QuirksMode::Quirks,
                i <= classes@.len(),
                classes@.len() == el.spec_classes().len(),
                forall|k: int|
                    0 <= k < classes@.len() ==> (#[trigger] classes@[k])@ == el.spec_classes()[k],
                forall|k: int|
                    0 <= k < i ==> !eq_ignore_ascii_case(
                        #[trigger] el.spec_classes()[k],
                        class@,
                    ),
            decreases classes@.len() - i,
        {
            if crate::attr::CaseSensitivity::AsciiCaseInsensitive.eq_str(
                classes[i].as_str(),
                class.as_str(),
            ) {
                proof {
                    let k = i as int;
                    assert(eq_ignore_ascii_case(el.spec_classes()[k], class@));
                    assert(0 <= k < el.spec_classes().len());
                    assert(ctx.quirks_mode == QuirksMode::Quirks);
                    assert(mode_opt(*ctx, use_ctx) == Some(mode_of(*ctx)));
                }
                return true;
            }
            i = i + 1;
        }
        false
    } else {
        el.has_class(class)
    }
}

/// `:visited` / `:link` under the context's policy.
fn match_visited_link<E: Element>(pc: PseudoClass, el: &E, ctx: &MatchingContext) -> (r: bool)
    requires
        element_laws::<E>(),
    ensures
        r == spec_visited_link(pc, *el, mode_of(*ctx)),
{
    let state = el.state();
    let link = ElementState::from_bits(ElementState::LINK);
    let visited = ElementState::from_bits(ElementState::VISITED);
    match ctx.visited_handling {
        VisitedHandling::AllLinksUnvisited => {
            matches!(pc, PseudoClass::Link) && state.contains(link)
        },
        VisitedHandling::AllLinksVisitedAndUnvisited => {
            state.intersects(link.union(visited))
        },
        VisitedHandling::RelevantLinkVisited => {
            let op = el.opaque();
            let is_relevant = match ctx.relevant_link {
                Some(rl) => rl.0 == op.0,
                None => false,
            };
            if is_relevant {
                matches!(pc, PseudoClass::Visited) && state.contains(visited)
            } else {
                matches!(pc, PseudoClass::Link) && state.contains(link)
            }
        },
    }
}

/// `:scope` and `&`.
fn match_scope<E: Element>(el: &E, ctx: &MatchingContext, use_ctx: bool) -> (r: bool)
    requires
        element_laws::<E>(),
    ensures
        r == spec_scope(*el, mode_opt(*ctx, use_ctx)),
{
    if use_ctx {
        match ctx.scope_element {
            Some(s) => el.opaque().0 == s.0,
            None => el.is_root(),
        }
    } else {
        el.is_root()
    }
}

/// Pseudo-class matching.
fn matches_pseudo_class<E: Element>(
    pc: PseudoClass,
    el: &E,
    ctx: &mut MatchingContext,
    use_ctx: bool,
) -> (r: bool)
    requires
        element_laws::<E>(),
    ensures
        ctx_trusted::<E>(*old(ctx), use_ctx) ==> r == spec_pseudo(pc, *el, mode_opt(*old(ctx), use_ctx)),
        ctx_kept::<E>(*old(ctx), *final(ctx)),
        !use_ctx ==> ctx_same(*old(ctx), *final(ctx)),
{
    proof {
        lemma_kept_refl::<E>(*ctx);
    }
    match pc.state_flag() {
        Some(flag) => {
            if (matches!(pc, PseudoClass::Visited) || matches!(pc, PseudoClass::Link)) && use_ctx {
                return match_visited_link(pc, el, ctx);
            }
            return el.state().contains(flag);
        },
        None => {},
    }
    match pc {
        PseudoClass::AnyLink => {
            let link = ElementState::from_bits(ElementState::LINK);
            let visited = ElementState::from_bits(ElementState::VISITED);
            el.state().intersects(link.union(visited))
        },
        PseudoClass::Root => el.is_root(),
        PseudoClass::Empty => {
            note_flag(ctx, use_ctx, ElementSelectorFlags::HAS_EMPTY_SELECTOR);
            el.is_empty()
        },
        PseudoClass::FirstChild => {
            note_flag(ctx, use_ctx, ElementSelectorFlags::HAS_EDGE_CHILD_SELECTOR);
            el.child_index() == 1
        },
        PseudoClass::LastChild => {
            note_flag(ctx, use_ctx, ElementSelectorFlags::HAS_EDGE_CHILD_SELECTOR);
            el.child_index() == el.child_count()
        },
        PseudoClass::OnlyChild => {
            note_flag(ctx, use_ctx, ElementSelectorFlags::HAS_EDGE_CHILD_SELECTOR);
            el.child_count() == 1
        },
        PseudoClass::FirstOfType => {
            note_flag(ctx, use_ctx, ElementSelectorFlags::HAS_EDGE_CHILD_SELECTOR);
            el.child_index_of_type() == 1
        },
        PseudoClass::LastOfType => {
            note_flag(ctx, use_ctx, ElementSelectorFlags::HAS_EDGE_CHILD_SELECTOR);
            el.child_index_of_type() == el.child_count_of_type()
        },
        PseudoClass::OnlyOfType => {
            note_flag(ctx, use_ctx, ElementSelectorFlags::HAS_EDGE_CHILD_SELECTOR);
            el.child_count_of_type() == 1
        },
        PseudoClass::Scope => match_scope(el, ctx, use_ctx),
        _ => false,
    }
}

/// `count + 1 - index` with `i32` wrap-around.
fn from_end_pos(count: u32, index: u32) -> (r: i32)
    ensures
        r == from_end_index(count, index),
{
    let c: i64 = (count as i32) as i64;
    let i: i64 = (index as i32) as i64;
    let v: i64 = c + 1 - i;
    v as i32
}


/// A map keyed by element identity agrees with `f`.
pub open spec fn keyed_coherent<E: Element>(m: Map<u64, i32>, f: spec_fn(E) -> i32) -> bool {
    forall|e: E| #[trigger] m.contains_key(e.spec_opaque()) ==> m[e.spec_opaque()] == f(e)
}

/// Storing the right value for an element keeps a keyed map coherent.
proof fn lemma_insert_coherent<E: Element>(m: Map<u64, i32>, el: E, v: i32, f: spec_fn(E) -> i32)
    requires
        element_laws::<E>(),
        keyed_coherent(m, f),
        v == f(el),
    ensures
        keyed_coherent(m.insert(el.spec_opaque(), v), f),
{
    assert forall|e: E| #[trigger] m.insert(el.spec_opaque(), v).contains_key(e.spec_opaque())
        implies m.insert(el.spec_opaque(), v)[e.spec_opaque()] == f(e) by {
        lemma_opaque_unique(el, e);
    }
}

/// The position of `el` for an `:nth-*` test.
pub open spec fn spec_pos<E: Element>(el: E, of_type: bool, from_end: bool) -> i32 {
    if of_type {
        spec_type_pos(el, from_end)
    } else {
        spec_child_pos(el, from_end)
    }
}

/// The position computed from the element.
fn pos_direct<E: Element>(el: &E, of_type: bool, from_end: bool) -> (r: i32)
    ensures
        r == spec_pos(*el, of_type, from_end),
{
    if of_type {
        if from_end {
            from_end_pos(el.child_count_of_type(), el.child_index_of_type())
        } else {
            #[verifier::truncate] (el.child_index_of_type() as i32)
        }
    } else {
        if from_end {
            from_end_pos(el.child_count(), el.child_index())
        } else {
            #[verifier::truncate] (el.child_index() as i32)
        }
    }
}

/// The position of `el` for an `:nth-*` test, read from the context's
/// caches or computed and stored there when a context is in use.
fn cached_pos<E: Element>(
    el: &E,
    of_type: bool,
    from_end: bool,
    ctx: &mut MatchingContext,
    use_ctx: bool,
) -> (r: i32)
    requires
        element_laws::<E>(),
    ensures
        ctx_trusted::<E>(*old(ctx), use_ctx) ==> r == spec_pos(*el, of_type, from_end),
        ctx_kept::<E>(*old(ctx), *final(ctx)),
        final(ctx).collected_element_flags == old(ctx).collected_element_flags,
        !use_ctx ==> ctx_same(*old(ctx), *final(ctx)),
{
    proof {
        lemma_kept_refl::<E>(*ctx);
    }
    if !use_ctx {
        return pos_direct(el, of_type, from_end);
    }
    let op = el.opaque();
    let ghost c0 = *old(ctx).caches;
    let ghost f = |e: E| spec_pos(e, of_type, from_end);
    let compute = || -> (v: i32)
        ensures
            v == spec_pos(*el, of_type, from_end),
        { pos_direct(el, of_type, from_end) };
    let r = if of_type {
        if from_end {
            ctx.caches.nth.nth_last_of_type(op, compute)
        } else {
            ctx.caches.nth.nth_of_type(op, compute)
        }
    } else {
        if from_end {
            ctx.caches.nth.nth_last_child(op, compute)
        } else {
            ctx.caches.nth.nth_child(op, compute)
        }
    };
    proof {
        let c1 = *ctx.caches;
        if caches_coherent::<E>(c0) {
            assert(keyed_coherent(c0.nth.nth_child@, |e: E| spec_pos(e, false, false)));
            assert(keyed_coherent(c0.nth.nth_last_child@, |e: E| spec_pos(e, false, true)));
            assert(keyed_coherent(c0.nth.nth_of_type@, |e: E| spec_pos(e, true, false)));
            assert(keyed_coherent(c0.nth.nth_last_of_type@, |e: E| spec_pos(e, true, true)));
            if of_type && from_end {
                if !c0.nth.nth_last_of_type@.contains_key(op.0) {
                    lemma_insert_coherent(c0.nth.nth_last_of_type@, *el, r, |e: E| spec_pos(e, true, true));
                }
            } else if of_type {
                if !c0.nth.nth_of_type@.contains_key(op.0) {
                    lemma_insert_coherent(c0.nth.nth_of_type@, *el, r, |e: E| spec_pos(e, true, false));
                }
            } else if from_end {
                if !c0.nth.nth_last_child@.contains_key(op.0) {
                    lemma_insert_coherent(c0.nth.nth_last_child@, *el, r, |e: E| spec_pos(e, false, true));
                }
            } else {
                if !c0.nth.nth_child@.contains_key(op.0) {
                    lemma_insert_coherent(c0.nth.nth_child@, *el, r, |e: E| spec_pos(e, false, false));
                }
            }
            assert(keyed_coherent(c1.nth.nth_child@, |e: E| spec_pos(e, false, false)));
            assert(keyed_coherent(c1.nth.nth_last_child@, |e: E| spec_pos(e, false, true)));
            assert(keyed_coherent(c1.nth.nth_of_type@, |e: E| spec_pos(e, true, false)));
            assert(keyed_coherent(c1.nth.nth_last_of_type@, |e: E| spec_pos(e, true, true)));
            assert(caches_coherent::<E>(c1));
        }
    }
    r
}

/// `:lang()` test of one attribute value against one language.
fn lang_value_matches(value: &str, target: &Atom) -> (r: bool)
    ensures
        r == lang_matches(value@, target@),
{
    let ci = crate::attr::CaseSensitivity::AsciiCaseInsensitive;
    if ci.eq_str(value, target.as_str()) {
        return true;
    }
    let vv = crate::text::chars_of(value);
    let tv = crate::text::chars_of(target.as_str());
    let tl = tv.len();
    if vv.len() > tl && vv[tl] == '-' {
        let r = ci.starts_with(value, target.as_str());
        proof {
            assert(value@.take(tl as int) =~= value@.subrange(0, tl as int));
        }
        r
    } else {
        false
    }
}

/// `:lang()`: the nearest `lang` attribute on the element or an ancestor.
fn matches_lang<E: Element>(langs: &[Atom], el: &E, lang_attr: &Atom) -> (r: bool)
    requires
        element_laws::<E>(),
        lang_attr@ == lang_name(),
    ensures
        r == spec_lang(langs@, *el),
    decreases el.spec_depth(),
{
    match el.attr(lang_attr) {
        Some(v) => {
            let mut i: usize = 0;
            while i < langs.len()
                invariant
                    element_laws::<E>(),
                    i <= langs@.len(),
                    el.spec_attr(lang_name()) == Some(v@),
                    forall|k: int| 0 <= k < i ==> !lang_matches(v@, #[trigger] langs@[k]@),
                decreases langs@.len() - i,
            {
                if lang_value_matches(v, &langs[i]) {
                    proof {
                        assert(lang_matches(v@, langs@[i as int]@));
                    }
                    return true;
                }
                i = i + 1;
            }
            false
        },
        None => match el.parent_element() {
            Some(p) => {
                proof {
                    lemma_tree_measures(*el);
                }
                matches_lang(langs, &p, lang_attr)
            },
            None => false,
        },
    }
}

/// The element's index among siblings matching some selector of `sels`,
/// counted from the start (or the end), saturating at `i32::MAX`.
fn nth_filtered_index_compute<E: Element>(
    sels: &[Selector],
    el: &E,
    from_end: bool,
    ctx: &mut MatchingContext,
) -> (r: i32)
    requires
        element_laws::<E>(),
    ensures
        r == count_index(spec_count_matching(sels@, first_counted(*el, from_end), from_end)),
        ctx_same(*old(ctx), *final(ctx)),
    decreases sels@, 2nat, 0nat,
{
    proof {
        lemma_kept_refl::<E>(*ctx);
    }
    let ghost total = spec_count_matching(sels@, first_counted(*el, from_end), from_end);
    let mut count: i32 = 1;
    let ghost mut seen: nat = 0;
    let mut sib: Option<E> = if from_end {
        el.next_sibling_element()
    } else {
        el.prev_sibling_element()
    };
    loop
        invariant
            element_laws::<E>(),
            total == spec_count_matching(sels@, first_counted(*el, from_end), from_end),
            total == seen + spec_count_matching(sels@, sib, from_end),
            count == count_index(seen),
            ctx_same(*old(ctx), *ctx),
        decreases match sib {
            Some(x) => if from_end {
                x.spec_following() + 1
            } else {
                x.spec_preceding() + 1
            },
            None => 0,
        },
    {
        match sib {
            None => {
                return count;
            },
            Some(x) => {
                proof {
                    lemma_tree_measures(x);
                }
                let hit = any_sel_match(sels, &x, ctx);
                if hit {
                    if count < i32::MAX {
                        count = count + 1;
                    }
                    proof {
                        seen = seen + 1;
                    }
                }
                sib = if from_end {
                    x.next_sibling_element()
                } else {
                    x.prev_sibling_element()
                };
            },
        }
    }
}

/// `matches` for each selector of a slice: some selector matches.
fn any_sel_match<E: Element>(sels: &[Selector], el: &E, ctx: &mut MatchingContext) -> (r: bool)
    requires
        element_laws::<E>(),
    ensures
        r == spec_any_sel_match(sels@, *el),
        ctx_same(*old(ctx), *final(ctx)),
    decreases sels@, 0nat, 0nat,
{
    proof {
        lemma_kept_refl::<E>(*ctx);
    }
    if sels.len() == 0 {
        return false;
    }
    if sel_match(&sels[0], el, ctx) {
        return true;
    }
    let rest = vstd::slice::slice_subrange(sels, 1, sels.len());
    proof {
        assert(rest@ =~= sels@.drop_first());
    }
    any_sel_match(rest, el, ctx)
}

/// `matches` without a context: required state, then the components.
fn sel_match<E: Element>(sel: &Selector, el: &E, ctx: &mut MatchingContext) -> (r: bool)
    requires
        element_laws::<E>(),
    ensures
        r == spec_sel_match(*sel, *el),
        ctx_same(*old(ctx), *final(ctx)),
    decreases sel, 0nat, 0nat,
{
    proof {
        lemma_kept_refl::<E>(*ctx);
    }
    if !el.state().contains(sel.hint.required_state) {
        return false;
    }
    matches_components(sel.comps.as_slice(), el, None, ctx, false)
}

/// Components right to left.
fn matches_components<E: Element>(
    comps: &[Component],
    el: &E,
    bloom: Option<&AncestorBloom>,
    ctx: &mut MatchingContext,
    use_ctx: bool,
) -> (r: bool)
    requires
        element_laws::<E>(),
        bloom_wf(bloom),
    ensures
        ctx_trusted::<E>(*old(ctx), use_ctx) ==> r == spec_matches_comps(comps@, *el, bloom_view(bloom), mode_opt(*old(ctx), use_ctx)),
        ctx_kept::<E>(*old(ctx), *final(ctx)),
        !use_ctx ==> ctx_same(*old(ctx), *final(ctx)),
    decreases comps@, 0nat, 0nat,
{
    proof {
        lemma_kept_refl::<E>(*ctx);
    }
    if comps.len() == 0 {
        return true;
    }
    let ghost mode = mode_opt(*old(ctx), use_ctx);
    let ghost bv = bloom_view(bloom);
    let rest = vstd::slice::slice_subrange(comps, 1, comps.len());
    proof {
        assert(rest@ =~= comps@.drop_first());
    }
    match &comps[0] {
        Component::Combinator(cb) => match cb {
            Combinator::Child => match el.parent_element() {
                Some(p) => matches_components(rest, &p, bloom, ctx, use_ctx),
                None => false,
            },
            Combinator::Descendant => {
                match bloom {
                    Some(b) => {
                        if !bloom_might_match(rest, b) {
                            return false;
                        }
                    },
                    None => {},
                }
                let mut anc: Option<E> = el.parent_element();
                loop
                    invariant
                        element_laws::<E>(),
                        bloom_wf(bloom),
                        bv == bloom_view(bloom),
                        mode == mode_opt(*old(ctx), use_ctx),
                        comps@.len() >= 1,
                        comps@[0] == Component::Combinator(Combinator::Descendant),
                        rest@ == comps@.subrange(1, comps@.len() as int),
                        rest@ == comps@.drop_first(),
                        match bv {
                            Some(b) => spec_bloom_ok(rest@, b),
                            None => true,
                        },
                        ctx_trusted::<E>(*old(ctx), use_ctx) ==> spec_descendant(rest@, *el, bv, mode) == match anc {
                            Some(a) => spec_matches_comps(rest@, a, bv, mode) || spec_descendant(
                                rest@,
                                a,
                                bv,
                                mode,
                            ),
                            None => false,
                        },
                        ctx_kept::<E>(*old(ctx), *ctx),
                        !use_ctx ==> ctx_same(*old(ctx), *ctx),
                    decreases match anc {
                        Some(a) => a.spec_depth() + 1,
                        None => 0,
                    },
                {
                    match anc {
                        None => {
                            return false;
                        },
                        Some(a) => {
                            let ghost before = *ctx;
                            let hit = matches_components(rest, &a, bloom, ctx, use_ctx);
                            proof {
                                lemma_kept_trans::<E>(*old(ctx), before, *ctx);
                            }
                            if hit {
                                return true;
                            }
                            proof {
                                lemma_tree_measures(a);
                            }
                            anc = a.parent_element();
                        },
                    }
                }
            },
            Combinator::NextSibling => match el.prev_sibling_element() {
                Some(s) => matches_components(rest, &s, bloom, ctx, use_ctx),
                None => false,
            },
            Combinator::LaterSibling => {
                let mut sib: Option<E> = el.prev_sibling_element();
                loop
                    invariant
                        element_laws::<E>(),
                        bloom_wf(bloom),
                        bv == bloom_view(bloom),
                        mode == mode_opt(*old(ctx), use_ctx),
                        comps@.len() >= 1,
                        comps@[0] == Component::Combinator(Combinator::LaterSibling),
                        rest@ == comps@.subrange(1, comps@.len() as int),
                        rest@ == comps@.drop_first(),
                        ctx_trusted::<E>(*old(ctx), use_ctx) ==> spec_later_sibling(rest@, *el, bv, mode) == match sib {
                            Some(a) => spec_matches_comps(rest@, a, bv, mode)
                                || spec_later_sibling(rest@, a, bv, mode),
                            None => false,
                        },
                        ctx_kept::<E>(*old(ctx), *ctx),
                        !use_ctx ==> ctx_same(*old(ctx), *ctx),
                    decreases match sib {
                        Some(a) => a.spec_preceding() + 1,
                        None => 0,
                    },
                {
                    match sib {
                        None => {
                            return false;
                        },
                        Some(a) => {
                            let ghost before = *ctx;
                            let hit = matches_components(rest, &a, bloom, ctx, use_ctx);
                            proof {
                                lemma_kept_trans::<E>(*old(ctx), before, *ctx);
                            }
                            if hit {
                                return true;
                            }
                            proof {
                                lemma_tree_measures(a);
                            }
                            sib = a.prev_sibling_element();
                        },
                    }
                }
            },
            Combinator::Column => match el.column_element() {
                Some(c) => matches_components(rest, &c, bloom, ctx, use_ctx),
                None => false,
            },
        },
        c => {
            if !matches_simple(c, el, bloom, ctx, use_ctx) {
                return false;
            }
            let ghost mid = *ctx;
            let r = matches_components(rest, el, bloom, ctx, use_ctx);
            proof {
                lemma_kept_trans::<E>(*old(ctx), mid, *ctx);
            }
            r
        },
    }
}


/// Single-component shortcuts of list matching.
fn shortcut<E: Element>(
    c: &Component,
    el: &E,
    bloom: Option<&AncestorBloom>,
    ctx: &mut MatchingContext,
    use_ctx: bool,
) -> (r: bool)
    requires
        element_laws::<E>(),
        bloom_wf(bloom),
    ensures
        ctx_trusted::<E>(*old(ctx), use_ctx) ==> r == spec_shortcut(*c, *el, bloom_view(bloom), mode_opt(*old(ctx), use_ctx)),
        ctx_kept::<E>(*old(ctx), *final(ctx)),
        !use_ctx ==> ctx_same(*old(ctx), *final(ctx)),
    decreases c, 1nat, 0nat,
{
    proof {
        lemma_kept_refl::<E>(*ctx);
    }
    match c {
        Component::Class(cl) => el.has_class(cl),
        Component::Type(n) => el.local_name().same(n),
        Component::Id(i) => opt_atom_is(el.id(), i),
        Component::Universal => true,
        other => matches_simple(other, el, bloom, ctx, use_ctx),
    }
}

/// Every component passes its shortcut test.
fn all_shortcut<E: Element>(
    comps: &[Component],
    el: &E,
    bloom: Option<&AncestorBloom>,
    ctx: &mut MatchingContext,
    use_ctx: bool,
) -> (r: bool)
    requires
        element_laws::<E>(),
        bloom_wf(bloom),
    ensures
        ctx_trusted::<E>(*old(ctx), use_ctx) ==> r == spec_all_shortcut(comps@, *el, bloom_view(bloom), mode_opt(*old(ctx), use_ctx)),
        ctx_kept::<E>(*old(ctx), *final(ctx)),
        !use_ctx ==> ctx_same(*old(ctx), *final(ctx)),
    decreases comps@, 0nat, 0nat,
{
    proof {
        lemma_kept_refl::<E>(*ctx);
    }
    if comps.len() == 0 {
        return true;
    }
    if !shortcut(&comps[0], el, bloom, ctx, use_ctx) {
        return false;
    }
    let rest = vstd::slice::slice_subrange(comps, 1, comps.len());
    proof {
        assert(rest@ =~= comps@.drop_first());
    }
    let ghost mid = *ctx;
    let r = all_shortcut(rest, el, bloom, ctx, use_ctx);
    proof {
        lemma_kept_trans::<E>(*old(ctx), mid, *ctx);
    }
    r
}

/// A `:host()` / `::slotted()` argument (and multi-component `:is()` ones).
fn matches_in_list<E: Element>(
    sel: &Selector,
    el: &E,
    bloom: Option<&AncestorBloom>,
    ctx: &mut MatchingContext,
    use_ctx: bool,
) -> (r: bool)
    requires
        element_laws::<E>(),
        bloom_wf(bloom),
    ensures
        ctx_trusted::<E>(*old(ctx), use_ctx) ==> r == spec_in_list(*sel, *el, bloom_view(bloom), mode_opt(*old(ctx), use_ctx)),
        ctx_kept::<E>(*old(ctx), *final(ctx)),
        !use_ctx ==> ctx_same(*old(ctx), *final(ctx)),
    decreases sel, 0nat, 0nat,
{
    proof {
        lemma_kept_refl::<E>(*ctx);
    }
    if !el.state().contains(sel.hint.required_state) {
        return false;
    }
    if sel.comps.len() == 1 {
        return shortcut(&sel.comps[0], el, bloom, ctx, use_ctx);
    }
    if !sel.hint.deps.has_combinators() {
        return all_shortcut(sel.comps.as_slice(), el, bloom, ctx, use_ctx);
    }
    matches_components(sel.comps.as_slice(), el, bloom, ctx, use_ctx)
}

/// An `:is()` / `:not()` / `:where()` argument.
fn match_sub_selector<E: Element>(
    sel: &Selector,
    el: &E,
    bloom: Option<&AncestorBloom>,
    ctx: &mut MatchingContext,
    use_ctx: bool,
) -> (r: bool)
    requires
        element_laws::<E>(),
        bloom_wf(bloom),
    ensures
        ctx_trusted::<E>(*old(ctx), use_ctx) ==> r == spec_sub(*sel, *el, bloom_view(bloom), mode_opt(*old(ctx), use_ctx)),
        ctx_kept::<E>(*old(ctx), *final(ctx)),
        !use_ctx ==> ctx_same(*old(ctx), *final(ctx)),
    decreases sel, 1nat, 0nat,
{
    proof {
        lemma_kept_refl::<E>(*ctx);
    }
    if sel.comps.len() == 1 {
        return shortcut(&sel.comps[0], el, bloom, ctx, use_ctx);
    }
    matches_in_list(sel, el, bloom, ctx, use_ctx)
}

/// Some `:is()` argument matches.
fn any_sub<E: Element>(
    sels: &[Selector],
    el: &E,
    bloom: Option<&AncestorBloom>,
    ctx: &mut MatchingContext,
    use_ctx: bool,
) -> (r: bool)
    requires
        element_laws::<E>(),
        bloom_wf(bloom),
    ensures
        ctx_trusted::<E>(*old(ctx), use_ctx) ==> r == spec_any_sub(sels@, *el, bloom_view(bloom), mode_opt(*old(ctx), use_ctx)),
        ctx_kept::<E>(*old(ctx), *final(ctx)),
        !use_ctx ==> ctx_same(*old(ctx), *final(ctx)),
    decreases sels@, 0nat, 0nat,
{
    proof {
        lemma_kept_refl::<E>(*ctx);
    }
    if sels.len() == 0 {
        return false;
    }
    if match_sub_selector(&sels[0], el, bloom, ctx, use_ctx) {
        return true;
    }
    let rest = vstd::slice::slice_subrange(sels, 1, sels.len());
    proof {
        assert(rest@ =~= sels@.drop_first());
    }
    let ghost mid = *ctx;
    let r = any_sub(rest, el, bloom, ctx, use_ctx);
    proof {
        lemma_kept_trans::<E>(*old(ctx), mid, *ctx);
    }
    r
}

/// Some `:host()` argument matches.
fn any_in_list<E: Element>(
    sels: &[Selector],
    el: &E,
    bloom: Option<&AncestorBloom>,
    ctx: &mut MatchingContext,
    use_ctx: bool,
) -> (r: bool)
    requires
        element_laws::<E>(),
        bloom_wf(bloom),
    ensures
        ctx_trusted::<E>(*old(ctx), use_ctx) ==> r == spec_any_in_list(sels@, *el, bloom_view(bloom), mode_opt(*old(ctx), use_ctx)),
        ctx_kept::<E>(*old(ctx), *final(ctx)),
        !use_ctx ==> ctx_same(*old(ctx), *final(ctx)),
    decreases sels@, 0nat, 0nat,
{
    proof {
        lemma_kept_refl::<E>(*ctx);
    }
    if sels.len() == 0 {
        return false;
    }
    if matches_in_list(&sels[0], el, bloom, ctx, use_ctx) {
        return true;
    }
    let rest = vstd::slice::slice_subrange(sels, 1, sels.len());
    proof {
        assert(rest@ =~= sels@.drop_first());
    }
    let ghost mid = *ctx;
    let r = any_in_list(rest, el, bloom, ctx, use_ctx);
    proof {
        lemma_kept_trans::<E>(*old(ctx), mid, *ctx);
    }
    r
}

/// Some component matches (flattened `:is()`).
fn any_simple<E: Element>(
    comps: &[Component],
    el: &E,
    bloom: Option<&AncestorBloom>,
    ctx: &mut MatchingContext,
    use_ctx: bool,
) -> (r: bool)
    requires
        element_laws::<E>(),
        bloom_wf(bloom),
    ensures
        ctx_trusted::<E>(*old(ctx), use_ctx) ==> r == spec_any_simple(comps@, *el, bloom_view(bloom), mode_opt(*old(ctx), use_ctx)),
        ctx_kept::<E>(*old(ctx), *final(ctx)),
        !use_ctx ==> ctx_same(*old(ctx), *final(ctx)),
    decreases comps@, 0nat, 0nat,
{
    proof {
        lemma_kept_refl::<E>(*ctx);
    }
    if comps.len() == 0 {
        return false;
    }
    if matches_simple(&comps[0], el, bloom, ctx, use_ctx) {
        return true;
    }
    let rest = vstd::slice::slice_subrange(comps, 1, comps.len());
    proof {
        assert(rest@ =~= comps@.drop_first());
    }
    let ghost mid = *ctx;
    let r = any_simple(rest, el, bloom, ctx, use_ctx);
    proof {
        lemma_kept_trans::<E>(*old(ctx), mid, *ctx);
    }
    r
}

/// `:host-context()` walk: the element, then its ancestors across shadow
/// boundaries.
fn host_context<E: Element>(
    sels: &[Selector],
    el: &E,
    bloom: Option<&AncestorBloom>,
    ctx: &mut MatchingContext,
    use_ctx: bool,
) -> (r: bool)
    requires
        element_laws::<E>(),
        bloom_wf(bloom),
    ensures
        ctx_trusted::<E>(*old(ctx), use_ctx) ==> r == spec_host_context(sels@, *el, bloom_view(bloom), mode_opt(*old(ctx), use_ctx)),
        ctx_kept::<E>(*old(ctx), *final(ctx)),
        !use_ctx ==> ctx_same(*old(ctx), *final(ctx)),
    decreases sels@, el.spec_depth() + 1, 0nat,
{
    proof {
        lemma_kept_refl::<E>(*ctx);
        lemma_tree_measures(*el);
    }
    if any_in_list(sels, el, bloom, ctx, use_ctx) {
        return true;
    }
    let ghost mid = *ctx;
    let next = match el.parent_element() {
        Some(p) => Some(p),
        None => el.containing_shadow_host(),
    };
    match next {
        Some(n) => {
            let r = host_context(sels, &n, bloom, ctx, use_ctx);
            proof {
                lemma_kept_trans::<E>(*old(ctx), mid, *ctx);
            }
            r
        },
        None => false,
    }
}

/// A descendant of `el` matches `sel`.
fn has_matching_descendant<E: Element>(sel: &Selector, el: &E, ctx: &mut MatchingContext) -> (r: bool)
    requires
        element_laws::<E>(),
    ensures
        r == spec_subtree_match(*sel, *el),
        ctx_same(*old(ctx), *final(ctx)),
    decreases sel, 2 * el.spec_height() + 2, 0nat,
{
    proof {
        lemma_kept_refl::<E>(*ctx);
    }
    proof {
        lemma_tree_measures(*el);
    }
    let mut c: Option<E> = el.first_child_element();
    loop
        invariant
            element_laws::<E>(),
            spec_subtree_match(*sel, *el) == spec_subtree_children(*sel, *el, c),
            c matches Some(x) ==> x.spec_height() < el.spec_height(),
            ctx_same(*old(ctx), *ctx),
        decreases match c {
            Some(x) => x.spec_following() + 1,
            None => 0,
        },
    {
        match c {
            None => {
                return false;
            },
            Some(x) => {
                proof {
                    lemma_tree_measures(x);
                }
                if sel_match(sel, &x, ctx) {
                    return true;
                }
                if has_matching_descendant(sel, &x, ctx) {
                    return true;
                }
                c = x.next_sibling_element();
            },
        }
    }
}

/// One relative selector of `:has()`.
fn relative<E: Element>(rel: &RelativeSelector, el: &E, ctx: &mut MatchingContext) -> (r: bool)
    requires
        element_laws::<E>(),
    ensures
        r == spec_relative(*rel, *el),
        ctx_same(*old(ctx), *final(ctx)),
    decreases rel, 0nat, 0nat,
{
    proof {
        lemma_kept_refl::<E>(*ctx);
    }
    match rel.traversal {
        HasTraversal::Children => {
            let mut c: Option<E> = el.first_child_element();
            loop
                invariant
                    element_laws::<E>(),
                    spec_relative(*rel, *el) == spec_children_match(rel.selector, *el, c),
                    rel.traversal == HasTraversal::Children,
                    ctx_same(*old(ctx), *ctx),
                decreases match c {
                    Some(x) => x.spec_following() + 1,
                    None => 0,
                },
            {
                match c {
                    None => {
                        return false;
                    },
                    Some(x) => {
                        proof {
                            lemma_tree_measures(x);
                        }
                        if sel_match(&rel.selector, &x, ctx) {
                            return true;
                        }
                        c = x.next_sibling_element();
                    },
                }
            }
        },
        HasTraversal::Subtree => has_matching_descendant(&rel.selector, el, ctx),
        HasTraversal::NextSibling => match el.next_sibling_element() {
            Some(n) => sel_match(&rel.selector, &n, ctx),
            None => false,
        },
        HasTraversal::Siblings => {
            let mut c: Option<E> = el.next_sibling_element();
            loop
                invariant
                    element_laws::<E>(),
                    spec_relative(*rel, *el) == spec_siblings_match(rel.selector, c),
                    rel.traversal == HasTraversal::Siblings,
                    ctx_same(*old(ctx), *ctx),
                decreases match c {
                    Some(x) => x.spec_following() + 1,
                    None => 0,
                },
            {
                match c {
                    None => {
                        return false;
                    },
                    Some(x) => {
                        proof {
                            lemma_tree_measures(x);
                        }
                        if sel_match(&rel.selector, &x, ctx) {
                            return true;
                        }
                        c = x.next_sibling_element();
                    },
                }
            }
        },
    }
}

/// Some relative selector matches.
fn any_relative<E: Element>(rels: &[RelativeSelector], el: &E, ctx: &mut MatchingContext) -> (r:
    bool)
    requires
        element_laws::<E>(),
    ensures
        r == spec_any_relative(rels@, *el),
        ctx_same(*old(ctx), *final(ctx)),
    decreases rels@, 0nat, 0nat,
{
    proof {
        lemma_kept_refl::<E>(*ctx);
    }
    if rels.len() == 0 {
        return false;
    }
    if relative(&rels[0], el, ctx) {
        return true;
    }
    let rest = vstd::slice::slice_subrange(rels, 1, rels.len());
    proof {
        assert(rest@ =~= rels@.drop_first());
    }
    any_relative(rest, el, ctx)
}

/// `:has()` without the cache.
fn matches_has_uncached<E: Element>(rl: &RelativeSelectorList, el: &E, ctx: &mut MatchingContext) -> (r:
    bool)
    requires
        element_laws::<E>(),
    ensures
        r == spec_has(*rl, *el),
        ctx_same(*old(ctx), *final(ctx)),
    decreases rl, 0nat, 0nat,
{
    any_relative(rl.selectors.as_slice(), el, ctx)
}

/// `:nth-child()` / `:nth-last-child()`.
fn matches_nth<E: Element>(
    nth: &NthData,
    el: &E,
    from_end: bool,
    ctx: &mut MatchingContext,
    use_ctx: bool,
) -> (r: bool)
    requires
        element_laws::<E>(),
    ensures
        ctx_trusted::<E>(*old(ctx), use_ctx) ==> r == spec_nth(*nth, *el, from_end),
        ctx_kept::<E>(*old(ctx), *final(ctx)),
        !use_ctx ==> ctx_same(*old(ctx), *final(ctx)),
    decreases nth, 0nat, 0nat,
{
    proof {
        lemma_kept_refl::<E>(*ctx);
    }
    match &nth.of_selector {
        None => {
            note_flag(ctx, use_ctx, ElementSelectorFlags::HAS_SLOW_SELECTOR_NTH);
            let ghost mid = *ctx;
            let idx = cached_pos(el, false, from_end, ctx, use_ctx);
            proof {
                lemma_kept_trans::<E>(*old(ctx), mid, *ctx);
            }
            nth.matches_index(idx)
        },
        Some(of) => {
            note_flag(ctx, use_ctx, ElementSelectorFlags::HAS_SLOW_SELECTOR_NTH_OF);
            let ghost mid = *ctx;
            if !any_sel_match(of.0.as_slice(), el, ctx) {
                return false;
            }
            let idx = nth_filtered_index_compute(of.0.as_slice(), el, from_end, ctx);
            proof {
                lemma_kept_refl::<E>(mid);
            }
            nth.matches_index(idx)
        },
    }
}

/// One simple selector.
fn matches_simple<E: Element>(
    c: &Component,
    el: &E,
    bloom: Option<&AncestorBloom>,
    ctx: &mut MatchingContext,
    use_ctx: bool,
) -> (r: bool)
    requires
        element_laws::<E>(),
        bloom_wf(bloom),
    ensures
        ctx_trusted::<E>(*old(ctx), use_ctx) ==> r == spec_simple(*c, *el, bloom_view(bloom), mode_opt(*old(ctx), use_ctx)),
        ctx_kept::<E>(*old(ctx), *final(ctx)),
        !use_ctx ==> ctx_same(*old(ctx), *final(ctx)),
    decreases c, 0nat, 0nat,
{
    proof {
        lemma_kept_refl::<E>(*ctx);
    }
    match c {
        Component::Universal => true,
        Component::Type(n) => el.local_name().same(n),
        Component::Id(i) => opt_atom_is(el.id(), i),
        Component::Namespace(ns) => match ns {
            NamespaceConstraint::Any => true,
            NamespaceConstraint::NoNamespace => el.namespace().is_none(),
            NamespaceConstraint::Specific(u) => opt_atom_is(el.namespace(), u),
        },
        Component::Class(cl) => match_class(cl, el, ctx, use_ctx),
        Component::Attribute(a) => a.matches(el.attr(&a.name)),
        Component::PseudoClass(pc) => matches_pseudo_class(*pc, el, ctx, use_ctx),
        Component::PseudoElement(_) => true,
        Component::Negation(list) => !any_sub(list.0.as_slice(), el, bloom, ctx, use_ctx),
        Component::Is(list) => any_sub(list.0.as_slice(), el, bloom, ctx, use_ctx),
        Component::Where(list) => any_sub(list.0.as_slice(), el, bloom, ctx, use_ctx),
        Component::IsSingle(cs) => any_simple(cs.as_slice(), el, bloom, ctx, use_ctx),
        Component::WhereSingle(cs) => any_simple(cs.as_slice(), el, bloom, ctx, use_ctx),
        Component::NotSingle(cs) => !any_simple(cs.as_slice(), el, bloom, ctx, use_ctx),
        Component::Has(rl) => {
            note_flag(ctx, use_ctx, ElementSelectorFlags::ANCHORS_RELATIVE_SELECTOR);
            let ghost mid = *ctx;
            let r = matches_has_uncached(rl, el, ctx);
            proof {
                lemma_kept_refl::<E>(mid);
            }
            r
        },
        Component::NthChild(nth) => matches_nth(nth, el, false, ctx, use_ctx),
        Component::NthLastChild(nth) => matches_nth(nth, el, true, ctx, use_ctx),
        Component::NthOfType(a, b) => {
            note_flag(ctx, use_ctx, ElementSelectorFlags::HAS_SLOW_SELECTOR_NTH);
            let ghost mid = *ctx;
            let idx = cached_pos(el, true, false, ctx, use_ctx);
            proof {
                lemma_kept_trans::<E>(*old(ctx), mid, *ctx);
            }
            NthData::formula(*a, *b, idx)
        },
        Component::NthLastOfType(a, b) => {
            note_flag(ctx, use_ctx, ElementSelectorFlags::HAS_SLOW_SELECTOR_NTH);
            let ghost mid = *ctx;
            let idx = cached_pos(el, true, true, ctx, use_ctx);
            proof {
                lemma_kept_trans::<E>(*old(ctx), mid, *ctx);
            }
            NthData::formula(*a, *b, idx)
        },
        Component::Lang(langs) => {
            let lang_attr = Atom::from("lang");
            proof {
                reveal_strlit("lang");
                assert(lang_attr@ =~= lang_name());
            }
            matches_lang(langs.as_slice(), el, &lang_attr)
        },
        Component::Dir(d) => {
            let ed = el.direction();
            match (ed, *d) {
                (crate::types::Direction::Ltr, crate::types::Direction::Ltr) => true,
                (crate::types::Direction::Rtl, crate::types::Direction::Rtl) => true,
                _ => false,
            }
        },
        Component::Nesting => match_scope(el, ctx, use_ctx),
        Component::State(n) => el.has_custom_state(n),
        Component::Host => el.is_shadow_host(),
        Component::HostFunction(list) => {
            el.is_shadow_host() && any_in_list(list.0.as_slice(), el, bloom, ctx, use_ctx)
        },
        Component::HostContext(list) => {
            el.is_shadow_host() && host_context(list.0.as_slice(), el, bloom, ctx, use_ctx)
        },
        Component::Slotted(list) => {
            el.is_in_slot() && any_in_list(list.0.as_slice(), el, bloom, ctx, use_ctx)
        },
        Component::Part(parts) => {
            let mut i: usize = 0;
            while i < parts.len()
                invariant
                    element_laws::<E>(),
                    i <= parts@.len(),
                    *c == Component::Part(*parts),
                    ctx_kept::<E>(*old(ctx), *ctx),
                    !use_ctx ==> ctx_same(*old(ctx), *ctx),
                    forall|k: int| 0 <= k < i ==> el.spec_is_part(#[trigger] parts@[k]@),
                decreases parts@.len() - i,
            {
                if !el.is_part(&parts[i]) {
                    proof {
                        let k = i as int;
                        assert(!el.spec_is_part(parts@[k]@));
                        assert(!spec_all_parts(*el, parts@));
                    }
                    return false;
                }
                i = i + 1;
            }
            true
        },
        Component::Highlight(_) => true,
        Component::Combinator(_) => false,
    }
}


/// Returns `true` if the selector matches the element, with no context.
pub fn matches<E: Element>(selector: &Selector, element: &E) -> (r: bool)
    requires
        element_laws::<E>(),
    ensures
        r == spec_sel_match(*selector, *element),
{
    let mut caches = SelectorCaches::new();
    let mut ctx = MatchingContext::new(&mut caches);
    sel_match(selector, element, &mut ctx)
}

/// Returns `true` if the selector matches, using a Bloom filter to prune
/// descendant walks.
pub fn matches_with_bloom<E: Element>(
    selector: &Selector,
    element: &E,
    bloom: &AncestorBloom,
) -> (r: bool)
    requires
        element_laws::<E>(),
        bloom.wf(),
    ensures
        r == (state_has(*element, selector.hint.required_state.0) && spec_matches_comps(
            selector.comps@,
            *element,
            Some(bloom@),
            None,
        )),
{
    if !element.state().contains(selector.hint.required_state) {
        return false;
    }
    let mut caches = SelectorCaches::new();
    let mut ctx = MatchingContext::new(&mut caches);
    matches_components(selector.comps.as_slice(), element, Some(bloom), &mut ctx, false)
}

/// Full-featured matching with a `MatchingContext`: its Bloom filter,
/// `:scope` element, `:visited` policy and quirks mode take part, and the
/// selector flags met on the way are recorded.
pub fn matches_in_context<E: Element>(
    selector: &Selector,
    element: &E,
    ctx: &mut MatchingContext,
) -> (r: bool)
    requires
        element_laws::<E>(),
        bloom_wf(old(ctx).bloom_filter),
    ensures
        caches_coherent::<E>(*old(ctx).caches) ==> r == (state_has(
            *element,
            selector.hint.required_state.0,
        ) && spec_matches_comps(
            selector.comps@,
            *element,
            bloom_view(old(ctx).bloom_filter),
            Some(mode_of(*old(ctx))),
        )),
        ctx_kept::<E>(*old(ctx), *final(ctx)),
{
    proof {
        lemma_kept_refl::<E>(*ctx);
    }
    if !element.state().contains(selector.hint.required_state) {
        return false;
    }
    let bloom = ctx.bloom_filter;
    matches_components(selector.comps.as_slice(), element, bloom, ctx, true)
}

/// The larger of two specificities.
pub open spec fn spec_max_specificity(a: Specificity, b: Specificity) -> Specificity {
    if a.0 >= b.0 {
        a
    } else {
        b
    }
}

/// The highest specificity among the selectors of `sels` that match, folded
/// from `best`.
pub open spec fn spec_best_match<E: Element>(
    sels: Seq<Selector>,
    el: E,
    best: Option<Specificity>,
) -> Option<Specificity>
    decreases sels.len(),
{
    if sels.len() == 0 {
        best
    } else {
        let next = if spec_sel_match(sels[0], el) {
            Some(
                match best {
                    Some(prev) => spec_max_specificity(sels[0].spec, prev),
                    None => sels[0].spec,
                },
            )
        } else {
            best
        };
        spec_best_match(sels.drop_first(), el, next)
    }
}

/// Folding from `best`: the result is `Some` exactly when `best` is or some
/// selector matches; it is `best` or the specificity of a matching selector,
/// and it is at least `best` and every matching selector's specificity.
proof fn lemma_best_match_from<E: Element>(
    sels: Seq<Selector>,
    el: E,
    best: Option<Specificity>,
)
    ensures
        spec_best_match(sels, el, best) is Some <==> (best is Some || exists|i: int|
            0 <= i < sels.len() && spec_sel_match(#[trigger] sels[i], el)),
        spec_best_match(sels, el, best) matches Some(s) ==> (best == Some(s) || exists|i: int|
            0 <= i < sels.len() && spec_sel_match(#[trigger] sels[i], el) && sels[i].spec == s),
        spec_best_match(sels, el, best) matches Some(s) ==> (best matches Some(b) ==> s.0 >= b.0),
        spec_best_match(sels, el, best) matches Some(s) ==> forall|i: int|
            0 <= i < sels.len() && spec_sel_match(#[trigger] sels[i], el) ==> s.0 >= sels[i].spec.0,
    decreases sels.len(),
{
    if sels.len() > 0 {
        let next = if spec_sel_match(sels[0], el) {
            Some(
                match best {
                    Some(prev) => spec_max_specificity(sels[0].spec, prev),
                    None => sels[0].spec,
                },
            )
        } else {
            best
        };
        let rest = sels.drop_first();
        lemma_best_match_from(rest, el, next);
        assert forall|j: int| 0 <= j < rest.len() implies #[trigger] rest[j] == sels[j + 1] by {}
        if exists|i: int| 0 <= i < sels.len() && spec_sel_match(#[trigger] sels[i], el) {
            let i = choose|i: int| 0 <= i < sels.len() && spec_sel_match(#[trigger] sels[i], el);
            if i > 0 {
                assert(spec_sel_match(rest[i - 1], el));
            }
        }
        if exists|j: int| 0 <= j < rest.len() && spec_sel_match(#[trigger] rest[j], el) {
            let j = choose|j: int| 0 <= j < rest.len() && spec_sel_match(#[trigger] rest[j], el);
            assert(spec_sel_match(sels[j + 1], el));
        }
        if spec_best_match(sels, el, best) is Some {
            let s = spec_best_match(sels, el, best)->0;
            if exists|j: int|
                0 <= j < rest.len() && spec_sel_match(#[trigger] rest[j], el) && rest[j].spec == s {
                let j = choose|j: int|
                    0 <= j < rest.len() && spec_sel_match(#[trigger] rest[j], el) && rest[j].spec
                        == s;
                assert(spec_sel_match(sels[j + 1], el) && sels[j + 1].spec == s);
            }
            assert forall|i: int|
                0 <= i < sels.len() && spec_sel_match(#[trigger] sels[i], el) implies s.0
                >= sels[i].spec.0 by {
                if i > 0 {
                    assert(spec_sel_match(rest[i - 1], el));
                }
            }
        }
    }
}

/// The best match of a list is its heaviest matching selector: it is
/// `Some` exactly when some selector of the list matches, it is then the
/// specificity of a matching selector, and no matching selector has a
/// higher specificity.
pub proof fn lemma_best_match_is_heaviest<E: Element>(sels: Seq<Selector>, el: E)
    ensures
        spec_best_match(sels, el, None) is Some <==> exists|i: int|
            0 <= i < sels.len() && spec_sel_match(#[trigger] sels[i], el),
        spec_best_match(sels, el, None) matches Some(s) ==> exists|i: int|
            0 <= i < sels.len() && spec_sel_match(#[trigger] sels[i], el) && sels[i].spec == s,
        spec_best_match(sels, el, None) matches Some(s) ==> forall|i: int|
            0 <= i < sels.len() && spec_sel_match(#[trigger] sels[i], el) ==> s.0 >= sels[i].spec.0,
{
    lemma_best_match_from(sels, el, None);
}

/// Returns the highest specificity of any matching selector in the list,
/// or `None` when none matches.
pub fn matches_selector_list<E: Element>(list: &SelectorList, element: &E) -> (r: Option<
    Specificity,
>)
    requires
        element_laws::<E>(),
    ensures
        r == spec_best_match(list.0@, *element, None),
        r is Some <==> exists|i: int|
            0 <= i < list.0@.len() && spec_sel_match(#[trigger] list.0@[i], *element),
        r matches Some(s) ==> exists|i: int|
            0 <= i < list.0@.len() && spec_sel_match(#[trigger] list.0@[i], *element)
                && list.0@[i].spec == s,
        r matches Some(s) ==> forall|i: int|
            0 <= i < list.0@.len() && spec_sel_match(#[trigger] list.0@[i], *element) ==> s.0
                >= list.0@[i].spec.0,
{
    let mut best: Option<Specificity> = None;
    let mut i: usize = 0;
    proof {
        assert(list.0@.skip(0) =~= list.0@);
    }
    while i < list.0.len()
        invariant
            element_laws::<E>(),
            i <= list.0@.len(),
            spec_best_match(list.0@, *element, None) == spec_best_match(
                list.0@.skip(i as int),
                *element,
                best,
            ),
        decreases list.0@.len() - i,
    {
        let sel = &list.0[i];
        proof {
            assert(list.0@.skip(i as int).drop_first() =~= list.0@.skip(i as int + 1));
        }
        if matches(sel, element) {
            let spec = sel.specificity();
            best = Some(
                match best {
                    Some(prev) => spec.max(prev),
                    None => spec,
                },
            );
        }
        i = i + 1;
    }
    proof {
        assert(list.0@.skip(i as int) =~= Seq::<Selector>::empty());
        lemma_best_match_is_heaviest(list.0@, *element);
    }
    best
}

} // verus!
