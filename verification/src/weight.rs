//! Specificity as a function of a selector's components.
//!
//! Selectors Level 4 gives each simple selector a weight in the packed
//! `(a, b, c)` form of [`crate::specificity::Specificity`]: an ID adds
//! `0x1000000` (a), a class, attribute or pseudo-class adds `0x1000` (b),
//! a type or pseudo-element adds `1` (c). `:is()`, `:not()` and `:has()`
//! weigh as much as their heaviest argument, `:where()` weighs nothing,
//! `:nth-child(... of S)`, `:host(S)` and `:host-context(S)` add the
//! heaviest argument to a pseudo-class, and `::slotted(S)` adds it to a
//! pseudo-element.

use vstd::prelude::*;
use crate::types::{Component, RelativeSelector, Selector};

verus! {

/// The larger of two weights.
pub open spec fn wmax(a: int, b: int) -> int {
    if a >= b {
        a
    } else {
        b
    }
}

/// The weight one component adds to the specificity of its selector.
pub open spec fn comp_weight(c: Component) -> int
    decreases c,
{
    match c {
        Component::Id(_) => 0x1000000,
        Component::Class(_) => 0x1000,
        Component::Attribute(_) => 0x1000,
        Component::PseudoClass(_) => 0x1000,
        Component::NthOfType(_, _) => 0x1000,
        Component::NthLastOfType(_, _) => 0x1000,
        Component::Lang(_) => 0x1000,
        Component::Dir(_) => 0x1000,
        Component::State(_) => 0x1000,
        Component::Host => 0x1000,
        Component::Nesting => 0x1000,
        Component::Type(_) => 1,
        Component::PseudoElement(_) => 1,
        Component::Part(_) => 1,
        Component::Highlight(_) => 1,
        Component::Negation(l) => max_weight(l.0@),
        Component::Is(l) => max_weight(l.0@),
        Component::NotSingle(v) => singles_max(v@),
        Component::IsSingle(v) => singles_max(v@),
        Component::Where(_) => 0,
        Component::WhereSingle(_) => 0,
        Component::Has(rl) => rel_max(rl.selectors@),
        Component::NthChild(n) => 0x1000 + match n.of_selector {
            Some(l) => max_weight(l.0@),
            None => 0,
        },
        Component::NthLastChild(n) => 0x1000 + match n.of_selector {
            Some(l) => max_weight(l.0@),
            None => 0,
        },
        Component::HostFunction(l) => 0x1000 + max_weight(l.0@),
        Component::HostContext(l) => 0x1000 + max_weight(l.0@),
        Component::Slotted(l) => 1 + max_weight(l.0@),
        Component::Universal => 0,
        Component::Namespace(_) => 0,
        Component::Combinator(_) => 0,
    }
}

/// The total weight of a sequence of components.
pub open spec fn comps_weight(comps: Seq<Component>) -> int
    decreases comps,
{
    if comps.len() == 0 {
        0
    } else {
        comp_weight(comps[0]) + comps_weight(comps.drop_first())
    }
}

/// The weight of a selector: that of its components.
pub open spec fn sel_weight(sel: Selector) -> int
    decreases sel,
{
    comps_weight(sel.comps@)
}

/// The heaviest selector of a list (0 for an empty list).
pub open spec fn max_weight(sels: Seq<Selector>) -> int
    decreases sels,
{
    if sels.len() == 0 {
        0
    } else {
        wmax(sel_weight(sels[0]), max_weight(sels.drop_first()))
    }
}

/// The heaviest component of a list of single-component arguments.
pub open spec fn singles_max(comps: Seq<Component>) -> int
    decreases comps,
{
    if comps.len() == 0 {
        0
    } else {
        wmax(comp_weight(comps[0]), singles_max(comps.drop_first()))
    }
}

/// The heaviest selector of a `:has()` argument list.
pub open spec fn rel_max(rels: Seq<RelativeSelector>) -> int
    decreases rels,
{
    if rels.len() == 0 {
        0
    } else {
        wmax(sel_weight(rels[0].selector), rel_max(rels.drop_first()))
    }
}

/// The stored specificity of `sel` is the weight of its components.
pub open spec fn weight_ok(sel: Selector) -> bool {
    sel.spec.0 == sel_weight(sel)
}

/// Every selector of `sels` stores the weight of its components.
pub open spec fn all_weight_ok(sels: Seq<Selector>) -> bool {
    forall|k: int| 0 <= k < sels.len() ==> weight_ok(#[trigger] sels[k])
}

/// A parsed top-level selector: its stored specificity is the weight of its
/// components, unless an empty `:is()` or `:where()` emptied them.
pub open spec fn specificity_law(sel: Selector) -> bool {
    sel.comps@.len() > 0 ==> weight_ok(sel)
}

/// The weight of a concatenation is the sum of the weights.
pub proof fn lemma_weight_concat(a: Seq<Component>, b: Seq<Component>)
    ensures
        comps_weight(a + b) == comps_weight(a) + comps_weight(b),
    decreases a.len(),
{
    if a.len() == 0 {
        assert(a + b =~= b);
    } else {
        assert((a + b).drop_first() =~= a.drop_first() + b);
        lemma_weight_concat(a.drop_first(), b);
    }
}

/// Appending a component adds its weight.
pub proof fn lemma_weight_push(s: Seq<Component>, c: Component)
    ensures
        comps_weight(s.push(c)) == comps_weight(s) + comp_weight(c),
{
    lemma_weight_concat(s, seq![c]);
    assert(s + seq![c] =~= s.push(c));
    lemma_weight_single(c);
}

/// Removing a component subtracts its weight.
pub proof fn lemma_weight_remove(s: Seq<Component>, i: int)
    requires
        0 <= i < s.len(),
    ensures
        comps_weight(s.remove(i)) == comps_weight(s) - comp_weight(s[i]),
{
    let pre = s.take(i);
    let post = s.skip(i + 1);
    assert(s =~= pre + seq![s[i]] + post);
    assert(s.remove(i) =~= pre + post);
    lemma_weight_concat(pre + seq![s[i]], post);
    lemma_weight_concat(pre, post);
    lemma_weight_push(pre, s[i]);
    assert(pre + seq![s[i]] =~= pre.push(s[i]));
}

/// Reversing the components keeps their weight.
pub proof fn lemma_weight_reverse(s: Seq<Component>)
    ensures
        comps_weight(s.reverse()) == comps_weight(s),
    decreases s.len(),
{
    if s.len() > 0 {
        let rest = s.drop_first();
        assert(s.reverse() =~= rest.reverse().push(s[0]));
        lemma_weight_reverse(rest);
        lemma_weight_push(rest.reverse(), s[0]);
    } else {
        assert(s.reverse() =~= s);
    }
}

/// A single component weighs what it adds.
pub proof fn lemma_weight_single(c: Component)
    ensures
        comps_weight(seq![c]) == comp_weight(c),
{
    let e = Seq::<Component>::empty();
    assert(comps_weight(e) == 0);
    assert(seq![c].drop_first() =~= e);
    assert(seq![c][0] == c);
}

/// A list of one-component selectors weighs as much as its components.
pub proof fn lemma_singles_max(list: Seq<Selector>, singles: Seq<Component>)
    requires
        list.len() == singles.len(),
        forall|k: int| 0 <= k < list.len() ==> (#[trigger] list[k]).comps@ == seq![singles[k]],
    ensures
        max_weight(list) == singles_max(singles),
    decreases list.len(),
{
    if list.len() > 0 {
        lemma_weight_single(singles[0]);
        assert(list[0].comps@ == seq![singles[0]]);
        let l2 = list.drop_first();
        let s2 = singles.drop_first();
        assert forall|k: int| 0 <= k < l2.len() implies (#[trigger] l2[k]).comps@ == seq![s2[k]] by {
            assert(l2[k] == list[k + 1]);
        }
        lemma_singles_max(l2, s2);
        assert(sel_weight(list[0]) == comp_weight(singles[0]));
    }
}

} // verus!
