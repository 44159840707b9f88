//! The shape of a complex selector: compounds separated by single
//! combinators, with every argument selector of a functional pseudo-class
//! shaped the same way.

use vstd::prelude::*;
use crate::types::{Component, Selector, is_combinator};

verus! {

/// The argument selectors of a component, if any, are shaped.
pub open spec fn nested_ok(c: Component) -> bool
    decreases c, 0nat,
{
    match c {
        Component::Negation(l) => all_shaped(l.0@),
        Component::Is(l) => all_shaped(l.0@),
        Component::Where(l) => all_shaped(l.0@),
        Component::HostFunction(l) => all_shaped(l.0@),
        Component::HostContext(l) => all_shaped(l.0@),
        Component::Slotted(l) => all_shaped(l.0@),
        Component::IsSingle(v) => forall|i: int| 0 <= i < v@.len() ==> simple_ok(#[trigger] v@[i]),
        Component::NotSingle(v) => forall|i: int| 0 <= i < v@.len() ==> simple_ok(#[trigger] v@[i]),
        Component::WhereSingle(v) => forall|i: int|
            0 <= i < v@.len() ==> simple_ok(#[trigger] v@[i]),
        Component::Has(rl) => forall|i: int|
            0 <= i < rl.selectors@.len() ==> sel_shaped(#[trigger] rl.selectors@[i].selector),
        Component::NthChild(n) => match n.of_selector {
            Some(l) => all_shaped(l.0@),
            None => true,
        },
        Component::NthLastChild(n) => match n.of_selector {
            Some(l) => all_shaped(l.0@),
            None => true,
        },
        _ => true,
    }
}

/// A simple selector: not a combinator, with shaped arguments.
pub open spec fn simple_ok(c: Component) -> bool
    decreases c, 1nat,
{
    !is_combinator(c) && nested_ok(c)
}

/// Every selector of a list is shaped.
pub open spec fn all_shaped(sels: Seq<Selector>) -> bool
    decreases sels, 0nat,
{
    forall|i: int| 0 <= i < sels.len() ==> sel_shaped(#[trigger] sels[i])
}

/// A selector is shaped when its components are.
pub open spec fn sel_shaped(sel: Selector) -> bool
    decreases sel, 0nat,
{
    comps_shaped(sel.comps@)
}

/// At least one component, no combinator at either end, no combinator
/// next to another, and every other component simple.
pub open spec fn comps_shaped(s: Seq<Component>) -> bool
    decreases s, 0nat,
{
    &&& s.len() > 0
    &&& !is_combinator(s[0])
    &&& !is_combinator(s[s.len() - 1])
    &&& forall|i: int, j: int|
        0 <= i && j == i + 1 && j < s.len() && is_combinator(#[trigger] s[i]) ==> !is_combinator(
            #[trigger] s[j],
        )
    &&& forall|i: int| 0 <= i < s.len() && !is_combinator(#[trigger] s[i]) ==> nested_ok(s[i])
}

/// A parsed top-level selector is shaped, unless an empty `:is()` or
/// `:where()` emptied it.
pub open spec fn shape_law(sel: Selector) -> bool {
    sel.comps@.len() > 0 ==> sel_shaped(sel)
}

/// Reading the components the other way round keeps the shape.
pub proof fn lemma_shaped_reverse(s: Seq<Component>)
    requires
        comps_shaped(s),
    ensures
        comps_shaped(s.reverse()),
{
    let r = s.reverse();
    let n = s.len();
    assert(r[0] == s[n - 1]);
    assert(r[n - 1] == s[0]);
    assert forall|i: int, j: int|
        0 <= i && j == i + 1 && j < r.len() && is_combinator(#[trigger] r[i]) implies !is_combinator(
        #[trigger] r[j],
    ) by {
        assert(r[i] == s[n - 1 - i]);
        assert(r[j] == s[n - 1 - j]);
        let a = n - 1 - j;
        let b = n - 1 - i;
        assert(b == a + 1);
        if is_combinator(s[a]) {
            assert(!is_combinator(s[b]));
        }
    }
    assert forall|i: int| 0 <= i < r.len() && !is_combinator(#[trigger] r[i]) implies nested_ok(
        r[i],
    ) by {
        assert(r[i] == s[n - 1 - i]);
    }
}

/// A non-empty run of simple components is shaped.
pub proof fn lemma_shaped_simple_run(s: Seq<Component>)
    requires
        s.len() > 0,
        forall|k: int| 0 <= k < s.len() ==> simple_ok(#[trigger] s[k]),
    ensures
        comps_shaped(s),
{
    assert(simple_ok(s[0]));
    assert(simple_ok(s[s.len() - 1]));
    assert forall|i: int, j: int|
        0 <= i && j == i + 1 && j < s.len() && is_combinator(#[trigger] s[i]) implies !is_combinator(
        #[trigger] s[j],
    ) by {
        assert(simple_ok(s[i]));
    }
    assert forall|i: int| 0 <= i < s.len() && !is_combinator(#[trigger] s[i]) implies nested_ok(
        s[i],
    ) by {
        assert(simple_ok(s[i]));
    }
}

/// A shaped sequence, a combinator and a non-empty run of simple
/// components make a shaped sequence.
pub proof fn lemma_shaped_extend(old: Seq<Component>, comb: Component, s: Seq<Component>)
    requires
        comps_shaped(old),
        is_combinator(comb),
        s.len() > old.len() + 1,
        s.subrange(0, old.len() + 1 as int) == old.push(comb),
        forall|k: int| old.len() + 1 <= k < s.len() ==> simple_ok(#[trigger] s[k]),
    ensures
        comps_shaped(s),
{
    let n = old.len() as int;
    assert forall|k: int| 0 <= k < n implies s[k] == old[k] by {
        assert(s.subrange(0, n + 1)[k] == old.push(comb)[k]);
    }
    assert(s[n] == comb) by {
        assert(s.subrange(0, n + 1)[n] == old.push(comb)[n]);
    }
    assert(s[0] == old[0]);
    assert(simple_ok(s[s.len() - 1]));
    assert forall|i: int, j: int|
        0 <= i && j == i + 1 && j < s.len() && is_combinator(#[trigger] s[i]) implies !is_combinator(
        #[trigger] s[j],
    ) by {
        if j < n {
            assert(s[i] == old[i] && s[j] == old[j]);
        } else if j == n {
            assert(s[i] == old[n - 1]);
        } else {
            assert(simple_ok(s[j]));
        }
    }
    assert forall|i: int| 0 <= i < s.len() && !is_combinator(#[trigger] s[i]) implies nested_ok(
        s[i],
    ) by {
        if i < n {
            assert(s[i] == old[i]);
        } else if i > n {
            assert(simple_ok(s[i]));
        }
    }
}

/// The single components of a shaped list of one-component selectors are
/// simple.
pub proof fn lemma_singles_simple(list: Seq<Selector>, singles: Seq<Component>)
    requires
        all_shaped(list),
        list.len() == singles.len(),
        forall|k: int| 0 <= k < list.len() ==> (#[trigger] list[k]).comps@ == seq![singles[k]],
    ensures
        forall|k: int| 0 <= k < singles.len() ==> simple_ok(#[trigger] singles[k]),
{
    assert forall|k: int| 0 <= k < singles.len() implies simple_ok(#[trigger] singles[k]) by {
        assert(sel_shaped(list[k]));
        assert(list[k].comps@ == seq![singles[k]]);
        assert(list[k].comps@[0] == singles[k]);
    }
}

} // verus!
