//! Three-valued (Kleene) logic for selector matching.
//!
//! `Unknown` expresses a result that cannot be decided yet (privacy-limited
//! `:visited`, conservative invalidation). `False` dominates conjunction,
//! `True` dominates disjunction, and negation keeps `Unknown`.

use vstd::prelude::*;

verus! {

/// Three-valued logic: True, False, or Unknown.
#[derive(Debug, Clone, Copy, PartialEq, Eq, Hash, Structural)]
pub enum KleeneValue {
    True,
    False,
    Unknown,
}

/// Kleene negation.
pub open spec fn spec_not(a: KleeneValue) -> KleeneValue {
    match a {
        KleeneValue::True => KleeneValue::False,
        KleeneValue::False => KleeneValue::True,
        KleeneValue::Unknown => KleeneValue::Unknown,
    }
}

/// Kleene conjunction: `False` dominates, `True` only when both are `True`.
pub open spec fn spec_and(a: KleeneValue, b: KleeneValue) -> KleeneValue {
    if a == KleeneValue::False || b == KleeneValue::False {
        KleeneValue::False
    } else if a == KleeneValue::True && b == KleeneValue::True {
        KleeneValue::True
    } else {
        KleeneValue::Unknown
    }
}

/// Kleene disjunction: `True` dominates, `False` only when both are `False`.
pub open spec fn spec_or(a: KleeneValue, b: KleeneValue) -> KleeneValue {
    if a == KleeneValue::True || b == KleeneValue::True {
        KleeneValue::True
    } else if a == KleeneValue::False && b == KleeneValue::False {
        KleeneValue::False
    } else {
        KleeneValue::Unknown
    }
}

/// The Kleene value of a boolean.
pub open spec fn spec_from_bool(b: bool) -> KleeneValue {
    if b {
        KleeneValue::True
    } else {
        KleeneValue::False
    }
}

/// Disjunction of a sequence of values (`False` for the empty sequence).
pub open spec fn spec_any(vals: Seq<KleeneValue>) -> KleeneValue
    decreases vals.len(),
{
    if vals.len() == 0 {
        KleeneValue::False
    } else {
        spec_or(vals[0], spec_any(vals.drop_first()))
    }
}

/// Conjunction of a sequence of values (`True` for the empty sequence).
pub open spec fn spec_all(vals: Seq<KleeneValue>) -> KleeneValue
    decreases vals.len(),
{
    if vals.len() == 0 {
        KleeneValue::True
    } else {
        spec_and(vals[0], spec_all(vals.drop_first()))
    }
}

/// `f` gives one value for each item: every result it may give for an item
/// is the same.
pub open spec fn gives_one_value<T, F: Fn(&T) -> KleeneValue>(f: F, items: Seq<T>) -> bool {
    forall|i: int, v1: KleeneValue, v2: KleeneValue|
        0 <= i < items.len() && call_ensures(f, (&items[i],), v1) && call_ensures(
            f,
            (&items[i],),
            v2,
        ) ==> v1 == v2
}

impl KleeneValue {
    /// Returns `true` only if the value is definitely `True`.
    pub fn is_true(self) -> (r: bool)
        ensures
            r == (self == KleeneValue::True),
    {
        matches!(self, KleeneValue::True)
    }

    /// Returns `true` only if the value is definitely `False`.
    pub fn is_false(self) -> (r: bool)
        ensures
            r == (self == KleeneValue::False),
    {
        matches!(self, KleeneValue::False)
    }

    /// Returns `true` if the value is `Unknown`.
    pub fn is_unknown(self) -> (r: bool)
        ensures
            r == (self == KleeneValue::Unknown),
    {
        matches!(self, KleeneValue::Unknown)
    }

    /// Kleene negation.
    pub fn not(self) -> (r: KleeneValue)
        ensures
            r == spec_not(self),
    {
        match self {
            KleeneValue::True => KleeneValue::False,
            KleeneValue::False => KleeneValue::True,
            KleeneValue::Unknown => KleeneValue::Unknown,
        }
    }

    /// Kleene conjunction.
    pub fn and(self, rhs: KleeneValue) -> (r: KleeneValue)
        ensures
            r == spec_and(self, rhs),
    {
        match (self, rhs) {
            (KleeneValue::False, _) | (_, KleeneValue::False) => KleeneValue::False,
            (KleeneValue::True, KleeneValue::True) => KleeneValue::True,
            _ => KleeneValue::Unknown,
        }
    }

    /// Kleene disjunction.
    pub fn or(self, rhs: KleeneValue) -> (r: KleeneValue)
        ensures
            r == spec_or(self, rhs),
    {
        match (self, rhs) {
            (KleeneValue::True, _) | (_, KleeneValue::True) => KleeneValue::True,
            (KleeneValue::False, KleeneValue::False) => KleeneValue::False,
            _ => KleeneValue::Unknown,
        }
    }

    /// The Kleene value of a boolean.
    pub fn from_bool(b: bool) -> (r: KleeneValue)
        ensures
            r == spec_from_bool(b),
    {
        if b {
            KleeneValue::True
        } else {
            KleeneValue::False
        }
    }

    /// Kleene OR over `items` mapped through `f`: `True` as soon as one item
    /// gives `True`, `False` if every item gives `False`, `Unknown` otherwise.
    pub fn any<T, F: Fn(&T) -> KleeneValue>(items: &[T], f: F) -> (r: KleeneValue)
        requires
            forall|i: int| 0 <= i < items@.len() ==> call_requires(f, (&items@[i],)),
        ensures
            r == KleeneValue::True ==> exists|i: int|
                0 <= i < items@.len() && call_ensures(f, (&items@[i],), KleeneValue::True),
            r == KleeneValue::False ==> forall|i: int|
                0 <= i < items@.len() ==> call_ensures(f, (&items@[i],), KleeneValue::False),
            r == KleeneValue::Unknown ==> (exists|i: int|
                0 <= i < items@.len() && call_ensures(f, (&items@[i],), KleeneValue::Unknown)),
            gives_one_value(f, items@) ==> (r == KleeneValue::True <==> exists|i: int|
                0 <= i < items@.len() && call_ensures(f, (&items@[i],), KleeneValue::True)),
            gives_one_value(f, items@) ==> (r == KleeneValue::False <==> forall|i: int|
                0 <= i < items@.len() ==> call_ensures(f, (&items@[i],), KleeneValue::False)),
    {
        let mut result = KleeneValue::False;
        let mut i: usize = 0;
        while i < items.len()
            invariant
                0 <= i <= items@.len(),
                forall|k: int| 0 <= k < items@.len() ==> call_requires(f, (&items@[k],)),
                result != KleeneValue::True,
                result == KleeneValue::False ==> forall|k: int|
                    0 <= k < i ==> call_ensures(f, (&items@[k],), KleeneValue::False),
                result == KleeneValue::Unknown ==> exists|k: int|
                    0 <= k < i && call_ensures(f, (&items@[k],), KleeneValue::Unknown),
                gives_one_value(f, items@) ==> forall|k: int|
                    0 <= k < i ==> !call_ensures(f, (&items@[k],), KleeneValue::True),
            decreases items@.len() - i,
        {
            let v = f(&items[i]);
            match v {
                KleeneValue::True => {
                    return KleeneValue::True;
                },
                KleeneValue::Unknown => {
                    result = KleeneValue::Unknown;
                },
                KleeneValue::False => {},
            }
            proof {
                let ii = i as int;
                assert(call_ensures(f, (&items@[ii],), v));
            }
            i = i + 1;
        }
        result
    }

    /// Kleene AND over `items` mapped through `f`: `False` as soon as one item
    /// gives `False`, `True` if every item gives `True`, `Unknown` otherwise.
    pub fn all<T, F: Fn(&T) -> KleeneValue>(items: &[T], f: F) -> (r: KleeneValue)
        requires
            forall|i: int| 0 <= i < items@.len() ==> call_requires(f, (&items@[i],)),
        ensures
            r == KleeneValue::False ==> exists|i: int|
                0 <= i < items@.len() && call_ensures(f, (&items@[i],), KleeneValue::False),
            r == KleeneValue::True ==> forall|i: int|
                0 <= i < items@.len() ==> call_ensures(f, (&items@[i],), KleeneValue::True),
            r == KleeneValue::Unknown ==> (exists|i: int|
                0 <= i < items@.len() && call_ensures(f, (&items@[i],), KleeneValue::Unknown)),
            gives_one_value(f, items@) ==> (r == KleeneValue::False <==> exists|i: int|
                0 <= i < items@.len() && call_ensures(f, (&items@[i],), KleeneValue::False)),
            gives_one_value(f, items@) ==> (r == KleeneValue::True <==> forall|i: int|
                0 <= i < items@.len() ==> call_ensures(f, (&items@[i],), KleeneValue::True)),
    {
        let mut result = KleeneValue::True;
        let mut i: usize = 0;
        while i < items.len()
            invariant
                0 <= i <= items@.len(),
                forall|k: int| 0 <= k < items@.len() ==> call_requires(f, (&items@[k],)),
                result != KleeneValue::False,
                result == KleeneValue::True ==> forall|k: int|
                    0 <= k < i ==> call_ensures(f, (&items@[k],), KleeneValue::True),
                result == KleeneValue::Unknown ==> exists|k: int|
                    0 <= k < i && call_ensures(f, (&items@[k],), KleeneValue::Unknown),
                gives_one_value(f, items@) ==> forall|k: int|
                    0 <= k < i ==> !call_ensures(f, (&items@[k],), KleeneValue::False),
            decreases items@.len() - i,
        {
            let v = f(&items[i]);
            match v {
                KleeneValue::False => {
                    return KleeneValue::False;
                },
                KleeneValue::Unknown => {
                    result = KleeneValue::Unknown;
                },
                KleeneValue::True => {},
            }
            proof {
                let ii = i as int;
                assert(call_ensures(f, (&items@[ii],), v));
            }
            i = i + 1;
        }
        result
    }

    /// Kleene OR of a sequence of values.
    pub fn any_of(vals: &[KleeneValue]) -> (r: KleeneValue)
        ensures
            r == spec_any(vals@),
    {
        let mut i = vals.len();
        let mut acc = KleeneValue::False;
        while i > 0
            invariant
                0 <= i <= vals@.len(),
                acc == spec_any(vals@.skip(i as int)),
            decreases i,
        {
            i = i - 1;
            proof {
                assert(vals@.skip(i as int).drop_first() =~= vals@.skip(i + 1));
            }
            acc = vals[i].or(acc);
        }
        proof {
            assert(vals@.skip(0) =~= vals@);
        }
        acc
    }

    /// Kleene AND of a sequence of values.
    pub fn all_of(vals: &[KleeneValue]) -> (r: KleeneValue)
        ensures
            r == spec_all(vals@),
    {
        let mut i = vals.len();
        let mut acc = KleeneValue::True;
        while i > 0
            invariant
                0 <= i <= vals@.len(),
                acc == spec_all(vals@.skip(i as int)),
            decreases i,
        {
            i = i - 1;
            proof {
                assert(vals@.skip(i as int).drop_first() =~= vals@.skip(i + 1));
            }
            acc = vals[i].and(acc);
        }
        proof {
            assert(vals@.skip(0) =~= vals@);
        }
        acc
    }
}

impl From<bool> for KleeneValue {
    fn from(b: bool) -> (r: KleeneValue) {
        KleeneValue::from_bool(b)
    }
}

impl vstd::std_specs::convert::FromSpecImpl<bool> for KleeneValue {
    open spec fn obeys_from_spec() -> bool {
        true
    }

    open spec fn from_spec(v: bool) -> KleeneValue {
        spec_from_bool(v)
    }
}

/// De Morgan: negating a conjunction gives the disjunction of the negations.
pub proof fn lemma_de_morgan_and(a: KleeneValue, b: KleeneValue)
    ensures
        spec_not(spec_and(a, b)) == spec_or(spec_not(a), spec_not(b)),
{
}

/// De Morgan: negating a disjunction gives the conjunction of the negations.
pub proof fn lemma_de_morgan_or(a: KleeneValue, b: KleeneValue)
    ensures
        spec_not(spec_or(a, b)) == spec_and(spec_not(a), spec_not(b)),
{
}

/// Negation is an involution.
pub proof fn lemma_not_not(a: KleeneValue)
    ensures
        spec_not(spec_not(a)) == a,
{
}

/// Conjunction and disjunction are commutative and associative.
pub proof fn lemma_and_or_commutative_associative(a: KleeneValue, b: KleeneValue, c: KleeneValue)
    ensures
        spec_and(a, b) == spec_and(b, a),
        spec_or(a, b) == spec_or(b, a),
        spec_and(spec_and(a, b), c) == spec_and(a, spec_and(b, c)),
        spec_or(spec_or(a, b), c) == spec_or(a, spec_or(b, c)),
{
}

/// On definite values the three-valued operators agree with boolean logic.
pub proof fn lemma_agrees_with_bool(x: bool, y: bool)
    ensures
        spec_and(spec_from_bool(x), spec_from_bool(y)) == spec_from_bool(x && y),
        spec_or(spec_from_bool(x), spec_from_bool(y)) == spec_from_bool(x || y),
        spec_not(spec_from_bool(x)) == spec_from_bool(!x),
{
}

/// `Unknown` is absorbed by the dominating value of each operator.
pub proof fn lemma_unknown_absorption()
    ensures
        spec_and(KleeneValue::Unknown, KleeneValue::False) == KleeneValue::False,
        spec_or(KleeneValue::Unknown, KleeneValue::True) == KleeneValue::True,
        spec_not(KleeneValue::Unknown) == KleeneValue::Unknown,
{
}

impl core::ops::Not for KleeneValue {
    type Output = KleeneValue;

    fn not(self) -> (r: KleeneValue) {
        KleeneValue::not(self)
    }
}

impl vstd::std_specs::ops::NotSpecImpl for KleeneValue {
    open spec fn obeys_not_spec() -> bool {
        true
    }

    open spec fn not_req(self) -> bool {
        true
    }

    open spec fn not_spec(self) -> KleeneValue {
        spec_not(self)
    }
}

impl core::ops::BitAnd for KleeneValue {
    type Output = KleeneValue;

    fn bitand(self, rhs: KleeneValue) -> (r: KleeneValue) {
        self.and(rhs)
    }
}

impl vstd::std_specs::ops::BitAndSpecImpl for KleeneValue {
    open spec fn obeys_bitand_spec() -> bool {
        true
    }

    open spec fn bitand_req(self, rhs: KleeneValue) -> bool {
        true
    }

    open spec fn bitand_spec(self, rhs: KleeneValue) -> KleeneValue {
        spec_and(self, rhs)
    }
}

impl core::ops::BitOr for KleeneValue {
    type Output = KleeneValue;

    fn bitor(self, rhs: KleeneValue) -> (r: KleeneValue) {
        self.or(rhs)
    }
}

impl vstd::std_specs::ops::BitOrSpecImpl for KleeneValue {
    open spec fn obeys_bitor_spec() -> bool {
        true
    }

    open spec fn bitor_req(self, rhs: KleeneValue) -> bool {
        true
    }

    open spec fn bitor_spec(self, rhs: KleeneValue) -> KleeneValue {
        spec_or(self, rhs)
    }
}

} // verus!
