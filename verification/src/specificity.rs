//! CSS specificity, packed into one `u32` as `a(8 bits) | b(12 bits) | c(12 bits)`.
//!
//! `a` counts ID selectors, `b` classes, attributes and pseudo-classes, `c`
//! type selectors and pseudo-elements. With every column inside its field,
//! comparing packed values compares `(a, b, c)` lexicographically.

use vstd::prelude::*;

verus! {

/// Packed CSS specificity value. Higher numeric value = more specific.
#[derive(Debug, Clone, Copy, PartialEq, Eq, PartialOrd, Ord, Hash, Default, Structural)]
pub struct Specificity(pub u32);

/// Packed value of `(a, b, c)` when every column fits its field.
pub open spec fn packed(a: int, b: int, c: int) -> int {
    a * 0x1000000 + b * 0x1000 + c
}

/// Whether `(a, b, c)` fits the 8/12/12-bit fields.
pub open spec fn fits(a: int, b: int, c: int) -> bool {
    0 <= a < 256 && 0 <= b < 4096 && 0 <= c < 4096
}

/// Lexicographic order on specificity triples.
pub open spec fn lex_less(a1: int, b1: int, c1: int, a2: int, b2: int, c2: int) -> bool {
    a1 < a2 || (a1 == a2 && (b1 < b2 || (b1 == b2 && c1 < c2)))
}

/// The `a` column of a packed value.
pub open spec fn col_a(v: u32) -> u16 {
    (v >> 24u32) as u16
}

/// The `b` column of a packed value.
pub open spec fn col_b(v: u32) -> u16 {
    ((v >> 12u32) & 0xFFFu32) as u16
}

/// The `c` column of a packed value.
pub open spec fn col_c(v: u32) -> u16 {
    (v & 0xFFFu32) as u16
}

/// The packed value built from `(a, b, c)` by shifts and bitwise or.
pub open spec fn spec_pack(a: u16, b: u16, c: u16) -> u32 {
    ((a as u32) << 24u32) | ((b as u32) << 12u32) | (c as u32)
}

proof fn lemma_pack_fits(a: u16, b: u16, c: u16)
    requires
        a < 256,
        b < 4096,
        c < 4096,
    ensures
        spec_pack(a, b, c) as int == packed(a as int, b as int, c as int),
        col_a(spec_pack(a, b, c)) == a,
        col_b(spec_pack(a, b, c)) == b,
        col_c(spec_pack(a, b, c)) == c,
{
    assert(((a as u32) << 24u32) | ((b as u32) << 12u32) | (c as u32) == (a as u32) * 0x1000000u32
        + (b as u32) * 0x1000u32 + (c as u32)) by (bit_vector)
        requires
            a < 256,
            b < 4096,
            c < 4096,
    ;
    let v = spec_pack(a, b, c);
    assert((v >> 24u32) as u16 == a && ((v >> 12u32) & 0xFFFu32) as u16 == b && (v
        & 0xFFFu32) as u16 == c) by (bit_vector)
        requires
            a < 256,
            b < 4096,
            c < 4096,
            v == ((a as u32) << 24u32) | ((b as u32) << 12u32) | (c as u32),
    ;
}

proof fn lemma_unpack(v: u32)
    ensures
        v as int == packed(col_a(v) as int, col_b(v) as int, col_c(v) as int),
        fits(col_a(v) as int, col_b(v) as int, col_c(v) as int),
{
    assert(v == (v >> 24u32) * 0x1000000u32 + ((v >> 12u32) & 0xFFFu32) * 0x1000u32 + (v
        & 0xFFFu32) && (v >> 24u32) < 256 && ((v >> 12u32) & 0xFFFu32) < 4096 && (v & 0xFFFu32)
        < 4096) by (bit_vector);
}

impl Specificity {
    /// The zero specificity `(0, 0, 0)`.
    pub fn zero() -> (r: Specificity)
        ensures
            r.0 == 0,
    {
        Specificity(0u32)
    }

    /// Creates a specificity from `(a, b, c)` components.
    pub fn new(a: u16, b: u16, c: u16) -> (r: Specificity)
        ensures
            r.0 == spec_pack(a, b, c),
            fits(a as int, b as int, c as int) ==> r.0 as int == packed(
                a as int,
                b as int,
                c as int,
            ),
            fits(a as int, b as int, c as int) ==> r.components_spec() == (a, b, c),
    {
        proof {
            if fits(a as int, b as int, c as int) {
                lemma_pack_fits(a, b, c);
            }
        }
        Specificity(((a as u32) << 24u32) | ((b as u32) << 12u32) | (c as u32))
    }

    /// The `(a, b, c)` columns of this value.
    pub open spec fn components_spec(self) -> (u16, u16, u16) {
        (col_a(self.0), col_b(self.0), col_c(self.0))
    }

    /// Returns the raw packed value for direct comparison.
    pub fn value(self) -> (r: u32)
        ensures
            r == self.0,
    {
        self.0
    }

    /// Creates a specificity from a raw packed value.
    pub fn from_raw(raw: u32) -> (r: Specificity)
        ensures
            r.0 == raw,
    {
        Specificity(raw)
    }

    /// Returns the `(a, b, c)` components.
    pub fn components(self) -> (r: (u16, u16, u16))
        ensures
            r == self.components_spec(),
            self.0 as int == packed(r.0 as int, r.1 as int, r.2 as int),
    {
        proof {
            lemma_unpack(self.0);
        }
        let a = (self.0 >> 24u32) as u16;
        let b = ((self.0 >> 12u32) & 0xFFFu32) as u16;
        let c = (self.0 & 0xFFFu32) as u16;
        (a, b, c)
    }

    /// Adds an ID selector (a += 1).
    pub fn add_id(&mut self)
        requires
            old(self).0 as int + 0x1000000 <= u32::MAX,
        ensures
            final(self).0 == old(self).0 + 0x1000000,
    {
        self.0 = self.0 + 0x1000000u32;
    }

    /// Adds a class, attribute, or pseudo-class (b += 1).
    pub fn add_class(&mut self)
        requires
            old(self).0 as int + 0x1000 <= u32::MAX,
        ensures
            final(self).0 == old(self).0 + 0x1000,
    {
        self.0 = self.0 + 0x1000u32;
    }

    /// Adds a type or pseudo-element (c += 1).
    pub fn add_type(&mut self)
        requires
            old(self).0 as int + 1 <= u32::MAX,
        ensures
            final(self).0 == old(self).0 + 1,
    {
        self.0 = self.0 + 1u32;
    }

    /// Returns the maximum of two specificities.
    pub fn max(self, other: Specificity) -> (r: Specificity)
        ensures
            r.0 >= self.0,
            r.0 >= other.0,
            r == self || r == other,
    {
        if self.0 >= other.0 {
            self
        } else {
            other
        }
    }

    /// The text `(a,b,c)` of this value.
    pub fn to_css_string(&self) -> (r: String)
        ensures
            r@ == seq!['('] + crate::text::decimal_spec(col_a(self.0) as int) + seq![',']
                + crate::text::decimal_spec(col_b(self.0) as int) + seq![',']
                + crate::text::decimal_spec(col_c(self.0) as int) + seq![')'],
    {
        let (a, b, c) = self.components();
        let mut s = String::new();
        crate::text::push_char(&mut s, '(');
        crate::text::push_decimal(&mut s, a as i64);
        crate::text::push_char(&mut s, ',');
        crate::text::push_decimal(&mut s, b as i64);
        crate::text::push_char(&mut s, ',');
        crate::text::push_decimal(&mut s, c as i64);
        crate::text::push_char(&mut s, ')');
        s
    }
}

/// Packing preserves the columns: reading back a packed triple that fits
/// the fields gives the same triple, and the packed value is `a·2²⁴ + b·2¹² + c`.
pub proof fn lemma_components_round_trip(a: u16, b: u16, c: u16)
    requires
        fits(a as int, b as int, c as int),
    ensures
        col_a(spec_pack(a, b, c)) == a,
        col_b(spec_pack(a, b, c)) == b,
        col_c(spec_pack(a, b, c)) == c,
        spec_pack(a, b, c) as int == packed(a as int, b as int, c as int),
{
    lemma_pack_fits(a, b, c);
}

/// Comparing packed values is the lexicographic order on `(a, b, c)`:
/// one ID outweighs any number of classes, one class any number of types.
pub proof fn lemma_order_is_lexicographic(a1: u16, b1: u16, c1: u16, a2: u16, b2: u16, c2: u16)
    requires
        fits(a1 as int, b1 as int, c1 as int),
        fits(a2 as int, b2 as int, c2 as int),
    ensures
        (spec_pack(a1, b1, c1) < spec_pack(a2, b2, c2)) == lex_less(
            a1 as int,
            b1 as int,
            c1 as int,
            a2 as int,
            b2 as int,
            c2 as int,
        ),
        (spec_pack(a1, b1, c1) == spec_pack(a2, b2, c2)) == (a1 == a2 && b1 == b2 && c1 == c2),
{
    lemma_pack_fits(a1, b1, c1);
    lemma_pack_fits(a2, b2, c2);
    let x1 = a1 as int;
    let y1 = b1 as int;
    let z1 = c1 as int;
    let x2 = a2 as int;
    let y2 = b2 as int;
    let z2 = c2 as int;
    assert((x1 * 0x1000000 + y1 * 0x1000 + z1 < x2 * 0x1000000 + y2 * 0x1000 + z2) == lex_less(
        x1,
        y1,
        z1,
        x2,
        y2,
        z2,
    )) by (nonlinear_arith)
        requires
            fits(x1, y1, z1),
            fits(x2, y2, z2),
    ;
    assert((x1 * 0x1000000 + y1 * 0x1000 + z1 == x2 * 0x1000000 + y2 * 0x1000 + z2) == (x1 == x2
        && y1 == y2 && z1 == z2)) by (nonlinear_arith)
        requires
            fits(x1, y1, z1),
            fits(x2, y2, z2),
    ;
}

/// Each `add_*` raises exactly its own column by one when the column has room.
pub proof fn lemma_add_column(a: u16, b: u16, c: u16)
    requires
        fits(a as int, b as int, c as int),
    ensures
        a < 255 ==> spec_pack(a, b, c) + 0x1000000 == spec_pack((a + 1) as u16, b, c),
        b < 4095 ==> spec_pack(a, b, c) + 0x1000 == spec_pack(a, (b + 1) as u16, c),
        c < 4095 ==> spec_pack(a, b, c) + 1 == spec_pack(a, b, (c + 1) as u16),
{
    lemma_pack_fits(a, b, c);
    if a < 255 {
        lemma_pack_fits((a + 1) as u16, b, c);
    }
    if b < 4095 {
        lemma_pack_fits(a, (b + 1) as u16, c);
    }
    if c < 4095 {
        lemma_pack_fits(a, b, (c + 1) as u16);
    }
}

} // verus!
