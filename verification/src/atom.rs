//! Interned-name stand-in and ASCII text helpers.
//!
//! An [`Atom`] holds an identifier (tag name, class, id, attribute name or
//! value). Two atoms are the same name exactly when their character
//! sequences are equal.

use vstd::prelude::*;

verus! {

/// An identifier taken from a selector or an element.
#[derive(Debug, Clone, PartialEq, Eq, Hash)]
pub struct Atom {
    pub text: String,
}

impl View for Atom {
    type V = Seq<char>;

    open spec fn view(&self) -> Seq<char> {
        self.text@
    }
}

/// ASCII lowercase mapping of one character; other characters are unchanged.
pub open spec fn ascii_lower(c: char) -> char {
    if 'A' <= c && c <= 'Z' {
        ((c as u32) + 32) as char
    } else {
        c
    }
}

/// ASCII case-insensitive equality of two character sequences.
pub open spec fn eq_ignore_ascii_case(a: Seq<char>, b: Seq<char>) -> bool {
    &&& a.len() == b.len()
    &&& forall|i: int| 0 <= i < a.len() ==> ascii_lower(#[trigger] a[i]) == ascii_lower(b[i])
}

/// `needle` equals the prefix of `hay` of the same length, ignoring ASCII case.
pub open spec fn starts_with_ignore_ascii_case(hay: Seq<char>, needle: Seq<char>) -> bool {
    needle.len() <= hay.len() && eq_ignore_ascii_case(hay.take(needle.len() as int), needle)
}

/// `needle` equals the suffix of `hay` of the same length, ignoring ASCII case.
pub open spec fn ends_with_ignore_ascii_case(hay: Seq<char>, needle: Seq<char>) -> bool {
    needle.len() <= hay.len() && eq_ignore_ascii_case(
        hay.skip(hay.len() - needle.len()),
        needle,
    )
}

/// `needle` occurs in `hay` at position `i`, ignoring ASCII case.
pub open spec fn occurs_at_ignore_ascii_case(hay: Seq<char>, needle: Seq<char>, i: int) -> bool {
    0 <= i && i + needle.len() <= hay.len() && eq_ignore_ascii_case(
        hay.subrange(i, i + needle.len()),
        needle,
    )
}

/// `needle` occurs in `hay` at position `i` exactly.
pub open spec fn occurs_at(hay: Seq<char>, needle: Seq<char>, i: int) -> bool {
    0 <= i && i + needle.len() <= hay.len() && hay.subrange(i, i + needle.len()) == needle
}

/// Executable ASCII lowercase of one character.
pub fn to_ascii_lower(c: char) -> (r: char)
    ensures
        r == ascii_lower(c),
{
    if 'A' <= c && c <= 'Z' {
        let v: u32 = c as u32 + 32;
        proof {
            assert(v == (c as u32) + 32);
        }
        char_from_ascii_code(v)
    } else {
        c
    }
}

/// The character with the given code in `'a'..='z'`.
fn char_from_ascii_code(v: u32) -> (r: char)
    requires
        97 <= v <= 122,
    ensures
        r == v as char,
{
    (v as u8) as char
}

impl Atom {
    /// Creates an atom holding the given text.
    pub fn new(s: &str) -> (r: Atom)
        ensures
            r@ == s@,
    {
        Atom { text: s.to_owned() }
    }

    /// Creates an atom holding the given text.
    pub fn from(s: &str) -> (r: Atom)
        ensures
            r@ == s@,
    {
        Atom::new(s)
    }

    /// The text of this atom.
    pub fn as_str(&self) -> (r: &str)
        ensures
            r@ == self@,
    {
        self.text.as_str()
    }

    /// Whether two atoms hold the same name.
    pub fn same(&self, other: &Atom) -> (r: bool)
        ensures
            r == (self@ == other@),
    {
        self.text == other.text
    }

    /// A copy of this atom.
    pub fn dup(&self) -> (r: Atom)
        ensures
            r == *self,
            r@ == self@,
    {
        Atom { text: self.text.clone() }
    }

    /// Whether this atom holds no character.
    pub fn is_empty(&self) -> (r: bool)
        ensures
            r == (self@.len() == 0),
    {
        self.text.as_str().is_empty()
    }
}

} // verus!
