//! Attribute selectors and case-sensitivity-aware string comparison.
//!
//! `[attr]`, `[attr=v]`, `[attr~=v]`, `[attr|=v]`, `[attr^=v]`, `[attr$=v]`,
//! `[attr*=v]`, each value operation optionally ASCII case-insensitive (`i`).
//! Prefix, suffix and substring tests with an empty value never match.

use vstd::prelude::*;
use crate::atom::{Atom, ascii_lower, eq_ignore_ascii_case, to_ascii_lower};
use crate::text::chars_of;

verus! {

/// Case sensitivity mode for attribute value matching.
#[derive(Debug, Clone, Copy, PartialEq, Eq, Hash, Structural)]
pub enum CaseSensitivity {
    /// Exact comparison.
    CaseSensitive,
    /// The `i` flag: ASCII letters compare without case; other characters exactly.
    AsciiCaseInsensitive,
}

/// Equality of two texts under a case sensitivity.
pub open spec fn spec_eq(cs: CaseSensitivity, a: Seq<char>, b: Seq<char>) -> bool {
    match cs {
        CaseSensitivity::CaseSensitive => a == b,
        CaseSensitivity::AsciiCaseInsensitive => eq_ignore_ascii_case(a, b),
    }
}

/// `needle` occurs in `hay` at `i` under a case sensitivity.
pub open spec fn spec_occurs_at(cs: CaseSensitivity, hay: Seq<char>, needle: Seq<char>, i: int) -> bool {
    0 <= i && i + needle.len() <= hay.len() && spec_eq(
        cs,
        hay.subrange(i, i + needle.len()),
        needle,
    )
}

/// `hay` starts with `needle` under a case sensitivity.
pub open spec fn spec_starts_with(cs: CaseSensitivity, hay: Seq<char>, needle: Seq<char>) -> bool {
    spec_occurs_at(cs, hay, needle, 0)
}

/// `hay` ends with `needle` under a case sensitivity.
pub open spec fn spec_ends_with(cs: CaseSensitivity, hay: Seq<char>, needle: Seq<char>) -> bool {
    spec_occurs_at(cs, hay, needle, hay.len() - needle.len())
}

/// `hay` contains `needle` under a case sensitivity.
pub open spec fn spec_contains(cs: CaseSensitivity, hay: Seq<char>, needle: Seq<char>) -> bool {
    exists|i: int| spec_occurs_at(cs, hay, needle, i)
}

/// ASCII whitespace: space, tab, line feed, form feed, carriage return.
pub open spec fn is_ascii_ws(c: char) -> bool {
    c == ' ' || c == '\t' || c == '\n' || c == '\x0C' || c == '\r'
}

/// `v[i..j]` is one whitespace-separated word of `v`.
pub open spec fn is_word(v: Seq<char>, i: int, j: int) -> bool {
    &&& 0 <= i < j <= v.len()
    &&& (i == 0 || is_ascii_ws(v[i - 1]))
    &&& (j == v.len() || is_ascii_ws(v[j]))
    &&& forall|k: int| i <= k < j ==> !is_ascii_ws(#[trigger] v[k])
}

/// Some whitespace-separated word of `v` equals `val` under `cs`.
pub open spec fn spec_includes_word(cs: CaseSensitivity, v: Seq<char>, val: Seq<char>) -> bool {
    exists|i: int, j: int| is_word(v, i, j) && spec_eq(cs, #[trigger] v.subrange(i, j), val)
}

/// `v` equals `val`, or starts with `val` followed by `-`.
pub open spec fn spec_dash_match(cs: CaseSensitivity, v: Seq<char>, val: Seq<char>) -> bool {
    spec_eq(cs, v, val) || (v.len() > val.len() && v[val.len() as int] == '-' && spec_starts_with(
        cs,
        v,
        val,
    ))
}

/// Whether `hay[start..start+needle.len()]` equals `needle` under `cs`
/// (`start + needle.len() <= hay.len()`).
fn chars_match_at(cs: CaseSensitivity, hay: &[char], needle: &[char], start: usize) -> (r: bool)
    requires
        start + needle@.len() <= hay@.len(),
    ensures
        r == spec_occurs_at(cs, hay@, needle@, start as int),
{
    let mut k: usize = 0;
    let hlen = hay.len();
    while k < needle.len()
        invariant
            0 <= k <= needle@.len(),
            hlen == hay@.len(),
            start + needle@.len() <= hay@.len(),
            forall|m: int|
                0 <= m < k ==> (match cs {
                    CaseSensitivity::CaseSensitive => hay@[start + m] == needle@[m],
                    CaseSensitivity::AsciiCaseInsensitive => ascii_lower(hay@[start + m])
                        == ascii_lower(needle@[m]),
                }),
        decreases needle@.len() - k,
    {
        let a = hay[start + k];
        let b = needle[k];
        let same = match cs {
            CaseSensitivity::CaseSensitive => a == b,
            CaseSensitivity::AsciiCaseInsensitive => to_ascii_lower(a) == to_ascii_lower(b),
        };
        if !same {
            proof {
                let sub = hay@.subrange(start as int, start + needle@.len());
                assert(sub[k as int] == a);
                match cs {
                    CaseSensitivity::CaseSensitive => {
                        assert(sub != needle@);
                    },
                    CaseSensitivity::AsciiCaseInsensitive => {
                        assert(!eq_ignore_ascii_case(sub, needle@));
                    },
                }
            }
            return false;
        }
        k = k + 1;
    }
    proof {
        let sub = hay@.subrange(start as int, start + needle@.len());
        match cs {
            CaseSensitivity::CaseSensitive => {
                assert(sub =~= needle@);
            },
            CaseSensitivity::AsciiCaseInsensitive => {
                assert forall|i: int| 0 <= i < sub.len() implies ascii_lower(#[trigger] sub[i])
                    == ascii_lower(needle@[i]) by {
                    assert(sub[i] == hay@[start + i]);
                }
            },
        }
    }
    true
}

fn chars_contains(cs: CaseSensitivity, hay: &[char], needle: &[char]) -> (r: bool)
    ensures
        r == spec_contains(cs, hay@, needle@),
{
    if needle.len() > hay.len() {
        return false;
    }
    let last = hay.len() - needle.len();
    let mut i: usize = 0;
    loop
        invariant
            i <= last,
            last + needle@.len() == hay@.len(),
            forall|k: int| 0 <= k < i ==> !spec_occurs_at(cs, hay@, needle@, k),
        ensures
            forall|k: int| 0 <= k <= last ==> !spec_occurs_at(cs, hay@, needle@, k),
        decreases last - i,
    {
        if chars_match_at(cs, hay, needle, i) {
            return true;
        }
        if i == last {
            break;
        }
        i = i + 1;
    }
    proof {
        assert forall|k: int| !spec_occurs_at(cs, hay@, needle@, k) by {
            if 0 <= k <= last {
            }
        }
    }
    false
}

impl CaseSensitivity {
    /// Compare two strings according to this case sensitivity mode.
    pub fn eq_str(self, a: &str, b: &str) -> (r: bool)
        ensures
            r == spec_eq(self, a@, b@),
    {
        let av = chars_of(a);
        let bv = chars_of(b);
        if av.len() != bv.len() {
            proof {
                if self == CaseSensitivity::CaseSensitive {
                    assert(a@.len() != b@.len());
                }
            }
            return false;
        }
        let r = chars_match_at(self, av.as_slice(), bv.as_slice(), 0);
        proof {
            assert(av@.subrange(0, bv@.len() as int) =~= av@);
        }
        r
    }

    /// Check if `haystack` starts with `needle` according to case sensitivity.
    pub fn starts_with(self, haystack: &str, needle: &str) -> (r: bool)
        ensures
            r == spec_starts_with(self, haystack@, needle@),
    {
        let h = chars_of(haystack);
        let n = chars_of(needle);
        if n.len() > h.len() {
            return false;
        }
        chars_match_at(self, h.as_slice(), n.as_slice(), 0)
    }

    /// Check if `haystack` ends with `needle` according to case sensitivity.
    pub fn ends_with(self, haystack: &str, needle: &str) -> (r: bool)
        ensures
            r == spec_ends_with(self, haystack@, needle@),
    {
        let h = chars_of(haystack);
        let n = chars_of(needle);
        if n.len() > h.len() {
            return false;
        }
        chars_match_at(self, h.as_slice(), n.as_slice(), h.len() - n.len())
    }

    /// Check if `haystack` contains `needle` according to case sensitivity.
    pub fn contains(self, haystack: &str, needle: &str) -> (r: bool)
        ensures
            r == spec_contains(self, haystack@, needle@),
    {
        let h = chars_of(haystack);
        let n = chars_of(needle);
        chars_contains(self, h.as_slice(), n.as_slice())
    }
}

/// Whether some whitespace-separated word of `v` equals `val`.
fn includes_word(cs: CaseSensitivity, v: &[char], val: &[char]) -> (r: bool)
    ensures
        r == spec_includes_word(cs, v@, val@),
{
    let n = v.len();
    let mut i: usize = 0;
    while i < n
        invariant
            n == v@.len(),
            0 <= i <= n,
            i < n ==> (i == 0 || is_ascii_ws(v@[i - 1]) || is_ascii_ws(v@[i as int])),
            forall|a: int, b: int| is_word(v@, a, b) && a < i ==> !spec_eq(cs, #[trigger] v@.subrange(a, b), val@),
        decreases n - i,
    {
        if is_ws(v[i]) {
            i = i + 1;
        } else {
            let start = i;
            let mut j = i;
            while j < n && !is_ws(v[j])
                invariant
                    n == v@.len(),
                    start <= j <= n,
                    forall|k: int| start <= k < j ==> !is_ascii_ws(#[trigger] v@[k]),
                decreases n - j,
            {
                j = j + 1;
            }
            proof {
                assert(is_word(v@, start as int, j as int));
            }
            let word = slice_range(v, start, j);
            if word.len() == val.len() && chars_match_at(cs, word.as_slice(), val, 0) {
                proof {
                    assert(word@.subrange(0, val@.len() as int) =~= word@);
                    assert(spec_eq(cs, v@.subrange(start as int, j as int), val@));
                }
                return true;
            }
            proof {
                assert(word@.subrange(0, word@.len() as int) =~= word@);
                if word@.len() == val@.len() {
                    assert(!spec_eq(cs, v@.subrange(start as int, j as int), val@));
                } else {
                    assert(!spec_eq(cs, v@.subrange(start as int, j as int), val@));
                }
                assert forall|a: int, b: int| is_word(v@, a, b) && a < j implies !spec_eq(
                    cs,
                    #[trigger] v@.subrange(a, b),
                    val@,
                ) by {
                    if a >= start as int {
                        if a > start as int {
                            assert(!is_ascii_ws(v@[a - 1]));
                        }
                        if b < j as int {
                            assert(!is_ascii_ws(v@[b]));
                        } else if b > j as int {
                            assert(!is_ascii_ws(v@[j as int]));
                        }
                    }
                }
            }
            i = j;
        }
    }
    false
}

fn is_ws(c: char) -> (r: bool)
    ensures
        r == is_ascii_ws(c),
{
    c == ' ' || c == '\t' || c == '\n' || c == '\x0C' || c == '\r'
}

/// A copy of `v[start..end]`.
pub fn slice_range(v: &[char], start: usize, end: usize) -> (r: Vec<char>)
    requires
        start <= end <= v@.len(),
    ensures
        r@ == v@.subrange(start as int, end as int),
{
    let mut out: Vec<char> = Vec::new();
    let mut k = start;
    while k < end
        invariant
            start <= k <= end <= v@.len(),
            out@ == v@.subrange(start as int, k as int),
        decreases end - k,
    {
        out.push(v[k]);
        k = k + 1;
        proof {
            assert(out@ =~= v@.subrange(start as int, k as int));
        }
    }
    out
}

/// A parsed CSS attribute selector: `[name op "value" flags]`.
#[derive(Debug, Clone, PartialEq, Eq)]
pub struct AttrSelector {
    /// Attribute name, used to query `Element::attr(name)`.
    pub name: Atom,
    /// How to test the attribute's value (or just its presence).
    pub operation: AttrOperation,
}

/// How an attribute selector tests the attribute's value.
#[derive(Debug, Clone, PartialEq, Eq)]
pub enum AttrOperation {
    /// `[attr]` — attribute exists.
    Exists,
    /// `[attr=val]` — exact match.
    Equals(Atom, CaseSensitivity),
    /// `[attr~=val]` — whitespace-separated word list containing `val`.
    Includes(Atom, CaseSensitivity),
    /// `[attr|=val]` — exactly `val` or starting with `val-`.
    DashMatch(Atom, CaseSensitivity),
    /// `[attr^=val]` — starts with `val`.
    Prefix(Atom, CaseSensitivity),
    /// `[attr$=val]` — ends with `val`.
    Suffix(Atom, CaseSensitivity),
    /// `[attr*=val]` — contains `val`.
    Substring(Atom, CaseSensitivity),
}

/// Whether an attribute value (absent: `None`) satisfies an operation.
pub open spec fn spec_attr_matches(op: AttrOperation, value: Option<Seq<char>>) -> bool {
    match op {
        AttrOperation::Exists => value is Some,
        AttrOperation::Equals(val, cs) => value matches Some(v) && spec_eq(cs, v, val@),
        AttrOperation::Includes(val, cs) => value matches Some(v) && spec_includes_word(
            cs,
            v,
            val@,
        ),
        AttrOperation::DashMatch(val, cs) => value matches Some(v) && spec_dash_match(
            cs,
            v,
            val@,
        ),
        AttrOperation::Prefix(val, cs) => val@.len() > 0 && (value matches Some(v)
            && spec_starts_with(cs, v, val@)),
        AttrOperation::Suffix(val, cs) => val@.len() > 0 && (value matches Some(v)
            && spec_ends_with(cs, v, val@)),
        AttrOperation::Substring(val, cs) => val@.len() > 0 && (value matches Some(v)
            && spec_contains(cs, v, val@)),
    }
}

/// The view of an optional string slice.
pub open spec fn opt_view(v: Option<&str>) -> Option<Seq<char>> {
    match v {
        Some(s) => Some(s@),
        None => None,
    }
}

impl AttrSelector {
    /// Tests whether an element's attribute value matches this selector.
    pub fn matches(&self, attr_value: Option<&str>) -> (r: bool)
        ensures
            r == spec_attr_matches(self.operation, opt_view(attr_value)),
    {
        match &self.operation {
            AttrOperation::Exists => attr_value.is_some(),
            AttrOperation::Equals(val, cs) => match attr_value {
                Some(v) => cs.eq_str(v, val.as_str()),
                None => false,
            },
            AttrOperation::Includes(val, cs) => match attr_value {
                Some(v) => {
                    let vv = chars_of(v);
                    let wv = chars_of(val.as_str());
                    includes_word(*cs, vv.as_slice(), wv.as_slice())
                },
                None => false,
            },
            AttrOperation::DashMatch(val, cs) => match attr_value {
                Some(v) => {
                    if cs.eq_str(v, val.as_str()) {
                        true
                    } else {
                        let vv = chars_of(v);
                        let wv = chars_of(val.as_str());
                        vv.len() > wv.len() && vv[wv.len()] == '-' && cs.starts_with(
                            v,
                            val.as_str(),
                        )
                    }
                },
                None => false,
            },
            AttrOperation::Prefix(val, cs) => !val.is_empty() && match attr_value {
                Some(v) => cs.starts_with(v, val.as_str()),
                None => false,
            },
            AttrOperation::Suffix(val, cs) => !val.is_empty() && match attr_value {
                Some(v) => cs.ends_with(v, val.as_str()),
                None => false,
            },
            AttrOperation::Substring(val, cs) => !val.is_empty() && match attr_value {
                Some(v) => cs.contains(v, val.as_str()),
                None => false,
            },
        }
    }
}

} // verus!
