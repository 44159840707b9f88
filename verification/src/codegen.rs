//! Name and path helpers for generated style code: CSS keyword names from
//! Rust variant names, and type paths qualified for the generated crate.

use vstd::prelude::*;
use crate::text::{chars_of, push_char, push_str};
use crate::atom::ascii_lower;

verus! {

/// What `char::is_uppercase` returns for a character (the Unicode
/// `Uppercase` property).
pub uninterp spec fn char_is_uppercase(c: char) -> bool;

/// The first character of the lowercase mapping of a character, as
/// `char::to_lowercase` yields it.
pub uninterp spec fn char_lower_first(c: char) -> char;

/// Calls `char::is_uppercase`. Its documentation: true for characters with
/// the `Uppercase` property, which among ASCII characters are exactly `A`
/// to `Z`.
#[verifier::external_body]
fn is_uppercase(c: char) -> (r: bool)
    ensures
        r == char_is_uppercase(c),
        (c as u32) < 128 ==> (r <==> ('A' <= c && c <= 'Z')),
{
    c.is_uppercase()
}

/// Calls `char::to_lowercase` and takes its first character. The iterator
/// always yields at least one character; for `A` to `Z` that character is
/// the ASCII lowercase letter.
#[verifier::external_body]
fn lower_first(c: char) -> (r: char)
    ensures
        r == char_lower_first(c),
        ('A' <= c && c <= 'Z') ==> (r as u32) == (c as u32) + 32,
{
    c.to_lowercase().next().unwrap()
}

/// kebab-case of a PascalCase name: every uppercase character is lowered,
/// and preceded by `-` unless it is the first character.
pub open spec fn kebab_spec(s: Seq<char>) -> Seq<char>
    decreases s.len(),
{
    if s.len() == 0 {
        Seq::empty()
    } else {
        let prev = kebab_spec(s.drop_last());
        let c = s.last();
        if char_is_uppercase(c) {
            if s.len() > 1 {
                prev + seq!['-', char_lower_first(c)]
            } else {
                prev.push(char_lower_first(c))
            }
        } else {
            prev.push(c)
        }
    }
}

/// `kebab_spec` on ASCII text: every letter `A`-`Z` is lowered, and
/// preceded by `-` unless it is the first character.
pub open spec fn kebab_ascii(s: Seq<char>) -> Seq<char>
    decreases s.len(),
{
    if s.len() == 0 {
        Seq::empty()
    } else {
        let prev = kebab_ascii(s.drop_last());
        let c = s.last();
        if 'A' <= c && c <= 'Z' {
            if s.len() > 1 {
                prev + seq!['-', ascii_lower(c)]
            } else {
                prev.push(ascii_lower(c))
            }
        } else {
            prev.push(c)
        }
    }
}

/// Every character is ASCII.
pub open spec fn all_ascii(s: Seq<char>) -> bool {
    forall|i: int| 0 <= i < s.len() ==> (#[trigger] s[i] as u32) < 128
}

/// Convert PascalCase to kebab-case: `"MinContent"` gives `"min-content"`.
pub fn pascal_to_kebab(s: &str) -> (r: String)
    ensures
        r@ == kebab_spec(s@),
        all_ascii(s@) ==> r@ == kebab_ascii(s@),
{
    let chars = chars_of(s);
    let mut result = String::new();
    let mut i: usize = 0;
    while i < chars.len()
        invariant
            i <= chars@.len(),
            chars@ == s@,
            result@ == kebab_spec(chars@.take(i as int)),
            all_ascii(s@) ==> result@ == kebab_ascii(chars@.take(i as int)),
        decreases chars@.len() - i,
    {
        let ch = chars[i];
        proof {
            assert(chars@.take(i as int + 1).drop_last() =~= chars@.take(i as int));
            assert(chars@.take(i as int + 1).last() == ch);
        }
        if is_uppercase(ch) {
            if i > 0 {
                push_char(&mut result, '-');
            }
            let lc = lower_first(ch);
            proof {
                if all_ascii(s@) {
                    assert((chars@[i as int] as u32) < 128);
                    assert(lc == ascii_lower(ch));
                }
            }
            push_char(&mut result, lc);
        } else {
            proof {
                if all_ascii(s@) {
                    assert((chars@[i as int] as u32) < 128);
                }
            }
            push_char(&mut result, ch);
        }
        i = i + 1;
    }
    proof {
        assert(chars@.take(i as int) =~= chars@);
    }
    result
}

/// Whether `s` begins with `p`.
pub open spec fn has_prefix(s: Seq<char>, p: Seq<char>) -> bool {
    p.len() <= s.len() && s.subrange(0, p.len() as int) == p
}

fn starts_with(s: &Vec<char>, p: &str) -> (r: bool)
    ensures
        r == has_prefix(s@, p@),
{
    let pc = chars_of(p);
    if pc.len() > s.len() {
        return false;
    }
    let mut i: usize = 0;
    while i < pc.len()
        invariant
            i <= pc@.len() <= s@.len(),
            pc@ == p@,
            forall|j: int| 0 <= j < i ==> s@[j] == pc@[j],
        decreases pc@.len() - i,
    {
        if s[i] != pc[i] {
            proof {
                assert(s@.subrange(0, pc@.len() as int)[i as int] != p@[i as int]);
            }
            return false;
        }
        i = i + 1;
    }
    assert(s@.subrange(0, p@.len() as int) =~= p@);
    true
}

fn equals(s: &Vec<char>, p: &str) -> (r: bool)
    ensures
        r == (s@ == p@),
{
    let b = starts_with(s, p);
    let pc = chars_of(p);
    let n = pc.len();
    proof {
        if b && n == s@.len() {
            assert(s@ =~= s@.subrange(0, p@.len() as int));
        }
        if s@ == p@ {
            assert(s@.subrange(0, p@.len() as int) =~= p@);
        }
    }
    b && n == s.len()
}

/// The type names that stay as they are in generated code.
pub open spec fn is_primitive_type(ty: Seq<char>) -> bool {
    ||| ty == "f32"@
    ||| ty == "f64"@
    ||| ty == "i8"@
    ||| ty == "i16"@
    ||| ty == "i32"@
    ||| ty == "i64"@
    ||| ty == "u8"@
    ||| ty == "u16"@
    ||| ty == "u32"@
    ||| ty == "u64"@
    ||| ty == "usize"@
    ||| ty == "isize"@
    ||| ty == "bool"@
    ||| has_prefix(ty, "std::"@)
}

/// A type path qualified for the generated crate.
pub open spec fn qualify_type_spec(ty: Seq<char>) -> Seq<char> {
    if is_primitive_type(ty) {
        ty
    } else {
        "crate::"@ + ty
    }
}

/// Qualify a type for use in generated code: primitives and `std::` paths
/// stay as they are, every other type gets the `crate::` prefix.
pub fn qualify_type(ty: &str) -> (r: String)
    ensures
        r@ == qualify_type_spec(ty@),
{
    let c = chars_of(ty);
    let is_primitive = equals(&c, "f32") || equals(&c, "f64") || equals(&c, "i8") || equals(
        &c,
        "i16",
    ) || equals(&c, "i32") || equals(&c, "i64") || equals(&c, "u8") || equals(&c, "u16")
        || equals(&c, "u32") || equals(&c, "u64") || equals(&c, "usize") || equals(&c, "isize")
        || equals(&c, "bool") || starts_with(&c, "std::");
    if is_primitive {
        ty.to_owned()
    } else {
        let mut out = String::new();
        push_str(&mut out, "crate::");
        push_str(&mut out, ty);
        out
    }
}

/// Position of the first `c` in `s`, where there is one.
pub open spec fn first_pos(s: Seq<char>, c: char) -> int {
    choose|k: int| 0 <= k < s.len() && s[k] == c && forall|j: int| 0 <= j < k ==> s[j] != c
}

/// An initial-value expression qualified with the property's type:
/// `Default::default()` names the type's `Default` impl, and a path into a
/// generic type that names no parameters gets the type's parameters.
pub open spec fn qualify_initial_spec(initial: Seq<char>, ty: Seq<char>) -> Seq<char> {
    if initial == "Default::default()"@ {
        "<"@ + ty + " as Default>::default()"@
    } else if ty.contains('<') {
        let k = first_pos(ty, '<');
        let prefix = ty.subrange(0, k);
        let params = ty.subrange(k, ty.len() as int);
        if has_prefix(initial, prefix) && !initial.contains('<') {
            prefix + "::"@ + params + initial.subrange(k, initial.len() as int)
        } else {
            initial
        }
    } else {
        initial
    }
}

fn push_range(out: &mut String, v: &Vec<char>, lo: usize, hi: usize)
    requires
        lo <= hi <= v@.len(),
    ensures
        final(out)@ == old(out)@ + v@.subrange(lo as int, hi as int),
{
    let mut i: usize = lo;
    while i < hi
        invariant
            lo <= i <= hi <= v@.len(),
            out@ == old(out)@ + v@.subrange(lo as int, i as int),
        decreases hi - i,
    {
        push_char(out, v[i]);
        assert(v@.subrange(lo as int, i as int + 1) =~= v@.subrange(lo as int, i as int).push(
            v@[i as int],
        ));
        i = i + 1;
    }
}

fn find_char(v: &Vec<char>, c: char) -> (r: Option<usize>)
    ensures
        match r {
            Some(k) => k < v@.len() && v@[k as int] == c && forall|j: int|
                0 <= j < k ==> v@[j] != c,
            None => !v@.contains(c),
        },
{
    let mut i: usize = 0;
    while i < v.len()
        invariant
            i <= v@.len(),
            forall|j: int| 0 <= j < i ==> v@[j] != c,
        decreases v@.len() - i,
    {
        if v[i] == c {
            return Some(i);
        }
        i = i + 1;
    }
    None
}

/// Qualify an ambiguous initial-value expression with the property's type:
/// `Default::default()` becomes `<Type as Default>::default()`, and
/// `generics::Foo::Bar` for the type `generics::Foo<X>` becomes
/// `generics::Foo::<X>::Bar`.
pub fn qualify_initial(initial: &str, ty: &str) -> (r: String)
    ensures
        r@ == qualify_initial_spec(initial@, ty@),
{
    let ic = chars_of(initial);
    if equals(&ic, "Default::default()") {
        let mut out = String::new();
        push_str(&mut out, "<");
        push_str(&mut out, ty);
        push_str(&mut out, " as Default>::default()");
        return out;
    }
    let tc = chars_of(ty);
    match find_char(&tc, '<') {
        Some(k) => {
            proof {
                assert(tc@.contains('<'));
                let f = first_pos(tc@, '<');
                assert(0 <= k < tc@.len() && tc@[k as int] == '<' && forall|j: int|
                    0 <= j < k ==> tc@[j] != '<');
                assert(0 <= f < tc@.len() && tc@[f] == '<' && forall|j: int|
                    0 <= j < f ==> tc@[j] != '<');
                assert(f == k);
            }
            let mut prefix_ok = k <= ic.len();
            let mut j: usize = 0;
            while prefix_ok && j < k
                invariant
                    k <= tc@.len(),
                    prefix_ok ==> k <= ic@.len(),
                    prefix_ok ==> forall|m: int| 0 <= m < j ==> ic@[m] == tc@[m],
                    !prefix_ok ==> !has_prefix(ic@, tc@.subrange(0, k as int)),
                    j <= k,
                decreases k - j + (if prefix_ok { 1int } else { 0int }),
            {
                if ic[j] != tc[j] {
                    proof {
                        assert(ic@.subrange(0, k as int)[j as int] != tc@.subrange(0, k as int)[j as int]);
                    }
                    prefix_ok = false;
                } else {
                    j = j + 1;
                }
            }
            proof {
                if prefix_ok {
                    assert(ic@.subrange(0, k as int) =~= tc@.subrange(0, k as int));
                }
            }
            let has_angle = find_char(&ic, '<').is_some();
            if prefix_ok && !has_angle {
                let mut out = String::new();
                push_range(&mut out, &tc, 0, k);
                push_str(&mut out, "::");
                push_range(&mut out, &tc, k, tc.len());
                push_range(&mut out, &ic, k, ic.len());
                return out;
            }
            initial.to_owned()
        },
        None => initial.to_owned(),
    }
}


/// The index of the first of `names` equal to `name`, if any.
pub fn find_name(names: &[String], name: &str) -> (r: Option<usize>)
    ensures
        r matches Some(i) ==> i < names@.len() && names@[i as int]@ == name@ && forall|j: int|
            0 <= j < i ==> (#[trigger] names@[j])@ != name@,
        r is None ==> forall|j: int| 0 <= j < names@.len() ==> (#[trigger] names@[j])@ != name@,
{
    let mut i: usize = 0;
    while i < names.len()
        invariant
            i <= names@.len(),
            forall|j: int| 0 <= j < i ==> (#[trigger] names@[j])@ != name@,
        decreases names@.len() - i,
    {
        if crate::attr::CaseSensitivity::CaseSensitive.eq_str(names[i].as_str(), name) {
            return Some(i);
        }
        i = i + 1;
    }
    None
}

/// Some of `names` is `name`.
pub open spec fn has_name(names: Seq<String>, name: Seq<char>) -> bool {
    exists|j: int| 0 <= j < names.len() && (#[trigger] names[j])@ == name
}

/// Where each logical property's physical counterpart stands among the
/// property names: for each of `physicals`, the index of the first equal
/// name. `Err(k)` names the first of `physicals` that no property has.
pub fn resolve_physical(names: &[String], physicals: &[String]) -> (r: Result<Vec<usize>, usize>)
    ensures
        r matches Ok(v) ==> v@.len() == physicals@.len() && forall|k: int|
            0 <= k < v@.len() ==> (#[trigger] v@[k]) < names@.len() && names@[v@[k] as int]@
                == physicals@[k]@ && forall|j: int| 0 <= j < v@[k] ==> names@[j]@ != physicals@[k]@,
        r matches Err(k) ==> k < physicals@.len() && forall|j: int|
            0 <= j < names@.len() ==> (#[trigger] names@[j])@ != physicals@[k as int]@,
        r matches Err(k) ==> forall|k2: int|
            0 <= k2 < k ==> #[trigger] has_name(names@, physicals@[k2]@),
{
    let mut out: Vec<usize> = Vec::new();
    let mut k: usize = 0;
    while k < physicals.len()
        invariant
            k <= physicals@.len(),
            out@.len() == k,
            forall|k2: int|
                0 <= k2 < k ==> (#[trigger] out@[k2]) < names@.len() && names@[out@[k2] as int]@
                    == physicals@[k2]@ && forall|j: int|
                    0 <= j < out@[k2] ==> names@[j]@ != physicals@[k2]@,
        decreases physicals@.len() - k,
    {
        match find_name(names, physicals[k].as_str()) {
            Some(i) => {
                out.push(i);
            },
            None => {
                proof {
                    assert forall|k2: int| 0 <= k2 < k implies #[trigger] has_name(
                        names@,
                        physicals@[k2]@,
                    ) by {
                        assert(names@[out@[k2] as int]@ == physicals@[k2]@);
                    }
                }
                return Err(k);
            },
        }
        k = k + 1;
    }
    Ok(out)
}

} // verus!
