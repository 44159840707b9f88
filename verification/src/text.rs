//! Text helpers: building strings character by character and decimal numbers.

use vstd::prelude::*;

verus! {

/// Appends one character to a string.
///
/// Wraps `String::push`, which appends the character at the end.
#[verifier::external_body]
pub(crate) fn push_char(s: &mut String, c: char)
    ensures
        final(s)@ == old(s)@.push(c),
{
    s.push(c);
}

/// Appends a string slice.
pub fn push_str(s: &mut String, t: &str)
    ensures
        final(s)@ == old(s)@ + t@,
{
    s.append(t);
}

/// The character of a decimal digit.
pub open spec fn digit_char(d: int) -> char {
    if 0 <= d <= 9 {
        ((d + 48) as u32) as char
    } else {
        '?'
    }
}

/// Decimal digits of a natural number, most significant first, no leading zero.
pub open spec fn nat_digits(n: nat) -> Seq<char>
    decreases n,
{
    if n < 10 {
        seq![digit_char(n as int)]
    } else {
        nat_digits(n / 10) + seq![digit_char((n % 10) as int)]
    }
}

/// Decimal text of an integer, with a leading `-` for negative values.
pub open spec fn decimal_spec(n: int) -> Seq<char> {
    if n < 0 {
        seq!['-'] + nat_digits((-n) as nat)
    } else {
        nat_digits(n as nat)
    }
}

/// A decimal digit character.
pub open spec fn is_digit_char(c: char) -> bool {
    48 <= (c as int) <= 57
}

/// The value of a decimal digit character.
pub open spec fn digit_value(c: char) -> int {
    (c as int) - 48
}

/// The natural number written by decimal digits, most significant first.
pub open spec fn nat_of_digits(s: Seq<char>) -> int
    decreases s.len(),
{
    if s.len() == 0 {
        0
    } else {
        nat_of_digits(s.drop_last()) * 10 + digit_value(s.last())
    }
}

/// The integer written by a decimal text with an optional leading `-`.
pub open spec fn int_of_decimal(s: Seq<char>) -> int {
    if s.len() > 0 && s[0] == '-' {
        -nat_of_digits(s.drop_first())
    } else {
        nat_of_digits(s)
    }
}

/// The digits of a natural number are not empty, are digit characters, and
/// read back as the number.
pub proof fn lemma_nat_digits_read_back(n: nat)
    ensures
        nat_digits(n).len() > 0,
        forall|i: int| 0 <= i < nat_digits(n).len() ==> is_digit_char(#[trigger] nat_digits(n)[i]),
        nat_of_digits(nat_digits(n)) == n,
    decreases n,
{
    let d = n % 10;
    assert((((d + 48) as u32) as char) as int == d + 48);
    if n >= 10 {
        lemma_nat_digits_read_back(n / 10);
        let s = nat_digits(n);
        assert(s.drop_last() =~= nat_digits(n / 10));
        assert forall|i: int| 0 <= i < s.len() implies is_digit_char(#[trigger] s[i]) by {
            if i < s.len() - 1 {
                assert(s[i] == nat_digits(n / 10)[i]);
            }
        }
        assert(s.last() == digit_char(d as int));
        assert(digit_value(s.last()) == d);
        assert(nat_of_digits(s) == nat_of_digits(s.drop_last()) * 10 + digit_value(s.last()));
        assert((n / 10) * 10 + d == n);
    } else {
        let s = nat_digits(n);
        assert(s.drop_last() =~= Seq::<char>::empty());
        assert(d == n);
        assert(s.last() == digit_char(d as int));
        assert(nat_of_digits(s) == nat_of_digits(s.drop_last()) * 10 + digit_value(s.last()));
    }
}

/// The decimal text of an integer reads back as the integer. It is not
/// empty; its first character is `-` or a digit, and every other one is a
/// digit; a negative number's text has a digit after the `-`.
pub proof fn lemma_decimal_read_back(n: int)
    ensures
        int_of_decimal(decimal_spec(n)) == n,
        decimal_spec(n).len() > 0,
        n < 0 ==> decimal_spec(n).len() > 1 && decimal_spec(n)[0] == '-',
        n >= 0 ==> is_digit_char(decimal_spec(n)[0]),
        forall|i: int|
            0 < i < decimal_spec(n).len() ==> is_digit_char(#[trigger] decimal_spec(n)[i]),
        forall|i: int|
            0 <= i < decimal_spec(n).len() ==> #[trigger] decimal_spec(n)[i] == '-'
                || is_digit_char(decimal_spec(n)[i]),
{
    if n < 0 {
        let m = (-n) as nat;
        lemma_nat_digits_read_back(m);
        let t = decimal_spec(n);
        assert(t.drop_first() =~= nat_digits(m));
        assert forall|i: int| 0 < i < t.len() implies is_digit_char(#[trigger] t[i]) by {
            assert(t[i] == nat_digits(m)[i - 1]);
        }
    } else {
        lemma_nat_digits_read_back(n as nat);
        assert(is_digit_char(nat_digits(n as nat)[0]));
        assert((('-' as u32) as int) == 45);
    }
}

fn digit(d: u64) -> (r: char)
    requires
        d < 10,
    ensures
        r == digit_char(d as int),
{
    let v: u8 = (d as u8) + 48u8;
    v as char
}

fn push_nat(s: &mut String, n: u64)
    ensures
        final(s)@ == old(s)@ + nat_digits(n as nat),
    decreases n,
{
    if n >= 10 {
        push_nat(s, n / 10);
    }
    push_char(s, digit(n % 10));
    proof {
        if n < 10 {
            assert(n % 10 == n);
        }
    }
    assert(s@ =~= old(s)@ + nat_digits(n as nat));
}

/// Appends the decimal text of `n`.
pub fn push_decimal(s: &mut String, n: i64)
    ensures
        final(s)@ == old(s)@ + decimal_spec(n as int),
{
    if n < 0 {
        push_char(s, '-');
        let m: i128 = 0i128 - (n as i128);
        push_nat(s, m as u64);
        assert(s@ =~= old(s)@ + decimal_spec(n as int));
    } else {
        push_nat(s, n as u64);
    }
}

/// The characters of a string slice.
pub fn chars_of(s: &str) -> (r: Vec<char>)
    ensures
        r@ == s@,
{
    let mut v: Vec<char> = Vec::new();
    for c in it: s.chars()
        invariant
            v@ == it.seq().take(it.index() as int),
            it.seq() == s@,
    {
        v.push(c);
    }
    v
}

} // verus!
