//! Serialization of selectors back to CSS text.
//!
//! Components are stored right to left and written left to right. Each
//! `to_css_string` returns exactly the text its spec function describes.

use vstd::prelude::*;
use crate::atom::Atom;
use crate::attr::{AttrOperation, AttrSelector, CaseSensitivity};
use crate::pseudo_class::{PseudoClass, spec_pc_name};
use crate::pseudo_element::{PseudoElement, spec_pe_name};
use crate::text::{decimal_spec, int_of_decimal, lemma_decimal_read_back, push_char, push_decimal, push_str};
use crate::types::{
    Combinator, Component, Direction, NamespaceConstraint, NthData, RelativeSelector,
    RelativeSelectorList, Selector, SelectorList,
};

verus! {

/// Text of a combinator between two compounds.
pub open spec fn comb_text(c: Combinator) -> Seq<char> {
    match c {
        Combinator::Descendant => " "@,
        Combinator::Child => " > "@,
        Combinator::NextSibling => " + "@,
        Combinator::LaterSibling => " ~ "@,
        Combinator::Column => " || "@,
    }
}

/// Text of a leading combinator in `:has()`.
pub open spec fn rel_prefix_text(c: Combinator) -> Seq<char> {
    match c {
        Combinator::Descendant => Seq::empty(),
        Combinator::Child => "> "@,
        Combinator::NextSibling => "+ "@,
        Combinator::LaterSibling => "~ "@,
        Combinator::Column => "|| "@,
    }
}

/// Text of a direction.
pub open spec fn dir_text(d: Direction) -> Seq<char> {
    match d {
        Direction::Ltr => "ltr"@,
        Direction::Rtl => "rtl"@,
    }
}

/// Text of `An+B`: `odd`, `even`, `B`, or `An` with `+B` / `-B` unless `B` is 0.
pub open spec fn anb_text(a: i32, b: i32) -> Seq<char> {
    if a == 0 {
        decimal_spec(b as int)
    } else if a == 2 && b == 1 {
        "odd"@
    } else if a == 2 && b == 0 {
        "even"@
    } else {
        (if a == 1 {
            "n"@
        } else if a == -1 {
            "-n"@
        } else {
            decimal_spec(a as int) + "n"@
        }) + (if b > 0 {
            "+"@ + decimal_spec(b as int)
        } else if b < 0 {
            decimal_spec(b as int)
        } else {
            Seq::empty()
        })
    }
}

/// A value with each `"` written as `\"`.
pub open spec fn escape_quotes(v: Seq<char>) -> Seq<char>
    decreases v.len(),
{
    if v.len() == 0 {
        Seq::empty()
    } else {
        (if v[0] == '"' {
            seq!['\\', '"']
        } else {
            seq![v[0]]
        }) + escape_quotes(v.drop_first())
    }
}

/// The operator text, value and case flag of a value-testing operation.
pub open spec fn attr_op_parts(op: AttrOperation) -> (Seq<char>, Seq<char>, CaseSensitivity) {
    match op {
        AttrOperation::Exists => (Seq::empty(), Seq::empty(), CaseSensitivity::CaseSensitive),
        AttrOperation::Equals(v, c) => ("="@, v@, c),
        AttrOperation::Includes(v, c) => ("~="@, v@, c),
        AttrOperation::DashMatch(v, c) => ("|="@, v@, c),
        AttrOperation::Prefix(v, c) => ("^="@, v@, c),
        AttrOperation::Suffix(v, c) => ("$="@, v@, c),
        AttrOperation::Substring(v, c) => ("*="@, v@, c),
    }
}

/// Text of an attribute selector; values are always written quoted.
pub open spec fn attr_text(a: AttrSelector) -> Seq<char> {
    match a.operation {
        AttrOperation::Exists => "["@ + a.name@ + "]"@,
        op => {
            let (sym, val, cs) = attr_op_parts(op);
            "["@ + a.name@ + sym + "\""@ + escape_quotes(val) + "\""@ + (if cs
                == CaseSensitivity::AsciiCaseInsensitive {
                " i"@
            } else {
                Seq::empty()
            }) + "]"@
        },
    }
}

/// Names joined by `sep`.
pub open spec fn atoms_text(atoms: Seq<Atom>, sep: Seq<char>) -> Seq<char>
    decreases atoms.len(),
{
    if atoms.len() == 0 {
        Seq::empty()
    } else if atoms.len() == 1 {
        atoms[0]@
    } else {
        atoms[0]@ + sep + atoms_text(atoms.drop_first(), sep)
    }
}

/// Text of a selector: its components in reverse storage order.
pub open spec fn sel_text(sel: Selector) -> Seq<char>
    decreases sel, 1nat,
{
    comps_rev_text(sel.comps@)
}

/// Components written last first.
pub open spec fn comps_rev_text(comps: Seq<Component>) -> Seq<char>
    decreases comps, 0nat,
{
    if comps.len() == 0 {
        Seq::empty()
    } else {
        comps_rev_text(comps.drop_first()) + comp_text(comps[0])
    }
}

/// Selectors joined by `, `.
pub open spec fn sels_text(sels: Seq<Selector>) -> Seq<char>
    decreases sels, 0nat,
{
    if sels.len() == 0 {
        Seq::empty()
    } else if sels.len() == 1 {
        sel_text(sels[0])
    } else {
        sel_text(sels[0]) + ", "@ + sels_text(sels.drop_first())
    }
}

/// Components (flattened arguments) joined by `, `.
pub open spec fn singles_text(comps: Seq<Component>) -> Seq<char>
    decreases comps, 0nat,
{
    if comps.len() == 0 {
        Seq::empty()
    } else if comps.len() == 1 {
        comp_text(comps[0])
    } else {
        comp_text(comps[0]) + ", "@ + singles_text(comps.drop_first())
    }
}

/// Text of a relative selector.
pub open spec fn rel_text(rel: RelativeSelector) -> Seq<char>
    decreases rel, 0nat,
{
    rel_prefix_text(rel.combinator) + sel_text(rel.selector)
}

/// Relative selectors joined by `, `.
pub open spec fn rels_text(rels: Seq<RelativeSelector>) -> Seq<char>
    decreases rels, 0nat,
{
    if rels.len() == 0 {
        Seq::empty()
    } else if rels.len() == 1 {
        rel_text(rels[0])
    } else {
        rel_text(rels[0]) + ", "@ + rels_text(rels.drop_first())
    }
}

/// Text of `An+B [of S]`.
pub open spec fn nth_text(nth: NthData) -> Seq<char>
    decreases nth, 0nat,
{
    anb_text(nth.a, nth.b) + match nth.of_selector {
        Some(l) => " of "@ + sels_text(l.0@),
        None => Seq::empty(),
    }
}

/// Text of one component.
pub open spec fn comp_text(c: Component) -> Seq<char>
    decreases c, 0nat,
{
    match c {
        Component::Universal => "*"@,
        Component::Type(n) => n@,
        Component::Id(i) => "#"@ + i@,
        Component::Class(k) => "."@ + k@,
        Component::Namespace(ns) => match ns {
            NamespaceConstraint::Any => "*|"@,
            NamespaceConstraint::NoNamespace => "|"@,
            NamespaceConstraint::Specific(u) => u@ + "|"@,
        },
        Component::Attribute(a) => attr_text(a),
        Component::PseudoClass(pc) => ":"@ + spec_pc_name(pc),
        Component::PseudoElement(pe) => "::"@ + spec_pe_name(pe),
        Component::Negation(l) => ":not("@ + sels_text(l.0@) + ")"@,
        Component::Is(l) => ":is("@ + sels_text(l.0@) + ")"@,
        Component::Where(l) => ":where("@ + sels_text(l.0@) + ")"@,
        Component::IsSingle(cs) => ":is("@ + singles_text(cs@) + ")"@,
        Component::NotSingle(cs) => ":not("@ + singles_text(cs@) + ")"@,
        Component::WhereSingle(cs) => ":where("@ + singles_text(cs@) + ")"@,
        Component::Has(rl) => ":has("@ + rels_text(rl.selectors@) + ")"@,
        Component::NthChild(nth) => ":nth-child("@ + nth_text(nth) + ")"@,
        Component::NthLastChild(nth) => ":nth-last-child("@ + nth_text(nth) + ")"@,
        Component::NthOfType(a, b) => ":nth-of-type("@ + anb_text(a, b) + ")"@,
        Component::NthLastOfType(a, b) => ":nth-last-of-type("@ + anb_text(a, b) + ")"@,
        Component::Lang(langs) => ":lang("@ + atoms_text(langs@, ", "@) + ")"@,
        Component::Dir(d) => ":dir("@ + dir_text(d) + ")"@,
        Component::State(n) => ":state("@ + n@ + ")"@,
        Component::Host => ":host"@,
        Component::HostFunction(l) => ":host("@ + sels_text(l.0@) + ")"@,
        Component::HostContext(l) => ":host-context("@ + sels_text(l.0@) + ")"@,
        Component::Slotted(l) => "::slotted("@ + sels_text(l.0@) + ")"@,
        Component::Part(parts) => "::part("@ + atoms_text(parts@, " "@) + ")"@,
        Component::Highlight(n) => "::highlight("@ + n@ + ")"@,
        Component::Nesting => "&"@,
        Component::Combinator(cb) => comb_text(cb),
    }
}

/// The text of `An+B` with a step `A` (other than the `odd` and `even`
/// forms) ends with `B`: with its decimal text when `B` is negative, with
/// `+` and its decimal text when it is positive, and with the `n` of the
/// step when it is zero.
pub proof fn lemma_anb_text_ends_with_offset(a: i32, b: i32)
    requires
        a != 0,
        !(a == 2 && (b == 0 || b == 1)),
    ensures
        b < 0 ==> anb_text(a, b).len() >= decimal_spec(b as int).len() && anb_text(a, b).subrange(
            anb_text(a, b).len() - decimal_spec(b as int).len(),
            anb_text(a, b).len() as int,
        ) == decimal_spec(b as int),
        b > 0 ==> anb_text(a, b).len() >= decimal_spec(b as int).len() + 1 && anb_text(
            a,
            b,
        ).subrange(
            anb_text(a, b).len() - decimal_spec(b as int).len() - 1,
            anb_text(a, b).len() as int,
        ) == seq!['+'] + decimal_spec(b as int),
        b == 0 ==> anb_text(a, b).len() > 0 && anb_text(a, b).last() == 'n',
{
    reveal_strlit("n");
    reveal_strlit("-n");
    reveal_strlit("+");
    let step = if a == 1 {
        "n"@
    } else if a == -1 {
        "-n"@
    } else {
        decimal_spec(a as int) + "n"@
    };
    let t = anb_text(a, b);
    if b < 0 {
        assert(t =~= step + decimal_spec(b as int));
        assert(t.subrange(t.len() - decimal_spec(b as int).len(), t.len() as int) =~= decimal_spec(
            b as int,
        ));
    } else if b > 0 {
        assert(t =~= step + (seq!['+'] + decimal_spec(b as int)));
        assert(t.subrange(t.len() - decimal_spec(b as int).len() - 1, t.len() as int) =~= seq!['+']
            + decimal_spec(b as int));
    } else {
        assert(t =~= step);
    }
}

/// The position of the first `n` in `t`, or its length when it has none.
pub open spec fn first_n(t: Seq<char>) -> int
    decreases t.len(),
{
    if t.len() == 0 {
        0
    } else if t[0] == 'n' {
        0
    } else {
        1 + first_n(t.drop_first())
    }
}

/// Reads the text of `An+B` back into `(A, B)`: `odd` is `(2, 1)`, `even`
/// is `(2, 0)`, text without an `n` is the integer `B` with `A` zero;
/// otherwise the step before the first `n` is `A` (empty for 1, `-` for
/// -1) and what follows it, empty or `+B` or `-B`, is `B`.
pub open spec fn anb_read(t: Seq<char>) -> (int, int) {
    if t == seq!['o', 'd', 'd'] {
        (2, 1)
    } else if t == seq!['e', 'v', 'e', 'n'] {
        (2, 0)
    } else {
        let k = first_n(t);
        if k >= t.len() {
            (0, int_of_decimal(t))
        } else {
            let p = t.subrange(0, k);
            let s = t.subrange(k + 1, t.len() as int);
            (
                if p.len() == 0 {
                    1
                } else if p == seq!['-'] {
                    -1
                } else {
                    int_of_decimal(p)
                },
                if s.len() == 0 {
                    0
                } else if s[0] == '+' {
                    int_of_decimal(s.drop_first())
                } else {
                    int_of_decimal(s)
                },
            )
        }
    }
}

/// No `n` in `t`: the first `n` is past its end.
proof fn lemma_first_n_none(t: Seq<char>)
    requires
        forall|i: int| 0 <= i < t.len() ==> t[i] != 'n',
    ensures
        first_n(t) == t.len(),
    decreases t.len(),
{
    if t.len() > 0 {
        lemma_first_n_none(t.drop_first());
    }
}

/// The first `n` of `p + n + s`, `p` holding none, is at the end of `p`.
proof fn lemma_first_n_after(p: Seq<char>, s: Seq<char>)
    requires
        forall|i: int| 0 <= i < p.len() ==> p[i] != 'n',
    ensures
        first_n(p + seq!['n'] + s) == p.len(),
    decreases p.len(),
{
    let t = p + seq!['n'] + s;
    if p.len() > 0 {
        lemma_first_n_after(p.drop_first(), s);
        assert(t.drop_first() =~= p.drop_first() + seq!['n'] + s);
    }
}

/// The text written for `An+B` reads back as `(A, B)`, for every `A` and
/// `B`: a reader of the text gets the value that was written.
pub proof fn lemma_anb_text_reads_back(a: i32, b: i32)
    ensures
        anb_read(anb_text(a, b)) == (a as int, b as int),
{
    reveal_strlit("odd");
    reveal_strlit("even");
    reveal_strlit("n");
    reveal_strlit("-n");
    reveal_strlit("+");
    lemma_decimal_read_back(a as int);
    lemma_decimal_read_back(b as int);
    let t = anb_text(a, b);
    let da = decimal_spec(a as int);
    let db = decimal_spec(b as int);
    assert(('n' as int) == 110 && ('o' as int) == 111 && ('e' as int) == 101 && ('-' as int)
        == 45 && ('+' as int) == 43);
    if a == 0 {
        assert(t == db);
        assert(t[0] != 'o' && t[0] != 'e');
        assert(t != seq!['o', 'd', 'd']);
        assert(t != seq!['e', 'v', 'e', 'n']);
        assert forall|i: int| 0 <= i < t.len() implies t[i] != 'n' by {
            assert(t[i] == db[i]);
        }
        lemma_first_n_none(t);
        assert(anb_read(t) == (0int, int_of_decimal(t)));
    } else if a == 2 && b == 1 {
        assert(t =~= seq!['o', 'd', 'd']);
    } else if a == 2 && b == 0 {
        assert(t =~= seq!['e', 'v', 'e', 'n']);
    } else {
        let pre = if a == 1 {
            Seq::<char>::empty()
        } else if a == -1 {
            seq!['-']
        } else {
            da
        };
        let suf = if b > 0 {
            seq!['+'] + db
        } else if b < 0 {
            db
        } else {
            Seq::<char>::empty()
        };
        assert(t =~= pre + seq!['n'] + suf);
        assert forall|i: int| 0 <= i < pre.len() implies pre[i] != 'n' by {
            if a != 1 && a != -1 {
                assert(pre[i] == da[i]);
            }
        }
        lemma_first_n_after(pre, suf);
        assert(t[0] != 'o' && t[0] != 'e') by {
            if pre.len() == 0 {
                assert(t[0] == 'n');
            } else {
                assert(t[0] == pre[0]);
                if a != 1 && a != -1 {
                    assert(pre[0] == da[0]);
                }
            }
        }
        assert(t != seq!['o', 'd', 'd']);
        assert(t != seq!['e', 'v', 'e', 'n']);
        let k = pre.len() as int;
        assert(t.subrange(0, k) =~= pre);
        assert(t.subrange(k + 1, t.len() as int) =~= suf);
        if a != 1 && a != -1 {
            assert(pre.len() > 0);
            assert(pre != seq!['-']) by {
                if a < 0 {
                    assert(pre.len() > 1);
                } else {
                    assert(pre[0] != '-');
                }
            }
        }
        if b > 0 {
            assert(suf[0] == '+');
            assert(suf.drop_first() =~= db);
        } else if b < 0 {
            assert(suf[0] == '-');
        }
        assert(first_n(t) == k);
        let ra: int = if pre.len() == 0 {
            1
        } else if pre == seq!['-'] {
            -1
        } else {
            int_of_decimal(pre)
        };
        let rb: int = if suf.len() == 0 {
            0
        } else if suf[0] == '+' {
            int_of_decimal(suf.drop_first())
        } else {
            int_of_decimal(suf)
        };
        assert(ra == a);
        assert(rb == b);
        assert(anb_read(t) == (ra, rb));
    }
}

/// Distinct values of `An+B` are written as distinct texts.
pub proof fn lemma_anb_text_injective(a1: i32, b1: i32, a2: i32, b2: i32)
    requires
        anb_text(a1, b1) == anb_text(a2, b2),
    ensures
        a1 == a2,
        b1 == b2,
{
    lemma_anb_text_reads_back(a1, b1);
    lemma_anb_text_reads_back(a2, b2);
}

/// Writes `An+B`.
pub fn fmt_an_plus_b(out: &mut String, a: i32, b: i32)
    ensures
        final(out)@ == old(out)@ + anb_text(a, b),
{
    if a == 0 {
        push_decimal(out, b as i64);
        return;
    }
    if a == 2 && b == 1 {
        push_str(out, "odd");
        return;
    }
    if a == 2 && b == 0 {
        push_str(out, "even");
        return;
    }
    if a == 1 {
        push_str(out, "n");
    } else if a == -1 {
        push_str(out, "-n");
    } else {
        push_decimal(out, a as i64);
        push_str(out, "n");
    }
    let ghost mid = out@;
    if b > 0 {
        push_str(out, "+");
        push_decimal(out, b as i64);
    } else if b < 0 {
        push_decimal(out, b as i64);
    }
    assert(out@ =~= old(out)@ + anb_text(a, b));
}

fn write_escaped(out: &mut String, v: &str)
    ensures
        final(out)@ == old(out)@ + escape_quotes(v@),
{
    let cs = crate::text::chars_of(v);
    let mut i: usize = 0;
    proof {
        assert(cs@.skip(0) =~= cs@);
    }
    while i < cs.len()
        invariant
            i <= cs@.len(),
            cs@ == v@,
            old(out)@ + escape_quotes(v@) == out@ + escape_quotes(cs@.skip(i as int)),
        decreases cs@.len() - i,
    {
        proof {
            assert(cs@.skip(i as int).drop_first() =~= cs@.skip(i as int + 1));
        }
        if cs[i] == '"' {
            push_char(out, '\\');
            push_char(out, '"');
        } else {
            push_char(out, cs[i]);
        }
        i = i + 1;
        proof {
            assert(out@ + escape_quotes(cs@.skip(i as int)) =~= old(out)@ + escape_quotes(v@));
        }
    }
    proof {
        assert(cs@.skip(i as int) =~= Seq::<char>::empty());
        assert(out@ =~= old(out)@ + escape_quotes(v@));
    }
}

fn write_attr(out: &mut String, a: &AttrSelector)
    ensures
        final(out)@ == old(out)@ + attr_text(*a),
{
    match &a.operation {
        AttrOperation::Exists => {
            push_str(out, "[");
            push_str(out, a.name.as_str());
            push_str(out, "]");
            assert(out@ =~= old(out)@ + attr_text(*a));
        },
        op => {
            let (sym, val, cs): (&str, &Atom, CaseSensitivity) = match op {
                AttrOperation::Equals(v, c) => ("=", v, *c),
                AttrOperation::Includes(v, c) => ("~=", v, *c),
                AttrOperation::DashMatch(v, c) => ("|=", v, *c),
                AttrOperation::Prefix(v, c) => ("^=", v, *c),
                AttrOperation::Suffix(v, c) => ("$=", v, *c),
                AttrOperation::Substring(v, c) => ("*=", v, *c),
                AttrOperation::Exists => ("", &a.name, CaseSensitivity::CaseSensitive),
            };
            proof {
                assert(attr_op_parts(*op) == (sym@, val@, cs));
            }
            push_str(out, "[");
            push_str(out, a.name.as_str());
            push_str(out, sym);
            push_str(out, "\"");
            write_escaped(out, val.as_str());
            push_str(out, "\"");
            match cs {
                CaseSensitivity::AsciiCaseInsensitive => push_str(out, " i"),
                CaseSensitivity::CaseSensitive => {},
            }
            push_str(out, "]");
            assert(out@ =~= old(out)@ + attr_text(*a));
        },
    }
}

fn write_atoms(out: &mut String, atoms: &[Atom], sep: &str)
    ensures
        final(out)@ == old(out)@ + atoms_text(atoms@, sep@),
    decreases atoms@.len(),
{
    if atoms.len() == 0 {
        assert(out@ =~= old(out)@ + atoms_text(atoms@, sep@));
        return;
    }
    push_str(out, atoms[0].as_str());
    if atoms.len() == 1 {
        return;
    }
    push_str(out, sep);
    let rest = vstd::slice::slice_subrange(atoms, 1, atoms.len());
    assert(rest@ =~= atoms@.drop_first());
    write_atoms(out, rest, sep);
    assert(out@ =~= old(out)@ + atoms_text(atoms@, sep@));
}

fn write_comb(out: &mut String, c: Combinator)
    ensures
        final(out)@ == old(out)@ + comb_text(c),
{
    match c {
        Combinator::Descendant => push_str(out, " "),
        Combinator::Child => push_str(out, " > "),
        Combinator::NextSibling => push_str(out, " + "),
        Combinator::LaterSibling => push_str(out, " ~ "),
        Combinator::Column => push_str(out, " || "),
    }
}

fn write_sel(out: &mut String, sel: &Selector)
    ensures
        final(out)@ == old(out)@ + sel_text(*sel),
    decreases sel, 1nat,
{
    write_comps_rev(out, sel.comps.as_slice());
}

fn write_comps_rev(out: &mut String, comps: &[Component])
    ensures
        final(out)@ == old(out)@ + comps_rev_text(comps@),
    decreases comps@, 0nat,
{
    if comps.len() == 0 {
        assert(out@ =~= old(out)@ + comps_rev_text(comps@));
        return;
    }
    let rest = vstd::slice::slice_subrange(comps, 1, comps.len());
    assert(rest@ =~= comps@.drop_first());
    write_comps_rev(out, rest);
    write_comp(out, &comps[0]);
    assert(out@ =~= old(out)@ + comps_rev_text(comps@));
}

fn write_sels(out: &mut String, sels: &[Selector])
    ensures
        final(out)@ == old(out)@ + sels_text(sels@),
    decreases sels@, 0nat,
{
    if sels.len() == 0 {
        assert(out@ =~= old(out)@ + sels_text(sels@));
        return;
    }
    write_sel(out, &sels[0]);
    if sels.len() == 1 {
        return;
    }
    push_str(out, ", ");
    let rest = vstd::slice::slice_subrange(sels, 1, sels.len());
    assert(rest@ =~= sels@.drop_first());
    write_sels(out, rest);
    assert(out@ =~= old(out)@ + sels_text(sels@));
}

fn write_singles(out: &mut String, comps: &[Component])
    ensures
        final(out)@ == old(out)@ + singles_text(comps@),
    decreases comps@, 0nat,
{
    if comps.len() == 0 {
        assert(out@ =~= old(out)@ + singles_text(comps@));
        return;
    }
    write_comp(out, &comps[0]);
    if comps.len() == 1 {
        return;
    }
    push_str(out, ", ");
    let rest = vstd::slice::slice_subrange(comps, 1, comps.len());
    assert(rest@ =~= comps@.drop_first());
    write_singles(out, rest);
    assert(out@ =~= old(out)@ + singles_text(comps@));
}

fn write_rel(out: &mut String, rel: &RelativeSelector)
    ensures
        final(out)@ == old(out)@ + rel_text(*rel),
    decreases rel, 0nat,
{
    match rel.combinator {
        Combinator::Descendant => {},
        Combinator::Child => push_str(out, "> "),
        Combinator::NextSibling => push_str(out, "+ "),
        Combinator::LaterSibling => push_str(out, "~ "),
        Combinator::Column => push_str(out, "|| "),
    }
    write_sel(out, &rel.selector);
    assert(out@ =~= old(out)@ + rel_text(*rel));
}

fn write_rels(out: &mut String, rels: &[RelativeSelector])
    ensures
        final(out)@ == old(out)@ + rels_text(rels@),
    decreases rels@, 0nat,
{
    if rels.len() == 0 {
        assert(out@ =~= old(out)@ + rels_text(rels@));
        return;
    }
    write_rel(out, &rels[0]);
    if rels.len() == 1 {
        return;
    }
    push_str(out, ", ");
    let rest = vstd::slice::slice_subrange(rels, 1, rels.len());
    assert(rest@ =~= rels@.drop_first());
    write_rels(out, rest);
    assert(out@ =~= old(out)@ + rels_text(rels@));
}

fn write_nth(out: &mut String, nth: &NthData)
    ensures
        final(out)@ == old(out)@ + nth_text(*nth),
    decreases nth, 0nat,
{
    fmt_an_plus_b(out, nth.a, nth.b);
    match &nth.of_selector {
        Some(l) => {
            push_str(out, " of ");
            write_sels(out, l.0.as_slice());
        },
        None => {},
    }
    assert(out@ =~= old(out)@ + nth_text(*nth));
}

fn write_wrapped_sels(out: &mut String, open: &str, sels: &[Selector])
    ensures
        final(out)@ == old(out)@ + open@ + sels_text(sels@) + ")"@,
    decreases sels@, 1nat,
{
    push_str(out, open);
    write_sels(out, sels);
    push_str(out, ")");
    assert(out@ =~= old(out)@ + open@ + sels_text(sels@) + ")"@);
}

fn write_wrapped_singles(out: &mut String, open: &str, comps: &[Component])
    ensures
        final(out)@ == old(out)@ + open@ + singles_text(comps@) + ")"@,
    decreases comps@, 1nat,
{
    push_str(out, open);
    write_singles(out, comps);
    push_str(out, ")");
    assert(out@ =~= old(out)@ + open@ + singles_text(comps@) + ")"@);
}

fn write_comp(out: &mut String, c: &Component)
    ensures
        final(out)@ == old(out)@ + comp_text(*c),
    decreases c, 0nat,
{
    match c {
        Component::Universal => push_str(out, "*"),
        Component::Type(n) => push_str(out, n.as_str()),
        Component::Id(i) => {
            push_str(out, "#");
            push_str(out, i.as_str());
        },
        Component::Class(k) => {
            push_str(out, ".");
            push_str(out, k.as_str());
        },
        Component::Namespace(ns) => match ns {
            NamespaceConstraint::Any => push_str(out, "*|"),
            NamespaceConstraint::NoNamespace => push_str(out, "|"),
            NamespaceConstraint::Specific(u) => {
                push_str(out, u.as_str());
                push_str(out, "|");
            },
        },
        Component::Attribute(a) => write_attr(out, a),
        Component::PseudoClass(pc) => {
            push_str(out, ":");
            push_str(out, pc.css_name());
        },
        Component::PseudoElement(pe) => {
            push_str(out, "::");
            push_str(out, pe.css_name());
        },
        Component::Negation(l) => write_wrapped_sels(out, ":not(", l.0.as_slice()),
        Component::Is(l) => write_wrapped_sels(out, ":is(", l.0.as_slice()),
        Component::Where(l) => write_wrapped_sels(out, ":where(", l.0.as_slice()),
        Component::IsSingle(cs) => write_wrapped_singles(out, ":is(", cs.as_slice()),
        Component::NotSingle(cs) => write_wrapped_singles(out, ":not(", cs.as_slice()),
        Component::WhereSingle(cs) => write_wrapped_singles(out, ":where(", cs.as_slice()),
        Component::Has(rl) => {
            push_str(out, ":has(");
            write_rels(out, rl.selectors.as_slice());
            push_str(out, ")");
        },
        Component::NthChild(nth) => {
            push_str(out, ":nth-child(");
            write_nth(out, nth);
            push_str(out, ")");
        },
        Component::NthLastChild(nth) => {
            push_str(out, ":nth-last-child(");
            write_nth(out, nth);
            push_str(out, ")");
        },
        Component::NthOfType(a, b) => {
            push_str(out, ":nth-of-type(");
            fmt_an_plus_b(out, *a, *b);
            push_str(out, ")");
        },
        Component::NthLastOfType(a, b) => {
            push_str(out, ":nth-last-of-type(");
            fmt_an_plus_b(out, *a, *b);
            push_str(out, ")");
        },
        Component::Lang(langs) => {
            push_str(out, ":lang(");
            write_atoms(out, langs.as_slice(), ", ");
            push_str(out, ")");
        },
        Component::Dir(d) => {
            push_str(out, ":dir(");
            match d {
                Direction::Ltr => push_str(out, "ltr"),
                Direction::Rtl => push_str(out, "rtl"),
            }
            push_str(out, ")");
        },
        Component::State(n) => {
            push_str(out, ":state(");
            push_str(out, n.as_str());
            push_str(out, ")");
        },
        Component::Host => push_str(out, ":host"),
        Component::HostFunction(l) => write_wrapped_sels(out, ":host(", l.0.as_slice()),
        Component::HostContext(l) => write_wrapped_sels(out, ":host-context(", l.0.as_slice()),
        Component::Slotted(l) => write_wrapped_sels(out, "::slotted(", l.0.as_slice()),
        Component::Part(parts) => {
            push_str(out, "::part(");
            write_atoms(out, parts.as_slice(), " ");
            push_str(out, ")");
        },
        Component::Highlight(n) => {
            push_str(out, "::highlight(");
            push_str(out, n.as_str());
            push_str(out, ")");
        },
        Component::Nesting => push_str(out, "&"),
        Component::Combinator(cb) => write_comb(out, *cb),
    }
    assert(out@ =~= old(out)@ + comp_text(*c));
}

impl SelectorList {
    /// The CSS text of this list: selectors joined by `, `.
    pub fn to_css_string(&self) -> (r: String)
        ensures
            r@ == sels_text(self.0@),
    {
        let mut out = String::new();
        write_sels(&mut out, self.0.as_slice());
        out
    }
}

impl Selector {
    /// The CSS text of this selector, left to right.
    pub fn to_css_string(&self) -> (r: String)
        ensures
            r@ == sel_text(*self),
    {
        let mut out = String::new();
        write_sel(&mut out, self);
        out
    }
}

impl Component {
    /// The CSS text of this component.
    pub fn to_css_string(&self) -> (r: String)
        ensures
            r@ == comp_text(*self),
    {
        let mut out = String::new();
        write_comp(&mut out, self);
        out
    }
}

impl Combinator {
    /// The CSS text of this combinator, with its surrounding spaces.
    pub fn to_css_string(&self) -> (r: String)
        ensures
            r@ == comb_text(*self),
    {
        let mut out = String::new();
        write_comb(&mut out, *self);
        out
    }
}

impl RelativeSelectorList {
    /// The CSS text of this list.
    pub fn to_css_string(&self) -> (r: String)
        ensures
            r@ == rels_text(self.selectors@),
    {
        let mut out = String::new();
        write_rels(&mut out, self.selectors.as_slice());
        out
    }
}

impl NthData {
    /// The CSS text `An+B [of S]`.
    pub fn to_css_string(&self) -> (r: String)
        ensures
            r@ == nth_text(*self),
    {
        let mut out = String::new();
        write_nth(&mut out, self);
        out
    }
}

impl Direction {
    /// `ltr` or `rtl`.
    pub fn to_css_string(&self) -> (r: String)
        ensures
            r@ == dir_text(*self),
    {
        let mut out = String::new();
        match self {
            Direction::Ltr => push_str(&mut out, "ltr"),
            Direction::Rtl => push_str(&mut out, "rtl"),
        }
        out
    }
}

impl PseudoClass {
    /// The CSS name of this pseudo-class, without the colon.
    pub fn to_css_string(&self) -> (r: String)
        ensures
            r@ == spec_pc_name(*self),
    {
        let mut out = String::new();
        push_str(&mut out, self.css_name());
        out
    }
}

impl PseudoElement {
    /// The CSS name of this pseudo-element, without the colons.
    pub fn to_css_string(&self) -> (r: String)
        ensures
            r@ == spec_pe_name(*self),
    {
        let mut out = String::new();
        push_str(&mut out, self.css_name());
        out
    }
}

impl AttrSelector {
    /// The CSS text of this attribute selector; values are quoted.
    pub fn to_css_string(&self) -> (r: String)
        ensures
            r@ == attr_text(*self),
    {
        let mut out = String::new();
        write_attr(&mut out, self);
        out
    }
}

} // verus!
