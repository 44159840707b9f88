use kozan_selector::css_token::{tokenize, TokenKind};
use kozan_selector::attr::{AttrOperation, CaseSensitivity};
use kozan_selector::parser::{parse, parse_forgiving, parse_pseudo_class_name, parse_pseudo_element_name};
use kozan_selector::pseudo_class::PseudoClass;
use kozan_selector::pseudo_element::PseudoElement;
use kozan_selector::specificity::Specificity;
use kozan_selector::types::{Combinator, Component, NamespaceConstraint, SelectorList};
fn p(css: &str) -> SelectorList {
    parse(css).unwrap_or_else(|e| panic!("Failed to parse '{css}': {e}"))
}

fn first(css: &str) -> &[Component] {
    let list = Box::leak(Box::new(p(css)));
    list.0[0].components()
}

#[test]
fn type_selector() {
    let c = first("div");
    assert_eq!(c.len(), 1);
    assert!(matches!(&c[0], Component::Type(a) if a.as_str() == "div"));
}

#[test]
fn class_selector() {
    let c = first(".foo");
    assert_eq!(c.len(), 1);
    assert!(matches!(&c[0], Component::Class(a) if a.as_str() == "foo"));
}

#[test]
fn id_selector() {
    let c = first("#bar");
    assert_eq!(c.len(), 1);
    assert!(matches!(&c[0], Component::Id(a) if a.as_str() == "bar"));
}

#[test]
fn compound_no_space() {
    let c = first("div.foo#bar");
    assert_eq!(c.len(), 3);
    assert!(c.iter().all(|c| !matches!(c, Component::Combinator(_))));
}

#[test]
fn descendant() {
    let c = first("div .foo");
    assert_eq!(c.len(), 3);
    assert!(matches!(&c[0], Component::Class(a) if a.as_str() == "foo"));
    assert!(matches!(&c[1], Component::Combinator(Combinator::Descendant)));
    assert!(matches!(&c[2], Component::Type(a) if a.as_str() == "div"));
}

#[test]
fn child_combinator() {
    let c = first("div > .foo");
    assert!(c.iter().any(|c| matches!(c, Component::Combinator(Combinator::Child))));
}

#[test]
fn adjacent_sibling() {
    let c = first("div + .foo");
    assert!(c.iter().any(|c| matches!(c, Component::Combinator(Combinator::NextSibling))));
}

#[test]
fn general_sibling() {
    let c = first("div ~ .foo");
    assert!(c.iter().any(|c| matches!(c, Component::Combinator(Combinator::LaterSibling))));
}

#[test]
fn universal() {
    let c = first("*");
    assert_eq!(c.len(), 1);
    assert!(matches!(&c[0], Component::Universal));
}

#[test]
fn pseudo_class_hover() {
    let c = first(":hover");
    assert!(matches!(&c[0], Component::PseudoClass(PseudoClass::Hover)));
}

#[test]
fn pseudo_element_double_colon() {
    let c = first("::before");
    assert!(matches!(&c[0], Component::PseudoElement(PseudoElement::Before)));
}

#[test]
fn pseudo_element_single_colon() {
    let c = first(":after");
    assert!(matches!(&c[0], Component::PseudoElement(PseudoElement::After)));
}

#[test]
fn attribute_exists() {
    let c = first("[disabled]");
    assert!(matches!(&c[0], Component::Attribute(a) if matches!(a.operation, AttrOperation::Exists)));
}

#[test]
fn attribute_equals() {
    let c = first("[type=text]");
    assert!(matches!(&c[0], Component::Attribute(a)
        if matches!(&a.operation, AttrOperation::Equals(v, _) if v.as_str() == "text")));
}

#[test]
fn negation() {
    let c = first(":not(.foo)");
    assert!(matches!(&c[0], Component::Negation(_)));
}

#[test]
fn is_selector() {
    let c = first(":is(.foo, .bar)");
    // Flattened to IsSingle (all sub-selectors are single-component)
    assert!(matches!(&c[0], Component::IsSingle(_)));
}

#[test]
fn where_selector() {
    let c = first(":where(.foo)");
    assert!(matches!(&c[0], Component::Where(_)));
}

#[test]
fn has_child() {
    let c = first(":has(> .bar)");
    assert!(matches!(&c[0], Component::Has(_)));
}

#[test]
fn nth_child() {
    let c = first(":nth-child(2n+1)");
    assert!(matches!(&c[0], Component::NthChild(nth) if nth.a == 2 && nth.b == 1));
}

#[test]
fn selector_list_comma() {
    let list = p("div, .foo, #bar");
    assert_eq!(list.0.len(), 3);
}

#[test]
fn specificity_id() {
    assert_eq!(p("#id").0[0].specificity().components(), (1, 0, 0));
}

#[test]
fn specificity_class() {
    assert_eq!(p(".class").0[0].specificity().components(), (0, 1, 0));
}

#[test]
fn specificity_type() {
    assert_eq!(p("div").0[0].specificity().components(), (0, 0, 1));
}

#[test]
fn specificity_compound() {
    assert_eq!(p("div.foo#bar").0[0].specificity().components(), (1, 1, 1));
}

#[test]
fn specificity_where_zero() {
    assert_eq!(p(":where(.foo, #bar)").0[0].specificity().components(), (0, 0, 0));
}

#[test]
fn complex_selector() {
    let c = first("div > .container .item:hover");
    // Right-to-left: Hover, Class(item), Descendant, Class(container), Child, Type(div)
    assert!(c.len() >= 6);
    assert!(matches!(&c[0], Component::PseudoClass(PseudoClass::Hover)));
    assert!(matches!(&c[1], Component::Class(a) if a.as_str() == "item"));
    assert!(matches!(&c[2], Component::Combinator(Combinator::Descendant)));
}

#[test]
fn deep_nesting() {
    let c = first("html body div ul li a span");
    // 7 types + 6 descendant combinators = 13 components
    assert_eq!(c.len(), 13);
}

#[test]
fn multiple_classes() {
    let c = first(".a.b.c");
    assert_eq!(c.len(), 3);
    assert!(c.iter().all(|c| matches!(c, Component::Class(_))));
}

#[test]
fn attribute_case_insensitive() {
    let c = first("[type=text i]");
    assert!(matches!(&c[0], Component::Attribute(a)
        if matches!(&a.operation, AttrOperation::Equals(_, CaseSensitivity::AsciiCaseInsensitive))));
}

#[test]
fn attribute_prefix() {
    let c = first("[class^=btn]");
    assert!(matches!(&c[0], Component::Attribute(a)
        if matches!(&a.operation, AttrOperation::Prefix(v, _) if v.as_str() == "btn")));
}

#[test]
fn nth_child_of_selector() {
    let c = first(":nth-child(2n+1 of .active)");
    if let Component::NthChild(nth) = &c[0] {
        assert_eq!(nth.a, 2);
        assert_eq!(nth.b, 1);
        assert!(nth.of_selector.is_some());
    } else {
        panic!("expected NthChild");
    }
}

// ---------------------------------------------------------------
// Round-trip serialization tests: parse → Display → re-parse
// ---------------------------------------------------------------

/// Parse → serialize → re-parse and check structural equality.
fn round_trip(css: &str) {
    let list1 = p(css);
    let serialized = list1.to_css_string();
    let list2 = parse(&serialized).unwrap_or_else(|e| {
        panic!("Round-trip failed for '{css}' → '{serialized}': {e}")
    });
    assert_eq!(
        list1.0.len(),
        list2.0.len(),
        "Different selector count: '{css}' → '{serialized}'"
    );
    for (s1, s2) in list1.0.iter().zip(list2.0.iter()) {
        assert_eq!(
            s1.specificity(),
            s2.specificity(),
            "Specificity mismatch: '{css}' → '{serialized}'"
        );
        assert_eq!(
            s1.components().len(),
            s2.components().len(),
            "Component count mismatch: '{css}' → '{serialized}'"
        );
    }
}

#[test]
fn round_trip_simple() {
    round_trip("div");
    round_trip(".foo");
    round_trip("#bar");
    round_trip("*");
}

#[test]
fn round_trip_compound() {
    round_trip("div.foo");
    round_trip("div#main.active");
}

#[test]
fn round_trip_combinators() {
    round_trip("div > .foo");
    round_trip("div .foo");
    round_trip("div + .foo");
    round_trip("div ~ .foo");
}

#[test]
fn round_trip_pseudo_classes() {
    round_trip(":hover");
    round_trip(":first-child");
    round_trip(":last-child");
    round_trip(":only-child");
    round_trip(":root");
    round_trip(":empty");
    round_trip(":focus-within");
}

#[test]
fn round_trip_pseudo_elements() {
    round_trip("::before");
    round_trip("::after");
    round_trip("::first-line");
    round_trip("::placeholder");
}

#[test]
fn round_trip_functional() {
    round_trip(":not(.foo)");
    round_trip(":is(.foo, .bar)");
    round_trip(":where(.foo)");
    round_trip(":nth-child(odd)");
    round_trip(":nth-child(even)");
    round_trip(":nth-child(3)");
    round_trip(":nth-child(2n+1)");
    round_trip(":nth-of-type(2n)");
    round_trip(":lang(en)");
    round_trip(":dir(ltr)");
    round_trip(":dir(rtl)");
}

#[test]
fn round_trip_attribute() {
    round_trip("[disabled]");
    round_trip("[type=text]");
    round_trip("[class^=btn]");
    round_trip("[data-x$=end]");
    round_trip("[title*=hello]");
}

#[test]
fn round_trip_selector_list() {
    round_trip("div, .foo, #bar");
    round_trip("a:hover, a:focus");
}

#[test]
fn round_trip_complex() {
    round_trip("div > .container .item:hover");
    round_trip("html body div ul li a span");
    round_trip(":not(.hidden):first-child");
}

// ---------------------------------------------------------------
// Specificity edge cases
// ---------------------------------------------------------------

#[test]
fn specificity_not_max() {
    // :not(#id) → max specificity of arguments = (1,0,0).
    // Per spec, :not() contributes the specificity of its most specific argument.
    assert_eq!(p(":not(#id)").0[0].specificity().components(), (1, 0, 0));
}

#[test]
fn specificity_is_max() {
    // :is(.a, #b) → max(0,1,0 and 1,0,0) = (1,0,0).
    // Per spec, :is() contributes the specificity of its most specific argument.
    let s = p(":is(.a, #b)").0[0].specificity();
    assert_eq!(s.components(), (1, 0, 0));
}

#[test]
fn specificity_nested_pseudo_element() {
    // ::before adds (0,0,1)
    assert_eq!(p("div::before").0[0].specificity().components(), (0, 0, 2));
}

#[test]
fn specificity_nth_child_of() {
    // :nth-child(2n of .active) → class for nth + class for .active
    let s = p(":nth-child(2n of .active)").0[0].specificity();
    assert!(s.components().1 >= 1);
}

// ---------------------------------------------------------------
// Error handling
// ---------------------------------------------------------------

#[test]
fn invalid_selector_errors() {
    assert!(parse("").is_err());
    assert!(parse("!!!").is_err());
    assert!(parse(":unknown-pseudo").is_err());
    assert!(parse("::unknown-element").is_err());
}

// ---------------------------------------------------------------
// Namespace selectors
// ---------------------------------------------------------------

#[test]
fn namespace_specific() {
    // `svg|rect` → Namespace(Specific("svg")), Type("rect")
    let c = first("svg|rect");
    assert!(c.iter().any(|c| matches!(c, Component::Namespace(ns) if matches!(ns, NamespaceConstraint::Specific(n) if n.as_str() == "svg"))));
    assert!(c.iter().any(|c| matches!(c, Component::Type(t) if t.as_str() == "rect")));
}

#[test]
fn namespace_any() {
    // `*|div` → Namespace(Any), Type("div")
    let c = first("*|div");
    assert!(c.iter().any(|c| matches!(c, Component::Namespace(ns) if matches!(ns, NamespaceConstraint::Any))));
    assert!(c.iter().any(|c| matches!(c, Component::Type(t) if t.as_str() == "div")));
}

#[test]
fn namespace_none() {
    // `|div` → Namespace(None), Type("div")
    let c = first("|div");
    assert!(c.iter().any(|c| matches!(c, Component::Namespace(ns) if matches!(ns, NamespaceConstraint::NoNamespace))));
    assert!(c.iter().any(|c| matches!(c, Component::Type(t) if t.as_str() == "div")));
}

#[test]
fn namespace_any_universal() {
    // `*|*` → Namespace(Any), Universal
    let c = first("*|*");
    assert!(c.iter().any(|c| matches!(c, Component::Namespace(ns) if matches!(ns, NamespaceConstraint::Any))));
    assert!(c.iter().any(|c| matches!(c, Component::Universal)));
}

#[test]
fn plain_type_no_namespace() {
    // `div` — no namespace component emitted.
    let c = first("div");
    assert!(!c.iter().any(|c| matches!(c, Component::Namespace(_))));
}

// ---------------------------------------------------------------
// New pseudo-classes
// ---------------------------------------------------------------

#[test]
fn media_pseudo_classes() {
    assert!(parse(":playing").is_ok());
    assert!(parse(":paused").is_ok());
    assert!(parse(":seeking").is_ok());
    assert!(parse(":buffering").is_ok());
    assert!(parse(":stalled").is_ok());
    assert!(parse(":muted").is_ok());
    assert!(parse(":volume-locked").is_ok());
    assert!(parse(":blank").is_ok());
}

#[test]
fn backdrop_pseudo_element() {
    let c = first("::backdrop");
    assert!(matches!(&c[0], Component::PseudoElement(PseudoElement::Backdrop)));
}

#[test]
fn range_and_open_pseudo_classes() {
    assert!(parse(":in-range").is_ok());
    assert!(parse(":out-of-range").is_ok());
    assert!(parse(":open").is_ok());
    assert!(parse(":closed").is_ok());

    // Verify state flags are assigned.
    let list = parse(":in-range").unwrap();
    let c = list.0[0].components();
    assert!(matches!(&c[0], Component::PseudoClass(PseudoClass::InRange)));

    let list = parse(":open").unwrap();
    let c = list.0[0].components();
    assert!(matches!(&c[0], Component::PseudoClass(PseudoClass::Open)));
}

#[test]
fn round_trip_new_pseudo_classes() {
    for input in [":in-range", ":out-of-range", ":open", ":closed", ":picture-in-picture"] {
        let list = parse(input).unwrap();
        let output = list.0[0].to_css_string();
        assert_eq!(input, output, "Round-trip failed for {input}");
    }
}

#[test]
fn round_trip_new_pseudo_elements() {
    for input in ["::file-selector-button", "::grammar-error", "::spelling-error"] {
        let list = parse(input).unwrap();
        let output = list.0[0].to_css_string();
        assert_eq!(input, output, "Round-trip failed for {input}");
    }
}

#[test]
fn namespace_round_trip() {
    // *|div — any namespace
    let list = parse("*|div").unwrap();
    let output = list.0[0].to_css_string();
    assert_eq!("*|div", output);

    // |div — no namespace
    let list = parse("|div").unwrap();
    let output = list.0[0].to_css_string();
    assert_eq!("|div", output);
}

// ===============================================================
// New feature tests — CSS Selectors Level 4 additions
// ===============================================================

// ---------------------------------------------------------------
// :lang() comma-separated list
// ---------------------------------------------------------------

#[test]
fn lang_single() {
    let c = first(":lang(en)");
    assert!(matches!(&c[0], Component::Lang(langs) if langs.len() == 1 && langs[0].as_str() == "en"));
}

#[test]
fn lang_multiple() {
    let c = first(":lang(en, fr, zh)");
    if let Component::Lang(langs) = &c[0] {
        assert_eq!(langs.len(), 3);
        assert_eq!(langs[0].as_str(), "en");
        assert_eq!(langs[1].as_str(), "fr");
        assert_eq!(langs[2].as_str(), "zh");
    } else {
        panic!("expected Lang");
    }
}

#[test]
fn lang_round_trip() {
    let list = p(":lang(en)");
    let s = list.0[0].to_css_string();
    assert_eq!(s, ":lang(en)");

    let list = p(":lang(en, fr)");
    let s = list.0[0].to_css_string();
    assert_eq!(s, ":lang(en, fr)");
}

#[test]
fn lang_specificity() {
    // :lang() counts as 1 class
    assert_eq!(p(":lang(en, fr)").0[0].specificity().components(), (0, 1, 0));
}

// ---------------------------------------------------------------
// parse_forgiving() public API
// ---------------------------------------------------------------

#[test]
fn forgiving_valid() {
    let list = parse_forgiving("div, .foo, #bar");
    assert_eq!(list.0.len(), 3);
}

#[test]
fn forgiving_partial_invalid() {
    // Invalid selectors silently dropped, valid kept
    let list = parse_forgiving("div, !!invalid!!, .foo");
    assert!(list.0.len() >= 1); // At least the valid ones survive
}

#[test]
fn forgiving_all_invalid() {
    let list = parse_forgiving("!!!, @@@, $$$");
    assert_eq!(list.0.len(), 0); // Empty — matches nothing
}

// ---------------------------------------------------------------
// :state() custom state pseudo-class
// ---------------------------------------------------------------

#[test]
fn state_parse() {
    let c = first(":state(loading)");
    assert!(matches!(&c[0], Component::State(name) if name.as_str() == "loading"));
}

#[test]
fn state_specificity() {
    // :state() counts as 1 class
    assert_eq!(p(":state(foo)").0[0].specificity().components(), (0, 1, 0));
}

#[test]
fn state_round_trip() {
    let list = p(":state(loading)");
    let s = list.0[0].to_css_string();
    assert_eq!(s, ":state(loading)");
}

// ---------------------------------------------------------------
// ::highlight(name)
// ---------------------------------------------------------------

#[test]
fn highlight_parse() {
    let c = first("::highlight(search-result)");
    assert!(matches!(&c[0], Component::Highlight(name) if name.as_str() == "search-result"));
}

#[test]
fn highlight_specificity() {
    // ::highlight counts as type (0,0,1) like all pseudo-elements
    assert_eq!(p("::highlight(foo)").0[0].specificity().components(), (0, 0, 1));
}

#[test]
fn highlight_round_trip() {
    let list = p("::highlight(search-result)");
    let s = list.0[0].to_css_string();
    assert_eq!(s, "::highlight(search-result)");
}

// ---------------------------------------------------------------
// Shadow DOM: :host, :host(), :host-context()
// ---------------------------------------------------------------

#[test]
fn host_bare() {
    let c = first(":host");
    assert!(matches!(&c[0], Component::Host));
}

#[test]
fn host_function() {
    let c = first(":host(.active)");
    assert!(matches!(&c[0], Component::HostFunction(_)));
}

#[test]
fn host_context() {
    let c = first(":host-context(.dark-theme)");
    assert!(matches!(&c[0], Component::HostContext(_)));
}

#[test]
fn host_specificity() {
    // :host = 1 class
    assert_eq!(p(":host").0[0].specificity().components(), (0, 1, 0));
    // :host(.foo) = 1 class for :host + max specificity of args
    let s = p(":host(.active)").0[0].specificity();
    assert!(s.components().1 >= 1);
}

#[test]
fn host_round_trip() {
    let list = p(":host");
    assert_eq!(list.0[0].to_css_string(), ":host");

    let list = p(":host(.foo)");
    assert_eq!(list.0[0].to_css_string(), ":host(.foo)");

    let list = p(":host-context(.dark)");
    assert_eq!(list.0[0].to_css_string(), ":host-context(.dark)");
}

// ---------------------------------------------------------------
// Shadow DOM: ::slotted(), ::part()
// ---------------------------------------------------------------

#[test]
fn slotted_parse() {
    let c = first("::slotted(.item)");
    assert!(matches!(&c[0], Component::Slotted(_)));
}

#[test]
fn slotted_specificity() {
    // ::slotted contributes to type column + inner specificity
    let s = p("::slotted(.item)").0[0].specificity();
    assert!(s.components().2 >= 1); // type column
}

#[test]
fn part_single() {
    let c = first("::part(header)");
    if let Component::Part(parts) = &c[0] {
        assert_eq!(parts.len(), 1);
        assert_eq!(parts[0].as_str(), "header");
    } else {
        panic!("expected Part");
    }
}

#[test]
fn part_multiple() {
    let c = first("::part(header footer)");
    if let Component::Part(parts) = &c[0] {
        assert_eq!(parts.len(), 2);
        assert_eq!(parts[0].as_str(), "header");
        assert_eq!(parts[1].as_str(), "footer");
    } else {
        panic!("expected Part");
    }
}

#[test]
fn part_specificity() {
    // ::part contributes to type column
    let s = p("::part(header)").0[0].specificity();
    assert_eq!(s.components().2, 1);
}

#[test]
fn shadow_dom_round_trip() {
    let list = p("::slotted(.item)");
    assert_eq!(list.0[0].to_css_string(), "::slotted(.item)");

    let list = p("::part(header)");
    assert_eq!(list.0[0].to_css_string(), "::part(header)");

    let list = p("::part(header footer)");
    assert_eq!(list.0[0].to_css_string(), "::part(header footer)");
}

// ---------------------------------------------------------------
// :target-within, :local-link, :current, :past, :future
// ---------------------------------------------------------------

#[test]
fn target_within_parse() {
    let c = first(":target-within");
    assert!(matches!(&c[0], Component::PseudoClass(PseudoClass::TargetWithin)));
}

#[test]
fn local_link_parse() {
    let c = first(":local-link");
    assert!(matches!(&c[0], Component::PseudoClass(PseudoClass::LocalLink)));
}

#[test]
fn time_dimensional_parse() {
    let c = first(":current");
    assert!(matches!(&c[0], Component::PseudoClass(PseudoClass::Current)));
    let c = first(":past");
    assert!(matches!(&c[0], Component::PseudoClass(PseudoClass::Past)));
    let c = first(":future");
    assert!(matches!(&c[0], Component::PseudoClass(PseudoClass::Future)));
}

#[test]
fn new_pseudo_class_specificity() {
    // All non-functional pseudo-classes = 1 class
    for sel in [":target-within", ":local-link", ":current", ":past", ":future"] {
        assert_eq!(p(sel).0[0].specificity().components(), (0, 1, 0), "specificity for {sel}");
    }
}

#[test]
fn new_pseudo_class_round_trip() {
    for sel in [":target-within", ":local-link", ":current", ":past", ":future"] {
        let list = p(sel);
        let s = list.0[0].to_css_string();
        assert_eq!(sel, s, "round-trip for {sel}");
    }
}

// ---------------------------------------------------------------
// Column combinator ||
// ---------------------------------------------------------------

#[test]
fn column_combinator_parse() {
    let c = first("col || td");
    assert!(c.iter().any(|c| matches!(c, Component::Combinator(Combinator::Column))));
    assert!(c.iter().any(|c| matches!(c, Component::Type(t) if t.as_str() == "col")));
    assert!(c.iter().any(|c| matches!(c, Component::Type(t) if t.as_str() == "td")));
}

#[test]
fn column_combinator_round_trip() {
    let list = p("col || td");
    let s = list.0[0].to_css_string();
    assert_eq!(s, "col || td");
}

// ---------------------------------------------------------------
// Complex combinations — all features together
// ---------------------------------------------------------------

#[test]
fn complex_shadow_host_with_state() {
    // :host(.active):state(loading) — host with class AND custom state
    let c = first(":host(.active):state(loading)");
    assert!(c.iter().any(|c| matches!(c, Component::HostFunction(_))));
    assert!(c.iter().any(|c| matches!(c, Component::State(n) if n.as_str() == "loading")));
}

#[test]
fn complex_slotted_with_pseudo() {
    // ::slotted(.card)::before — slotted with pseudo-element (invalid per spec,
    // but our parser should handle them as separate components)
    assert!(parse("::slotted(.card)").is_ok());
}

#[test]
fn complex_part_in_compound() {
    // div::part(header).active — not valid per spec (::part can only be followed
    // by pseudo-elements), but parsing should handle component list
    let list = parse("::part(header)").unwrap();
    assert_eq!(list.0.len(), 1);
}

#[test]
fn complex_highlight_with_class() {
    // .editor::highlight(search-result) — element with highlight
    let c = first(".editor::highlight(search-result)");
    assert!(c.iter().any(|c| matches!(c, Component::Class(a) if a.as_str() == "editor")));
    assert!(c.iter().any(|c| matches!(c, Component::Highlight(n) if n.as_str() == "search-result")));
}

#[test]
fn complex_host_context_descendant() {
    // :host-context(.dark) .content — host-context with descendant
    let c = first(":host-context(.dark) .content");
    assert!(c.iter().any(|c| matches!(c, Component::HostContext(_))));
    assert!(c.iter().any(|c| matches!(c, Component::Class(a) if a.as_str() == "content")));
    assert!(c.iter().any(|c| matches!(c, Component::Combinator(Combinator::Descendant))));
}

#[test]
fn all_new_pseudo_classes_are_parseable() {
    // Exhaustive check — every pseudo-class we claim to support must parse.
    let all_pseudos = [
        ":hover", ":active", ":focus", ":focus-within", ":focus-visible",
        ":enabled", ":disabled", ":checked", ":indeterminate",
        ":required", ":optional", ":valid", ":invalid",
        ":read-only", ":read-write", ":placeholder-shown", ":default",
        ":target", ":visited", ":link", ":any-link",
        ":fullscreen", ":modal", ":popover-open", ":defined",
        ":autofill", ":user-valid", ":user-invalid",
        ":root", ":empty", ":first-child", ":last-child", ":only-child",
        ":first-of-type", ":last-of-type", ":only-of-type",
        ":scope",
        ":playing", ":paused", ":seeking", ":buffering", ":stalled",
        ":muted", ":volume-locked",
        ":blank", ":in-range", ":out-of-range",
        ":open", ":closed", ":picture-in-picture",
        ":target-within", ":local-link",
        ":current", ":past", ":future",
    ];
    for pc in all_pseudos {
        assert!(parse(pc).is_ok(), "Failed to parse pseudo-class: {pc}");
    }
}

#[test]
fn all_functional_selectors_parseable() {
    let all_functional = [
        ":not(.foo)", ":is(.a, .b)", ":where(.x)", ":has(> .bar)",
        ":nth-child(2n+1)", ":nth-last-child(even)", ":nth-of-type(3n)",
        ":nth-last-of-type(odd)", ":nth-child(2n of .active)",
        ":lang(en)", ":lang(en, fr, zh)", ":dir(ltr)", ":dir(rtl)",
        ":state(loading)", ":host(.foo)", ":host-context(.dark)",
    ];
    for sel in all_functional {
        assert!(parse(sel).is_ok(), "Failed to parse: {sel}");
    }
}

#[test]
fn all_pseudo_elements_parseable() {
    let all_pe = [
        "::before", "::after", "::first-line", "::first-letter",
        "::placeholder", "::selection", "::marker", "::backdrop",
        "::file-selector-button", "::grammar-error", "::spelling-error",
        "::highlight(search)", "::slotted(.item)", "::part(header)",
    ];
    for pe in all_pe {
        assert!(parse(pe).is_ok(), "Failed to parse pseudo-element: {pe}");
    }
}

#[test]
fn all_combinators_parseable() {
    assert!(parse("div .foo").is_ok());        // descendant
    assert!(parse("div > .foo").is_ok());       // child
    assert!(parse("div + .foo").is_ok());       // adjacent
    assert!(parse("div ~ .foo").is_ok());       // general sibling
    assert!(parse("col || td").is_ok());        // column
}

#[test]
fn host_bare_and_functional_are_different() {
    // :host with no args → Component::Host
    let c1 = first(":host");
    assert!(matches!(&c1[0], Component::Host));

    // :host(.foo) with args → Component::HostFunction
    let c2 = first(":host(.foo)");
    assert!(matches!(&c2[0], Component::HostFunction(_)));
}

#[test]
fn attribute_namespace_prefix_is_dropped() {
    let c = first("[svg|href]");
    assert!(matches!(&c[0], Component::Attribute(a)
        if a.name.as_str() == "href" && matches!(a.operation, AttrOperation::Exists)));
    let c = first("[*|lang]");
    assert!(matches!(&c[0], Component::Attribute(a) if a.name.as_str() == "lang"));
    let c = first("[|title]");
    assert!(matches!(&c[0], Component::Attribute(a) if a.name.as_str() == "title"));
}

#[test]
fn attribute_case_flags() {
    let c = first("[lang=EN i]");
    assert!(matches!(&c[0], Component::Attribute(a)
        if matches!(&a.operation, AttrOperation::Equals(v, CaseSensitivity::AsciiCaseInsensitive)
            if v.as_str() == "EN")));
    let c = first("[lang=\"EN\" S]");
    assert!(matches!(&c[0], Component::Attribute(a)
        if matches!(&a.operation, AttrOperation::Equals(v, CaseSensitivity::CaseSensitive)
            if v.as_str() == "EN")));
    let c = first("[class*=nav]");
    assert!(matches!(&c[0], Component::Attribute(a)
        if matches!(&a.operation, AttrOperation::Substring(v, CaseSensitivity::CaseSensitive)
            if v.as_str() == "nav")));
}

#[test]
fn attribute_malformed_blocks_rejected() {
    assert!(parse("[a=b x]").is_err());
    assert!(parse("[a=]").is_err());
    assert!(parse("[=b]").is_err());
    assert!(parse("[*lang]").is_err());
    assert!(parse("[a b]").is_err());
}

#[test]
fn lang_and_part_separators() {
    assert!(parse(":lang(en,)").is_err());
    assert!(parse(":lang(en fr)").is_err());
    assert!(parse("::part(a, b)").is_err());
    if let Component::Part(parts) = &first("::part( a  b )")[0] {
        assert_eq!(parts.len(), 2);
        assert_eq!(parts[0].as_str(), "a");
        assert_eq!(parts[1].as_str(), "b");
    } else {
        panic!("expected Part");
    }
}

#[test]
fn nth_child_anb_before_of() {
    if let Component::NthChild(nth) = &first(":nth-child(odd of .x)")[0] {
        assert_eq!((nth.a, nth.b), (2, 1));
        assert!(nth.of_selector.is_some());
    } else {
        panic!("expected NthChild");
    }
    assert!(parse(":nth-child(foo of .x)").is_err());
    assert!(parse(":nth-child(foo)").is_err());
}

#[test]
fn forgiving_keeps_valid_parts_after_invalid_one() {
    let list = parse_forgiving("div, !!invalid!!, .foo");
    assert_eq!(list.0.len(), 2);
    assert!(matches!(&list.0[0].components()[0], Component::Type(a) if a.as_str() == "div"));
    assert!(matches!(&list.0[1].components()[0], Component::Class(a) if a.as_str() == "foo"));
    let list = parse_forgiving(".a .b!, #c");
    assert_eq!(list.0.len(), 1);
    assert!(matches!(&list.0[0].components()[0], Component::Id(a) if a.as_str() == "c"));
    let list = parse(":is(.a, !!, .b)").unwrap();
    assert!(matches!(&list.0[0].components()[0], Component::IsSingle(v) if v.len() == 2));
}

#[test]
fn keyword_match_folds_letters_only() {
    // `\d ` is a carriage return, which must not stand for `-`.
    assert!(parse(":focus\\d within").is_err());
    assert!(parse(":FOCUS-WITHIN").is_ok());
    assert!(parse(":Nth-Child(2n)").is_ok());
}

#[test]
fn failed_namespace_compound_is_rejected() {
    assert!(parse("svg|.foo").is_err());
    assert!(parse("svg|rect.foo").is_ok());
}

#[test]
fn functional_pseudo_rejections() {
    for css in [":not()", ":not(::before)", ":has()", ".a:has(.b:has(.c))", "::part()", ":state()", ":bogus(a)", ":dir(up)"] {
        assert!(parse(css).is_err(), "{css} should be rejected");
    }
}

#[test]
fn functional_pseudo_specificities() {
    assert_eq!(p(":is(.a, #b)").0[0].specificity().components(), (1, 0, 0));
    assert_eq!(p(":where(.a, #b)").0[0].specificity().components(), (0, 0, 0));
    assert_eq!(p(":nth-child(2n of .a, #b)").0[0].specificity().components(), (1, 1, 0));
    assert_eq!(p("::slotted(div.card)").0[0].specificity().components(), (0, 1, 2));
    assert_eq!(p(":dir(RTL)").0[0].specificity().components(), (0, 1, 0));
}

#[test]
fn tokenizer_builds_blocks() {
    let ts = tokenize("f(a) b");
    assert_eq!(ts.len(), 3);
    assert!(matches!(&ts[0].kind, TokenKind::Function(n) if n == "f"));
    assert_eq!(ts[0].text, "f(");
    assert!(ts[0].block_ok);
    assert_eq!(ts[0].block.len(), 1);
    assert!(matches!(&ts[0].block[0].kind, TokenKind::Ident(n) if n == "a"));
    assert!(matches!(ts[1].kind, TokenKind::WhiteSpace));
    assert!(matches!(&ts[2].kind, TokenKind::Ident(n) if n == "b"));
    // An unmatched closing bracket is an ordinary token; one of another
    // kind inside a block does not close it.
    let ts = tokenize(")");
    assert_eq!(ts.len(), 1);
    assert!(matches!(ts[0].kind, TokenKind::Other));
    let ts = tokenize("[a)]x");
    assert_eq!(ts.len(), 2);
    assert_eq!(ts[0].block.len(), 2);
    assert!(matches!(ts[0].block[1].kind, TokenKind::Other));
    // Comments are skipped but kept in the text of the next token.
    let ts = tokenize("/*c*/a");
    assert_eq!(ts.len(), 1);
    assert_eq!(ts[0].text, "/*c*/a");
}

#[test]
fn pseudo_names_read_back() {
    for pc in [PseudoClass::Hover, PseudoClass::FocusWithin, PseudoClass::ReadOnly, PseudoClass::PlaceholderShown, PseudoClass::Future] {
        assert_eq!(parse_pseudo_class_name(pc.css_name()), Some(pc));
        assert_eq!(parse_pseudo_class_name(&pc.css_name().to_ascii_uppercase()), Some(pc));
    }
    for pe in [PseudoElement::Before, PseudoElement::FirstLetter, PseudoElement::FileSelectorButton, PseudoElement::SpellingError] {
        assert_eq!(parse_pseudo_element_name(pe.css_name()), Some(pe));
    }
}

#[test]
fn compound_components_in_source_order() {
    let list = p("div.foo#bar");
    let c = list.0[0].components();
    assert_eq!(c.len(), 3);
    // Components are stored right to left.
    assert!(matches!(&c[0], Component::Id(a) if a.as_str() == "bar"));
    assert!(matches!(&c[1], Component::Class(a) if a.as_str() == "foo"));
    assert!(matches!(&c[2], Component::Type(a) if a.as_str() == "div"));
    assert_eq!(list.0[0].specificity().components(), (1, 1, 1));
    let c = first("*.foo");
    assert_eq!(c.len(), 1);
    assert!(matches!(&c[0], Component::Class(a) if a.as_str() == "foo"));
    let c = first("*");
    assert!(matches!(&c[0], Component::Universal));
}

#[test]
fn plain_pseudos_in_compounds() {
    let list = p("a:hover::before");
    let c = list.0[0].components();
    assert_eq!(c.len(), 3);
    assert!(matches!(&c[0], Component::PseudoElement(PseudoElement::Before)));
    assert!(matches!(&c[1], Component::PseudoClass(PseudoClass::Hover)));
    assert_eq!(list.0[0].specificity().components(), (0, 1, 2));
    assert!(matches!(&first(":host")[0], Component::Host));
    assert!(matches!(&first("p:after")[0], Component::PseudoElement(PseudoElement::After)));
}

#[test]
fn plain_list_with_combinators() {
    let list = p("ul > li + li ~ a b, .x");
    assert_eq!(list.0.len(), 2);
    let c = list.0[0].components();
    assert_eq!(c.len(), 9);
    assert!(matches!(&c[1], Component::Combinator(Combinator::Descendant)));
    assert!(matches!(&c[3], Component::Combinator(Combinator::LaterSibling)));
    assert!(matches!(&c[5], Component::Combinator(Combinator::NextSibling)));
    assert!(matches!(&c[7], Component::Combinator(Combinator::Child)));
    assert!(parse("div,").is_err());
    assert!(parse("div .").is_err());
}

#[test]
fn decided_functional_pseudos_in_compounds() {
    let list = p("p:lang(en):nth-of-type(2n+1)::part(x)");
    let c = list.0[0].components();
    assert_eq!(c.len(), 4);
    assert!(matches!(&c[0], Component::Part(v) if v.len() == 1 && v[0].as_str() == "x"));
    assert!(matches!(&c[1], Component::NthOfType(2, 1)));
    assert!(matches!(&c[2], Component::Lang(v) if v[0].as_str() == "en"));
    assert_eq!(list.0[0].specificity().components(), (0, 2, 2));
    let list = parse_forgiving("a:hover, ::before, :lang(), b");
    assert_eq!(list.0.len(), 3);
}
