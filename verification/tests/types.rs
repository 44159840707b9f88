use kozan_selector::parser::parse;
use kozan_selector::types::{NthData, SelectorHints};
#[test]
fn nth_odd() {
    // 2n+1 matches 1, 3, 5, 7, ...
    let nth = NthData {
        a: 2,
        b: 1,
        of_selector: None,
    };
    assert!(nth.matches_index(1));
    assert!(!nth.matches_index(2));
    assert!(nth.matches_index(3));
    assert!(nth.matches_index(5));
}

#[test]
fn nth_even() {
    // 2n matches 2, 4, 6, ...
    let nth = NthData {
        a: 2,
        b: 0,
        of_selector: None,
    };
    assert!(!nth.matches_index(1));
    assert!(nth.matches_index(2));
    assert!(nth.matches_index(4));
}

#[test]
fn nth_specific() {
    // 0n+3 = just the 3rd element.
    let nth = NthData {
        a: 0,
        b: 3,
        of_selector: None,
    };
    assert!(!nth.matches_index(1));
    assert!(!nth.matches_index(2));
    assert!(nth.matches_index(3));
    assert!(!nth.matches_index(4));
}

#[test]
fn nth_first_three() {
    // -n+3 matches 1, 2, 3.
    let nth = NthData {
        a: -1,
        b: 3,
        of_selector: None,
    };
    assert!(nth.matches_index(1));
    assert!(nth.matches_index(2));
    assert!(nth.matches_index(3));
    assert!(!nth.matches_index(4));
}

// ---------------------------------------------------------------
// SelectorDeps tests
// ---------------------------------------------------------------

fn parse_hints(css: &str) -> SelectorHints {
    let list = parse(css).unwrap();
    list.0[0].hints().clone()
}

#[test]
fn deps_simple_selector() {
    let h = parse_hints("div.foo");
    assert!(!h.deps.has_combinators());
    assert!(!h.deps.depends_on_nth());
    assert!(!h.deps.depends_on_has());
    assert_eq!(h.deps.component_count, 2);
}

#[test]
fn deps_descendant_combinator() {
    let h = parse_hints("div .foo");
    assert!(h.deps.has_combinators());
}

#[test]
fn deps_nth_child() {
    let h = parse_hints(":nth-child(2n)");
    assert!(h.deps.depends_on_nth());
}

#[test]
fn deps_first_child() {
    let h = parse_hints(":first-child");
    assert!(h.deps.depends_on_edge_child());
}

#[test]
fn deps_empty() {
    let h = parse_hints(":empty");
    assert!(h.deps.depends_on_empty());
}

#[test]
fn deps_visited() {
    let h = parse_hints(":visited");
    assert!(h.deps.depends_on_visited());
}

#[test]
fn deps_has() {
    let h = parse_hints(":has(.child)");
    assert!(h.deps.depends_on_has());
}

#[test]
fn deps_scope() {
    let h = parse_hints(":scope");
    assert!(h.deps.depends_on_scope());
}

#[test]
fn deps_complex() {
    let h = parse_hints("div > .container:first-child .item:nth-child(2n)");
    assert!(h.deps.has_combinators());
    assert!(h.deps.depends_on_nth());
    assert!(h.deps.depends_on_edge_child());
    assert!(!h.deps.depends_on_has());
    assert!(!h.deps.depends_on_visited());
}
