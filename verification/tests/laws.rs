use kozan_selector::atom::Atom;
use kozan_selector::bloom::AncestorBloom;
use kozan_selector::element::Element;
use kozan_selector::matching::matches_with_bloom;
use kozan_selector::opaque::OpaqueElement;
use kozan_selector::css_token::{tokenize, TokenKind};
use kozan_selector::parser::{parse, parse_tokens};
use kozan_selector::pseudo_class::ElementState;
use kozan_selector::types::{Component, Direction};

#[derive(Clone)]
struct Node {
    tag: Atom,
    id: Option<Atom>,
    classes: Vec<Atom>,
    parent: Option<Box<Node>>,
    prev: Option<Box<Node>>,
    ident: u64,
}

impl Node {
    fn new(tag: &str, ident: u64) -> Node {
        Node { tag: Atom::from(tag), id: None, classes: Vec::new(), parent: None, prev: None, ident }
    }
    fn with_id(mut self, id: &str) -> Node {
        self.id = Some(Atom::from(id));
        self
    }
    fn with_class(mut self, c: &str) -> Node {
        self.classes.push(Atom::from(c));
        self
    }
    fn under(mut self, p: Node) -> Node {
        self.parent = Some(Box::new(p));
        self
    }
    fn after(mut self, s: Node) -> Node {
        self.prev = Some(Box::new(s));
        self
    }
}

impl Element for Node {
    fn local_name(&self) -> &Atom { &self.tag }
    fn id(&self) -> Option<&Atom> { self.id.as_ref() }
    fn has_class(&self, class: &Atom) -> bool { self.classes.iter().any(|c| c == class) }
    fn class_list(&self) -> Vec<Atom> { self.classes.clone() }
    fn attr(&self, _name: &Atom) -> Option<&str> { None }
    fn parent_element(&self) -> Option<Self> { self.parent.as_ref().map(|p| *p.clone()) }
    fn prev_sibling_element(&self) -> Option<Self> { self.prev.as_ref().map(|p| *p.clone()) }
    fn next_sibling_element(&self) -> Option<Self> { None }
    fn first_child_element(&self) -> Option<Self> { None }
    fn last_child_element(&self) -> Option<Self> { None }
    fn state(&self) -> ElementState { ElementState::empty() }
    fn is_root(&self) -> bool { self.parent.is_none() }
    fn is_empty(&self) -> bool { true }
    fn child_index(&self) -> u32 { 1 }
    fn child_count(&self) -> u32 { 1 }
    fn child_index_of_type(&self) -> u32 { 1 }
    fn child_count_of_type(&self) -> u32 { 1 }
    fn opaque(&self) -> OpaqueElement { OpaqueElement::new(self.ident) }
    fn direction(&self) -> Direction { Direction::Ltr }
    fn namespace(&self) -> Option<&Atom> { None }
    fn is_newly_inserted(&self) -> bool { false }
    fn is_shadow_host(&self) -> bool { false }
    fn containing_shadow_host(&self) -> Option<Self> { None }
    fn is_in_slot(&self) -> bool { false }
    fn assigned_slot(&self) -> Option<Self> { None }
    fn is_part(&self, _name: &Atom) -> bool { false }
    fn has_custom_state(&self, _name: &Atom) -> bool { false }
    fn column_element(&self) -> Option<Self> { None }
}

fn chain() -> Node {
    let html = Node::new("html", 1);
    let body = Node::new("body", 2).with_class("page").under(html);
    let main = Node::new("main", 3).with_id("content").under(body);
    Node::new("span", 4).with_class("target").with_class("x").under(main)
}

/// Push every proper ancestor of `el`, outermost first.
fn bloom_for(el: &Node) -> AncestorBloom {
    let mut ancestors = Vec::new();
    let mut cur = el.parent_element();
    while let Some(p) = cur {
        cur = p.parent_element();
        ancestors.push(p);
    }
    let mut bloom = AncestorBloom::new();
    for a in ancestors.iter().rev() {
        bloom.push(a);
    }
    bloom
}

#[test]
fn pop_undoes_push() {
    let el = Node::new("section", 9).with_id("s").with_class("a").with_class("b");
    let mut bloom = AncestorBloom::new();
    bloom.push(&el);
    assert!(bloom.might_contain(AncestorBloom::hash_atom(&Atom::from("section"))));
    assert!(bloom.might_contain(AncestorBloom::hash_atom(&Atom::from("s"))));
    assert!(bloom.might_contain(AncestorBloom::hash_atom(&Atom::from("b"))));
    bloom.pop(&el);
    for h in 0..2048u32 {
        assert!(!bloom.might_contain(h));
    }
    assert!(!bloom.might_contain(AncestorBloom::hash_atom(&Atom::from("section"))));
}

#[test]
fn bloom_only_prunes_ancestor_walks() {
    let el = chain();
    let bloom = bloom_for(&el);
    for css in [
        "html .target",
        "body > main > span",
        ".page .x",
        "#content span.target",
        "article .target",
        "body > span",
        ".missing span",
        "html body main span",
    ] {
        let list = parse(css).unwrap();
        for sel in list.0.iter() {
            assert_eq!(
                matches_with_bloom(sel, &el, &bloom),
                kozan_selector::matching::matches(sel, &el),
                "filter changed the result of {css}"
            );
        }
    }
}

#[test]
fn empty_bloom_rejects_descendant_walks() {
    let el = chain();
    let bloom = AncestorBloom::new();
    let list = parse("html .target").unwrap();
    assert!(kozan_selector::matching::matches(&list.0[0], &el));
    assert!(!matches_with_bloom(&list.0[0], &el, &bloom));
    let child = parse("main > span").unwrap();
    assert!(matches_with_bloom(&child.0[0], &el, &bloom));
}

/// Packed weight of a selector's components, summed the way the
/// specificity rules add them.
fn packed(a: u32, b: u32, c: u32) -> u32 {
    (a << 24) + (b << 12) + c
}

#[test]
fn specificity_is_the_weight_of_the_components() {
    let cases: [(&str, u32); 9] = [
        ("div.a#b", packed(1, 1, 1)),
        ("ns|div > *", packed(0, 0, 1)),
        (":not(.a, #b)", packed(1, 0, 0)),
        (":is(div, .a .b)", packed(0, 2, 0)),
        (":where(#a) .b", packed(0, 1, 0)),
        (":has(> #a, .b)", packed(1, 0, 0)),
        (":nth-child(2n of .a, #b)", packed(1, 1, 0)),
        (":host(.a)", packed(0, 2, 0)),
        ("::slotted(.a)", packed(0, 1, 1)),
    ];
    for (css, want) in cases {
        let list = parse(css).unwrap();
        assert_eq!(list.0[0].specificity().value(), want, "{css}");
    }
}

#[test]
fn empty_is_clears_components_but_keeps_specificity() {
    let list = parse(".a:is()").unwrap();
    assert!(list.0[0].components().is_empty());
    assert_eq!(list.0[0].specificity().components(), (0, 1, 0));
}

#[test]
fn saturated_counters_keep_inside_hashes_reported() {
    let mut bloom = AncestorBloom::new();
    let hash = 42u32;
    for _ in 0..300 {
        bloom.insert_hash(hash);
    }
    for _ in 0..299 {
        bloom.remove_hash(hash);
    }
    assert!(bloom.might_contain(hash));
}

#[test]
fn unsaturated_remove_restores_empty() {
    let mut bloom = AncestorBloom::new();
    let hash = 42u32;
    for _ in 0..10 {
        bloom.insert_hash(hash);
    }
    for _ in 0..10 {
        bloom.remove_hash(hash);
    }
    assert!(!bloom.might_contain(hash));
}

fn is_comb(c: &Component) -> bool {
    matches!(c, Component::Combinator(_))
}

fn check_shape(comps: &[Component]) {
    assert!(!comps.is_empty());
    assert!(!is_comb(&comps[0]));
    assert!(!is_comb(&comps[comps.len() - 1]));
    for w in comps.windows(2) {
        assert!(!(is_comb(&w[0]) && is_comb(&w[1])));
    }
    for c in comps {
        if let Component::Is(list) | Component::Negation(list) | Component::Where(list) = c {
            for s in &list.0 {
                check_shape(s.components());
            }
        }
    }
}

#[test]
fn parsed_selectors_alternate_compounds_and_combinators() {
    for css in [
        "a > b c",
        "a   +   b ~ c",
        "*.x > * #y",
        "ul li:is(a > b, c d):not(e f)",
        "a || b",
        "ns|a > |b",
    ] {
        for sel in &parse(css).unwrap().0 {
            check_shape(sel.components());
        }
    }
}

#[test]
fn bloom_only_prunes_sibling_and_nested_walks() {
    let html = Node::new("html", 11);
    let body = Node::new("body", 12).with_class("page").under(html);
    let main = Node::new("main", 13).with_id("content").under(body);
    let note = Node::new("aside", 14).with_class("note").under(main.clone());
    let el = Node::new("span", 15).with_class("target").under(main).after(note);
    let bloom = bloom_for(&el);
    for css in [
        ".page .note + .target",
        "main > .note ~ span",
        "article .note ~ span",
        ":is(.page .x, #content .target)",
        ":not(article .target)",
        ":where(.page aside) + span",
        "html :is(.note) ~ .target",
    ] {
        let list = parse(css).unwrap();
        for sel in list.0.iter() {
            assert_eq!(
                matches_with_bloom(sel, &el, &bloom),
                kozan_selector::matching::matches(sel, &el),
                "filter changed the result of {css}"
            );
        }
    }
}

#[test]
fn one_selector_per_top_level_comma() {
    let tokens = tokenize("a, b:is(c, d) > [x=','], e");
    let top_commas = tokens.iter().filter(|t| matches!(t.kind, TokenKind::Comma)).count();
    assert_eq!(top_commas, 2);
    let list = parse_tokens(&tokens).unwrap();
    assert_eq!(list.0.len(), 1 + top_commas);
}
