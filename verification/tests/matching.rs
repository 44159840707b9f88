use kozan_selector::atom::Atom;
use kozan_selector::context::{MatchingContext, QuirksMode, SelectorCaches, VisitedHandling};
use kozan_selector::element::Element;
use kozan_selector::flags::{ElementSelectorFlags, MatchingFlags};
use kozan_selector::matching::matches_in_context;
use kozan_selector::opaque::OpaqueElement;
use kozan_selector::parser::parse;
use kozan_selector::pseudo_class::ElementState;
use kozan_selector::types::Direction;
/// A fresh identity: the address of a leaked allocation, never reused.
fn fresh_id() -> u64 {
    let cell: &'static mut u8 = Box::leak(Box::new(0u8));
    let text = format!("{:p}", cell);
    u64::from_str_radix(text.trim_start_matches("0x"), 16).unwrap()
}

#[derive(Clone)]
struct MockElement {
    tag: Atom,
    id: Option<Atom>,
    classes: Vec<Atom>,
    attrs: Vec<(Atom, String)>,
    state: ElementState,
    parent: Option<Box<MockElement>>,
    children: Vec<MockElement>,
    prev_sibling: Option<Box<MockElement>>,
    next_sibling: Option<Box<MockElement>>,
    index: u32,
    sibling_count: u32,
    is_root: bool,
    opaque_id: u64,
    dir: Direction,
}

impl MockElement {
    fn new(tag: &str) -> Self {
        Self {
            tag: Atom::from(tag),
            id: None,
            classes: Vec::new(),
            attrs: Vec::new(),
            state: ElementState::empty(),
            parent: None,
            children: Vec::new(),
            prev_sibling: None,
            next_sibling: None,
            index: 1,
            sibling_count: 1,
            is_root: false,
            opaque_id: fresh_id(),
            dir: Direction::Ltr,
        }
    }

    fn with_id(mut self, id: &str) -> Self {
        self.id = Some(Atom::from(id));
        self
    }

    fn with_class(mut self, class: &str) -> Self {
        self.classes.push(Atom::from(class));
        self
    }

    fn with_attr(mut self, name: &str, value: &str) -> Self {
        self.attrs.push((Atom::from(name), value.to_string()));
        self
    }

    fn with_state(mut self, state: ElementState) -> Self {
        self.state = state;
        self
    }

    fn with_parent(mut self, parent: MockElement) -> Self {
        self.parent = Some(Box::new(parent));
        self
    }

    fn at_index(mut self, index: u32, count: u32) -> Self {
        self.index = index;
        self.sibling_count = count;
        self
    }

    fn with_direction(mut self, dir: Direction) -> Self {
        self.dir = dir;
        self
    }
}

impl Element for MockElement {
    fn local_name(&self) -> &Atom { &self.tag }
    fn id(&self) -> Option<&Atom> { self.id.as_ref() }
    fn has_class(&self, class: &Atom) -> bool { self.classes.iter().any(|c| c == class) }
    fn class_list(&self) -> Vec<Atom> { self.classes.clone() }

    fn attr(&self, name: &Atom) -> Option<&str> {
        self.attrs.iter().find(|(n, _)| n == name).map(|(_, v)| v.as_str())
    }
    fn parent_element(&self) -> Option<Self> {
        self.parent.as_ref().map(|p| *p.clone())
    }
    fn prev_sibling_element(&self) -> Option<Self> {
        self.prev_sibling.as_ref().map(|s| *s.clone())
    }
    fn next_sibling_element(&self) -> Option<Self> {
        self.next_sibling.as_ref().map(|s| *s.clone())
    }
    fn first_child_element(&self) -> Option<Self> {
        self.children.first().cloned()
    }
    fn last_child_element(&self) -> Option<Self> {
        self.children.last().cloned()
    }
    fn state(&self) -> ElementState { self.state }
    fn is_root(&self) -> bool { self.is_root }
    fn is_empty(&self) -> bool { self.children.is_empty() }
    fn child_index(&self) -> u32 { self.index }
    fn child_count(&self) -> u32 { self.sibling_count }
    fn child_index_of_type(&self) -> u32 { self.index }
    fn child_count_of_type(&self) -> u32 { self.sibling_count }
    fn opaque(&self) -> OpaqueElement { OpaqueElement::new(self.opaque_id) }
    fn direction(&self) -> Direction { self.dir }
    fn namespace(&self) -> Option<&Atom> { None }
    fn is_newly_inserted(&self) -> bool { false }
    fn is_shadow_host(&self) -> bool { false }
    fn containing_shadow_host(&self) -> Option<Self> { None }
    fn is_in_slot(&self) -> bool { false }
    fn assigned_slot(&self) -> Option<Self> { None }
    fn is_part(&self, _name: &Atom) -> bool { false }
    fn has_custom_state(&self, _name: &Atom) -> bool { false }
    fn column_element(&self) -> Option<Self> { None }
}

fn parse_and_match(css: &str, el: &MockElement) -> bool {
    let list = parse(css).unwrap();
    list.0.iter().any(|sel| kozan_selector::matching::matches(sel, el))
}

#[test]
fn match_type() {
    let el = MockElement::new("div");
    assert!(parse_and_match("div", &el));
    assert!(!parse_and_match("span", &el));
}

#[test]
fn match_class() {
    let el = MockElement::new("div").with_class("foo");
    assert!(parse_and_match(".foo", &el));
    assert!(!parse_and_match(".bar", &el));
}

#[test]
fn match_id() {
    let el = MockElement::new("div").with_id("main");
    assert!(parse_and_match("#main", &el));
    assert!(!parse_and_match("#other", &el));
}

#[test]
fn match_compound() {
    let el = MockElement::new("div").with_class("foo").with_id("bar");
    assert!(parse_and_match("div.foo#bar", &el));
    assert!(!parse_and_match("span.foo#bar", &el));
}

#[test]
fn match_universal() {
    assert!(parse_and_match("*", &MockElement::new("anything")));
}

#[test]
fn match_descendant() {
    let parent = MockElement::new("div").with_class("container");
    let el = MockElement::new("span").with_class("item").with_parent(parent);
    assert!(parse_and_match("div .item", &el));
    assert!(parse_and_match(".container span", &el));
    assert!(!parse_and_match("p .item", &el));
}

#[test]
fn match_child() {
    let parent = MockElement::new("div");
    let el = MockElement::new("span").with_parent(parent);
    assert!(parse_and_match("div > span", &el));
}

#[test]
fn match_hover() {
    let el = MockElement::new("button").with_state(ElementState::from_bits(ElementState::HOVER));
    assert!(parse_and_match(":hover", &el));
    assert!(parse_and_match("button:hover", &el));
    assert!(!parse_and_match(":hover", &MockElement::new("button")));
}

#[test]
fn match_not() {
    let el = MockElement::new("div").with_class("foo");
    assert!(parse_and_match(":not(.bar)", &el));
    assert!(!parse_and_match(":not(.foo)", &el));
}

#[test]
fn match_first_child() {
    assert!(parse_and_match(":first-child", &MockElement::new("li").at_index(1, 5)));
    assert!(!parse_and_match(":first-child", &MockElement::new("li").at_index(3, 5)));
}

#[test]
fn match_last_child() {
    assert!(parse_and_match(":last-child", &MockElement::new("li").at_index(5, 5)));
    assert!(!parse_and_match(":last-child", &MockElement::new("li").at_index(3, 5)));
}

#[test]
fn match_only_child() {
    assert!(parse_and_match(":only-child", &MockElement::new("li").at_index(1, 1)));
    assert!(!parse_and_match(":only-child", &MockElement::new("li").at_index(1, 3)));
}

#[test]
fn match_nth_child() {
    let el = MockElement::new("li").at_index(3, 5);
    assert!(parse_and_match(":nth-child(odd)", &el));
    assert!(!parse_and_match(":nth-child(even)", &el));
}

#[test]
fn match_attribute() {
    let el = MockElement::new("input").with_attr("type", "text");
    assert!(parse_and_match("[type]", &el));
    assert!(parse_and_match("[type=text]", &el));
    assert!(!parse_and_match("[type=password]", &el));
}

#[test]
fn match_selector_list() {
    let el = MockElement::new("div");
    assert!(parse_and_match("div, span", &el));
    assert!(parse_and_match("span, div", &el));
    assert!(!parse_and_match("span, p", &el));
}

#[test]
fn match_root() {
    let mut el = MockElement::new("html");
    el.is_root = true;
    assert!(parse_and_match(":root", &el));
    assert!(!parse_and_match(":root", &MockElement::new("div")));
}

#[test]
fn match_empty() {
    assert!(parse_and_match(":empty", &MockElement::new("div")));
}

#[test]
fn match_any_link() {
    let link = MockElement::new("a").with_state(ElementState::from_bits(ElementState::LINK));
    let visited = MockElement::new("a").with_state(ElementState::from_bits(ElementState::VISITED));
    let plain = MockElement::new("a");
    assert!(parse_and_match(":any-link", &link));
    assert!(parse_and_match(":any-link", &visited));
    assert!(!parse_and_match(":any-link", &plain));
}

#[test]
fn match_deep_descendant() {
    let root = MockElement::new("html");
    let body = MockElement::new("body").with_parent(root);
    let div = MockElement::new("div").with_parent(body);
    let span = MockElement::new("span").with_class("target").with_parent(div);
    assert!(parse_and_match("html .target", &span));
    assert!(parse_and_match("body span", &span));
}

// -- New feature tests --

#[test]
fn match_scope_without_context() {
    // Without context, :scope matches :root.
    let mut el = MockElement::new("html");
    el.is_root = true;
    assert!(parse_and_match(":scope", &el));
    assert!(!parse_and_match(":scope", &MockElement::new("div")));
}

#[test]
fn match_scope_with_context() {

    let el = MockElement::new("div").with_id("target");
    let scope_id = el.opaque();

    let list = parse(":scope").unwrap();
    let mut caches = SelectorCaches::new();
    let mut ctx = MatchingContext::new(&mut caches);
    ctx.scope_element = Some(scope_id);

    assert!(matches_in_context(&list.0[0], &el, &mut ctx));

    // Different element shouldn't match :scope.
    let other = MockElement::new("span");
    let mut ctx2 = MatchingContext::new(&mut caches);
    ctx2.scope_element = Some(scope_id);
    assert!(!matches_in_context(&list.0[0], &other, &mut ctx2));
}

#[test]
fn match_dir_ltr() {
    let el = MockElement::new("p").with_direction(Direction::Ltr);
    assert!(parse_and_match(":dir(ltr)", &el));
    assert!(!parse_and_match(":dir(rtl)", &el));
}

#[test]
fn match_dir_rtl() {
    let el = MockElement::new("p").with_direction(Direction::Rtl);
    assert!(parse_and_match(":dir(rtl)", &el));
    assert!(!parse_and_match(":dir(ltr)", &el));
}

#[test]
fn visited_privacy_default() {
    // Default (AllLinksUnvisited): :visited never matches.
    let visited = MockElement::new("a").with_state(ElementState::from_bits(ElementState::VISITED));
    let list = parse(":visited").unwrap();

    // Without context: standard flag check — :visited matches VISITED state.
    assert!(kozan_selector::matching::matches(&list.0[0], &visited));
}

#[test]
fn visited_privacy_unvisited_mode() {

    let visited = MockElement::new("a").with_state(ElementState::from_bits(ElementState::VISITED));
    let list = parse(":visited").unwrap();

    let mut caches = SelectorCaches::new();
    let mut ctx = MatchingContext::new(&mut caches);
    ctx.visited_handling = VisitedHandling::AllLinksUnvisited;

    // With privacy mode: :visited must NOT match.
    assert!(!matches_in_context(&list.0[0], &visited, &mut ctx));
}

// ---------------------------------------------------------------
// ElementSelectorFlags collection tests
// ---------------------------------------------------------------

#[test]
fn flags_first_child() {

    let el = MockElement::new("li").at_index(1, 5);
    let list = parse(":first-child").unwrap();

    let mut caches = SelectorCaches::new();
    let mut ctx = MatchingContext::new(&mut caches);
    ctx.flags = ctx.flags.union(MatchingFlags::from_bits(MatchingFlags::COLLECT_SELECTOR_FLAGS));

    matches_in_context(&list.0[0], &el, &mut ctx);
    let flags = ctx.take_element_flags();
    assert!(flags.contains(ElementSelectorFlags::from_bits(ElementSelectorFlags::HAS_EDGE_CHILD_SELECTOR)));
}

#[test]
fn flags_nth_child() {

    let el = MockElement::new("li").at_index(3, 5);
    let list = parse(":nth-child(odd)").unwrap();

    let mut caches = SelectorCaches::new();
    let mut ctx = MatchingContext::new(&mut caches);
    ctx.flags = ctx.flags.union(MatchingFlags::from_bits(MatchingFlags::COLLECT_SELECTOR_FLAGS));

    matches_in_context(&list.0[0], &el, &mut ctx);
    let flags = ctx.take_element_flags();
    assert!(flags.contains(ElementSelectorFlags::from_bits(ElementSelectorFlags::HAS_SLOW_SELECTOR_NTH)));
}

#[test]
fn flags_empty() {

    let el = MockElement::new("div"); // empty by default
    let list = parse(":empty").unwrap();

    let mut caches = SelectorCaches::new();
    let mut ctx = MatchingContext::new(&mut caches);
    ctx.flags = ctx.flags.union(MatchingFlags::from_bits(MatchingFlags::COLLECT_SELECTOR_FLAGS));

    matches_in_context(&list.0[0], &el, &mut ctx);
    let flags = ctx.take_element_flags();
    assert!(flags.contains(ElementSelectorFlags::from_bits(ElementSelectorFlags::HAS_EMPTY_SELECTOR)));
}

#[test]
fn flags_not_collected_without_flag() {

    let el = MockElement::new("li").at_index(1, 5);
    let list = parse(":first-child").unwrap();

    let mut caches = SelectorCaches::new();
    let mut ctx = MatchingContext::new(&mut caches);
    // No COLLECT_SELECTOR_FLAGS set.

    matches_in_context(&list.0[0], &el, &mut ctx);
    let flags = ctx.take_element_flags();
    assert!(flags.is_empty());
}

// ---------------------------------------------------------------
// NthIndexCache integration tests
// ---------------------------------------------------------------

#[test]
fn nth_cache_used_in_context() {

    let el = MockElement::new("li").at_index(3, 5);
    let list = parse(":nth-child(odd)").unwrap();

    let mut caches = SelectorCaches::new();
    let mut ctx = MatchingContext::new(&mut caches);

    // First match computes and caches.
    assert!(matches_in_context(&list.0[0], &el, &mut ctx));

    // Cache should have an entry now.
    let cached = ctx.caches.nth.nth_child(el.opaque(), || panic!("should be cached"));
    assert_eq!(cached, 3);
}

// ---------------------------------------------------------------
// Quirks mode class matching
// ---------------------------------------------------------------

#[test]
fn quirks_mode_class_case_insensitive() {

    let el = MockElement::new("div").with_class("FOO");
    let list = parse(".foo").unwrap();

    // Standards mode: case-sensitive — should NOT match.
    let mut caches = SelectorCaches::new();
    let mut ctx = MatchingContext::new(&mut caches);
    assert!(!matches_in_context(&list.0[0], &el, &mut ctx));

    // Quirks mode: case-insensitive — SHOULD match.
    let mut caches2 = SelectorCaches::new();
    let mut ctx2 = MatchingContext::new(&mut caches2);
    ctx2.quirks_mode = QuirksMode::Quirks;
    assert!(matches_in_context(&list.0[0], &el, &mut ctx2));
}

// ---------------------------------------------------------------
// Namespace matching
// ---------------------------------------------------------------

#[test]
fn namespace_matching_default() {
    // Without namespace component, any element matches regardless of namespace.
    let el = MockElement::new("rect");
    assert!(parse_and_match("rect", &el));
}

// ---------------------------------------------------------------
// Complex matching scenarios
// ---------------------------------------------------------------

#[test]
fn match_is_selector() {
    let el = MockElement::new("div").with_class("foo");
    assert!(parse_and_match(":is(div, span)", &el));
    assert!(parse_and_match(":is(.foo, .bar)", &el));
    assert!(!parse_and_match(":is(.bar, .baz)", &el));
}

#[test]
fn match_where_selector() {
    let el = MockElement::new("div").with_class("foo");
    assert!(parse_and_match(":where(div, span)", &el));
    assert!(!parse_and_match(":where(.bar)", &el));
}

#[test]
fn match_not_with_list() {
    let el = MockElement::new("div").with_class("active");
    assert!(parse_and_match(":not(.hidden, .disabled)", &el));
    assert!(!parse_and_match(":not(.active, .disabled)", &el));
}

#[test]
fn match_nth_of_type() {
    let el = MockElement::new("li").at_index(2, 4);
    assert!(parse_and_match(":nth-of-type(even)", &el));
    assert!(!parse_and_match(":nth-of-type(odd)", &el));
}

#[test]
fn match_nth_last_child() {
    // Index 3, count 5 → from-end index = 5+1-3 = 3 (odd)
    let el = MockElement::new("li").at_index(3, 5);
    assert!(parse_and_match(":nth-last-child(odd)", &el));
}

#[test]
fn match_lang() {
    let el = MockElement::new("p").with_attr("lang", "en-US");
    assert!(parse_and_match(":lang(en)", &el));
    assert!(!parse_and_match(":lang(fr)", &el));
}

#[test]
fn match_lang_inherited() {
    let parent = MockElement::new("html").with_attr("lang", "en");
    let el = MockElement::new("p").with_parent(parent);
    assert!(parse_and_match(":lang(en)", &el));
}

#[test]
fn match_multiple_state_flags() {
    let el = MockElement::new("button")
        .with_state(ElementState::from_bits(ElementState::HOVER | ElementState::FOCUS));
    assert!(parse_and_match(":hover:focus", &el));
    assert!(!parse_and_match(":hover:active", &el));
}

#[test]
fn match_complex_real_world() {
    // Simulate: <nav> > <ul class="menu"> > <li class="item active">
    let nav = MockElement::new("nav");
    let ul = MockElement::new("ul").with_class("menu").with_parent(nav);
    let li = MockElement::new("li")
        .with_class("item")
        .with_class("active")
        .at_index(1, 5)
        .with_parent(ul);

    assert!(parse_and_match("nav .item", &li));
    assert!(parse_and_match("nav > .menu > .active", &li));
    assert!(parse_and_match(".menu > li.item.active:first-child", &li));
    assert!(!parse_and_match(".menu > li.item.active:last-child", &li));
}

#[test]
fn match_attribute_operations() {
    let el = MockElement::new("a")
        .with_attr("href", "https://example.com/path")
        .with_attr("class", "btn btn-primary")
        .with_attr("data-lang", "en-US");

    assert!(parse_and_match("[href^=https]", &el));
    assert!(parse_and_match("[href$=path]", &el));
    assert!(parse_and_match("[href*=example]", &el));
    assert!(parse_and_match("[class~=btn]", &el));
    assert!(parse_and_match("[data-lang|=en]", &el));
}
