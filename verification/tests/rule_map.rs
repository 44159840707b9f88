use kozan_selector::atom::Atom;
use kozan_selector::element::Element;
use kozan_selector::opaque::OpaqueElement;
use kozan_selector::parser::parse;
use kozan_selector::pseudo_class::ElementState;
use kozan_selector::rule_map::{RuleMap, RuleMapBuilder};
use kozan_selector::types::Direction;
#[derive(Clone)]
struct MockEl {
    tag: Atom,
    id: Option<Atom>,
    classes: Vec<Atom>,
}

/// The address of a value, read from its pointer formatting.
fn address_of<T>(value: &T) -> usize {
    let text = format!("{:p}", value);
    usize::from_str_radix(text.trim_start_matches("0x"), 16).unwrap()
}

impl Element for MockEl {
    fn local_name(&self) -> &Atom { &self.tag }
    fn id(&self) -> Option<&Atom> { self.id.as_ref() }
    fn has_class(&self, class: &Atom) -> bool { self.classes.iter().any(|c| c == class) }
    fn class_list(&self) -> Vec<Atom> { self.classes.clone() }

    fn attr(&self, _: &Atom) -> Option<&str> { None }
    fn parent_element(&self) -> Option<Self> { None }
    fn prev_sibling_element(&self) -> Option<Self> { None }
    fn next_sibling_element(&self) -> Option<Self> { None }
    fn first_child_element(&self) -> Option<Self> { None }
    fn last_child_element(&self) -> Option<Self> { None }
    fn state(&self) -> ElementState { ElementState::empty() }
    fn is_root(&self) -> bool { false }
    fn is_empty(&self) -> bool { true }
    fn child_index(&self) -> u32 { 1 }
    fn child_count(&self) -> u32 { 1 }
    fn child_index_of_type(&self) -> u32 { 1 }
    fn child_count_of_type(&self) -> u32 { 1 }
    fn opaque(&self) -> OpaqueElement {
        OpaqueElement::from_ptr(address_of(self))
    }
    fn direction(&self) -> Direction { Direction::Ltr }
    fn namespace(&self) -> Option<&Atom> { None }
    fn is_newly_inserted(&self) -> bool { false }
    fn is_shadow_host(&self) -> bool { false }
    fn containing_shadow_host(&self) -> Option<Self> { None }
    fn is_in_slot(&self) -> bool { false }
    fn assigned_slot(&self) -> Option<Self> { None }
    fn is_part(&self, _name: &Atom) -> bool { false }
    fn has_custom_state(&self, _name: &Atom) -> bool { false }
    fn column_element(&self) -> Option<Self> { None }
}

fn el(tag: &str) -> MockEl {
    MockEl { tag: Atom::from(tag), id: None, classes: Vec::new() }
}

fn el_id(tag: &str, id: &str) -> MockEl {
    MockEl { tag: Atom::from(tag), id: Some(Atom::from(id)), classes: Vec::new() }
}

fn el_class(tag: &str, class: &str) -> MockEl {
    MockEl { tag: Atom::from(tag), id: None, classes: vec![Atom::from(class)] }
}

fn build_map(rules: &[(&str, u32)]) -> RuleMap {
    let mut builder = RuleMapBuilder::new();
    for &(css, data) in rules {
        let list = parse(css).unwrap();
        for sel in list.0 {
            builder.insert(sel, data);
        }
    }
    builder.build()
}

#[test]
fn bucketing_by_id() {
    let map = build_map(&[("#main", 0), ("#sidebar", 1), (".foo", 2)]);
    let matches = map.find_matching(&el_id("div", "main"));
    assert_eq!(matches.len(), 1);
    assert_eq!(matches[0].data, 0);
}

#[test]
fn bucketing_by_class() {
    let map = build_map(&[(".active", 0), (".hidden", 1), ("div", 2)]);
    let matches = map.find_matching(&el_class("span", "active"));
    assert_eq!(matches.len(), 1);
    assert_eq!(matches[0].data, 0);
}

#[test]
fn bucketing_by_type() {
    let map = build_map(&[("div", 0), ("span", 1)]);
    let matches = map.find_matching(&el("div"));
    assert_eq!(matches.len(), 1);
    assert_eq!(matches[0].data, 0);
}

#[test]
fn universal_always_tested() {
    let map = build_map(&[("*", 0), ("div", 1)]);
    let matches = map.find_matching(&el("div"));
    assert_eq!(matches.len(), 2);
}

#[test]
fn sorted_by_specificity() {
    let map = build_map(&[("div", 0), ("div.foo", 1), ("div#bar.foo", 2)]);
    let element = MockEl {
        tag: Atom::from("div"),
        id: Some(Atom::from("bar")),
        classes: vec![Atom::from("foo")],
    };
    let matches = map.find_matching(&element);
    assert_eq!(matches.len(), 3);
    assert_eq!(matches[0].data, 2); // #bar.foo — highest specificity
    assert_eq!(matches[1].data, 1); // .foo
    assert_eq!(matches[2].data, 0); // div
}

#[test]
fn source_order_tiebreak() {
    let map = build_map(&[(".a", 0), (".a", 1)]);
    let matches = map.find_matching(&el_class("div", "a"));
    assert_eq!(matches.len(), 2);
    assert_eq!(matches[0].data, 1); // later source order wins
    assert_eq!(matches[1].data, 0);
}

#[test]
fn multiple_classes_hit_multiple_buckets() {
    let map = build_map(&[(".a", 0), (".b", 1), (".c", 2)]);
    let element = MockEl {
        tag: Atom::from("div"),
        id: None,
        classes: vec![Atom::from("a"), Atom::from("b")],
    };
    let matches = map.find_matching(&element);
    assert_eq!(matches.len(), 2);
}

#[test]
fn empty_map() {
    let map = build_map(&[]);
    assert!(map.is_empty());
    assert_eq!(map.find_matching(&el("div")).len(), 0);
}

#[test]
fn visitor_zero_alloc() {
    let map = build_map(&[("div", 0), (".foo", 1), ("*", 2)]);
    let el = el_class("div", "foo");
    let count = std::cell::Cell::new(0u32);
    map.for_each_matching(&el, |_| count.set(count.get() + 1));
    assert_eq!(count.get(), 3);
}

#[test]
fn flat_storage_contiguous() {
    let map = build_map(&[("#a", 0), (".b", 1), ("div", 2), ("*", 3)]);
    // All 4 entries should be in the flat storage.
    assert_eq!(map.len(), 4);
    assert_eq!(map.entries().len(), 4);
}

#[test]
fn interleaved_keys_all_found() {
    let map = build_map(&[(".a", 0), (".b", 1), (".a", 2), ("#x.a", 3)]);
    let element = MockEl {
        tag: Atom::from("div"),
        id: Some(Atom::from("x")),
        classes: vec![Atom::from("a")],
    };
    let found = map.find_matching(&element);
    let data: Vec<u32> = found.iter().map(|e| e.data).collect();
    assert_eq!(data, vec![3, 2, 0]);
}

#[test]
fn every_matching_rule_found_once() {
    let map = build_map(&[("div", 0), ("span", 1), (".a", 2), ("*", 3), ("div.a", 4), ("#y", 5)]);
    let element = MockEl {
        tag: Atom::from("div"),
        id: None,
        classes: vec![Atom::from("a")],
    };
    let mut data: Vec<u32> = map.find_matching(&element).iter().map(|e| e.data).collect();
    data.sort();
    assert_eq!(data, vec![0, 2, 3, 4]);
    assert_eq!(map.len(), 6);
    assert_eq!(map.entries().len(), 6);
}

#[test]
fn entry_memory_counts_every_entry() {
    let map = build_map(&[(".a", 0), ("#b, div", 1)]);
    let size = std::mem::size_of::<kozan_selector::rule_map::RuleEntry>();
    assert_eq!(map.entry_memory(), 3 * size);
}
