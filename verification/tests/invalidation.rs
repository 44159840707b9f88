use kozan_selector::atom::Atom;
use kozan_selector::invalidation::InvalidationMap;
use kozan_selector::parser::parse;
use kozan_selector::pseudo_class::ElementState;
fn make_map(rules: &[&str]) -> InvalidationMap {
    let mut map = InvalidationMap::new();
    for (i, css) in rules.iter().enumerate() {
        let list = parse(css).unwrap();
        map.add_selector_list(&list, i as u32);
    }
    map
}

#[test]
fn class_dependency() {
    let map = make_map(&[".active", ".hidden", "div.active"]);
    let active = Atom::from("active");
    let hidden = Atom::from("hidden");

    assert_eq!(map.class_deps(&active).len(), 2); // .active, div.active
    assert_eq!(map.class_deps(&hidden).len(), 1); // .hidden
    assert_eq!(map.class_deps(&Atom::from("unknown")).len(), 0);
}

#[test]
fn id_dependency() {
    let map = make_map(&["#main", "#sidebar", "div#main"]);
    let main = Atom::from("main");
    assert_eq!(map.id_deps(&main).len(), 2);
}

#[test]
fn type_dependency() {
    let map = make_map(&["div", "span", "div.foo"]);
    let div = Atom::from("div");
    assert_eq!(map.type_deps(&div).len(), 2);
}

#[test]
fn attr_dependency() {
    let map = make_map(&["[disabled]", "[type=text]", "[data-x^=foo]"]);
    let disabled = Atom::from("disabled");
    let typ = Atom::from("type");
    assert_eq!(map.attr_deps(&disabled).len(), 1);
    assert_eq!(map.attr_deps(&typ).len(), 1);
}

#[test]
fn state_dependency() {
    let map = make_map(&[":hover", ":focus", ":first-child"]);
    assert!(map.depends_on_state(ElementState::from_bits(ElementState::HOVER)));
    assert!(map.depends_on_state(ElementState::from_bits(ElementState::FOCUS)));
    assert!(!map.depends_on_state(ElementState::from_bits(ElementState::ACTIVE)));
}

#[test]
fn structural_dependency() {
    let map = make_map(&[":first-child", ":nth-child(2n)", "div.foo"]);
    assert_eq!(map.structural_deps().len(), 2);
}

#[test]
fn nested_selectors_tracked() {
    let map = make_map(&[":not(.hidden)", ":is(.a, .b)", ":has(> .child)"]);
    let hidden = Atom::from("hidden");
    let a = Atom::from("a");
    let b = Atom::from("b");
    let child = Atom::from("child");

    assert_eq!(map.class_deps(&hidden).len(), 1);
    assert_eq!(map.class_deps(&a).len(), 1);
    assert_eq!(map.class_deps(&b).len(), 1);
    assert_eq!(map.class_deps(&child).len(), 1);
}

#[test]
fn clear_resets() {
    let mut map = make_map(&[".foo", "#bar", ":hover"]);
    assert!(map.selector_count() > 0);
    map.clear();
    assert_eq!(map.selector_count(), 0);
    assert_eq!(map.class_count(), 0);
    assert!(map.state_deps().is_empty());
}

#[test]
fn specificity_preserved() {
    let map = make_map(&["#main .active"]);
    let active = Atom::from("active");
    let deps = map.class_deps(&active);
    assert_eq!(deps.len(), 1);
    assert_eq!(deps[0].specificity.components(), (1, 1, 0));
}

#[test]
fn counts_distinct_class_and_id_names() {
    let mut map = InvalidationMap::new();
    let list = parse(".a .a.b #x, .b #y #x").unwrap();
    map.add_selector_list(&list, 0);
    assert_eq!(map.class_count(), 2);
    assert_eq!(map.id_count(), 2);
}
