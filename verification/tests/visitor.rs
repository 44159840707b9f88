use kozan_selector::atom::Atom;
use kozan_selector::parser::parse;
use kozan_selector::types::{Component, SelectorList};
use kozan_selector::visitor::{visit_selector, SelectorListKind, SelectorVisitor};
struct AtomCollector {
    ids: Vec<Atom>,
    classes: Vec<Atom>,
    types: Vec<Atom>,
}

impl AtomCollector {
    fn new() -> Self {
        Self {
            ids: Vec::new(),
            classes: Vec::new(),
            types: Vec::new(),
        }
    }
}

impl SelectorVisitor for AtomCollector {
    fn visit_simple_selector(&mut self, component: &Component) -> bool {
        match component {
            Component::Id(atom) => self.ids.push(atom.clone()),
            Component::Class(atom) => self.classes.push(atom.clone()),
            Component::Type(atom) => self.types.push(atom.clone()),
            _ => {}
        }
        true
    }
}

#[test]
fn collect_atoms_simple() {
    let sel = parse("div.foo#bar").unwrap();
    let mut collector = AtomCollector::new();
    visit_selector(&sel.0[0], &mut collector);
    assert_eq!(collector.ids.len(), 1);
    assert_eq!(collector.classes.len(), 1);
    assert_eq!(collector.types.len(), 1);
}

#[test]
fn collect_atoms_nested() {
    let sel = parse(":not(.hidden)").unwrap();
    let mut collector = AtomCollector::new();
    visit_selector(&sel.0[0], &mut collector);
    assert_eq!(collector.classes.len(), 1);
    assert_eq!(collector.classes[0].as_str(), "hidden");
}

#[test]
fn early_termination() {
    struct StopAtId;
    impl SelectorVisitor for StopAtId {
        fn visit_simple_selector(&mut self, component: &Component) -> bool {
            !matches!(component, Component::Id(_))
        }
    }

    let sel = parse("div#foo.bar").unwrap();
    let mut visitor = StopAtId;
    // Should stop at #foo and not visit .bar
    let completed = visit_selector(&sel.0[0], &mut visitor);
    assert!(!completed);
}

struct ListKindCollector {
    kinds: Vec<SelectorListKind>,
}

impl SelectorVisitor for ListKindCollector {
    fn visit_selector_list(&mut self, kind: SelectorListKind, _: &SelectorList) -> bool {
        self.kinds.push(kind);
        true
    }
}

#[test]
fn nested_list_kinds() {
    // Use mixed :is() (class+type) so it doesn't get flattened, and single :not()
    let sel = parse(":is(.a, div):not(.b)").unwrap();
    let mut collector = ListKindCollector { kinds: Vec::new() };
    visit_selector(&sel.0[0], &mut collector);
    assert!(collector.kinds.contains(&SelectorListKind::from_bits(SelectorListKind::IS)));
    assert!(collector.kinds.contains(&SelectorListKind::from_bits(SelectorListKind::NEGATION)));
}
