use kozan_selector::atom::Atom;
use kozan_selector::bloom::AncestorBloom;
use kozan_selector::context::{MatchingContext, QuirksMode, SelectorCaches, VisitedHandling};
use kozan_selector::flags::{ElementSelectorFlags, MatchingFlags};
use kozan_selector::has_cache::{HasCache, HasResult};
use kozan_selector::kleene::KleeneValue;
use kozan_selector::nth_cache::NthIndexCache;
use kozan_selector::opaque::OpaqueElement;
use kozan_selector::specificity::Specificity;

/// The address of a value, read from its pointer formatting.
fn address_of<T>(value: &T) -> usize {
    let text = format!("{:p}", value);
    usize::from_str_radix(text.trim_start_matches("0x"), 16).unwrap()
}

// ---------------------------------------------------------------- bloom

#[test]
fn insert_and_query() {
    let mut bloom = AncestorBloom::new();
    let atom = Atom::from("div");
    let hash = AncestorBloom::hash_atom(&atom);
    assert!(!bloom.might_contain(hash));
    bloom.insert_hash(hash);
    assert!(bloom.might_contain(hash));
}

#[test]
fn counting_push_pop() {
    let mut bloom = AncestorBloom::new();
    let atom = Atom::from("div");
    let hash = AncestorBloom::hash_atom(&atom);

    bloom.insert_hash(hash);
    bloom.insert_hash(hash);
    assert!(bloom.might_contain(hash));

    bloom.remove_hash(hash);
    assert!(bloom.might_contain(hash));

    bloom.remove_hash(hash);
    assert!(!bloom.might_contain(hash));
}

#[test]
fn saturating_counters() {
    let mut bloom = AncestorBloom::new();
    let hash = 42u32;
    for _ in 0..300 {
        bloom.insert_hash(hash);
    }
    assert!(bloom.might_contain(hash));
    for _ in 0..300 {
        bloom.remove_hash(hash);
    }
}

#[test]
fn different_atoms_independent() {
    let mut bloom = AncestorBloom::new();
    let div_hash = AncestorBloom::hash_atom(&Atom::from("div"));
    let span_hash = AncestorBloom::hash_atom(&Atom::from("span"));

    bloom.insert_hash(div_hash);
    assert!(bloom.might_contain(div_hash));
    bloom.insert_hash(span_hash);
    bloom.remove_hash(div_hash);
    assert!(bloom.might_contain(span_hash));
}

#[test]
fn empty_filter_rejects_all() {
    let bloom = AncestorBloom::new();
    for i in 0..100u32 {
        assert!(!bloom.might_contain(i));
    }
}

#[test]
fn bloom_insert_then_remove_restores_empty() {
    let mut bloom = AncestorBloom::new();
    let a = AncestorBloom::hash_atom(&Atom::from("section"));
    let b = AncestorBloom::hash_atom(&Atom::from("main"));
    bloom.insert_hash(a);
    bloom.insert_hash(b);
    bloom.remove_hash(b);
    bloom.remove_hash(a);
    for i in 0..1000u32 {
        assert!(!bloom.might_contain(i));
    }
    assert!(!bloom.might_contain(a));
    assert!(!bloom.might_contain(b));
}

#[test]
fn bloom_insert_atom_matches_hash() {
    let mut bloom = AncestorBloom::new();
    let atom = Atom::from("article");
    bloom.insert_atom(&atom);
    assert!(bloom.might_contain(AncestorBloom::hash_atom(&atom)));
    bloom.remove_atom(&atom);
    assert!(!bloom.might_contain(AncestorBloom::hash_atom(&atom)));
}

// ---------------------------------------------------------------- context

#[test]
fn default_context() {
    let mut caches = SelectorCaches::new();
    let ctx = MatchingContext::new(&mut caches);
    assert!(ctx.bloom_filter.is_none());
    assert!(ctx.scope_element.is_none());
    assert_eq!(ctx.visited_handling, VisitedHandling::AllLinksUnvisited);
    assert_eq!(ctx.quirks_mode, QuirksMode::NoQuirks);
    assert!(!ctx.matching_for_invalidation());
    assert!(!ctx.needs_selector_flags());
}

#[test]
fn restyle_context() {
    let bloom = AncestorBloom::new();
    let mut caches = SelectorCaches::new();
    let ctx = MatchingContext::for_restyle(&bloom, QuirksMode::NoQuirks, &mut caches);
    assert!(ctx.bloom_filter.is_some());
    assert!(ctx.needs_selector_flags());
    assert!(!ctx.matching_for_invalidation());
}

#[test]
fn invalidation_context() {
    let mut caches = SelectorCaches::new();
    let ctx = MatchingContext::for_invalidation(&mut caches);
    assert!(ctx.matching_for_invalidation());
    assert!(!ctx.needs_selector_flags());
    assert_eq!(ctx.visited_handling, VisitedHandling::AllLinksVisitedAndUnvisited);
}

#[test]
fn collect_flags() {
    let mut caches = SelectorCaches::new();
    let mut ctx = MatchingContext::new(&mut caches);
    ctx.flags = ctx.flags.union(MatchingFlags::from_bits(MatchingFlags::COLLECT_SELECTOR_FLAGS));
    ctx.add_element_flag(ElementSelectorFlags::HAS_SLOW_SELECTOR_NTH);
    ctx.add_element_flag(ElementSelectorFlags::HAS_EDGE_CHILD_SELECTOR);
    let flags = ctx.take_element_flags();
    assert!(flags.contains(ElementSelectorFlags::from_bits(ElementSelectorFlags::HAS_SLOW_SELECTOR_NTH)));
    assert!(flags.contains(ElementSelectorFlags::from_bits(ElementSelectorFlags::HAS_EDGE_CHILD_SELECTOR)));
    assert!(ctx.collected_element_flags.is_empty());
}

#[test]
fn flags_ignored_without_collecting() {
    let mut caches = SelectorCaches::new();
    let mut ctx = MatchingContext::new(&mut caches);
    ctx.add_element_flag(ElementSelectorFlags::HAS_EMPTY_SELECTOR);
    assert!(ctx.take_element_flags().is_empty());
}

#[test]
fn quirks_mode_classes() {
    assert!(!QuirksMode::NoQuirks.classes_case_insensitive());
    assert!(!QuirksMode::LimitedQuirks.classes_case_insensitive());
    assert!(QuirksMode::Quirks.classes_case_insensitive());
}

// ---------------------------------------------------------------- flags

#[test]
fn flag_combining() {
    let flags = ElementSelectorFlags::from_bits(
        ElementSelectorFlags::HAS_SLOW_SELECTOR_NTH | ElementSelectorFlags::HAS_EDGE_CHILD_SELECTOR,
    );
    assert!(flags.contains(ElementSelectorFlags::from_bits(ElementSelectorFlags::HAS_SLOW_SELECTOR_NTH)));
    assert!(flags.contains(ElementSelectorFlags::from_bits(ElementSelectorFlags::HAS_EDGE_CHILD_SELECTOR)));
    assert!(!flags.contains(ElementSelectorFlags::from_bits(ElementSelectorFlags::HAS_EMPTY_SELECTOR)));
}

#[test]
fn matching_flags() {
    let flags = MatchingFlags::from_bits(MatchingFlags::COLLECT_SELECTOR_FLAGS);
    assert!(flags.contains(MatchingFlags::from_bits(MatchingFlags::COLLECT_SELECTOR_FLAGS)));
    assert!(!flags.contains(MatchingFlags::from_bits(MatchingFlags::MATCHING_FOR_INVALIDATION)));
}

// ---------------------------------------------------------------- has cache

#[test]
fn cache_hit_and_miss() {
    let mut cache = HasCache::new();
    let el = OpaqueElement::new(1);

    assert!(cache.get(el, 100).is_none());

    cache.insert(el, 100, HasResult::Matched);
    assert_eq!(cache.get(el, 100), Some(HasResult::Matched));

    cache.insert(el, 200, HasResult::NotMatched);
    assert_eq!(cache.get(el, 200), Some(HasResult::NotMatched));
}

#[test]
fn get_or_insert_caches() {
    let mut cache = HasCache::new();
    let el = OpaqueElement::new(1);
    let mut calls = 0;

    let result = cache.get_or_insert(el, 100, || {
        calls += 1;
        true
    });
    assert!(result);
    assert_eq!(calls, 1);

    let result = cache.get_or_insert(el, 100, || {
        calls += 1;
        false
    });
    assert!(result);
    assert_eq!(calls, 1);
}

#[test]
fn has_cache_clear_invalidates() {
    let mut cache = HasCache::new();
    let el = OpaqueElement::new(1);
    cache.insert(el, 100, HasResult::Matched);
    assert_eq!(cache.len(), 1);

    cache.clear();
    assert!(cache.is_empty());
    assert!(cache.get(el, 100).is_none());
}

#[test]
fn different_selectors_independent() {
    let mut cache = HasCache::new();
    let el = OpaqueElement::new(1);
    cache.insert(el, 100, HasResult::Matched);
    cache.insert(el, 200, HasResult::NotMatched);

    assert!(cache.get(el, 100).unwrap().matched());
    assert!(!cache.get(el, 200).unwrap().matched());
}

#[test]
fn has_cache_elements_independent() {
    let mut cache = HasCache::new();
    cache.insert(OpaqueElement::new(1), 7, HasResult::Matched);
    assert!(cache.get(OpaqueElement::new(2), 7).is_none());
    cache.insert(OpaqueElement::new(1), 7, HasResult::NotMatched);
    assert_eq!(cache.get(OpaqueElement::new(1), 7), Some(HasResult::NotMatched));
    assert_eq!(cache.len(), 1);
}

// ---------------------------------------------------------------- kleene

#[test]
fn boolean_conversion() {
    assert_eq!(KleeneValue::from(true), KleeneValue::True);
    assert_eq!(KleeneValue::from(false), KleeneValue::False);
}

#[test]
fn not_operator() {
    assert_eq!(!KleeneValue::True, KleeneValue::False);
    assert_eq!(!KleeneValue::False, KleeneValue::True);
    assert_eq!(!KleeneValue::Unknown, KleeneValue::Unknown);
}

#[test]
fn and_truth_table() {
    assert_eq!(KleeneValue::True & KleeneValue::True, KleeneValue::True);
    assert_eq!(KleeneValue::True & KleeneValue::False, KleeneValue::False);
    assert_eq!(KleeneValue::True & KleeneValue::Unknown, KleeneValue::Unknown);
    assert_eq!(KleeneValue::False & KleeneValue::Unknown, KleeneValue::False);
    assert_eq!(KleeneValue::Unknown & KleeneValue::Unknown, KleeneValue::Unknown);
}

#[test]
fn or_truth_table() {
    assert_eq!(KleeneValue::False | KleeneValue::False, KleeneValue::False);
    assert_eq!(KleeneValue::False | KleeneValue::True, KleeneValue::True);
    assert_eq!(KleeneValue::False | KleeneValue::Unknown, KleeneValue::Unknown);
    assert_eq!(KleeneValue::True | KleeneValue::Unknown, KleeneValue::True);
}

#[test]
fn any_iterator() {
    let vals = [1, 2, 3];
    assert_eq!(KleeneValue::any(&vals, |&v| (v == 2).into()), KleeneValue::True);
    assert_eq!(KleeneValue::any(&vals, |&v| (v == 5).into()), KleeneValue::False);
    assert_eq!(
        KleeneValue::any(&vals, |&v| if v == 2 { KleeneValue::Unknown } else { KleeneValue::False }),
        KleeneValue::Unknown
    );
}

#[test]
fn all_iterator() {
    let vals = [2, 4, 6];
    assert_eq!(KleeneValue::all(&vals, |&v| (v % 2 == 0).into()), KleeneValue::True);
    assert_eq!(KleeneValue::all(&vals, |&v| (v > 3).into()), KleeneValue::False);
}

#[test]
fn kleene_de_morgan_on_all_values() {
    let vals = [KleeneValue::True, KleeneValue::False, KleeneValue::Unknown];
    for a in vals {
        assert_eq!(!!a, a);
        for b in vals {
            assert_eq!(!(a & b), !a | !b);
            assert_eq!(!(a | b), !a & !b);
            assert_eq!(a & b, b & a);
            assert_eq!(a | b, b | a);
        }
    }
}

#[test]
fn kleene_empty_folds() {
    let none: [u8; 0] = [];
    assert_eq!(KleeneValue::any(&none, |_| KleeneValue::True), KleeneValue::False);
    assert_eq!(KleeneValue::all(&none, |_| KleeneValue::False), KleeneValue::True);
    assert!(KleeneValue::Unknown.is_unknown());
    assert!(KleeneValue::True.is_true());
    assert!(KleeneValue::False.is_false());
}

// ---------------------------------------------------------------- nth cache

#[test]
fn cache_hit() {
    let mut cache = NthIndexCache::new();
    let el = OpaqueElement::new(42);
    let mut calls = 0;
    let idx = cache.nth_child(el, || {
        calls += 1;
        3
    });
    assert_eq!(idx, 3);
    assert_eq!(calls, 1);

    let idx2 = cache.nth_child(el, || {
        calls += 1;
        999
    });
    assert_eq!(idx2, 3);
    assert_eq!(calls, 1);
}

#[test]
fn nth_cache_clear_invalidates() {
    let mut cache = NthIndexCache::new();
    let el = OpaqueElement::new(1);
    cache.nth_child(el, || 5);
    cache.clear();
    let idx = cache.nth_child(el, || 10);
    assert_eq!(idx, 10);
}

#[test]
fn different_variants_independent() {
    let mut cache = NthIndexCache::new();
    let el = OpaqueElement::new(1);
    cache.nth_child(el, || 3);
    cache.nth_of_type(el, || 1);
    assert_eq!(cache.nth_child(el, || 999), 3);
    assert_eq!(cache.nth_of_type(el, || 999), 1);
}

#[test]
fn of_selector_key_distinguishes() {
    let mut cache = NthIndexCache::new();
    let el = OpaqueElement::new(1);
    cache.nth_child_of(el, 100, || 2);
    cache.nth_child_of(el, 200, || 5);
    assert_eq!(cache.nth_child_of(el, 100, || 999), 2);
    assert_eq!(cache.nth_child_of(el, 200, || 999), 5);
}

#[test]
fn bump_generation_drops_entries() {
    let mut cache = NthIndexCache::new();
    let el = OpaqueElement::new(9);
    cache.nth_last_of_type(el, || 4);
    assert_eq!(cache.generation(), 0);
    cache.bump_generation();
    assert_eq!(cache.generation(), 1);
    assert_eq!(cache.nth_last_of_type(el, || 6), 6);
}

// ---------------------------------------------------------------- opaque

#[test]
fn equality() {
    assert_eq!(OpaqueElement::new(42), OpaqueElement::new(42));
    assert_ne!(OpaqueElement::new(1), OpaqueElement::new(2));
}

#[test]
fn from_pointer() {
    let x = 42u32;
    let a = OpaqueElement::from_ptr(address_of(&x));
    let b = OpaqueElement::from_ptr(address_of(&x));
    assert_eq!(a, b);
}

#[test]
fn hashable() {
    let mut set = std::collections::HashSet::new();
    set.insert(OpaqueElement::new(1));
    set.insert(OpaqueElement::new(2));
    set.insert(OpaqueElement::new(1));
    assert_eq!(set.len(), 2);
}

#[test]
fn opaque_raw_round_trip() {
    assert_eq!(OpaqueElement::new(77).raw(), 77);
}

// ---------------------------------------------------------------- specificity

#[test]
fn zero() {
    assert_eq!(Specificity::zero().components(), (0, 0, 0));
}

#[test]
fn simple() {
    assert_eq!(Specificity::new(1, 0, 0).components(), (1, 0, 0));
    assert_eq!(Specificity::new(0, 3, 2).components(), (0, 3, 2));
    assert_eq!(Specificity::new(255, 4095, 4095).components(), (255, 4095, 4095));
}

#[test]
fn ordering() {
    assert!(Specificity::new(1, 0, 0) > Specificity::new(0, 100, 100));
    assert!(Specificity::new(0, 2, 0) > Specificity::new(0, 1, 10));
    assert_eq!(Specificity::new(0, 1, 1), Specificity::new(0, 1, 1));
}

#[test]
fn add_methods() {
    let mut s = Specificity::zero();
    s.add_id();
    s.add_class();
    s.add_class();
    s.add_type();
    assert_eq!(s.components(), (1, 2, 1));
}

#[test]
fn display() {
    assert_eq!(Specificity::new(0, 1, 3).to_css_string(), "(0,1,3)");
}

#[test]
fn specificity_packing_exact() {
    assert_eq!(Specificity::new(1, 2, 3).value(), (1 << 24) | (2 << 12) | 3);
    assert_eq!(Specificity::from_raw(Specificity::new(4, 5, 6).value()), Specificity::new(4, 5, 6));
    assert_eq!(Specificity::new(0, 1, 0).max(Specificity::new(0, 0, 9)), Specificity::new(0, 1, 0));
}

#[test]
fn kleene_any_all_decided_by_one_item() {
    let vals = [1, 2];
    let f = |&v: &i32| if v == 1 { KleeneValue::Unknown } else { KleeneValue::True };
    assert_eq!(KleeneValue::any(&vals, f), KleeneValue::True);
    let g = |&v: &i32| if v == 1 { KleeneValue::Unknown } else { KleeneValue::False };
    assert_eq!(KleeneValue::all(&vals, g), KleeneValue::False);
    assert_eq!(KleeneValue::any(&vals, g), KleeneValue::Unknown);
    assert_eq!(KleeneValue::all(&vals, f), KleeneValue::Unknown);
}

#[test]
fn has_cache_len_grows_on_miss() {
    let mut c = HasCache::new();
    let e = OpaqueElement::new(7);
    assert!(c.get_or_insert(e, 1, || true));
    assert_eq!(c.len(), 1);
    assert!(c.get_or_insert(e, 1, || false));
    assert_eq!(c.len(), 1);
    assert!(!c.get_or_insert(e, 2, || false));
    assert_eq!(c.len(), 2);
}
