use kozan_selector::codegen::{pascal_to_kebab, qualify_initial, qualify_type};
use kozan_selector::keyword::{css_kw_eq, group_by_len, int_chunks, keyword_chunks};

#[test]
fn kebab_from_pascal() {
    assert_eq!(pascal_to_kebab("MinContent"), "min-content");
    assert_eq!(pascal_to_kebab("Auto"), "auto");
    assert_eq!(pascal_to_kebab("XyzD50"), "xyz-d50");
    assert_eq!(pascal_to_kebab("already-kebab"), "already-kebab");
    assert_eq!(pascal_to_kebab(""), "");
}

#[test]
fn qualify_primitive_and_crate_types() {
    assert_eq!(qualify_type("f32"), "f32");
    assert_eq!(qualify_type("bool"), "bool");
    assert_eq!(qualify_type("usize"), "usize");
    assert_eq!(qualify_type("std::sync::Arc<str>"), "std::sync::Arc<str>");
    assert_eq!(qualify_type("specified::Length"), "crate::specified::Length");
    assert_eq!(qualify_type("f3"), "crate::f3");
}

#[test]
fn qualify_initial_default_and_generics() {
    assert_eq!(
        qualify_initial("Default::default()", "specified::Color"),
        "<specified::Color as Default>::default()"
    );
    assert_eq!(
        qualify_initial("generics::LPOrNormal::Normal", "generics::LPOrNormal<specified::LP>"),
        "generics::LPOrNormal::<specified::LP>::Normal"
    );
    assert_eq!(
        qualify_initial("generics::Other::Normal", "generics::LPOrNormal<specified::LP>"),
        "generics::Other::Normal"
    );
    assert_eq!(qualify_initial("Foo::Bar", "Foo"), "Foo::Bar");
    assert_eq!(
        qualify_initial("generics::A::<X>::B", "generics::A<X>"),
        "generics::A::<X>::B"
    );
}

#[test]
fn keyword_compare_is_ascii_case_insensitive() {
    assert!(css_kw_eq("SRGB", "srgb"));
    assert!(css_kw_eq("xyz-d50", "xyz-d50"));
    assert!(!css_kw_eq("srgbx", "srgb"));
    assert!(!css_kw_eq("sr_b", "srgb"));
    assert!(!css_kw_eq("é", "e"));
}

#[test]
fn chunks_use_largest_widths() {
    assert_eq!(int_chunks(0), vec![]);
    assert_eq!(int_chunks(1), vec![(0, 1)]);
    assert_eq!(int_chunks(3), vec![(0, 2), (2, 1)]);
    assert_eq!(int_chunks(7), vec![(0, 4), (4, 2), (6, 1)]);
    assert_eq!(int_chunks(25), vec![(0, 8), (8, 8), (16, 8), (24, 1)]);
}

#[test]
fn keyword_chunks_are_lowercase() {
    let chunks = keyword_chunks(b"XYZ-D50");
    assert_eq!(chunks.len(), 3);
    assert_eq!(chunks[0], (0, 4, b"xyz-".to_vec()));
    assert_eq!(chunks[1], (4, 2, b"d5".to_vec()));
    assert_eq!(chunks[2], (6, 1, b"0".to_vec()));
}

#[test]
fn length_groups_in_order() {
    let plan = group_by_len(&[4, 7, 3, 4]);
    assert_eq!(plan, vec![(3, vec![2]), (4, vec![0, 3]), (7, vec![1])]);
    assert_eq!(group_by_len(&[]), vec![]);
}

#[test]
fn physical_lookup_and_missing_logical() {
    use_names();
}

fn use_names() {
    let names: Vec<String> = ["width", "height", "margin-left"].iter().map(|s| s.to_string()).collect();
    assert_eq!(kozan_selector::codegen::find_name(&names, "height"), Some(1));
    assert_eq!(kozan_selector::codegen::find_name(&names, "depth"), None);
    let ok: Vec<String> = ["margin-left", "width"].iter().map(|s| s.to_string()).collect();
    assert_eq!(kozan_selector::codegen::resolve_physical(&names, &ok), Ok(vec![2, 0]));
    let bad: Vec<String> = ["width", "padding-top", "depth"].iter().map(|s| s.to_string()).collect();
    assert_eq!(kozan_selector::codegen::resolve_physical(&names, &bad), Err(1));
}

#[test]
fn kebab_of_ascii_names() {
    assert_eq!(kozan_selector::codegen::pascal_to_kebab("MinContent"), "min-content");
    assert_eq!(kozan_selector::codegen::pascal_to_kebab("A"), "a");
}
