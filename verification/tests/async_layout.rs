use std::collections::BTreeMap;

use mirrorscope::async_rust::layout::{
    AsyncFnLayout, AsyncLayouts, ChildRef, VariantInfo, VariantKind,
};

#[test]
fn parses_variant_kinds() {
    assert_eq!(VariantKind::from_struct_name("Unresumed"), Some(VariantKind::Unresumed));
    assert_eq!(VariantKind::from_struct_name("Returned"), Some(VariantKind::Returned));
    assert_eq!(VariantKind::from_struct_name("Panicked"), Some(VariantKind::Panicked));
    assert_eq!(VariantKind::from_struct_name("Suspend0"), Some(VariantKind::Suspend(0)));
    assert_eq!(VariantKind::from_struct_name("Suspend7"), Some(VariantKind::Suspend(7)));
    assert_eq!(VariantKind::from_struct_name("Nonsense"), None);
}

#[test]
fn suspend_predicate() {
    assert!(VariantKind::Suspend(2).is_suspend());
    assert!(!VariantKind::Returned.is_suspend());
}

#[test]
fn selects_variant_by_discriminant() {
    let mut variants = BTreeMap::new();
    variants.insert(0, VariantInfo::terminal(VariantKind::Unresumed));
    variants.insert(3, VariantInfo::terminal(VariantKind::Suspend(0)));
    let layout = AsyncFnLayout {
        type_path: "probe::sleeper::{async_fn_env#0}".to_string(),
        byte_size: 128,
        discr_offset: 120,
        discr_size: 1,
        variants,
    };
    assert_eq!(layout.variant_for(3).expect("suspend variant").kind, VariantKind::Suspend(0));
    assert!(layout.variant_for(9).is_none());
    assert_eq!(layout.short_name(), "sleeper");
}

#[test]
fn registry_lookup_and_membership() {
    let mut layouts = AsyncLayouts::new();
    assert!(layouts.is_empty());
    layouts.insert(AsyncFnLayout {
        type_path: "a::b::{async_fn_env#0}".to_string(),
        byte_size: 8,
        discr_offset: 0,
        discr_size: 1,
        variants: BTreeMap::new(),
    });
    assert_eq!(layouts.len(), 1);
    assert!(layouts.is_coroutine("a::b::{async_fn_env#0}"));
    assert!(!layouts.is_coroutine("tokio::time::Sleep"));
    assert!(layouts.get("a::b::{async_fn_env#0}").is_some());
}

#[test]
fn child_ref_constructor() {
    let c = ChildRef::new(8, "tokio::time::Sleep");
    assert_eq!(c.offset, 8);
    assert_eq!(c.type_path, "tokio::time::Sleep");
}

#[test]
fn an_insertion_adds_or_replaces() {
    let layout = |name: &str, size: u64| AsyncFnLayout {
        type_path: name.to_string(),
        byte_size: size,
        discr_offset: 0,
        discr_size: 1,
        variants: BTreeMap::new(),
    };
    let mut layouts = AsyncLayouts::new();
    layouts.insert(layout("a", 1));
    layouts.insert(layout("b", 2));
    assert_eq!(layouts.len(), 2);
    layouts.insert(layout("a", 3));
    assert_eq!(layouts.len(), 2);
    assert_eq!(layouts.get("a").expect("replaced").byte_size, 3);
    assert_eq!(layouts.get("b").expect("kept").byte_size, 2);
}
