use mirrorscope::async_rust::enumerate::dwarf::{
    elf_geometry, first_generic_arg, is_context_symbol,
};
use mirrorscope::async_rust::EnumerateError;

#[test]
fn extracts_first_generic_arg() {
    assert_eq!(
        first_generic_arg("poll<tokfix::sleeper::{async_fn_env#0}, alloc::sync::Arc<H>>")
            .as_deref(),
        Some("tokfix::sleeper::{async_fn_env#0}")
    );
}

#[test]
fn preserves_nested_generics_in_first_arg() {
    assert_eq!(
        first_generic_arg("poll<core::pin::Pin<Box<F, G>>, S>").as_deref(),
        Some("core::pin::Pin<Box<F, G>>")
    );
}

#[test]
fn ignores_non_poll_names() {
    assert_eq!(first_generic_arg("poll_future<F, S>"), None);
}

#[test]
fn recognizes_context_symbol_forms() {
    assert!(is_context_symbol("_ZN5tokio7runtime7context7CONTEXT29foo"));
    assert!(is_context_symbol("tokio..runtime..context..CONTEXT..bar"));
    assert!(!is_context_symbol("_ZN5tokio7runtime7context11set_current"));
}

#[test]
fn rejects_non_elf_geometry() {
    assert!(matches!(
        elf_geometry(b"not an elf"),
        Err(EnumerateError::Parse(_))
    ));
}
