use mirrorscope::async_rust::dwarf::{is_tokio_object, qualify};

#[test]
fn qualify_joins_namespace_path() {
    assert_eq!(
        qualify(&["probe".to_string(), "sleeper".to_string()], "{async_fn_env#0}"),
        "probe::sleeper::{async_fn_env#0}"
    );
    assert_eq!(qualify(&[], "Sleep"), "Sleep");
}

#[test]
fn non_object_bytes_are_not_tokio() {
    assert!(object::File::parse(&b"not elf"[..]).is_err());
    assert!(!is_tokio_object(b"not elf"));
}
