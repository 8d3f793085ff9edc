use mirrorscope::async_rust::TaskRoot;

#[test]
fn builder_sets_fields() {
    let r = TaskRoot::new(7, 0x1000, "probe::sleeper::{async_fn_env#0}").with_header(0x9000);
    assert_eq!(r.id, 7);
    assert_eq!(r.base, 0x1000);
    assert_eq!(r.header_addr, Some(0x9000));
    assert_eq!(r.type_path, "probe::sleeper::{async_fn_env#0}");
}
