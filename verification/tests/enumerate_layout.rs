use mirrorscope::async_rust::enumerate::TokioRuntimeLayout;
use mirrorscope::async_rust::{EnumerateError, TokioVersion};

#[test]
fn detects_embedded_tokio_version() {
    let blob = b"junk\x00/root/.cargo/registry/src/index/tokio-1.44.2/src/lib.rs\x00more";
    assert_eq!(
        TokioVersion::detect_in_bytes(blob),
        Some(TokioVersion::new(1, 44, 2))
    );
}

#[test]
fn returns_none_without_a_version_string() {
    assert_eq!(TokioVersion::detect_in_bytes(b"no version here"), None);
}

#[test]
fn vendored_1_44_has_verified_offsets() {
    let l = TokioRuntimeLayout::vendored(TokioVersion::new(1, 44, 2)).expect("1.44");
    assert_eq!(l.shared_owned, 104);
    assert_eq!(l.vtable_trailer_offset, 56);
    assert_eq!(l.future_offset, 56);
    assert_eq!(l.shard_stride, 24);
}

#[test]
fn unverified_version_declines() {
    let err = TokioRuntimeLayout::vendored(TokioVersion::new(1, 30, 0)).expect_err("declined");
    assert!(matches!(err, EnumerateError::UnsupportedTokioVersion(_)));
}

#[test]
fn version_displays_as_triple() {
    assert_eq!(TokioVersion::new(1, 44, 2).to_text(), "1.44.2");
}

#[test]
fn any_bytes_may_follow_an_embedded_tokio_version() {
    let found = |image: &[u8]| TokioVersion::detect_in_bytes(image);
    assert_eq!(found(b"tokio-1.44.2\xff"), Some(TokioVersion::new(1, 44, 2)));
    assert_eq!(found(b"tokio-1.4\xff tokio-1.38.0/src"), Some(TokioVersion::new(1, 38, 0)));
    assert_eq!(found(b"tokio-1.44.2-alpha"), Some(TokioVersion::new(1, 44, 2)));
    assert_eq!(found(b"tokio-1.44.x"), None);
}
