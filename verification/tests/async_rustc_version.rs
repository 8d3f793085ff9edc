use mirrorscope::async_rust::rustc_version::is_supported;
use mirrorscope::async_rust::RustcVersion;

#[test]
fn parses_canonical_producer() {
    let p = "clang LLVM (rustc version 1.85.1 (4eb161250 2025-03-15))";
    assert_eq!(
        RustcVersion::parse_producer(p),
        Some(RustcVersion::new(1, 85, 1))
    );
}

#[test]
fn parses_major_minor_only_producer() {
    let p = "clang LLVM (rustc version 1.90 (abcdef 2026-01-01))";
    assert_eq!(
        RustcVersion::parse_producer(p),
        Some(RustcVersion::new(1, 90, 0))
    );
}

#[test]
fn parses_nightly_suffix() {
    let p = "clang LLVM (rustc version 1.94.0-nightly (deadbeef 2026-03-02))";
    assert_eq!(
        RustcVersion::parse_producer(p),
        Some(RustcVersion::new(1, 94, 0))
    );
}

#[test]
fn rejects_non_rustc_producer() {
    assert_eq!(RustcVersion::parse_producer("GNU C17 13.2.0"), None);
    assert_eq!(RustcVersion::parse_producer(""), None);
}

#[test]
fn support_window_gates_versions() {
    assert!(is_supported(RustcVersion::new(1, 85, 1)));
    assert!(is_supported(RustcVersion::new(1, 63, 0)));
    assert!(!is_supported(RustcVersion::new(1, 62, 0)));
    assert!(!is_supported(RustcVersion::new(2, 0, 0)));
}
