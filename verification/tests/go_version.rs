use mirrorscope::go::GoVersion;

#[test]
fn parses_full_go_version() {
    assert_eq!(GoVersion::parse("go1.24.13"), Some(GoVersion::new(1, 24, 13)));
}

#[test]
fn parses_major_minor_only() {
    assert_eq!(GoVersion::parse("go1.24"), Some(GoVersion::new(1, 24, 0)));
}

#[test]
fn parses_bare_number() {
    assert_eq!(GoVersion::parse("1.21.0"), Some(GoVersion::new(1, 21, 0)));
}

#[test]
fn rejects_non_version() {
    assert_eq!(GoVersion::parse("golang"), None);
    assert_eq!(GoVersion::parse("gofmt"), None);
}

#[test]
fn detects_embedded_build_version() {
    let image = b"\x00\x00some rodata go1.24.13 padding\x00";
    assert_eq!(
        GoVersion::detect_in_bytes(image),
        Some(GoVersion::new(1, 24, 13))
    );
}

#[test]
fn detect_returns_none_without_marker() {
    assert_eq!(GoVersion::detect_in_bytes(b"no version here"), None);
}

#[test]
fn any_bytes_may_follow_an_embedded_version() {
    let found = |image: &[u8]| GoVersion::detect_in_bytes(image);
    assert_eq!(found(b"go1.24.13\xff"), Some(GoVersion::new(1, 24, 13)));
    assert_eq!(found(b"\xfego1.22\x80\x81"), Some(GoVersion::new(1, 22, 0)));
    assert_eq!(found(b"go1.\xff go1.x go1.21.3"), Some(GoVersion::new(1, 21, 3)));
    assert_eq!(found(b"go1.24-13.5"), Some(GoVersion::new(1, 24, 0)));
    assert_eq!(found(b"go1.24rc1"), Some(GoVersion::new(1, 24, 0)));
    assert_eq!(found(b"go1."), None);
}
