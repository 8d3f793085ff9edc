use mirrorscope::dap::transport::{read_frame, write_frame, TransportError};
use serde_json::Value;

fn parse(text: &str) -> Value {
    serde_json::from_str(text).expect("valid JSON")
}

#[test]
fn round_trips_a_message() {
    let msg = parse(r#"{ "seq": 1, "type": "request", "command": "initialize" }"#);
    let mut buf = Vec::new();
    write_frame(&mut buf, &msg).expect("write");
    let decoded = read_frame(&mut buf.as_slice()).expect("read");
    assert_eq!(decoded, Some(msg));
}

#[test]
fn returns_none_on_clean_eof() {
    let empty: &[u8] = b"";
    assert!(matches!(read_frame(&mut &*empty), Ok(None)));
}

#[test]
fn errors_when_content_length_is_missing() {
    let bad: &[u8] = b"X-Other: 1\r\n\r\n{}";
    assert!(matches!(
        read_frame(&mut &*bad),
        Err(TransportError::MissingContentLength)
    ));
}

#[test]
fn errors_when_content_length_is_garbage() {
    let bad: &[u8] = b"Content-Length: nope\r\n\r\n{}";
    assert!(matches!(
        read_frame(&mut &*bad),
        Err(TransportError::InvalidContentLength(_))
    ));
}
