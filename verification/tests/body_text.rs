use hoot::body::Body;
use hoot::HootError;

#[test]
fn empty_body() {
    let b = Body::empty();
    assert_eq!(b.size(), Some(0));
    assert_eq!(b.into_string(1024).unwrap(), "");
}

#[test]
fn bytes_body_to_string() {
    let b = Body::bytes(b"hello world".to_vec());
    assert_eq!(b.size(), Some(11));
    assert_eq!(b.into_string(1024).unwrap(), "hello world");
}

#[test]
fn into_string_respects_limit() {
    let b = Body::bytes(b"hello world".to_vec());
    assert_eq!(b.into_string(5).unwrap(), "hello");
}

#[test]
fn into_string_multibyte() {
    let b = Body::bytes("grüße".as_bytes().to_vec());
    assert_eq!(b.into_string(1024).unwrap(), "grüße");
}

#[test]
fn into_string_invalid_utf8() {
    let b = Body::bytes(vec![0xff, 0xfe, 0x41]);
    assert_eq!(b.into_string(1024).unwrap_err(), HootError::ConvertBytesToStr);
}

#[test]
fn into_string_limit_can_split_a_character() {
    // The limit cuts the two-byte u-umlaut in half: not valid UTF-8.
    let b = Body::bytes("grüße".as_bytes().to_vec());
    assert_eq!(b.into_string(3).unwrap_err(), HootError::ConvertBytesToStr);
}
