use hoot::send::Call;
use hoot::HootError;

#[test]
fn test_illegal_header_name() {
    let x = Call::new(1024)
        .http_11()
        .get("/path")
        .unwrap()
        .header(":bad:", "fine value");

    let e = match x {
        Ok(_) => panic!("expected an error"),
        Err(e) => e,
    };
    assert_eq!(e, HootError::HeaderName);
}

#[test]
fn test_illegal_header_value() {
    let x = Call::new(1024)
        .http_11()
        .get("/path")
        .unwrap()
        .header_bytes("x-broken", b"value\0xx");

    let e = match x {
        Ok(_) => panic!("expected an error"),
        Err(e) => e,
    };
    assert_eq!(e, HootError::HeaderValue);
}

#[test]
fn builder_full_request_transcript() {
    let call = Call::new(1024)
        .http_11()
        .get("/index.html")
        .unwrap()
        .header("accept", "text/plain")
        .unwrap()
        .finish()
        .unwrap();
    let out = call.into_output();
    let s = std::str::from_utf8(&out).unwrap();
    assert_eq!(s, "GET /index.html HTTP/1.1\r\naccept: text/plain\r\n\r\n");
}

#[test]
fn builder_post_with_body_header() {
    let call = Call::new(1024)
        .http_11()
        .post("/upload")
        .unwrap()
        .with_body(5)
        .unwrap();
    let out = call.into_output();
    let s = std::str::from_utf8(&out).unwrap();
    assert_eq!(s, "POST /upload HTTP/1.1\r\nContent-Length: 5\r\n\r\n");
}

#[test]
fn builder_post_chunked_header() {
    let call = Call::new(1024)
        .http_11()
        .post("/upload")
        .unwrap()
        .with_chunked()
        .unwrap();
    let out = call.into_output();
    let s = std::str::from_utf8(&out).unwrap();
    assert_eq!(s, "POST /upload HTTP/1.1\r\nTransfer-Encoding: chunked\r\n\r\n");
}

#[test]
fn builder_forbidden_body_header() {
    let e = match Call::new(1024)
        .http_11()
        .post("/x")
        .unwrap()
        .header("content-length", "5")
    {
        Ok(_) => panic!("expected an error"),
        Err(e) => e,
    };
    assert_eq!(e, HootError::ForbiddenBodyHeader);

    let e = match Call::new(1024)
        .http_11()
        .post("/x")
        .unwrap()
        .header("Transfer-Encoding", "chunked")
    {
        Ok(_) => panic!("expected an error"),
        Err(e) => e,
    };
    assert_eq!(e, HootError::ForbiddenBodyHeader);
}

#[test]
fn builder_overflow_rolls_back() {
    // Too small for the header line: the committed output stays as it was.
    let call = Call::new(30).http_11().get("/path").unwrap();
    let e = match call.header("x-very-long-header-name", "some value") {
        Ok(_) => panic!("expected an error"),
        Err(e) => e,
    };
    assert_eq!(e, HootError::OutputOverflow);
}

#[test]
fn builder_http_10_line() {
    let call = Call::new(1024).http_10().get("/old").unwrap();
    let out = call.into_output();
    assert_eq!(&out, b"GET /old HTTP/1.0\r\n");
}
