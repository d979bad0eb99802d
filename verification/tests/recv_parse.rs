use hoot::client::Call;
use hoot::{HootError, Request, Version};

/// A finished HEAD call, ready to receive its response.
fn recv_call() -> Call<hoot::RecvResponse> {
    let req = Request::head("http://foo.test/page");
    let mut call = Call::without_body(&req).unwrap();
    let mut out: Vec<u8> = Vec::new();
    call.write(&mut out, 1024).unwrap();
    call.proceed().unwrap()
}

/// A finished GET call (a body may follow its response).
fn recv_call_get() -> Call<hoot::RecvResponse> {
    let req = Request::get("http://foo.test/page");
    let mut call = Call::without_body(&req).unwrap();
    let mut out: Vec<u8> = Vec::new();
    call.write(&mut out, 1024).unwrap();
    call.proceed().unwrap()
}

#[test]
fn parse_status_and_headers() {
    let call = recv_call();
    let src = b"HTTP/1.1 200 OK\r\nserver: test\r\ncontent-length: 5\r\n\r\ntail".to_vec();
    let (used, resp) = call.try_response(&src).unwrap();
    let resp = resp.unwrap();
    assert_eq!(used, 52);
    assert_eq!(resp.status, 200);
    assert_eq!(resp.version, Version::Http11);
    assert_eq!(&resp.reason, b"OK");
    assert_eq!(resp.headers.len(), 2);
    assert_eq!(&resp.headers[0].name, b"server");
    assert_eq!(&resp.headers[0].value, b"test");
    assert_eq!(&resp.headers[1].name, b"content-length");
    assert_eq!(&resp.headers[1].value, b"5");
}

#[test]
fn parse_partial_asks_for_more() {
    let call = recv_call();
    let src = b"HTTP/1.1 200 OK\r\nserver: te".to_vec();
    let (used, resp) = call.try_response(&src).unwrap();
    assert_eq!(used, 0);
    assert!(resp.is_none());
}

#[test]
fn parse_bad_status_line() {
    let call = recv_call();
    let src = b"HTTP/1.1 2x0 OK\r\n\r\n".to_vec();
    let e = call.try_response(&src).unwrap_err();
    assert_eq!(e, HootError::Status);
}

#[test]
fn parse_bare_lf_is_rejected() {
    let call = recv_call();
    let src = b"HTTP/1.1 200 OK\nx: y\r\n\r\n".to_vec();
    let e = call.try_response(&src).unwrap_err();
    assert_eq!(e, HootError::NewLine);
}

#[test]
fn parse_too_many_headers() {
    let call = recv_call();
    let mut src = b"HTTP/1.1 200 OK\r\n".to_vec();
    for i in 0..130 {
        src.extend_from_slice(format!("x-h{}: v\r\n", i).as_bytes());
    }
    src.extend_from_slice(b"\r\n");
    let e = call.try_response(&src).unwrap_err();
    assert_eq!(e, HootError::TooManyHeaders);
}

#[test]
fn head_response_has_no_body() {
    let call = recv_call();
    let src = b"HTTP/1.1 200 OK\r\ncontent-length: 5\r\n\r\n".to_vec();
    let (_used, resp) = call.try_response(&src).unwrap();
    let resp = resp.unwrap();
    let mut body_call = call_into_body(recv_call(), &resp);
    let part = body_call.read_body(&b"hallo".to_vec(), 1024).unwrap();
    assert_eq!(part.input_used, 0);
    assert!(part.data.is_empty());
    assert!(part.finished);
}

fn call_into_body(
    call: Call<hoot::RecvResponse>,
    resp: &hoot::Response,
) -> Call<hoot::RecvBody> {
    call.recv_body(resp).unwrap()
}

#[test]
fn read_body_with_length() {
    let call = recv_call_get();
    let src = b"HTTP/1.1 200 OK\r\ncontent-length: 5\r\n\r\n".to_vec();
    let (_used, resp) = call.try_response(&src).unwrap();
    let resp = resp.unwrap();
    let mut body_call = call_into_body(recv_call_get(), &resp);

    let part = body_call.read_body(&b"hal".to_vec(), 1024).unwrap();
    assert_eq!(part.input_used, 3);
    assert_eq!(&part.data, b"hal");
    assert!(!part.finished);

    let part = body_call.read_body(&b"lo-and-more".to_vec(), 1024).unwrap();
    assert_eq!(part.input_used, 2);
    assert_eq!(&part.data, b"lo");
    assert!(part.finished);
}

#[test]
fn read_body_chunked() {
    let call = recv_call_get();
    let src = b"HTTP/1.1 200 OK\r\ntransfer-encoding: chunked\r\n\r\n".to_vec();
    let (_used, resp) = call.try_response(&src).unwrap();
    let resp = resp.unwrap();
    let mut body_call = call_into_body(recv_call_get(), &resp);

    let wire = b"5\r\nhallo\r\n0\r\n\r\n".to_vec();
    let part = body_call.read_body(&wire, 1024).unwrap();
    assert_eq!(part.input_used, wire.len());
    assert_eq!(&part.data, b"hallo");
    assert!(part.finished);
}

#[test]
fn read_body_chunked_split_input() {
    let call = recv_call_get();
    let src = b"HTTP/1.1 200 OK\r\ntransfer-encoding: chunked\r\n\r\n".to_vec();
    let (_used, resp) = call.try_response(&src).unwrap();
    let resp = resp.unwrap();
    let mut body_call = call_into_body(recv_call_get(), &resp);

    // The same chunk stream, fed one byte at a time.
    let wire = b"5\r\nhallo\r\n3\r\nxyz\r\n0\r\n\r\n";
    let mut collected: Vec<u8> = Vec::new();
    let mut finished = false;
    for b in wire.iter() {
        let part = body_call.read_body(&vec![*b], 1024).unwrap();
        assert_eq!(part.input_used, 1);
        collected.extend_from_slice(&part.data);
        finished = part.finished;
    }
    assert_eq!(&collected, b"halloxyz");
    assert!(finished);
}

#[test]
fn read_body_chunked_bad_framing() {
    let call = recv_call_get();
    let src = b"HTTP/1.1 200 OK\r\ntransfer-encoding: chunked\r\n\r\n".to_vec();
    let (_used, resp) = call.try_response(&src).unwrap();
    let resp = resp.unwrap();
    let mut body_call = call_into_body(recv_call_get(), &resp);

    let e = body_call.read_body(&b"zz\r\n".to_vec(), 1024).unwrap_err();
    assert_eq!(e, HootError::NewLine);
}

#[test]
fn read_body_close_delimited() {
    let call = recv_call_get();
    let src = b"HTTP/1.1 200 OK\r\n\r\n".to_vec();
    let (_used, resp) = call.try_response(&src).unwrap();
    let resp = resp.unwrap();
    let mut body_call = call_into_body(recv_call_get(), &resp);

    let part = body_call.read_body(&b"anything".to_vec(), 1024).unwrap();
    assert_eq!(part.input_used, 8);
    assert_eq!(&part.data, b"anything");
    assert!(!part.finished);

    let part = body_call.read_body(&Vec::new(), 1024).unwrap();
    assert!(part.finished);
}

#[test]
fn proceed_before_finish_is_refused() {
    let req = Request::post("http://f.test/page").header("content-length", "5");
    let mut call = Call::with_body(&req).unwrap();
    let mut out: Vec<u8> = Vec::new();
    call.write(&b"ha".to_vec(), &mut out, 1024).unwrap();
    let e = match call.proceed() {
        Ok(_) => panic!("expected an error"),
        Err(e) => e,
    };
    assert_eq!(e, HootError::SentLessThanContentLength);
}

#[test]
fn status_without_reason() {
    let call = recv_call();
    let src = b"HTTP/1.0 204\r\n\r\n".to_vec();
    let (used, resp) = call.try_response(&src).unwrap();
    let resp = resp.unwrap();
    assert_eq!(used, 16);
    assert_eq!(resp.status, 204);
    assert_eq!(resp.version, Version::Http10);
    assert!(resp.reason.is_empty());
    assert!(resp.headers.is_empty());
}

#[test]
fn strict_version_check() {
    let call = recv_call();
    let src = b"HTTP/1.0 200 OK\r\n\r\n".to_vec();
    let (_used, resp) = call.try_response(&src).unwrap();
    let resp = resp.unwrap();
    // The request was HTTP/1.1; strict mode refuses the 1.0 answer.
    let e = call.check_version(&resp).unwrap_err();
    assert_eq!(e, HootError::HttpVersionMismatch);

    let src = b"HTTP/1.1 200 OK\r\n\r\n".to_vec();
    let (_used, resp) = call.try_response(&src).unwrap();
    assert!(call.check_version(&resp.unwrap()).is_ok());
}

#[test]
fn content_length_too_large_for_u64() {
    let call = recv_call_get();
    let src = b"HTTP/1.1 200 OK\r\ncontent-length: 18446744073709551616\r\n\r\n".to_vec();
    let (_used, resp) = call.try_response(&src).unwrap();
    let resp = resp.unwrap();
    let e = match recv_call_get().recv_body(&resp) {
        Ok(_) => panic!("expected an error"),
        Err(e) => e,
    };
    assert_eq!(e, HootError::HeaderValue);
}
