use hoot::client::Call;
use hoot::{HootError, Method, Request};

fn is_send_sync<T: Send + Sync>(_t: T) {}

#[test]
fn ensure_send_sync() {
    is_send_sync(Call::without_body(&Request::get("/")).unwrap());

    is_send_sync(Call::with_body(&Request::post("/")).unwrap());
}

#[test]
fn create_empty() {
    let req = Request::get("/");
    let _call = Call::without_body(&req);
}

#[test]
fn create_streaming() {
    let req = Request::get("/");
    let _call = Call::with_body(&req);
}

#[test]
fn head() {
    let req = Request::head("http://foo.test/page");
    let mut call = Call::without_body(&req).unwrap();

    let mut output: Vec<u8> = Vec::new();
    let n = call.write(&mut output, 1024).unwrap();
    let s = std::str::from_utf8(&output[..n]).unwrap();

    assert_eq!(s, "HEAD /page HTTP/1.1\r\nhost: foo.test\r\n\r\n");
    assert!(call.request_finished());
}

#[test]
fn head_with_body() {
    let req = Request::head("http://foo.test/page");
    let err = match Call::with_body(&req) {
        Ok(_) => panic!("expected an error"),
        Err(e) => e,
    };

    assert_eq!(err, HootError::MethodForbidsBody(Method::HEAD));
}

#[test]
fn post() {
    let req = Request::post("http://f.test/page").header("content-length", "5");
    let mut call = Call::with_body(&req).unwrap();

    let mut output: Vec<u8> = Vec::new();
    let (i, n) = call.write(&b"hallo".to_vec(), &mut output, 1024).unwrap();
    assert_eq!(i, 5);
    let s = std::str::from_utf8(&output[..n]).unwrap();

    assert_eq!(
        s,
        "POST /page HTTP/1.1\r\nhost: f.test\r\ncontent-length: 5\r\nhallo"
    );
}

#[test]
fn post_small_output() {
    let req = Request::post("http://f.test/page").header("content-length", "5");
    let mut call = Call::with_body(&req).unwrap();

    let body = b"hallo".to_vec();

    {
        let mut output: Vec<u8> = Vec::new();
        let (i, n) = call.write(&body, &mut output, 25).unwrap();
        assert_eq!(i, 0);
        let s = std::str::from_utf8(&output[..n]).unwrap();
        assert_eq!(s, "POST /page HTTP/1.1\r\n");
        assert!(!call.request_finished());
    }

    {
        let mut output: Vec<u8> = Vec::new();
        let (i, n) = call.write(&body, &mut output, 20).unwrap();
        assert_eq!(i, 0);
        let s = std::str::from_utf8(&output[..n]).unwrap();
        assert_eq!(s, "host: f.test\r\n");
        assert!(!call.request_finished());
    }

    {
        let mut output: Vec<u8> = Vec::new();
        let (i, n) = call.write(&body, &mut output, 19).unwrap();
        assert_eq!(i, 0);
        let s = std::str::from_utf8(&output[..n]).unwrap();
        assert_eq!(s, "content-length: 5\r\n");
        assert!(!call.request_finished());
    }

    {
        let mut output: Vec<u8> = Vec::new();
        let (i, n) = call.write(&body, &mut output, 25).unwrap();
        assert_eq!(i, 5);
        let s = std::str::from_utf8(&output[..n]).unwrap();
        assert_eq!(s, "hallo");
        assert!(call.request_finished());
    }
}

#[test]
fn post_with_short_content_length() {
    let req = Request::post("http://f.test/page").header("content-length", "2");
    let mut call = Call::with_body(&req).unwrap();

    let body = b"hallo".to_vec();

    let mut output: Vec<u8> = Vec::new();
    let r = call.write(&body, &mut output, 1024);

    assert_eq!(r.unwrap_err(), HootError::BodyLargerThanContentLength);
}

#[test]
fn post_with_short_body_input() {
    let req = Request::post("http://f.test/page").header("content-length", "5");
    let mut call = Call::with_body(&req).unwrap();

    let mut output: Vec<u8> = Vec::new();
    let (i, n1) = call.write(&b"ha".to_vec(), &mut output, 1024).unwrap();
    assert_eq!(i, 2);
    let s = std::str::from_utf8(&output[..n1]).unwrap();

    assert_eq!(
        s,
        "POST /page HTTP/1.1\r\nhost: f.test\r\ncontent-length: 5\r\nha"
    );

    assert!(!call.request_finished());

    let mut output2: Vec<u8> = Vec::new();
    let (i, n2) = call.write(&b"llo".to_vec(), &mut output2, 1024).unwrap();
    assert_eq!(i, 3);
    let s = std::str::from_utf8(&output2[..n2]).unwrap();

    assert_eq!(s, "llo");

    assert!(call.request_finished());
}

#[test]
fn post_with_chunked() {
    let req = Request::post("http://f.test/page").header("transfer-encoding", "chunked");
    let mut call = Call::with_body(&req).unwrap();

    let body = b"hallo".to_vec();

    let mut output: Vec<u8> = Vec::new();
    let (i, n1) = call.write(&body, &mut output, 1024).unwrap();
    assert_eq!(i, 5);
    let (_, n2) = call.write(&Vec::new(), &mut output, 1024).unwrap();
    let s = std::str::from_utf8(&output[..n1 + n2]).unwrap();

    assert_eq!(
        s,
        "POST /page HTTP/1.1\r\nhost: f.test\r\ntransfer-encoding: chunked\r\n5\r\nhallo\r\n0\r\n\r\n"
    );
}

#[test]
fn post_without_body() {
    let req = Request::post("http://foo.test/page");
    let err = match Call::without_body(&req) {
        Ok(_) => panic!("expected an error"),
        Err(e) => e,
    };

    assert_eq!(err, HootError::MethodRequiresBody(Method::POST));
}

#[test]
fn post_streaming() {
    let req = Request::post("http://f.test/page");
    let mut call = Call::with_body(&req).unwrap();

    let mut output: Vec<u8> = Vec::new();
    let (in1, out1) = call.write(&b"hallo".to_vec(), &mut output, 1024).unwrap();
    assert_eq!(in1, 5);
    assert_eq!(out1, 73);

    // Send end
    let (in2, out2) = call.write(&Vec::new(), &mut output, 1024).unwrap();
    assert_eq!(in2, 0);
    assert_eq!(out2, 5);

    let s = std::str::from_utf8(&output[..(out1 + out2)]).unwrap();

    assert_eq!(
        s,
        "POST /page HTTP/1.1\r\nhost: f.test\r\ntransfer-encoding: chunked\r\n5\r\nhallo\r\n0\r\n\r\n"
    );
}

#[test]
fn post_streaming_with_size() {
    let req = Request::post("http://f.test/page").header("content-length", "5");
    let mut call = Call::with_body(&req).unwrap();

    let mut output: Vec<u8> = Vec::new();
    let (in1, out1) = call.write(&b"hallo".to_vec(), &mut output, 1024).unwrap();
    assert_eq!(in1, 5);
    assert_eq!(out1, 59);

    let s = std::str::from_utf8(&output[..out1]).unwrap();

    assert_eq!(
        s,
        "POST /page HTTP/1.1\r\nhost: f.test\r\ncontent-length: 5\r\nhallo"
    );
}

#[test]
fn post_streaming_after_end() {
    let req = Request::post("http://f.test/page");
    let mut call = Call::with_body(&req).unwrap();

    let mut output: Vec<u8> = Vec::new();
    let (_, _out1) = call.write(&b"hallo".to_vec(), &mut output, 1024).unwrap();

    // Send end
    let (_, _out2) = call.write(&Vec::new(), &mut output, 1024).unwrap();

    let err = call.write(&b"after end".to_vec(), &mut output, 1024);

    assert_eq!(err, Err(HootError::BodyContentAfterFinish));
}

#[test]
fn post_streaming_too_much() {
    let req = Request::post("http://f.test/page").header("content-length", "5");
    let mut call = Call::with_body(&req).unwrap();

    let mut output: Vec<u8> = Vec::new();
    let (_, _n) = call.write(&b"hallo".to_vec(), &mut output, 1024).unwrap();

    // this is more than content-length
    let err = call.write(&b"fail".to_vec(), &mut output, 1024).unwrap_err();

    assert_eq!(err, HootError::BodyContentAfterFinish);
}
