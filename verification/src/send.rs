//! The builder-style send path: a call that owns its output buffer and is
//! driven step by step — version, request line, headers, framing — with the
//! phase checked at every operation.
//!
//! Every header written here is validated byte by byte right after it is
//! composed, and cross-checked with an outside HTTP parser; the headers the
//! framing steps own, `content-length` and `transfer-encoding`, are refused
//! as free headers.

use vstd::prelude::*;
use vstd::string::StringSliceAdditionalSpecFns;

use crate::ascii::{crlf, dec_rep, push_dec, valid_header_name, valid_header_value, CR, LF};
use crate::error::{HootError, Result};
use crate::header::{
    check_forbidden_headers, checked_header_line, header_line, is_forbidden_body_header, push_all,
};
use crate::out::Out;
use crate::request::{Method, Version};

verus! {

/// Where in the send sequence the call stands.
#[derive(Clone, Copy, PartialEq, Eq, Structural, Debug)]
pub enum SendPhase {
    /// Created; waiting for the HTTP version.
    Start,
    /// Version chosen; waiting for the request line.
    Line,
    /// Request line written; headers may follow.
    Headers,
    /// Framing chosen; body bytes may follow.
    Body,
    /// The request is closed; the response is next.
    RecvStatus,
}

/// The title-case header name `Content-Length`, as this path spells it.
pub open spec fn title_content_length() -> Seq<u8> {
    seq![
        ('C' as u8),
        ('o' as u8),
        ('n' as u8),
        ('t' as u8),
        ('e' as u8),
        ('n' as u8),
        ('t' as u8),
        ('-' as u8),
        ('L' as u8),
        ('e' as u8),
        ('n' as u8),
        ('g' as u8),
        ('t' as u8),
        ('h' as u8),
    ]
}

/// The title-case header line `Transfer-Encoding: chunked CRLF`.
pub open spec fn title_te_chunked_line() -> Seq<u8> {
    seq![
        ('T' as u8),
        ('r' as u8),
        ('a' as u8),
        ('n' as u8),
        ('s' as u8),
        ('f' as u8),
        ('e' as u8),
        ('r' as u8),
        ('-' as u8),
        ('E' as u8),
        ('n' as u8),
        ('c' as u8),
        ('o' as u8),
        ('d' as u8),
        ('i' as u8),
        ('n' as u8),
        ('g' as u8),
        (':' as u8),
        (' ' as u8),
        ('c' as u8),
        ('h' as u8),
        ('u' as u8),
        ('n' as u8),
        ('k' as u8),
        ('e' as u8),
        ('d' as u8),
    ] + crlf()
}

/// The request line for this path: `METHOD SP path SP version CRLF`.
pub open spec fn send_line(m: Method, path: Seq<u8>, v: Version) -> Seq<u8> {
    m.spec_name() + seq![(' ' as u8)] + path + seq![(' ' as u8)] + v.spec_bytes() + crlf()
}

/// A builder-style call that owns its output buffer. Operations are legal
/// only in their phase, which each operation's contract pins down.
pub struct Call {
    /// The output writer holding what was serialized so far.
    pub out: Out,
    /// The phase of the call.
    pub phase: SendPhase,
    /// The chosen HTTP version; meaningful from the `Line` phase on.
    pub version: Version,
    /// The chosen method; meaningful from the `Headers` phase on.
    pub method: Method,
}

impl Call {
    /// Well-formedness: the writer is sound and holds no uncommitted bytes
    /// between operations.
    pub open spec fn wf(self) -> bool {
        self.out.wf() && self.out.committed == self.out.buf@.len()
    }

    /// A fresh call writing into an owned buffer of at most `limit` bytes.
    pub fn new(limit: usize) -> (r: Call)
        ensures
            r.wf(),
            r.phase == SendPhase::Start,
            r.out.buf@ == Seq::<u8>::empty(),
            r.out.limit == limit,
    {
        Call { out: Out::new(limit), phase: SendPhase::Start, version: Version::Http11, method: Method::GET }
    }

    /// Chooses HTTP/1.0.
    pub fn http_10(self) -> (r: Call)
        requires
            self.wf(),
            self.phase == SendPhase::Start,
        ensures
            r.wf(),
            r.phase == SendPhase::Line,
            r.version == Version::Http10,
            r.out == self.out,
    {
        Call { phase: SendPhase::Line, version: Version::Http10, ..self }
    }

    /// Chooses HTTP/1.1.
    pub fn http_11(self) -> (r: Call)
        requires
            self.wf(),
            self.phase == SendPhase::Start,
        ensures
            r.wf(),
            r.phase == SendPhase::Line,
            r.version == Version::Http11,
            r.out == self.out,
    {
        Call { phase: SendPhase::Line, version: Version::Http11, ..self }
    }

    /// Writes the request line for `method` and `path`. Overflow of the
    /// output budget is reported with nothing written.
    fn send_request_line(self, method: Method, path: &str) -> (r: Result<Call>)
        requires
            self.wf(),
            self.phase == SendPhase::Line,
        ensures
            r matches Ok(c) ==> {
                &&& c.wf()
                &&& c.phase == SendPhase::Headers
                &&& c.method == method
                &&& c.version == self.version
                &&& c.out.buf@ == self.out.buf@ + send_line(
                    method,
                    path.spec_bytes(),
                    self.version,
                )
                &&& c.out.limit == self.out.limit
            },
            r is Ok <==> self.out.buf@.len() + send_line(
                method,
                path.spec_bytes(),
                self.version,
            ).len() <= self.out.limit,
            r matches Err(e) ==> e == HootError::OutputOverflow,
    {
        let mut line: Vec<u8> = Vec::new();
        let name = method.name();
        push_all(&mut line, name.as_slice());
        line.push(' ' as u8);
        push_all(&mut line, path.as_bytes());
        line.push(' ' as u8);
        let ver = self.version.wire_bytes();
        push_all(&mut line, ver.as_slice());
        line.push(CR);
        line.push(LF);
        proof {
            assert(line@ =~= send_line(method, path.spec_bytes(), self.version));
        }
        let mut out = self.out;
        match out.stage(line.as_slice()) {
            Ok(u) => (),
            Err(e) => {
                return Err(e);
            },
        }
        out.commit();
        Ok(Call { out, phase: SendPhase::Headers, version: self.version, method })
    }

    /// Writes a GET request line.
    pub fn get(self, path: &str) -> (r: Result<Call>)
        requires
            self.wf(),
            self.phase == SendPhase::Line,
        ensures
            r matches Ok(c) ==> {
                &&& c.wf()
                &&& c.phase == SendPhase::Headers
                &&& c.method == Method::GET
                &&& c.version == self.version
                &&& c.out.limit == self.out.limit
                &&& c.out.buf@ == self.out.buf@ + send_line(
                    Method::GET,
                    path.spec_bytes(),
                    self.version,
                )
            },
            r is Ok <==> self.out.buf@.len() + send_line(
                Method::GET,
                path.spec_bytes(),
                self.version,
            ).len() <= self.out.limit,
            r matches Err(e) ==> e == HootError::OutputOverflow,
    {
        self.send_request_line(Method::GET, path)
    }

    /// Writes a HEAD request line.
    pub fn head(self, path: &str) -> (r: Result<Call>)
        requires
            self.wf(),
            self.phase == SendPhase::Line,
        ensures
            r matches Ok(c) ==> {
                &&& c.wf()
                &&& c.phase == SendPhase::Headers
                &&& c.method == Method::HEAD
                &&& c.version == self.version
                &&& c.out.limit == self.out.limit
                &&& c.out.buf@ == self.out.buf@ + send_line(
                    Method::HEAD,
                    path.spec_bytes(),
                    self.version,
                )
            },
            r is Ok <==> self.out.buf@.len() + send_line(
                Method::HEAD,
                path.spec_bytes(),
                self.version,
            ).len() <= self.out.limit,
            r matches Err(e) ==> e == HootError::OutputOverflow,
    {
        self.send_request_line(Method::HEAD, path)
    }

    /// Writes a POST request line.
    pub fn post(self, path: &str) -> (r: Result<Call>)
        requires
            self.wf(),
            self.phase == SendPhase::Line,
        ensures
            r matches Ok(c) ==> {
                &&& c.wf()
                &&& c.phase == SendPhase::Headers
                &&& c.method == Method::POST
                &&& c.version == self.version
                &&& c.out.limit == self.out.limit
                &&& c.out.buf@ == self.out.buf@ + send_line(
                    Method::POST,
                    path.spec_bytes(),
                    self.version,
                )
            },
            r is Ok <==> self.out.buf@.len() + send_line(
                Method::POST,
                path.spec_bytes(),
                self.version,
            ).len() <= self.out.limit,
            r matches Err(e) ==> e == HootError::OutputOverflow,
    {
        self.send_request_line(Method::POST, path)
    }

    /// Writes a PUT request line; this path offers PUT on HTTP/1.1 only.
    pub fn put(self, path: &str) -> (r: Result<Call>)
        requires
            self.wf(),
            self.phase == SendPhase::Line,
            self.version == Version::Http11,
        ensures
            r matches Ok(c) ==> {
                &&& c.wf()
                &&& c.phase == SendPhase::Headers
                &&& c.method == Method::PUT
                &&& c.version == self.version
                &&& c.out.limit == self.out.limit
                &&& c.out.buf@ == self.out.buf@ + send_line(
                    Method::PUT,
                    path.spec_bytes(),
                    self.version,
                )
            },
            r is Ok <==> self.out.buf@.len() + send_line(
                Method::PUT,
                path.spec_bytes(),
                self.version,
            ).len() <= self.out.limit,
            r matches Err(e) ==> e == HootError::OutputOverflow,
    {
        self.send_request_line(Method::PUT, path)
    }

    /// Writes a DELETE request line; HTTP/1.1 only.
    pub fn delete(self, path: &str) -> (r: Result<Call>)
        requires
            self.wf(),
            self.phase == SendPhase::Line,
            self.version == Version::Http11,
        ensures
            r matches Ok(c) ==> {
                &&& c.wf()
                &&& c.phase == SendPhase::Headers
                &&& c.method == Method::DELETE
                &&& c.version == self.version
                &&& c.out.limit == self.out.limit
                &&& c.out.buf@ == self.out.buf@ + send_line(
                    Method::DELETE,
                    path.spec_bytes(),
                    self.version,
                )
            },
            r is Ok <==> self.out.buf@.len() + send_line(
                Method::DELETE,
                path.spec_bytes(),
                self.version,
            ).len() <= self.out.limit,
            r matches Err(e) ==> e == HootError::OutputOverflow,
    {
        self.send_request_line(Method::DELETE, path)
    }

    /// Writes an OPTIONS request line; HTTP/1.1 only.
    pub fn options(self, path: &str) -> (r: Result<Call>)
        requires
            self.wf(),
            self.phase == SendPhase::Line,
            self.version == Version::Http11,
        ensures
            r matches Ok(c) ==> {
                &&& c.wf()
                &&& c.phase == SendPhase::Headers
                &&& c.method == Method::OPTIONS
                &&& c.version == self.version
                &&& c.out.limit == self.out.limit
                &&& c.out.buf@ == self.out.buf@ + send_line(
                    Method::OPTIONS,
                    path.spec_bytes(),
                    self.version,
                )
            },
            r is Ok <==> self.out.buf@.len() + send_line(
                Method::OPTIONS,
                path.spec_bytes(),
                self.version,
            ).len() <= self.out.limit,
            r matches Err(e) ==> e == HootError::OutputOverflow,
    {
        self.send_request_line(Method::OPTIONS, path)
    }

    /// Writes a TRACE request line; HTTP/1.1 only.
    pub fn trace(self, path: &str) -> (r: Result<Call>)
        requires
            self.wf(),
            self.phase == SendPhase::Line,
            self.version == Version::Http11,
        ensures
            r matches Ok(c) ==> {
                &&& c.wf()
                &&& c.phase == SendPhase::Headers
                &&& c.method == Method::TRACE
                &&& c.version == self.version
                &&& c.out.limit == self.out.limit
                &&& c.out.buf@ == self.out.buf@ + send_line(
                    Method::TRACE,
                    path.spec_bytes(),
                    self.version,
                )
            },
            r is Ok <==> self.out.buf@.len() + send_line(
                Method::TRACE,
                path.spec_bytes(),
                self.version,
            ).len() <= self.out.limit,
            r matches Err(e) ==> e == HootError::OutputOverflow,
    {
        self.send_request_line(Method::TRACE, path)
    }

    /// Writes one header. The value is taken as text; the contract is that
    /// of [`Call::header_bytes`] over the value's bytes.
    pub fn header(self, name: &str, value: &str) -> (r: Result<Call>)
        requires
            self.wf(),
            self.phase == SendPhase::Headers,
        ensures
            r matches Ok(c) ==> {
                &&& c.wf()
                &&& c.phase == SendPhase::Headers
                &&& c.method == self.method
                &&& c.version == self.version
                &&& c.out.limit == self.out.limit
                &&& c.out.buf@ == self.out.buf@ + header_line(
                    name.spec_bytes(),
                    value.spec_bytes(),
                )
            },
            r is Ok <==> ({
                &&& self.out.buf@.len() + header_line(name.spec_bytes(), value.spec_bytes()).len()
                    <= self.out.limit
                &&& !is_forbidden_body_header(name.spec_bytes())
                &&& valid_header_name(name.spec_bytes())
                &&& valid_header_value(value.spec_bytes())
            }),
            r matches Err(e) ==> ({
                if self.out.buf@.len() + header_line(name.spec_bytes(), value.spec_bytes()).len()
                    > self.out.limit {
                    e == HootError::OutputOverflow
                } else if is_forbidden_body_header(name.spec_bytes()) {
                    e == HootError::ForbiddenBodyHeader
                } else if !valid_header_name(name.spec_bytes()) {
                    e == HootError::HeaderName
                } else {
                    e == HootError::HeaderValue
                }
            }),
    {
        self.header_bytes(name, value.as_bytes())
    }

    /// Writes one header with raw bytes as the value. The composed line is
    /// staged first, so an overflow is reported before validation; a
    /// forbidden name (`content-length`, `transfer-encoding`), a name byte
    /// outside the token set or a bad value byte roll the staged line back
    /// and leave the committed output untouched.
    pub fn header_bytes(self, name: &str, bytes: &[u8]) -> (r: Result<Call>)
        requires
            self.wf(),
            self.phase == SendPhase::Headers,
        ensures
            r matches Ok(c) ==> {
                &&& c.wf()
                &&& c.phase == SendPhase::Headers
                &&& c.method == self.method
                &&& c.version == self.version
                &&& c.out.limit == self.out.limit
                &&& c.out.buf@ == self.out.buf@ + header_line(name.spec_bytes(), bytes@)
            },
            r is Ok <==> ({
                &&& self.out.buf@.len() + header_line(name.spec_bytes(), bytes@).len()
                    <= self.out.limit
                &&& !is_forbidden_body_header(name.spec_bytes())
                &&& valid_header_name(name.spec_bytes())
                &&& valid_header_value(bytes@)
            }),
            r matches Err(e) ==> ({
                if self.out.buf@.len() + header_line(name.spec_bytes(), bytes@).len()
                    > self.out.limit {
                    e == HootError::OutputOverflow
                } else if is_forbidden_body_header(name.spec_bytes()) {
                    e == HootError::ForbiddenBodyHeader
                } else if !valid_header_name(name.spec_bytes()) {
                    e == HootError::HeaderName
                } else {
                    e == HootError::HeaderValue
                }
            }),
    {
        // Stage the composed line first: an undersized buffer is reported
        // before anything else, and the stage is rolled back on any failure.
        let mut out = self.out;
        let line = crate::header::compose_header_line(name.as_bytes(), bytes);
        match out.stage(line.as_slice()) {
            Ok(u) => (),
            Err(e) => {
                return Err(e);
            },
        }
        // The framing steps own content-length and transfer-encoding.
        match check_forbidden_headers(name.as_bytes()) {
            Ok(u) => (),
            Err(e) => {
                out.rollback();
                return Err(e);
            },
        }
        // Byte-level validation, cross-checked with the outside parser.
        match checked_header_line(name.as_bytes(), bytes) {
            Ok(u) => (),
            Err(e) => {
                out.rollback();
                return Err(e);
            },
        }
        out.commit();
        Ok(Call { out, ..self })
    }

    /// Declares a fixed-length body: writes `Content-Length` and the blank
    /// line, and enters the body phase. For methods that carry a body.
    pub fn with_body(self, length: u64) -> (r: Result<Call>)
        requires
            self.wf(),
            self.phase == SendPhase::Headers,
            self.method.spec_requires_body(),
        ensures
            r matches Ok(c) ==> {
                &&& c.wf()
                &&& c.phase == SendPhase::Body
                &&& c.method == self.method
                &&& c.version == self.version
                &&& c.out.limit == self.out.limit
                &&& c.out.buf@ == self.out.buf@ + header_line(
                    title_content_length(),
                    dec_rep(length as nat),
                ) + crlf()
            },
            r is Ok <==> self.out.buf@.len() + header_line(
                title_content_length(),
                dec_rep(length as nat),
            ).len() + crlf().len() <= self.out.limit,
            r matches Err(e) ==> e == HootError::OutputOverflow,
    {
        let mut line: Vec<u8> = Vec::new();
        let mut title: Vec<u8> = Vec::new();
        title.push('C' as u8);
        title.push('o' as u8);
        title.push('n' as u8);
        title.push('t' as u8);
        title.push('e' as u8);
        title.push('n' as u8);
        title.push('t' as u8);
        title.push('-' as u8);
        title.push('L' as u8);
        title.push('e' as u8);
        title.push('n' as u8);
        title.push('g' as u8);
        title.push('t' as u8);
        title.push('h' as u8);
        proof {
            assert(title@ =~= title_content_length());
        }
        push_all(&mut line, title.as_slice());
        line.push(':' as u8);
        line.push(' ' as u8);
        push_dec(&mut line, length);
        line.push(CR);
        line.push(LF);
        line.push(CR);
        line.push(LF);
        proof {
            assert(line@ =~= header_line(title_content_length(), dec_rep(length as nat))
                + crlf());
        }
        let mut out = self.out;
        match out.stage(line.as_slice()) {
            Ok(u) => (),
            Err(e) => {
                return Err(e);
            },
        }
        out.commit();
        Ok(Call { out, phase: SendPhase::Body, ..self })
    }

    /// Declares a chunk-encoded body: writes `Transfer-Encoding: chunked`
    /// and the blank line, and enters the body phase. HTTP/1.1 only, for
    /// methods that carry a body.
    pub fn with_chunked(self) -> (r: Result<Call>)
        requires
            self.wf(),
            self.phase == SendPhase::Headers,
            self.method.spec_requires_body(),
            self.version == Version::Http11,
        ensures
            r matches Ok(c) ==> {
                &&& c.wf()
                &&& c.phase == SendPhase::Body
                &&& c.method == self.method
                &&& c.version == self.version
                &&& c.out.limit == self.out.limit
                &&& c.out.buf@ == self.out.buf@ + title_te_chunked_line() + crlf()
            },
            r is Ok <==> self.out.buf@.len() + title_te_chunked_line().len() + crlf().len()
                <= self.out.limit,
            r matches Err(e) ==> e == HootError::OutputOverflow,
    {
        let mut line: Vec<u8> = Vec::new();
        line.push('T' as u8);
        line.push('r' as u8);
        line.push('a' as u8);
        line.push('n' as u8);
        line.push('s' as u8);
        line.push('f' as u8);
        line.push('e' as u8);
        line.push('r' as u8);
        line.push('-' as u8);
        line.push('E' as u8);
        line.push('n' as u8);
        line.push('c' as u8);
        line.push('o' as u8);
        line.push('d' as u8);
        line.push('i' as u8);
        line.push('n' as u8);
        line.push('g' as u8);
        line.push(':' as u8);
        line.push(' ' as u8);
        line.push('c' as u8);
        line.push('h' as u8);
        line.push('u' as u8);
        line.push('n' as u8);
        line.push('k' as u8);
        line.push('e' as u8);
        line.push('d' as u8);
        line.push(CR);
        line.push(LF);
        line.push(CR);
        line.push(LF);
        proof {
            assert(line@ =~= title_te_chunked_line() + crlf());
        }
        let mut out = self.out;
        match out.stage(line.as_slice()) {
            Ok(u) => (),
            Err(e) => {
                return Err(e);
            },
        }
        out.commit();
        Ok(Call { out, phase: SendPhase::Body, ..self })
    }

    /// Ends the header block of a body-carrying request without sending a
    /// body, and moves on to receiving the status.
    pub fn without_body(self) -> (r: Result<Call>)
        requires
            self.wf(),
            self.phase == SendPhase::Headers,
            self.method.spec_requires_body(),
        ensures
            r matches Ok(c) ==> {
                &&& c.wf()
                &&& c.phase == SendPhase::RecvStatus
                &&& c.method == self.method
                &&& c.version == self.version
                &&& c.out.limit == self.out.limit
                &&& c.out.buf@ == self.out.buf@ + crlf()
            },
            r is Ok <==> self.out.buf@.len() + crlf().len() <= self.out.limit,
            r matches Err(e) ==> e == HootError::OutputOverflow,
    {
        self.end_headers()
    }

    /// Ends the header block of a body-less request, and moves on to
    /// receiving the status.
    pub fn finish(self) -> (r: Result<Call>)
        requires
            self.wf(),
            self.phase == SendPhase::Headers,
            self.method.spec_forbids_body(),
        ensures
            r matches Ok(c) ==> {
                &&& c.wf()
                &&& c.phase == SendPhase::RecvStatus
                &&& c.method == self.method
                &&& c.version == self.version
                &&& c.out.limit == self.out.limit
                &&& c.out.buf@ == self.out.buf@ + crlf()
            },
            r is Ok <==> self.out.buf@.len() + crlf().len() <= self.out.limit,
            r matches Err(e) ==> e == HootError::OutputOverflow,
    {
        self.end_headers()
    }

    /// Writes the blank line that closes the header block.
    fn end_headers(self) -> (r: Result<Call>)
        requires
            self.wf(),
            self.phase == SendPhase::Headers,
        ensures
            r matches Ok(c) ==> c.wf() && c.phase == SendPhase::RecvStatus && c.out.buf@
                == self.out.buf@ + crlf() && c.method == self.method && c.version == self.version
                && c.out.limit == self.out.limit,
            r is Ok <==> self.out.buf@.len() + crlf().len() <= self.out.limit,
            r matches Err(e) ==> e == HootError::OutputOverflow,
    {
        let mut line: Vec<u8> = Vec::new();
        line.push(CR);
        line.push(LF);
        proof {
            assert(line@ =~= crlf());
        }
        let mut out = self.out;
        match out.stage(line.as_slice()) {
            Ok(u) => (),
            Err(e) => {
                return Err(e);
            },
        }
        out.commit();
        Ok(Call { out, phase: SendPhase::RecvStatus, ..self })
    }

    /// Hands out the serialized bytes, consuming the call.
    pub fn into_output(self) -> (r: Vec<u8>)
        requires
            self.wf(),
        ensures
            r@ == self.out.buf@,
    {
        self.out.into_vec()
    }
}

} // verus!
