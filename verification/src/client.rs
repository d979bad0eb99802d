//! The client call state machine: one HTTP request/response cycle.
//!
//! A `Call` is created from a [`Request`] descriptor by one of two
//! constructors, [`Call::without_body`] and [`Call::with_body`]. It then
//! serializes the request incrementally into caller-sized output buffers:
//! every write appends at most `cap` bytes, and a buffer that fills up
//! mid-way leaves the call resumable byte for byte. The phase of the call is
//! carried in its type, so operations of one phase are not callable in
//! another.

use vstd::prelude::*;

use crate::ascii::{all_digits, crlf, dec_val, hex_rep, push_hex, CR, LF};
use crate::error::{HootError, Result};
use crate::header::{
    checked_header_line, chunked_bytes, chunked_value, content_length_bytes, content_length_name,
    header_line, host_bytes, host_name, push_all, transfer_encoding_bytes, transfer_encoding_name,
};
use crate::recv::{fresh_recv, RecvState};
use crate::request::{
    find_header, spec_find_header, Header, Method, Request, Version,
};

verus! {

/// Type state for a call whose request carries no body.
pub struct WithoutBody(pub(crate) ());

/// Type state for a call that streams a request body.
pub struct WithBody(pub(crate) ());

/// Type state for receiving the response status and headers.
pub struct RecvResponse(pub(crate) ());

/// Type state for receiving the response body.
pub struct RecvBody(pub(crate) ());

/// How the request body length is communicated on the wire.
#[derive(Clone, Copy, PartialEq, Eq, Structural, Debug)]
pub enum Framing {
    /// No body at all.
    NoBody,
    /// A body of exactly this many bytes, declared by `content-length`.
    Length(u64),
    /// A chunk-encoded body, ended by an explicit empty write.
    Chunked,
}

/// The framing decision of the request analyzer: a pure function of the
/// method, version, headers and which constructor was used.
pub open spec fn spec_framing(req: Request, with_body: bool) -> Result<Framing> {
    if with_body && req.method.spec_forbids_body() {
        Err(HootError::MethodForbidsBody(req.method))
    } else if !with_body && req.method.spec_requires_body() {
        Err(HootError::MethodRequiresBody(req.method))
    } else if !with_body {
        Ok(Framing::NoBody)
    } else {
        let cl = spec_find_header(req.headers@, content_length_name());
        let te = spec_find_header(req.headers@, transfer_encoding_name());
        let te_chunked = match te {
            Option::Some(v) => crate::ascii::lower_seq(v) == chunked_value(),
            Option::None => false,
        };
        if cl is Some && te_chunked {
            Err(HootError::ForbiddenBodyHeader)
        } else if te_chunked {
            if req.version is Http11 {
                Ok(Framing::Chunked)
            } else {
                Err(HootError::ForbiddenHttp11Header)
            }
        } else {
            match cl {
                Option::Some(v) => {
                    if all_digits(v) && dec_val(v) <= u64::MAX {
                        Ok(Framing::Length(dec_val(v) as u64))
                    } else {
                        Err(HootError::HeaderValue)
                    }
                },
                Option::None => {
                    if req.version is Http11 {
                        Ok(Framing::Chunked)
                    } else {
                        Err(HootError::ForbiddenHttp11Header)
                    }
                },
            }
        }
    }
}

/// Decides the framing of a request, or rejects it: body-forbidding methods
/// must not use the body constructor and body-requiring methods must;
/// `content-length` and `transfer-encoding: chunked` must not both be given;
/// chunked transfer needs HTTP/1.1, and so does a body of undeclared length.
pub fn analyze_framing(req: &Request, with_body: bool) -> (r: Result<Framing>)
    ensures
        r == spec_framing(*req, with_body),
{
    if with_body && req.method.forbids_body() {
        return Err(HootError::MethodForbidsBody(req.method));
    }
    if !with_body && req.method.requires_body() {
        return Err(HootError::MethodRequiresBody(req.method));
    }
    if !with_body {
        return Ok(Framing::NoBody);
    }
    let cl_name = content_length_bytes();
    let te_name = transfer_encoding_bytes();
    proof {
        assert(crate::ascii::lower_seq(content_length_name()) =~= content_length_name());
        assert(crate::ascii::lower_seq(transfer_encoding_name()) =~= transfer_encoding_name());
    }
    let cl = find_header(&req.headers, cl_name.as_slice());
    let te = find_header(&req.headers, te_name.as_slice());
    let te_chunked = match te {
        Option::Some(v) => {
            let chunked = chunked_bytes();
            proof {
                assert(crate::ascii::lower_seq(chunked_value()) =~= chunked_value());
            }
            crate::ascii::eq_ignore_case(v.as_slice(), chunked.as_slice())
        },
        Option::None => false,
    };
    match cl {
        Option::Some(v) => {
            if te_chunked {
                Err(HootError::ForbiddenBodyHeader)
            } else {
                match crate::ascii::parse_dec(v.as_slice()) {
                    Option::Some(n) => Ok(Framing::Length(n)),
                    Option::None => Err(HootError::HeaderValue),
                }
            }
        },
        Option::None => {
            // With or without an explicit chunked transfer-encoding, a body
            // of undeclared length needs HTTP/1.1 chunked framing.
            match req.version {
                Version::Http11 => Ok(Framing::Chunked),
                Version::Http10 => Err(HootError::ForbiddenHttp11Header),
            }
        },
    }
}

/// The wire form of the request line: `METHOD SP path SP version CRLF`.
pub open spec fn spec_request_line(req: Request) -> Seq<u8> {
    req.method.spec_name() + seq![(' ' as u8)] + req.path@ + seq![(' ' as u8)]
        + req.version.spec_bytes() + crlf()
}

/// The synthesized `host` header line: present exactly when the target had
/// an authority and the caller did not supply a `host` header.
pub open spec fn spec_synth_host(req: Request) -> Seq<u8> {
    match req.host {
        Option::Some(h) => {
            if spec_find_header(req.headers@, host_name()) is None {
                header_line(host_name(), h@)
            } else {
                Seq::<u8>::empty()
            }
        },
        Option::None => Seq::<u8>::empty(),
    }
}

/// The caller headers from position `i` on, in wire form, in order.
pub open spec fn spec_header_lines_from(hs: Seq<Header>, i: int) -> Seq<u8>
    decreases hs.len() - i,
{
    if i < 0 || i >= hs.len() {
        Seq::<u8>::empty()
    } else {
        header_line(hs[i].name@, hs[i].value@) + spec_header_lines_from(hs, i + 1)
    }
}

/// All caller headers in wire form, in order.
pub open spec fn spec_header_lines(hs: Seq<Header>) -> Seq<u8> {
    spec_header_lines_from(hs, 0)
}

/// The synthesized `transfer-encoding: chunked` line: present exactly when
/// the framing defaulted to chunked without the caller asking for it.
pub open spec fn spec_synth_te(req: Request, framing: Framing) -> Seq<u8> {
    if framing is Chunked && spec_find_header(req.headers@, transfer_encoding_name()) is None {
        header_line(transfer_encoding_name(), chunked_value())
    } else {
        Seq::<u8>::empty()
    }
}

/// The prologue: request line, synthesized `host`, caller headers in order,
/// and the synthesized framing header. A request without a body closes its
/// header block with the empty CRLF line; with a body, the body bytes follow
/// the headers directly.
pub open spec fn spec_prologue(req: Request, framing: Framing) -> Seq<u8> {
    spec_request_line(req) + spec_synth_host(req) + spec_header_lines(req.headers@)
        + spec_synth_te(req, framing) + (if framing is NoBody {
        crlf()
    } else {
        Seq::<u8>::empty()
    })
}

/// The first validation failure among the caller headers from `i` on:
/// for each header the name is checked before the value.
pub open spec fn spec_headers_check_from(hs: Seq<Header>, i: int) -> Result<()>
    decreases hs.len() - i,
{
    if i < 0 || i >= hs.len() {
        Ok(())
    } else if !crate::ascii::valid_header_name(hs[i].name@) {
        Err(HootError::HeaderName)
    } else if !crate::ascii::valid_header_value(hs[i].value@) {
        Err(HootError::HeaderValue)
    } else {
        spec_headers_check_from(hs, i + 1)
    }
}

/// The first validation failure among the caller headers.
pub open spec fn spec_headers_check(hs: Seq<Header>) -> Result<()> {
    spec_headers_check_from(hs, 0)
}

/// Validation of the synthesized `host` line: its value must be made of
/// header value bytes.
pub open spec fn spec_host_check(req: Request) -> Result<()> {
    match req.host {
        Option::Some(h) => {
            if spec_find_header(req.headers@, host_name()) is None
                && !crate::ascii::valid_header_value(h@) {
                Err(HootError::HeaderValue)
            } else {
                Ok(())
            }
        },
        Option::None => Ok(()),
    }
}

/// What constructing a call from `req` yields: the framing decision first,
/// then the synthesized `host` line check, then the caller headers in order.
pub open spec fn spec_new_result(req: Request, with_body: bool) -> Result<Framing> {
    match spec_framing(req, with_body) {
        Err(e) => Err(e),
        Ok(f) => match spec_host_check(req) {
            Err(e) => Err(e),
            Ok(u) => match spec_headers_check(req.headers@) {
                Err(e) => Err(e),
                Ok(u2) => Ok(f),
            },
        },
    }
}

/// Builds the prologue bytes of a request, validating every header line as
/// it is composed.
fn build_prologue(req: &Request, framing: Framing) -> (r: Result<Vec<u8>>)
    ensures
        r is Ok <==> spec_host_check(*req) is Ok && spec_headers_check(req.headers@) is Ok,
        r matches Ok(p) ==> p@ == spec_prologue(*req, framing),
        r matches Err(e) ==> (match spec_host_check(*req) {
            Err(e2) => e == e2,
            Ok(u) => spec_headers_check(req.headers@) == Err::<(), HootError>(e),
        }),
{
    let mut v: Vec<u8> = Vec::new();
    let name = req.method.name();
    push_all(&mut v, name.as_slice());
    v.push(' ' as u8);
    push_all(&mut v, req.path.as_slice());
    v.push(' ' as u8);
    let ver = req.version.wire_bytes();
    push_all(&mut v, ver.as_slice());
    v.push(CR);
    v.push(LF);
    proof {
        assert(v@ =~= spec_request_line(*req));
    }

    // The synthesized host line, when the target has an authority and the
    // caller did not supply a host header of their own.
    let host = host_bytes();
    proof {
        assert(crate::ascii::lower_seq(host_name()) =~= host_name());
    }
    match &req.host {
        Option::Some(h) => {
            match find_header(&req.headers, host.as_slice()) {
                Option::Some(u) => (),
                Option::None => {
                    match checked_header_line(host.as_slice(), h.as_slice()) {
                        Ok(line) => {
                            push_all(&mut v, line.as_slice());
                        },
                        Err(e) => {
                            proof {
                                // A constant name is valid, so only the value
                                // can be at fault.
                                assert(crate::ascii::valid_header_name(host_name()));
                            }
                            return Err(e);
                        },
                    }
                },
            }
        },
        Option::None => (),
    }
    proof {
        assert(v@ =~= spec_request_line(*req) + spec_synth_host(*req));
    }

    // The caller headers, in order, each validated as composed.
    let ghost base = v@;
    let mut i: usize = 0;
    while i < req.headers.len()
        invariant
            0 <= i <= req.headers@.len(),
            spec_headers_check_from(req.headers@, 0) == spec_headers_check_from(
                req.headers@,
                i as int,
            ),
            v@ + spec_header_lines_from(req.headers@, i as int) == base
                + spec_header_lines_from(req.headers@, 0),
            base == spec_request_line(*req) + spec_synth_host(*req),
            spec_host_check(*req) is Ok,
        decreases req.headers@.len() - i,
    {
        let h = &req.headers[i];
        match checked_header_line(h.name.as_slice(), h.value.as_slice()) {
            Ok(line) => {
                proof {
                    assert((v@ + line@) + spec_header_lines_from(req.headers@, i as int + 1) =~= v@
                        + spec_header_lines_from(req.headers@, i as int));
                }
                push_all(&mut v, line.as_slice());
            },
            Err(e) => {
                proof {
                    assert(req.headers@[i as int] == *h);
                    assert(spec_headers_check_from(req.headers@, i as int) == Err::<
                        (),
                        HootError,
                    >(e));
                }
                return Err(e);
            },
        }
        i += 1;
    }
    proof {
        assert(v@ + spec_header_lines_from(req.headers@, req.headers@.len() as int) =~= v@);
        assert(v@ =~= base + spec_header_lines(req.headers@));
    }

    // The synthesized framing header, when chunked transfer was chosen by
    // default rather than asked for.
    let te = transfer_encoding_bytes();
    proof {
        assert(crate::ascii::lower_seq(transfer_encoding_name()) =~= transfer_encoding_name());
    }
    let synth_te = match framing {
        Framing::Chunked => match find_header(&req.headers, te.as_slice()) {
            Option::Some(u) => false,
            Option::None => true,
        },
        Framing::NoBody => false,
        Framing::Length(n) => false,
    };
    if synth_te {
        let chunked = chunked_bytes();
        let line = crate::header::compose_header_line(te.as_slice(), chunked.as_slice());
        push_all(&mut v, line.as_slice());
    }

    // Without a body there is nothing more to come: the empty line closes
    // the header block. With a body, the body bytes follow the headers.
    let close = match framing {
        Framing::NoBody => true,
        Framing::Length(n) => false,
        Framing::Chunked => false,
    };
    if close {
        v.push(CR);
        v.push(LF);
    }
    proof {
        assert(v@ =~= spec_prologue(*req, framing));
    }
    Ok(v)
}

/// The wire frame of one chunk: size in lowercase hex, CRLF, the data, CRLF.
pub open spec fn chunk_frame(data: Seq<u8>) -> Seq<u8> {
    hex_rep(data.len()) + crlf() + data + crlf()
}

/// The terminating frame of a chunked body: `0 CRLF CRLF`.
pub open spec fn chunk_terminator() -> Seq<u8> {
    seq![('0' as u8)] + crlf() + crlf()
}

/// The wire form of a sequence of chunks, in order.
pub open spec fn frames(cs: Seq<Seq<u8>>) -> Seq<u8>
    decreases cs.len(),
{
    if cs.len() == 0 {
        Seq::<u8>::empty()
    } else {
        chunk_frame(cs[0]) + frames(cs.skip(1))
    }
}

/// The data carried by a sequence of chunks, in order.
pub open spec fn concat_chunks(cs: Seq<Seq<u8>>) -> Seq<u8>
    decreases cs.len(),
{
    if cs.len() == 0 {
        Seq::<u8>::empty()
    } else {
        cs[0] + concat_chunks(cs.skip(1))
    }
}

/// No chunk is empty: only the terminator may carry a zero size. And every
/// chunk came out of one write call, so its size fits the wire's `u64`.
pub open spec fn all_chunks_nonempty(cs: Seq<Seq<u8>>) -> bool {
    forall|i: int| 0 <= i < cs.len() ==> 0 < (#[trigger] cs[i]).len() <= u64::MAX
}

/// Appending a chunk appends its frame.
pub proof fn lemma_frames_push(cs: Seq<Seq<u8>>, c: Seq<u8>)
    ensures
        frames(cs.push(c)) == frames(cs) + chunk_frame(c),
        concat_chunks(cs.push(c)) == concat_chunks(cs) + c,
    decreases cs.len(),
{
    if cs.len() == 0 {
        assert(cs.push(c)[0] == c);
        assert(cs.push(c).skip(1) =~= Seq::<Seq<u8>>::empty());
        assert(frames(cs.push(c)) == chunk_frame(c) + frames(cs.push(c).skip(1)));
        assert(frames(cs.push(c).skip(1)) == Seq::<u8>::empty());
        assert(concat_chunks(cs.push(c)) == c + concat_chunks(cs.push(c).skip(1)));
        assert(concat_chunks(cs.push(c).skip(1)) == Seq::<u8>::empty());
        assert(frames(cs.push(c)) =~= frames(cs) + chunk_frame(c));
        assert(concat_chunks(cs.push(c)) =~= concat_chunks(cs) + c);
    } else {
        assert(cs.push(c)[0] == cs[0]);
        assert(cs.push(c).skip(1) =~= cs.skip(1).push(c));
        lemma_frames_push(cs.skip(1), c);
        assert(frames(cs) == chunk_frame(cs[0]) + frames(cs.skip(1)));
        assert(frames(cs.push(c)) == chunk_frame(cs[0]) + frames(cs.skip(1).push(c)));
        assert(concat_chunks(cs) == cs[0] + concat_chunks(cs.skip(1)));
        assert(concat_chunks(cs.push(c)) == cs[0] + concat_chunks(cs.skip(1).push(c)));
        assert(frames(cs.push(c)) =~= frames(cs) + chunk_frame(c));
        assert(concat_chunks(cs.push(c)) =~= concat_chunks(cs) + c);
    }
}

/// A longer number does not take fewer hex digits.
pub proof fn lemma_hex_len_mono(a: nat, b: nat)
    requires
        a <= b,
    ensures
        hex_rep(a).len() <= hex_rep(b).len(),
    decreases b,
{
    if b < 16 {
    } else if a < 16 {
        lemma_hex_len_pos(b / 16);
    } else {
        assert(a / 16 <= b / 16) by (nonlinear_arith)
            requires
                a <= b,
        ;
        lemma_hex_len_mono(a / 16, b / 16);
    }
}

/// A hex notation has at least one digit.
pub proof fn lemma_hex_len_pos(n: nat)
    ensures
        hex_rep(n).len() >= 1,
    decreases n,
{
    if n >= 16 {
        lemma_hex_len_pos(n / 16);
    }
}

/// How many body bytes of `len` pending ones fit into `rem` output bytes
/// when framed as one chunk, sizing the hex digits conservatively by the
/// smaller of the two.
pub open spec fn chunk_take(len: int, rem: int) -> int {
    let m = if len <= rem { len } else { rem };
    let hl = hex_rep(m as nat).len() as int;
    if rem >= hl + 4 {
        if m <= rem - hl - 4 {
            m
        } else {
            rem - hl - 4
        }
    } else {
        0
    }
}

/// One past the end of the line that starts at `off`: just after the next
/// LF, or the end of the prologue when no LF follows.
pub open spec fn line_end(p: Seq<u8>, off: int) -> int {
    let lf = crate::recv::find_from(p, LF, off, p.len() as int);
    if lf == p.len() {
        p.len() as int
    } else {
        lf + 1
    }
}

/// How many prologue bytes a budget of `cap` flushes: whole lines only, as
/// many as fit. A header line is never split across two writes.
pub open spec fn line_flush(p: Seq<u8>, off: int, cap: int) -> int
    decreases p.len() - off,
    when 0 <= off <= p.len()
    via line_flush_dec
{
    if off >= p.len() {
        0
    } else {
        let e = line_end(p, off);
        if e - off <= cap {
            (e - off) + line_flush(p, e, cap - (e - off))
        } else {
            0
        }
    }
}

#[via_fn]
proof fn line_flush_dec(p: Seq<u8>, off: int, cap: int) {
    crate::recv::lemma_find_from_bounds(p, LF, off, p.len() as int);
}

/// The flushed amount stays within the budget and the prologue.
pub proof fn lemma_line_flush_bounds(p: Seq<u8>, off: int, cap: int)
    requires
        0 <= off <= p.len(),
        0 <= cap,
    ensures
        0 <= line_flush(p, off, cap),
        off + line_flush(p, off, cap) <= p.len(),
        line_flush(p, off, cap) <= cap,
    decreases p.len() - off,
{
    if off < p.len() {
        crate::recv::lemma_find_from_bounds(p, LF, off, p.len() as int);
        let e = line_end(p, off);
        if e - off <= cap {
            lemma_line_flush_bounds(p, e, cap - (e - off));
        }
    }
}

/// The model of one `write` call: the error it reports, or the bytes it
/// consumes and appends and whether the request became finished.
pub ghost struct WriteStep {
    /// The error reported, if any; an error changes nothing.
    pub err: Option<HootError>,
    /// How many bytes of `src` were consumed.
    pub consumed: int,
    /// The bytes appended to the output.
    pub appended: Seq<u8>,
    /// Whether the request is finished after the call.
    pub finished: bool,
}

/// What one `write` call does, as a function of the state, the pending body
/// bytes and the output budget `cap`.
///
/// The prologue is flushed first, as much as fits. Body bytes follow only
/// once the prologue is out: verbatim under `Length` framing, framed as one
/// chunk under `Chunked`. An empty `src` under `Chunked` asks for the
/// terminator, which is emitted atomically or not at all. A write that could
/// make no progress at all reports `OutputOverflow`; a write after the body
/// is finished reports `BodyContentAfterFinish`; a write beyond the declared
/// length reports `BodyLargerThanContentLength` before consuming anything.
pub open spec fn spec_write(os: CallState, src: Seq<u8>, cap: int) -> WriteStep {
    let rem = os.prologue@.len() - os.prologue_offset;
    let p = line_flush(os.prologue@, os.prologue_offset as int, cap);
    let flushed = os.prologue@.subrange(
        os.prologue_offset as int,
        os.prologue_offset + p,
    );
    match os.framing {
        Framing::NoBody => {
            if rem > 0 && p == 0 {
                WriteStep {
                    err: Option::Some(HootError::OutputOverflow),
                    consumed: 0,
                    appended: Seq::<u8>::empty(),
                    finished: os.finished,
                }
            } else {
                WriteStep {
                    err: Option::None,
                    consumed: 0,
                    appended: flushed,
                    finished: os.prologue_offset + p == os.prologue@.len(),
                }
            }
        },
        Framing::Length(n) => {
            if os.finished && src.len() > 0 {
                WriteStep {
                    err: Option::Some(HootError::BodyContentAfterFinish),
                    consumed: 0,
                    appended: Seq::<u8>::empty(),
                    finished: os.finished,
                }
            } else if !os.finished && src.len() > n - os.bytes_sent {
                WriteStep {
                    err: Option::Some(HootError::BodyLargerThanContentLength),
                    consumed: 0,
                    appended: Seq::<u8>::empty(),
                    finished: os.finished,
                }
            } else if rem > 0 && p == 0 {
                WriteStep {
                    err: Option::Some(HootError::OutputOverflow),
                    consumed: 0,
                    appended: Seq::<u8>::empty(),
                    finished: os.finished,
                }
            } else if p < rem {
                WriteStep { err: Option::None, consumed: 0, appended: flushed, finished: os.finished }
            } else {
                let k = if src.len() <= cap - p {
                    src.len() as int
                } else {
                    cap - p
                };
                WriteStep {
                    err: Option::None,
                    consumed: k,
                    appended: flushed + src.take(k),
                    finished: os.bytes_sent + k == n,
                }
            }
        },
        Framing::Chunked => {
            if os.finished && src.len() > 0 {
                WriteStep {
                    err: Option::Some(HootError::BodyContentAfterFinish),
                    consumed: 0,
                    appended: Seq::<u8>::empty(),
                    finished: true,
                }
            } else if rem > 0 && p == 0 {
                WriteStep {
                    err: Option::Some(HootError::OutputOverflow),
                    consumed: 0,
                    appended: Seq::<u8>::empty(),
                    finished: os.finished,
                }
            } else if p < rem {
                WriteStep { err: Option::None, consumed: 0, appended: flushed, finished: os.finished }
            } else if os.finished {
                WriteStep { err: Option::None, consumed: 0, appended: flushed, finished: true }
            } else if src.len() == 0 {
                if cap - p >= 5 {
                    WriteStep {
                        err: Option::None,
                        consumed: 0,
                        appended: flushed + chunk_terminator(),
                        finished: true,
                    }
                } else if p > 0 {
                    WriteStep { err: Option::None, consumed: 0, appended: flushed, finished: false }
                } else {
                    WriteStep {
                        err: Option::Some(HootError::OutputOverflow),
                        consumed: 0,
                        appended: Seq::<u8>::empty(),
                        finished: false,
                    }
                }
            } else {
                let k = chunk_take(src.len() as int, cap - p);
                if k == 0 {
                    if p > 0 {
                        WriteStep { err: Option::None, consumed: 0, appended: flushed, finished: false }
                    } else {
                        WriteStep {
                            err: Option::Some(HootError::OutputOverflow),
                            consumed: 0,
                            appended: Seq::<u8>::empty(),
                            finished: false,
                        }
                    }
                } else {
                    WriteStep {
                        err: Option::None,
                        consumed: k,
                        appended: flushed + chunk_frame(src.take(k)),
                        finished: false,
                    }
                }
            }
        },
    }
}

/// The phase-independent state of a call.
pub struct CallState {
    /// The method of the request.
    pub method: Method,
    /// The version of the request.
    pub version: Version,
    /// How the body is framed.
    pub framing: Framing,
    /// The serialized request line and headers; immutable once derived.
    pub prologue: Vec<u8>,
    /// How many prologue bytes have been handed to the caller.
    pub prologue_offset: usize,
    /// How many body bytes have been sent; meaningful under `Length` framing.
    pub bytes_sent: u64,
    /// Whether the body terminator has been emitted (or, without a body,
    /// the prologue fully flushed).
    pub finished: bool,
    /// All bytes handed to the caller so far.
    pub emitted: Ghost<Seq<u8>>,
    /// All body bytes consumed from the caller so far.
    pub body_in: Ghost<Seq<u8>>,
    /// The chunks emitted so far, under `Chunked` framing.
    pub chunks: Ghost<Seq<Seq<u8>>>,
    /// The response-body reading state; meaningful from the body phase on.
    pub recv: RecvState,
}

impl CallState {
    /// Well-formedness: what every operation preserves.
    ///
    /// The bytes emitted so far are always exactly the flushed part of the
    /// prologue followed by the framed image of the body bytes consumed so
    /// far; body bytes go out only after the whole prologue; and `finished`
    /// says precisely whether the wire image of the request is complete.
    pub open spec fn wf(self) -> bool {
        &&& self.prologue_offset <= self.prologue@.len()
        &&& match self.framing {
            Framing::NoBody => {
                &&& self.bytes_sent == 0
                &&& self.body_in@ == Seq::<u8>::empty()
                &&& self.chunks@ == Seq::<Seq<u8>>::empty()
                &&& self.emitted@ == self.prologue@.take(self.prologue_offset as int)
                &&& self.finished == (self.prologue_offset == self.prologue@.len())
            },
            Framing::Length(n) => {
                &&& self.bytes_sent <= n
                &&& self.body_in@.len() == self.bytes_sent
                &&& self.chunks@ == Seq::<Seq<u8>>::empty()
                &&& self.emitted@ == self.prologue@.take(self.prologue_offset as int)
                    + self.body_in@
                &&& self.bytes_sent > 0 ==> self.prologue_offset == self.prologue@.len()
                &&& self.finished == (self.prologue_offset == self.prologue@.len()
                    && self.bytes_sent == n)
            },
            Framing::Chunked => {
                &&& self.bytes_sent == 0
                &&& all_chunks_nonempty(self.chunks@)
                &&& concat_chunks(self.chunks@) == self.body_in@
                &&& self.emitted@ == self.prologue@.take(self.prologue_offset as int) + frames(
                    self.chunks@,
                ) + (if self.finished {
                    chunk_terminator()
                } else {
                    Seq::<u8>::empty()
                })
                &&& self.chunks@.len() > 0 ==> self.prologue_offset == self.prologue@.len()
                &&& self.finished ==> self.prologue_offset == self.prologue@.len()
            },
        }
    }
}

/// One HTTP request/response cycle. The phase is carried in the type
/// parameter, so only the operations of the current phase are callable.
pub struct Call<S> {
    /// The phase marker; only the library can make one.
    pub state: S,
    /// The phase-independent state.
    pub inner: CallState,
}

impl<S> Call<S> {
    /// Well-formedness of the call.
    pub open spec fn wf(self) -> bool {
        self.inner.wf()
    }

    /// Whether the wire image of the request is complete: the prologue is
    /// out and, with a body, the body terminator or final length byte too.
    pub fn request_finished(&self) -> (r: bool)
        ensures
            r == self.inner.finished,
    {
        self.inner.finished
    }
}

fn new_state(method: Method, version: Version, framing: Framing, prologue: Vec<u8>) -> (r:
    CallState)
    requires
        prologue@.len() > 0,
    ensures
        r.wf(),
        r.method == method,
        r.version == version,
        r.framing == framing,
        r.prologue == prologue,
        r.prologue_offset == 0,
        r.bytes_sent == 0,
        !r.finished,
        r.emitted@ == Seq::<u8>::empty(),
        r.body_in@ == Seq::<u8>::empty(),
        r.chunks@ == Seq::<Seq<u8>>::empty(),
{
    let r = CallState {
        method,
        version,
        framing,
        prologue,
        prologue_offset: 0,
        bytes_sent: 0,
        finished: false,
        emitted: Ghost(Seq::<u8>::empty()),
        body_in: Ghost(Seq::<u8>::empty()),
        chunks: Ghost(Seq::<Seq<u8>>::empty()),
        recv: fresh_recv(),
    };
    proof {
        assert(r.prologue@.take(0) =~= Seq::<u8>::empty());
        match framing {
            Framing::NoBody => {
                assert(r.emitted@ =~= r.prologue@.take(0));
            },
            Framing::Length(n) => {
                assert(r.emitted@ =~= r.prologue@.take(0) + r.body_in@);
            },
            Framing::Chunked => {
                assert(r.emitted@ =~= r.prologue@.take(0) + frames(r.chunks@)
                    + Seq::<u8>::empty());
            },
        }
    }
    r
}

/// The prologue is never empty: it starts with the request line.
proof fn lemma_prologue_nonempty(req: Request, framing: Framing)
    ensures
        spec_prologue(req, framing).len() > 0,
{
    assert(req.method.spec_name().len() > 0);
}

impl Call<WithoutBody> {
    /// Creates a call for a request without a body. Rejects methods that
    /// require one, and validates every header line of the prologue.
    pub fn without_body(req: &Request) -> (r: Result<Call<WithoutBody>>)
        ensures
            r is Ok <==> spec_new_result(*req, false) is Ok,
            r matches Err(e) ==> spec_new_result(*req, false) matches Err(e2) && e == e2,
            r matches Ok(c) ==> {
                &&& c.wf()
                &&& c.inner.method == req.method
                &&& c.inner.version == req.version
                &&& c.inner.framing == Framing::NoBody
                &&& c.inner.prologue@ == spec_prologue(*req, Framing::NoBody)
                &&& c.inner.prologue_offset == 0
                &&& !c.inner.finished
                &&& c.inner.emitted@ == Seq::<u8>::empty()
            },
    {
        let framing = match analyze_framing(req, false) {
            Ok(f) => f,
            Err(e) => {
                return Err(e);
            },
        };
        let prologue = match build_prologue(req, framing) {
            Ok(p) => p,
            Err(e) => {
                return Err(e);
            },
        };
        proof {
            lemma_prologue_nonempty(*req, framing);
        }
        Ok(Call { state: WithoutBody(()), inner: new_state(req.method, req.version, framing, prologue) })
    }
}

impl Call<WithBody> {
    /// Creates a call for a request that streams a body. Rejects methods
    /// that forbid one, decides the framing, and validates every header line
    /// of the prologue.
    pub fn with_body(req: &Request) -> (r: Result<Call<WithBody>>)
        ensures
            r is Ok <==> spec_new_result(*req, true) is Ok,
            r matches Err(e) ==> spec_new_result(*req, true) matches Err(e2) && e == e2,
            r matches Ok(c) ==> {
                &&& c.wf()
                &&& c.inner.method == req.method
                &&& c.inner.version == req.version
                &&& spec_new_result(*req, true) matches Ok(f) && c.inner.framing == f
                &&& !(c.inner.framing is NoBody)
                &&& c.inner.prologue@ == spec_prologue(*req, c.inner.framing)
                &&& c.inner.prologue_offset == 0
                &&& !c.inner.finished
                &&& c.inner.emitted@ == Seq::<u8>::empty()
                &&& c.inner.body_in@ == Seq::<u8>::empty()
            },
    {
        let framing = match analyze_framing(req, true) {
            Ok(f) => f,
            Err(e) => {
                return Err(e);
            },
        };
        let prologue = match build_prologue(req, framing) {
            Ok(p) => p,
            Err(e) => {
                return Err(e);
            },
        };
        proof {
            lemma_prologue_nonempty(*req, framing);
        }
        Ok(Call { state: WithBody(()), inner: new_state(req.method, req.version, framing, prologue) })
    }
}

/// Appends `src[..k]` to `dst`.
fn push_prefix(dst: &mut Vec<u8>, src: &Vec<u8>, k: usize)
    requires
        k <= src@.len(),
    ensures
        final(dst)@ == old(dst)@ + src@.take(k as int),
{
    let mut i: usize = 0;
    while i < k
        invariant
            0 <= i <= k <= src@.len(),
            dst@ == old(dst)@ + src@.take(i as int),
        decreases k - i,
    {
        dst.push(src[i]);
        proof {
            assert(old(dst)@ + src@.take(i as int) + seq![src@[i as int]] =~= old(dst)@
                + src@.take(i as int + 1));
        }
        i += 1;
    }
}

/// Flushes whole prologue lines into `dst` while the budget `cap` has room
/// for the next one; reports how many bytes went out. A header line is
/// never split. Everything but the cursor, the finished flag it implies and
/// the emission history stays as it was.
fn flush_prologue(cs: &mut CallState, dst: &mut Vec<u8>, cap: usize) -> (n: usize)
    requires
        old(cs).wf(),
    ensures
        final(cs).wf(),
        n as int == line_flush(old(cs).prologue@, old(cs).prologue_offset as int, cap as int),
        final(cs).prologue_offset == old(cs).prologue_offset + n,
        final(dst)@ == old(dst)@ + old(cs).prologue@.subrange(
            old(cs).prologue_offset as int,
            old(cs).prologue_offset + n,
        ),
        final(cs).emitted@ == old(cs).emitted@ + old(cs).prologue@.subrange(
            old(cs).prologue_offset as int,
            old(cs).prologue_offset + n,
        ),
        final(cs).method == old(cs).method,
        final(cs).version == old(cs).version,
        final(cs).framing == old(cs).framing,
        final(cs).prologue == old(cs).prologue,
        final(cs).bytes_sent == old(cs).bytes_sent,
        final(cs).finished == (match old(cs).framing {
            Framing::NoBody => old(cs).prologue_offset + n == old(cs).prologue@.len(),
            Framing::Length(m) => old(cs).prologue_offset + n == old(cs).prologue@.len()
                && old(cs).bytes_sent == m,
            Framing::Chunked => old(cs).finished,
        }),
        final(cs).body_in == old(cs).body_in,
        final(cs).chunks == old(cs).chunks,
        final(cs).recv == old(cs).recv,
{
    let ghost old_off = cs.prologue_offset as int;
    let mut produced: usize = 0;
    let mut budget: usize = cap;
    loop
        invariant
            old(cs).prologue_offset + produced == cs.prologue_offset,
            cs.prologue_offset <= cs.prologue@.len(),
            produced + budget == cap,
            old_off == old(cs).prologue_offset as int,
            dst@ == old(dst)@ + cs.prologue@.subrange(old_off, old_off + produced),
            *cs == (CallState { prologue_offset: cs.prologue_offset, ..*old(cs) }),
            line_flush(cs.prologue@, old_off, cap as int) == produced + line_flush(
                cs.prologue@,
                cs.prologue_offset as int,
                budget as int,
            ),
        ensures
            old(cs).prologue_offset + produced == cs.prologue_offset,
            dst@ == old(dst)@ + cs.prologue@.subrange(old_off, old_off + produced),
            *cs == (CallState { prologue_offset: cs.prologue_offset, ..*old(cs) }),
            produced as int == line_flush(cs.prologue@, old_off, cap as int),
        decreases cs.prologue@.len() - cs.prologue_offset,
    {
        if cs.prologue_offset >= cs.prologue.len() {
            proof {
                assert(line_flush(cs.prologue@, cs.prologue_offset as int, budget as int) == 0);
            }
            break;
        }
        let lf = crate::recv::find_byte(&cs.prologue, LF, cs.prologue_offset, cs.prologue.len());
        let e = if lf == cs.prologue.len() {
            lf
        } else {
            lf + 1
        };
        proof {
            assert(e as int == line_end(cs.prologue@, cs.prologue_offset as int));
        }
        let line_len = e - cs.prologue_offset;
        if line_len > budget {
            proof {
                assert(line_flush(cs.prologue@, cs.prologue_offset as int, budget as int) == 0);
            }
            break;
        }
        let ghost off_before = cs.prologue_offset as int;
        let mut j: usize = cs.prologue_offset;
        while j < e
            invariant
                off_before <= j as int <= e as int <= cs.prologue@.len(),
                dst@ == old(dst)@ + cs.prologue@.subrange(old_off, off_before) + cs.prologue@.subrange(
                    off_before,
                    j as int,
                ),
                old_off <= off_before,
                *cs == (CallState { prologue_offset: cs.prologue_offset, ..*old(cs) }),
                cs.prologue_offset as int == off_before,
            decreases e - j,
        {
            let b = cs.prologue[j];
            dst.push(b);
            proof {
                assert(dst@ =~= old(dst)@ + cs.prologue@.subrange(old_off, off_before)
                    + cs.prologue@.subrange(off_before, j as int + 1));
            }
            j += 1;
        }
        cs.prologue_offset = e;
        produced = produced + line_len;
        budget = budget - line_len;
        proof {
            assert(dst@ =~= old(dst)@ + cs.prologue@.subrange(old_off, old_off
                + produced as int));
        }
    }
    proof {
        assert(cs.prologue@.take(old_off) + cs.prologue@.subrange(old_off, old_off
            + produced as int) =~= cs.prologue@.take(old_off + produced as int));
    }
    let ghost flushed = cs.prologue@.subrange(old_off, old_off + produced as int);
    proof {
        if produced > 0 {
            // Body bytes only flow after the whole prologue is out, so any
            // actual flushing happened while the body part was still empty.
            match cs.framing {
                Framing::NoBody => {},
                Framing::Length(n) => {
                    assert(cs.bytes_sent == 0);
                },
                Framing::Chunked => {
                    assert(cs.chunks@ =~= Seq::<Seq<u8>>::empty());
                    assert(!cs.finished);
                },
            }
        }
    }
    cs.emitted = Ghost(cs.emitted@ + flushed);
    let done = cs.prologue_offset == cs.prologue.len();
    match cs.framing {
        Framing::NoBody => {
            cs.finished = done;
        },
        Framing::Length(m) => {
            cs.finished = done && cs.bytes_sent == m;
        },
        Framing::Chunked => {},
    }
    proof {
        match cs.framing {
            Framing::NoBody => {
                assert(cs.emitted@ =~= cs.prologue@.take(cs.prologue_offset as int));
            },
            Framing::Length(n) => {
                assert(cs.emitted@ =~= cs.prologue@.take(cs.prologue_offset as int)
                    + cs.body_in@);
            },
            Framing::Chunked => {
                assert(cs.emitted@ =~= cs.prologue@.take(cs.prologue_offset as int) + frames(
                    cs.chunks@,
                ) + (if cs.finished {
                    chunk_terminator()
                } else {
                    Seq::<u8>::empty()
                }));
            },
        }
    }
    produced
}

impl Call<WithoutBody> {
    /// Writes the next part of the request: as much of the prologue as the
    /// budget `cap` allows, appended to `dst`. Returns how many bytes were
    /// produced. The request is finished once the whole prologue is out;
    /// further writes then produce nothing.
    pub fn write(&mut self, dst: &mut Vec<u8>, cap: usize) -> (r: Result<usize>)
        requires
            old(self).wf(),
            old(self).inner.framing is NoBody,
        ensures
            final(self).wf(),
            final(self).inner.framing == old(self).inner.framing,
            final(self).inner.prologue == old(self).inner.prologue,
            final(self).inner.method == old(self).inner.method,
            final(self).inner.version == old(self).inner.version,
            ({
                let step = spec_write(old(self).inner, Seq::<u8>::empty(), cap as int);
                match r {
                    Ok(n) => {
                        &&& step.err is None
                        &&& n as int == step.appended.len()
                        &&& final(dst)@ == old(dst)@ + step.appended
                        &&& final(self).inner.emitted@ == old(self).inner.emitted@
                            + step.appended
                        &&& final(self).inner.finished == step.finished
                    },
                    Err(e) => {
                        &&& step.err == Option::Some(e)
                        &&& *final(self) == *old(self)
                        &&& final(dst)@ == old(dst)@
                    },
                }
            }),
    {
        let ghost pre = old(self).inner;
        let n = flush_prologue(&mut self.inner, dst, cap);
        if n == 0 && self.inner.prologue_offset < self.inner.prologue.len() {
            proof {
                assert(self.inner.emitted@ =~= pre.emitted@);
                assert(dst@ =~= old(dst)@);
                assert(*self == *old(self));
            }
            return Err(HootError::OutputOverflow);
        }
        Ok(n)
    }
}

impl Call<WithBody> {
    /// Writes the next part of the request. `src` holds pending body bytes
    /// (empty means end-of-body under chunked framing); at most `cap` bytes
    /// are appended to `dst`. Returns `(input_consumed, output_produced)`.
    ///
    /// The unflushed prologue goes first; body bytes follow only once it is
    /// out, verbatim under `Length` framing and framed as one chunk under
    /// `Chunked`. The exact effect is [`spec_write`] of the state, `src` and
    /// `cap`; on an error nothing is consumed, produced or changed.
    #[verifier::rlimit(100)]
    #[verifier::spinoff_prover]
    pub fn write(&mut self, src: &Vec<u8>, dst: &mut Vec<u8>, cap: usize) -> (r: Result<
        (usize, usize),
    >)
        requires
            old(self).wf(),
            !(old(self).inner.framing is NoBody),
        ensures
            final(self).wf(),
            final(self).inner.framing == old(self).inner.framing,
            final(self).inner.prologue == old(self).inner.prologue,
            final(self).inner.method == old(self).inner.method,
            final(self).inner.version == old(self).inner.version,
            ({
                let step = spec_write(old(self).inner, src@, cap as int);
                match r {
                    Ok((ic, op)) => {
                        &&& step.err is None
                        &&& ic as int == step.consumed
                        &&& op as int == step.appended.len()
                        &&& final(dst)@ == old(dst)@ + step.appended
                        &&& final(self).inner.emitted@ == old(self).inner.emitted@
                            + step.appended
                        &&& final(self).inner.body_in@ == old(self).inner.body_in@ + src@.take(
                            step.consumed,
                        )
                        &&& final(self).inner.finished == step.finished
                    },
                    Err(e) => {
                        &&& step.err == Option::Some(e)
                        &&& *final(self) == *old(self)
                        &&& final(dst)@ == old(dst)@
                    },
                }
            }),
    {
        let ghost pre = old(self).inner;
        let ghost step = spec_write(pre, src@, cap as int);
        match self.inner.framing {
            Framing::NoBody => {
                proof {
                    assert(false);
                }
                Err(HootError::OutputOverflow)
            },
            Framing::Length(n) => {
                if self.inner.finished && src.len() > 0 {
                    return Err(HootError::BodyContentAfterFinish);
                }
                if !self.inner.finished {
                    let remaining: u64 = n - self.inner.bytes_sent;
                    if (src.len() as u64) > remaining {
                        return Err(HootError::BodyLargerThanContentLength);
                    }
                }
                let p = flush_prologue(&mut self.inner, dst, cap);
                if self.inner.prologue_offset < self.inner.prologue.len() {
                    if p == 0 {
                        proof {
                            assert(self.inner.emitted@ =~= pre.emitted@);
                            assert(dst@ =~= old(dst)@);
                            assert(*self == *old(self));
                        }
                        return Err(HootError::OutputOverflow);
                    }
                    proof {
                        assert(self.inner.body_in@ =~= pre.body_in@ + src@.take(0));
                    }
                    return Ok((0, p));
                }
                // The whole prologue is out: copy body bytes through.
                proof {
                    lemma_line_flush_bounds(pre.prologue@, pre.prologue_offset as int, cap as int);
                }
                let k = if src.len() <= cap - p {
                    src.len()
                } else {
                    cap - p
                };
                push_prefix(dst, src, k);
                self.inner.bytes_sent = self.inner.bytes_sent + k as u64;
                self.inner.finished = self.inner.bytes_sent == n;
                self.inner.emitted = Ghost(self.inner.emitted@ + src@.take(k as int));
                self.inner.body_in = Ghost(self.inner.body_in@ + src@.take(k as int));
                proof {
                    assert(self.inner.emitted@ =~= self.inner.prologue@.take(
                        self.inner.prologue_offset as int,
                    ) + self.inner.body_in@);
                    assert(self.inner.emitted@ =~= pre.emitted@ + step.appended);
                    assert(final(dst)@ =~= old(dst)@ + step.appended);
                }
                Ok((k, p + k))
            },
            Framing::Chunked => {
                if self.inner.finished && src.len() > 0 {
                    return Err(HootError::BodyContentAfterFinish);
                }
                let p = flush_prologue(&mut self.inner, dst, cap);
                if self.inner.prologue_offset < self.inner.prologue.len() {
                    if p == 0 {
                        proof {
                            assert(self.inner.emitted@ =~= pre.emitted@);
                            assert(dst@ =~= old(dst)@);
                            assert(*self == *old(self));
                        }
                        return Err(HootError::OutputOverflow);
                    }
                    proof {
                        assert(self.inner.body_in@ =~= pre.body_in@ + src@.take(0));
                    }
                    return Ok((0, p));
                }
                if self.inner.finished {
                    // The terminator is already out; an empty write after it
                    // is a no-op.
                    proof {
                        assert(p == 0);
                        assert(self.inner.body_in@ =~= pre.body_in@ + src@.take(0));
                        assert(self.inner.emitted@ =~= pre.emitted@ + step.appended);
                        assert(final(dst)@ =~= old(dst)@ + step.appended);
                    }
                    return Ok((0, p));
                }
                if src.len() == 0 {
                    // End of body: emit the terminator atomically or not at
                    // all.
                    proof {
                        lemma_line_flush_bounds(
                            pre.prologue@,
                            pre.prologue_offset as int,
                            cap as int,
                        );
                    }
                    if cap - p >= 5 {
                        dst.push('0' as u8);
                        dst.push(CR);
                        dst.push(LF);
                        dst.push(CR);
                        dst.push(LF);
                        self.inner.finished = true;
                        self.inner.emitted = Ghost(self.inner.emitted@ + chunk_terminator());
                        proof {
                            assert(self.inner.body_in@ =~= pre.body_in@ + src@.take(0));
                            assert(self.inner.emitted@ =~= self.inner.prologue@.take(
                                self.inner.prologue_offset as int,
                            ) + frames(self.inner.chunks@) + chunk_terminator());
                            assert(step.appended =~= pre.prologue@.subrange(
                                pre.prologue_offset as int,
                                pre.prologue_offset + p,
                            ) + chunk_terminator());
                            assert(self.inner.emitted@ =~= pre.emitted@ + step.appended);
                            assert(final(dst)@ =~= old(dst)@ + step.appended);
                        }
                        return Ok((0, p + 5));
                    } else if p > 0 {
                        proof {
                            assert(self.inner.body_in@ =~= pre.body_in@ + src@.take(0));
                        }
                        return Ok((0, p));
                    } else {
                        proof {
                            assert(*self == *old(self));
                        }
                        return Err(HootError::OutputOverflow);
                    }
                }
                // Frame as much of `src` as fits into one chunk.
                proof {
                    lemma_line_flush_bounds(pre.prologue@, pre.prologue_offset as int, cap as int);
                }
                let rem = cap - p;
                let m = if src.len() <= rem {
                    src.len()
                } else {
                    rem
                };
                let mut hx: Vec<u8> = Vec::new();
                push_hex(&mut hx, m as u64);
                let hl = hx.len();
                let k = if rem >= 4 && rem - 4 >= hl {
                    let lim = rem - 4 - hl;
                    if src.len() <= lim {
                        src.len()
                    } else {
                        lim
                    }
                } else {
                    0
                };
                proof {
                    assert(k as int == chunk_take(src@.len() as int, cap - p));
                }
                if k == 0 {
                    if p > 0 {
                        proof {
                            assert(self.inner.body_in@ =~= pre.body_in@ + src@.take(0));
                        }
                        return Ok((0, p));
                    } else {
                        proof {
                            assert(*self == *old(self));
                        }
                        return Err(HootError::OutputOverflow);
                    }
                }
                let mark = dst.len();
                proof {
                    lemma_hex_len_mono(k as nat, m as nat);
                    lemma_hex_len_pos(k as nat);
                }
                push_hex(dst, k as u64);
                dst.push(CR);
                dst.push(LF);
                push_prefix(dst, src, k);
                dst.push(CR);
                dst.push(LF);
                let op = p + (dst.len() - mark);
                proof {
                    lemma_frames_push(pre.chunks@, src@.take(k as int));
                }
                self.inner.chunks = Ghost(self.inner.chunks@.push(src@.take(k as int)));
                self.inner.body_in = Ghost(self.inner.body_in@ + src@.take(k as int));
                self.inner.emitted = Ghost(self.inner.emitted@ + chunk_frame(src@.take(k as int)));
                proof {
                    assert(src@.take(k as int).len() == k as int);
                    assert(final(dst)@ =~= old(dst)@ + (pre.prologue@.subrange(
                        pre.prologue_offset as int,
                        pre.prologue_offset + p,
                    ) + chunk_frame(src@.take(k as int))));
                    assert(step.appended =~= pre.prologue@.subrange(
                        pre.prologue_offset as int,
                        pre.prologue_offset + p,
                    ) + chunk_frame(src@.take(k as int)));
                    assert(self.inner.emitted@ =~= pre.emitted@ + step.appended);
                    assert(concat_chunks(self.inner.chunks@) =~= self.inner.body_in@);
                    assert(self.inner.emitted@ =~= self.inner.prologue@.take(
                        self.inner.prologue_offset as int,
                    ) + frames(self.inner.chunks@) + Seq::<u8>::empty());
                }
                Ok((k, op))
            },
        }
    }
}

/// Transcript equivalence and framing completeness.
///
/// Once a call reports the request finished, the concatenation of all bytes
/// it ever handed to the caller — whatever output budgets the caller chose —
/// is exactly the prologue followed by: nothing, for a request without a
/// body; the declared number of body bytes, verbatim, under `Length`
/// framing; or the frames of the consumed body chunks, none of them empty,
/// closed by the `0 CRLF CRLF` terminator, under `Chunked` framing.
pub proof fn lemma_transcript_complete(cs: CallState)
    requires
        cs.wf(),
        cs.finished,
    ensures
        cs.framing is NoBody ==> cs.emitted@ == cs.prologue@,
        (match cs.framing {
            Framing::Length(n) => cs.emitted@ == cs.prologue@ + cs.body_in@
                && cs.body_in@.len() == n,
            _ => true,
        }),
        cs.framing is Chunked ==> cs.emitted@ == cs.prologue@ + frames(cs.chunks@)
            + chunk_terminator() && concat_chunks(cs.chunks@) == cs.body_in@
            && all_chunks_nonempty(cs.chunks@),
{
    assert(cs.prologue@.take(cs.prologue@.len() as int) =~= cs.prologue@);
    match cs.framing {
        Framing::NoBody => {
            assert(cs.emitted@ =~= cs.prologue@);
        },
        Framing::Length(n) => {
            assert(cs.emitted@ =~= cs.prologue@ + cs.body_in@);
        },
        Framing::Chunked => {
            assert(cs.emitted@ =~= cs.prologue@ + frames(cs.chunks@) + chunk_terminator());
        },
    }
}

/// At every moment of a `Length`-framed call, the bytes handed out so far
/// are a prefix of the full wire image: the prologue followed by the body
/// bytes consumed so far. Partial writes never reorder or corrupt the
/// stream.
pub proof fn lemma_transcript_prefix(cs: CallState)
    requires
        cs.wf(),
    ensures
        (match cs.framing {
            Framing::Length(n) => cs.emitted@.is_prefix_of(cs.prologue@ + cs.body_in@),
            Framing::NoBody => cs.emitted@.is_prefix_of(cs.prologue@),
            Framing::Chunked => true,
        }),
{
    match cs.framing {
        Framing::NoBody => {
            assert(cs.emitted@ =~= cs.prologue@.take(cs.prologue_offset as int));
        },
        Framing::Length(n) => {
            if cs.prologue_offset == cs.prologue@.len() {
                assert(cs.prologue@.take(cs.prologue_offset as int) =~= cs.prologue@);
                assert(cs.emitted@ =~= (cs.prologue@ + cs.body_in@).take(
                    cs.emitted@.len() as int,
                ));
            } else {
                assert(cs.body_in@ =~= Seq::<u8>::empty());
                assert(cs.emitted@ =~= (cs.prologue@ + cs.body_in@).take(
                    cs.emitted@.len() as int,
                ));
            }
        },
        Framing::Chunked => {},
    }
}

/// Input-consumption monotonicity: a write never consumes more than the
/// caller offered, and under `Length` framing the body bytes consumed over
/// the whole life of the call never pass the declared length.
pub proof fn lemma_consumed_bounds(cs: CallState, src: Seq<u8>, cap: int)
    requires
        cs.wf(),
        cap >= 0,
    ensures
        0 <= spec_write(cs, src, cap).consumed <= src.len(),
        (match cs.framing {
            Framing::Length(n) => cs.body_in@.len() + spec_write(cs, src, cap).consumed <= n,
            _ => true,
        }),
{
    lemma_line_flush_bounds(cs.prologue@, cs.prologue_offset as int, cap);
}

/// Idempotence of the end signal: once the chunked terminator is out, a
/// further write with body bytes is refused as content after the finish,
/// and a further empty write consumes nothing, produces nothing and changes
/// nothing.
pub proof fn lemma_end_signal_idempotent(cs: CallState, src: Seq<u8>, cap: int)
    requires
        cs.wf(),
        cs.framing is Chunked,
        cs.finished,
        cap >= 0,
    ensures
        src.len() > 0 ==> spec_write(cs, src, cap).err == Option::Some(
            HootError::BodyContentAfterFinish,
        ),
        src.len() == 0 ==> ({
            let step = spec_write(cs, src, cap);
            &&& step.err is None
            &&& step.consumed == 0
            &&& step.appended == Seq::<u8>::empty()
            &&& step.finished
        }),
{
    if src.len() == 0 {
        assert(cs.prologue@.subrange(
            cs.prologue_offset as int,
            cs.prologue_offset as int,
        ) =~= Seq::<u8>::empty());
    }
}

impl Call<WithoutBody> {
    /// Leaves the send phase. The request must be fully written; until then
    /// the caller must keep flushing, so leaving early reports
    /// `OutputOverflow`.
    pub fn proceed(self) -> (r: Result<Call<RecvResponse>>)
        requires
            self.wf(),
        ensures
            r is Ok <==> self.inner.finished,
            r matches Ok(c) ==> c.wf() && c.inner == self.inner,
            r matches Err(e) ==> e == HootError::OutputOverflow,
    {
        if !self.inner.finished {
            return Err(HootError::OutputOverflow);
        }
        Ok(Call { state: RecvResponse(()), inner: self.inner })
    }
}

impl Call<WithBody> {
    /// Leaves the send phase. The body must be complete — the declared
    /// length reached, or the chunked terminator emitted — else the call
    /// reports that less than the announced content was sent.
    pub fn proceed(self) -> (r: Result<Call<RecvResponse>>)
        requires
            self.wf(),
        ensures
            r is Ok <==> self.inner.finished,
            r matches Ok(c) ==> c.wf() && c.inner == self.inner,
            r matches Err(e) ==> e == HootError::SentLessThanContentLength,
    {
        if !self.inner.finished {
            return Err(HootError::SentLessThanContentLength);
        }
        Ok(Call { state: RecvResponse(()), inner: self.inner })
    }
}

} // verus!
