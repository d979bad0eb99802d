//! Receiving the response: incremental parsing of the status line and the
//! header block, and the decision how the response body is framed.
//!
//! The parser is incremental in the way a sans-I/O caller needs: it is
//! handed the bytes accumulated from the transport so far, consumes nothing
//! until a complete status-line-plus-header-block is present, and then
//! reports how many bytes it took. Short reads simply report that more input
//! is needed.

use vstd::prelude::*;

use crate::ascii::{valid_header_name, valid_header_value, CR, LF};
use crate::client::{Call, CallState, RecvBody, RecvResponse};
use crate::error::{HootError, Result};
use crate::header::validate_header;
use crate::request::{copy_range, Header, Method, Version};

verus! {

/// The most response headers the codec accepts.
pub const MAX_HEADERS: usize = 128;

/// A parsed response status line and header block.
#[derive(Debug)]
pub struct Response {
    pub version: Version,
    pub status: u16,
    pub reason: Vec<u8>,
    pub headers: Vec<Header>,
}

/// The index of the first occurrence of `b` in `s[i..end]`, or `end`.
pub open spec fn find_from(s: Seq<u8>, b: u8, i: int, end: int) -> int
    decreases end - i,
{
    if i < 0 || i >= end || i >= s.len() {
        end
    } else if s[i] == b {
        i
    } else {
        find_from(s, b, i + 1, end)
    }
}

/// `find_from` stays between its bounds.
pub proof fn lemma_find_from_bounds(s: Seq<u8>, b: u8, i: int, end: int)
    requires
        0 <= i <= end,
    ensures
        i <= find_from(s, b, i, end) <= end,
    decreases end - i,
{
    if i < end && i < s.len() && s[i] != b {
        lemma_find_from_bounds(s, b, i + 1, end);
    }
}

/// What parsing the status line of `s` yields.
pub ghost struct StatusOut {
    /// The parse failure, if any.
    pub err: Option<HootError>,
    /// Whether a full status line was present.
    pub complete: bool,
    /// How many bytes the status line took, terminator included.
    pub consumed: int,
    /// The response HTTP version.
    pub version: Version,
    /// The three-digit status code.
    pub status: int,
    /// The reason phrase, possibly empty.
    pub reason: Seq<u8>,
}

/// Whether `b` is a decimal digit byte.
pub open spec fn is_digit(b: u8) -> bool {
    ('0' as u8) <= b <= ('9' as u8)
}

/// Parsing the status line `HTTP/1.x SP code SP reason CRLF` from the front
/// of `s`. Without a full line the parse is incomplete; a line that does not
/// end in CRLF is a `NewLine` failure; a malformed version, code or
/// separator is a `Status` failure.
pub open spec fn spec_parse_status(s: Seq<u8>) -> StatusOut {
    let lf = find_from(s, LF, 0, s.len() as int);
    let incomplete = StatusOut {
        err: Option::None,
        complete: false,
        consumed: 0,
        version: Version::Http11,
        status: 0,
        reason: Seq::<u8>::empty(),
    };
    if lf == s.len() {
        incomplete
    } else if lf < 1 || s[lf - 1] != CR {
        StatusOut { err: Option::Some(HootError::NewLine), ..incomplete }
    } else {
        let c = s.take(lf - 1);
        if c.len() < 12 {
            StatusOut { err: Option::Some(HootError::Status), ..incomplete }
        } else if !(c.take(8) == Version::Http10.spec_bytes() || c.take(8)
            == Version::Http11.spec_bytes()) {
            StatusOut { err: Option::Some(HootError::Status), ..incomplete }
        } else if c[8] != (' ' as u8) {
            StatusOut { err: Option::Some(HootError::Status), ..incomplete }
        } else if !(is_digit(c[9]) && is_digit(c[10]) && is_digit(c[11])) {
            StatusOut { err: Option::Some(HootError::Status), ..incomplete }
        } else if c.len() > 12 && c[12] != (' ' as u8) {
            StatusOut { err: Option::Some(HootError::Status), ..incomplete }
        } else {
            StatusOut {
                err: Option::None,
                complete: true,
                consumed: lf + 1,
                version: if c.take(8) == Version::Http10.spec_bytes() {
                    Version::Http10
                } else {
                    Version::Http11
                },
                status: (c[9] - ('0' as u8)) * 100 + (c[10] - ('0' as u8)) * 10 + (c[11] - ('0'
                    as u8)),
                reason: if c.len() > 12 {
                    c.subrange(13, c.len() as int)
                } else {
                    Seq::<u8>::empty()
                },
            }
        }
    }
}

/// A header value with leading spaces and horizontal tabs removed.
pub open spec fn spec_trim_leading(s: Seq<u8>) -> Seq<u8>
    decreases s.len(),
{
    if s.len() > 0 && (s[0] == (' ' as u8) || s[0] == 9) {
        spec_trim_leading(s.skip(1))
    } else {
        s
    }
}

/// What parsing the header block of `s` from position `i` on yields, with
/// `count` headers already taken.
pub ghost struct HeadersOut {
    /// The parse failure, if any.
    pub err: Option<HootError>,
    /// Whether the empty line closing the block was reached.
    pub complete: bool,
    /// The position just past the closing empty line.
    pub consumed: int,
    /// The parsed name/value pairs, in order.
    pub headers: Seq<(Seq<u8>, Seq<u8>)>,
}

/// Parsing header lines `name : value CRLF` from position `i` until the
/// empty `CRLF` line. Lines not ending in CRLF are `NewLine` failures; a
/// line without a colon or with a bad name is a `HeaderName` failure, a bad
/// value a `HeaderValue` failure; more than [`MAX_HEADERS`] headers is a
/// `TooManyHeaders` failure.
pub open spec fn spec_parse_headers(s: Seq<u8>, i: int, count: int) -> HeadersOut
    decreases s.len() - i,
    when 0 <= i <= s.len()
    via spec_parse_headers_dec
{
    let lf = find_from(s, LF, i, s.len() as int);
    let incomplete = HeadersOut {
        err: Option::None,
        complete: false,
        consumed: 0,
        headers: Seq::<(Seq<u8>, Seq<u8>)>::empty(),
    };
    if lf == s.len() {
        incomplete
    } else if lf == i || s[lf - 1] != CR {
        HeadersOut { err: Option::Some(HootError::NewLine), ..incomplete }
    } else if lf == i + 1 {
        HeadersOut { err: Option::None, complete: true, consumed: lf + 1, headers: Seq::<(
            Seq<u8>,
            Seq<u8>,
        )>::empty() }
    } else {
        let colon = find_from(s, (':' as u8), i, lf - 1);
        if colon == lf - 1 {
            HeadersOut { err: Option::Some(HootError::HeaderName), ..incomplete }
        } else {
            let name = s.subrange(i, colon);
            let value = spec_trim_leading(s.subrange(colon + 1, lf - 1));
            if !valid_header_name(name) {
                HeadersOut { err: Option::Some(HootError::HeaderName), ..incomplete }
            } else if !valid_header_value(value) {
                HeadersOut { err: Option::Some(HootError::HeaderValue), ..incomplete }
            } else if count >= MAX_HEADERS {
                HeadersOut { err: Option::Some(HootError::TooManyHeaders), ..incomplete }
            } else {
                let rest = spec_parse_headers(s, lf + 1, count + 1);
                HeadersOut {
                    err: rest.err,
                    complete: rest.complete,
                    consumed: rest.consumed,
                    headers: seq![(name, value)] + rest.headers,
                }
            }
        }
    }
}

#[via_fn]
proof fn spec_parse_headers_dec(s: Seq<u8>, i: int, count: int) {
    lemma_find_from_bounds(s, LF, i, s.len() as int);
}

/// The name/value pairs of a header list.
pub open spec fn pairs_of(hs: Seq<Header>) -> Seq<(Seq<u8>, Seq<u8>)> {
    hs.map_values(|h: Header| (h.name@, h.value@))
}

/// What parsing a whole response head from the front of `s` yields: the
/// status line, then the header block up to and including the empty line.
pub ghost struct RespOut {
    /// The parse failure, if any.
    pub err: Option<HootError>,
    /// Whether the whole head was present.
    pub complete: bool,
    /// How many bytes the head took.
    pub consumed: int,
    /// The response HTTP version.
    pub version: Version,
    /// The status code.
    pub status: int,
    /// The reason phrase.
    pub reason: Seq<u8>,
    /// The response headers, in order.
    pub headers: Seq<(Seq<u8>, Seq<u8>)>,
}

/// Parsing the whole response head from the front of `s`.
pub open spec fn spec_parse_response(s: Seq<u8>) -> RespOut {
    let st = spec_parse_status(s);
    let nothing = RespOut {
        err: st.err,
        complete: false,
        consumed: 0,
        version: st.version,
        status: st.status,
        reason: st.reason,
        headers: Seq::<(Seq<u8>, Seq<u8>)>::empty(),
    };
    if st.err is Some || !st.complete {
        nothing
    } else {
        let hd = spec_parse_headers(s, st.consumed, 0);
        RespOut {
            err: hd.err,
            complete: hd.complete,
            consumed: hd.consumed,
            version: st.version,
            status: st.status,
            reason: st.reason,
            headers: hd.headers,
        }
    }
}

/// Finds the first occurrence of `b` in `src[i..end]`, or returns `end`.
pub(crate) fn find_byte(src: &Vec<u8>, b: u8, i: usize, end: usize) -> (r: usize)
    requires
        i <= end <= src@.len(),
    ensures
        r as int == find_from(src@, b, i as int, end as int),
        i <= r <= end,
{
    let mut j: usize = i;
    while j < end && src[j] != b
        invariant
            i <= j <= end <= src@.len(),
            find_from(src@, b, i as int, end as int) == find_from(src@, b, j as int, end as int),
        decreases end - j,
    {
        j += 1;
    }
    j
}

/// A header-block parse with the given pairs already taken.
pub open spec fn hd_prepend(pre: Seq<(Seq<u8>, Seq<u8>)>, o: HeadersOut) -> HeadersOut {
    HeadersOut { err: o.err, complete: o.complete, consumed: o.consumed, headers: pre + o.headers }
}

impl Call<RecvResponse> {
    /// Tries to parse the response head from the bytes gathered from the
    /// transport so far. Until a complete head — status line, headers and
    /// the closing empty line — is present, nothing is consumed and more
    /// input is asked for by returning no response. On completion the parse
    /// reports how many bytes of `src` the head took; the rest belongs to
    /// the body. The exact outcome, failures included, is
    /// [`spec_parse_response`] of the input.
    pub fn try_response(&self, src: &Vec<u8>) -> (r: Result<(usize, Option<Response>)>)
        ensures
            ({
                let out = spec_parse_response(src@);
                match r {
                    Ok((used, opt)) => match opt {
                        Option::Some(resp) => {
                            &&& out.err is None && out.complete
                            &&& used as int == out.consumed
                            &&& used <= src@.len()
                            &&& resp.version == out.version
                            &&& resp.status as int == out.status
                            &&& resp.reason@ == out.reason
                            &&& pairs_of(resp.headers@) == out.headers
                        },
                        Option::None => out.err is None && !out.complete && used == 0,
                    },
                    Err(e) => out.err == Option::Some(e),
                }
            }),
    {
        let lf = find_byte(src, LF, 0, src.len());
        if lf == src.len() {
            return Ok((0, Option::None));
        }
        if lf < 1 || src[lf - 1] != CR {
            return Err(HootError::NewLine);
        }
        let clen = lf - 1;
        proof {
            assert(src@.take(lf as int - 1).len() == clen as int);
        }
        if clen < 12 {
            return Err(HootError::Status);
        }
        let ghost c = src@.take(lf as int - 1);
        proof {
            assert forall|j: int| 0 <= j < clen as int implies c[j] == src@[j] by {}
        }
        let v10 = src[0] == ('H' as u8) && src[1] == ('T' as u8) && src[2] == ('T' as u8)
            && src[3] == ('P' as u8) && src[4] == ('/' as u8) && src[5] == ('1' as u8) && src[6]
            == ('.' as u8) && src[7] == ('0' as u8);
        let v11 = src[0] == ('H' as u8) && src[1] == ('T' as u8) && src[2] == ('T' as u8)
            && src[3] == ('P' as u8) && src[4] == ('/' as u8) && src[5] == ('1' as u8) && src[6]
            == ('.' as u8) && src[7] == ('1' as u8);
        proof {
            assert(v10 <==> c.take(8) == Version::Http10.spec_bytes()) by {
                if v10 {
                    assert(c.take(8) =~= Version::Http10.spec_bytes());
                }
                if c.take(8) == Version::Http10.spec_bytes() {
                    assert forall|j: int| 0 <= j < 8 implies c[j]
                        == Version::Http10.spec_bytes()[j] by {
                        assert(c.take(8)[j] == c[j]);
                    }
                }
            }
            assert(v11 <==> c.take(8) == Version::Http11.spec_bytes()) by {
                if v11 {
                    assert(c.take(8) =~= Version::Http11.spec_bytes());
                }
                if c.take(8) == Version::Http11.spec_bytes() {
                    assert forall|j: int| 0 <= j < 8 implies c[j]
                        == Version::Http11.spec_bytes()[j] by {
                        assert(c.take(8)[j] == c[j]);
                    }
                }
            }
        }
        if !(v10 || v11) {
            return Err(HootError::Status);
        }
        if src[8] != (' ' as u8) {
            return Err(HootError::Status);
        }
        let d1 = src[9];
        let d2 = src[10];
        let d3 = src[11];
        if !(('0' as u8) <= d1 && d1 <= ('9' as u8) && ('0' as u8) <= d2 && d2 <= ('9' as u8) && (
        '0' as u8) <= d3 && d3 <= ('9' as u8)) {
            return Err(HootError::Status);
        }
        if clen > 12 && src[12] != (' ' as u8) {
            return Err(HootError::Status);
        }
        let version = if v10 {
            Version::Http10
        } else {
            Version::Http11
        };
        let code: u16 = (d1 - ('0' as u8)) as u16 * 100 + (d2 - ('0' as u8)) as u16 * 10 + (d3 - (
        '0' as u8)) as u16;
        let reason = if clen > 12 {
            copy_range(src.as_slice(), 13, clen)
        } else {
            Vec::new()
        };
        proof {
            let st = spec_parse_status(src@);
            assert(st.complete && st.err is None);
            assert(st.consumed == lf as int + 1);
            assert(version == st.version);
            assert(code as int == st.status);
            if clen > 12 {
                assert(reason@ =~= st.reason);
            } else {
                assert(reason@ =~= st.reason);
            }
        }

        // The header block, line by line, until the closing empty line.
        let mut i: usize = lf + 1;
        let mut headers: Vec<Header> = Vec::new();
        loop
            invariant
                lf as int + 1 <= i <= src@.len(),
                lf as int == find_from(src@, LF, 0, src@.len() as int),
                headers@.len() <= MAX_HEADERS,
                spec_parse_status(src@).complete && spec_parse_status(src@).err is None,
                spec_parse_status(src@).consumed == lf as int + 1,
                version == spec_parse_status(src@).version,
                code as int == spec_parse_status(src@).status,
                reason@ == spec_parse_status(src@).reason,
                spec_parse_headers(src@, lf as int + 1, 0) == hd_prepend(
                    pairs_of(headers@),
                    spec_parse_headers(src@, i as int, headers@.len() as int),
                ),
            decreases src@.len() - i,
        {
            let ghost pre_pairs = pairs_of(headers@);
            let ghost count = headers@.len() as int;
            let lf2 = find_byte(src, LF, i, src.len());
            if lf2 == src.len() {
                return Ok((0, Option::None));
            }
            if lf2 == i || src[lf2 - 1] != CR {
                return Err(HootError::NewLine);
            }
            if lf2 == i + 1 {
                // The empty line: the head is complete.
                proof {
                    assert(pre_pairs + Seq::<(Seq<u8>, Seq<u8>)>::empty() =~= pre_pairs);
                }
                let resp = Response { version, status: code, reason, headers };
                return Ok((lf2 + 1, Option::Some(resp)));
            }
            let colon = find_byte(src, ':' as u8, i, lf2 - 1);
            if colon == lf2 - 1 {
                return Err(HootError::HeaderName);
            }
            let name = copy_range(src.as_slice(), i, colon);
            let mut vs: usize = colon + 1;
            while vs < lf2 - 1 && (src[vs] == (' ' as u8) || src[vs] == 9)
                invariant
                    colon as int + 1 <= vs as int <= lf2 as int - 1,
                    lf2 as int - 1 <= src@.len(),
                    spec_trim_leading(src@.subrange(colon as int + 1, lf2 as int - 1))
                        == spec_trim_leading(src@.subrange(vs as int, lf2 as int - 1)),
                decreases lf2 - 1 - vs,
            {
                proof {
                    assert(src@.subrange(vs as int, lf2 as int - 1).skip(1) =~= src@.subrange(
                        vs as int + 1,
                        lf2 as int - 1,
                    ));
                }
                vs += 1;
            }
            let value = copy_range(src.as_slice(), vs, lf2 - 1);
            proof {
                assert(spec_trim_leading(src@.subrange(vs as int, lf2 as int - 1))
                    == src@.subrange(vs as int, lf2 as int - 1));
            }
            match validate_header(name.as_slice(), value.as_slice()) {
                Ok(u) => (),
                Err(e) => {
                    return Err(e);
                },
            }
            if headers.len() >= MAX_HEADERS {
                return Err(HootError::TooManyHeaders);
            }
            let ghost n_seq = name@;
            let ghost v_seq = value@;
            headers.push(Header { name, value });
            proof {
                assert(pairs_of(headers@) =~= pre_pairs + seq![(n_seq, v_seq)]);
                let rest = spec_parse_headers(src@, lf2 as int + 1, count + 1);
                assert(spec_parse_headers(src@, i as int, count) == HeadersOut {
                    err: rest.err,
                    complete: rest.complete,
                    consumed: rest.consumed,
                    headers: seq![(n_seq, v_seq)] + rest.headers,
                });
                assert(pre_pairs + (seq![(n_seq, v_seq)] + rest.headers) =~= (pre_pairs + seq![
                    (n_seq, v_seq),
                ]) + rest.headers);
            }
            i = lf2 + 1;
        }
    }
}

/// How the response body is framed, per the response rules: a response to
/// HEAD and the bodiless statuses have no body regardless of headers;
/// `transfer-encoding: chunked` wins over `content-length`; with neither the
/// body runs to the end of the connection.
#[derive(Clone, Copy, PartialEq, Eq, Structural, Debug)]
pub enum RecvMode {
    /// The response has no body at all.
    Empty,
    /// A body of exactly this many bytes.
    Length(u64),
    /// A chunk-encoded body.
    Chunked,
    /// The body runs until the peer closes the connection.
    CloseDelimited,
}

/// The state of the chunked-body decoder, between two bytes of input.
#[derive(Clone, Copy, PartialEq, Eq, Structural, Debug)]
pub enum DecState {
    /// Reading the hex digits of a chunk size; `any` says whether one was
    /// seen yet.
    Size { val: u64, any: bool },
    /// After the CR that ends a chunk-size line, expecting LF.
    SizeLf { val: u64 },
    /// Inside chunk data, `left` bytes of it still to come.
    Data { left: u64 },
    /// After chunk data, expecting CR.
    DataCr,
    /// After chunk data and CR, expecting LF.
    DataLf,
    /// After the `0` size line, expecting the CR of the final empty line.
    LastCr,
    /// Expecting the LF that ends the final empty line.
    LastLf,
    /// The terminator is fully read; the body is complete.
    Done,
}

/// The response-body reading state carried by a call.
#[derive(Clone, Copy, PartialEq, Eq, Structural, Debug)]
pub struct RecvState {
    /// How the body is framed.
    pub mode: RecvMode,
    /// Body bytes decoded so far, under `Length` framing.
    pub read: u64,
    /// Whether the body is complete.
    pub done: bool,
    /// The chunked-decoder state.
    pub dec: DecState,
}

/// The reading state before any body byte was seen.
pub fn fresh_recv() -> (r: RecvState)
    ensures
        r.mode == RecvMode::CloseDelimited,
        r.read == 0,
        !r.done,
        r.dec == (DecState::Size { val: 0, any: false }),
{
    RecvState { mode: RecvMode::CloseDelimited, read: 0, done: false, dec: DecState::Size {
        val: 0,
        any: false,
    } }
}

/// Whether `b` is a hexadecimal digit byte.
pub open spec fn is_hex_digit(b: u8) -> bool {
    is_digit(b) || (('a' as u8) <= b <= ('f' as u8)) || (('A' as u8) <= b <= ('F' as u8))
}

/// The value of a hexadecimal digit byte.
pub open spec fn hex_digit_val(b: u8) -> u8 {
    if is_digit(b) {
        (b - ('0' as u8)) as u8
    } else if ('a' as u8) <= b <= ('f' as u8) {
        (b - ('a' as u8) + 10) as u8
    } else {
        (b - ('A' as u8) + 10) as u8
    }
}

/// The largest chunk size that can still take one more hex digit.
pub const MAX_CHUNK_STEP: u64 = 1152921504606846975;

/// One byte of input to the chunked decoder: the state it moves to, whether
/// the byte is body data to hand out, and whether the byte is a framing
/// error.
pub ghost struct DecStep {
    pub next: DecState,
    pub emit: bool,
    pub error: bool,
}

/// The chunked-decoder automaton: `HEX CRLF data CRLF` repeated, closed by
/// `0 CRLF CRLF`. A size too large for a `u64`, a missing size digit, a bad
/// line ending and anything after the terminator are framing errors.
pub open spec fn spec_dec_step(st: DecState, b: u8) -> DecStep {
    let fail = DecStep { next: st, emit: false, error: true };
    match st {
        DecState::Size { val, any } => {
            if is_hex_digit(b) {
                if val <= MAX_CHUNK_STEP {
                    DecStep {
                        next: DecState::Size {
                            val: (val * 16 + hex_digit_val(b)) as u64,
                            any: true,
                        },
                        emit: false,
                        error: false,
                    }
                } else {
                    fail
                }
            } else if b == CR && any {
                DecStep { next: DecState::SizeLf { val }, emit: false, error: false }
            } else {
                fail
            }
        },
        DecState::SizeLf { val } => {
            if b == LF {
                DecStep {
                    next: if val == 0 {
                        DecState::LastCr
                    } else {
                        DecState::Data { left: val }
                    },
                    emit: false,
                    error: false,
                }
            } else {
                fail
            }
        },
        DecState::Data { left } => DecStep {
            next: if left <= 1 {
                DecState::DataCr
            } else {
                DecState::Data { left: (left - 1) as u64 }
            },
            emit: true,
            error: false,
        },
        DecState::DataCr => {
            if b == CR {
                DecStep { next: DecState::DataLf, emit: false, error: false }
            } else {
                fail
            }
        },
        DecState::DataLf => {
            if b == LF {
                DecStep { next: DecState::Size { val: 0, any: false }, emit: false, error: false }
            } else {
                fail
            }
        },
        DecState::LastCr => {
            if b == CR {
                DecStep { next: DecState::LastLf, emit: false, error: false }
            } else {
                fail
            }
        },
        DecState::LastLf => {
            if b == LF {
                DecStep { next: DecState::Done, emit: false, error: false }
            } else {
                fail
            }
        },
        DecState::Done => fail,
    }
}

/// What running the decoder over `s` from state `st` yields: the state it
/// ends in, the body bytes it hands out, and whether a framing error was
/// hit. On an error the run stops where it stood.
pub ghost struct DecRun {
    pub state: DecState,
    pub out: Seq<u8>,
    pub ok: bool,
}

/// Running the chunked decoder over a byte sequence.
pub open spec fn spec_dec_run(st: DecState, s: Seq<u8>) -> DecRun
    decreases s.len(),
{
    if s.len() == 0 {
        DecRun { state: st, out: Seq::<u8>::empty(), ok: true }
    } else {
        let stp = spec_dec_step(st, s[0]);
        if stp.error {
            DecRun { state: st, out: Seq::<u8>::empty(), ok: false }
        } else {
            let rest = spec_dec_run(stp.next, s.skip(1));
            DecRun {
                state: rest.state,
                out: (if stp.emit {
                    seq![s[0]]
                } else {
                    Seq::<u8>::empty()
                }) + rest.out,
                ok: rest.ok,
            }
        }
    }
}

/// Runs compose: running over `a + b` is running over `a`, then over `b`
/// from where `a` left off; an error in `a` ends the whole run there.
pub proof fn lemma_dec_run_append(st: DecState, a: Seq<u8>, b: Seq<u8>)
    ensures
        ({
            let ra = spec_dec_run(st, a);
            let rb = spec_dec_run(ra.state, b);
            if ra.ok {
                spec_dec_run(st, a + b) == DecRun {
                    state: rb.state,
                    out: ra.out + rb.out,
                    ok: rb.ok,
                }
            } else {
                spec_dec_run(st, a + b) == DecRun { state: ra.state, out: ra.out, ok: false }
            }
        }),
    decreases a.len(),
{
    if a.len() == 0 {
        assert(a + b =~= b);
        let rb = spec_dec_run(st, b);
        assert(Seq::<u8>::empty() + rb.out =~= rb.out);
    } else {
        assert((a + b)[0] == a[0]);
        assert((a + b).skip(1) =~= a.skip(1) + b);
        let stp = spec_dec_step(st, a[0]);
        if stp.error {
            assert(spec_dec_run(st, a + b) == DecRun {
                state: st,
                out: Seq::<u8>::empty(),
                ok: false,
            });
        } else {
            lemma_dec_run_append(stp.next, a.skip(1), b);
            let ra1 = spec_dec_run(stp.next, a.skip(1));
            let e = (if stp.emit {
                seq![a[0]]
            } else {
                Seq::<u8>::empty()
            });
            if ra1.ok {
                let rb = spec_dec_run(ra1.state, b);
                assert(e + (ra1.out + rb.out) =~= (e + ra1.out) + rb.out);
            } else {
                assert(spec_dec_run(st, a).out =~= e + ra1.out);
            }
        }
    }
}

/// The decoder state invariant: inside chunk data there is always at least
/// one byte still to come.
pub open spec fn dec_state_wf(d: DecState) -> bool {
    match d {
        DecState::Data { left } => left >= 1,
        _ => true,
    }
}

/// One step preserves the state invariant.
pub proof fn lemma_dec_step_wf(st: DecState, b: u8)
    requires
        dec_state_wf(st),
        !spec_dec_step(st, b).error,
    ensures
        dec_state_wf(spec_dec_step(st, b).next),
{
}

/// The body-reading state invariant.
pub open spec fn recv_wf(rs: RecvState) -> bool {
    match rs.mode {
        RecvMode::Empty => rs.done,
        RecvMode::Length(n) => rs.read <= n && (rs.done == (rs.read == n)),
        RecvMode::Chunked => (rs.done == (rs.dec is Done)) && dec_state_wf(rs.dec),
        RecvMode::CloseDelimited => true,
    }
}

/// The framing of a response body, as a function of the request method and
/// the parsed response.
pub open spec fn spec_recv_mode(method: Method, resp: Response) -> Result<RecvMode> {
    if method is HEAD || (100 <= resp.status < 200) || resp.status == 204 || resp.status == 304 {
        Ok(RecvMode::Empty)
    } else {
        let te = crate::request::spec_find_header(
            resp.headers@,
            crate::header::transfer_encoding_name(),
        );
        let te_chunked = match te {
            Option::Some(v) => crate::ascii::lower_seq(v) == crate::header::chunked_value(),
            Option::None => false,
        };
        if te_chunked {
            Ok(RecvMode::Chunked)
        } else {
            match crate::request::spec_find_header(
                resp.headers@,
                crate::header::content_length_name(),
            ) {
                Option::Some(v) => {
                    if crate::ascii::all_digits(v) && crate::ascii::dec_val(v) <= u64::MAX {
                        Ok(RecvMode::Length(crate::ascii::dec_val(v) as u64))
                    } else {
                        Err(HootError::HeaderValue)
                    }
                },
                Option::None => Ok(RecvMode::CloseDelimited),
            }
        }
    }
}

impl Call<RecvResponse> {
    /// Enters the body phase, deciding the body framing from the parsed
    /// response: HEAD and the bodiless statuses have no body, chunked
    /// transfer wins over a declared length, an unreadable `content-length`
    /// is refused, and with no framing header the body runs to the close of
    /// the connection.
    pub fn recv_body(self, resp: &Response) -> (r: Result<Call<RecvBody>>)
        ensures
            r is Ok <==> spec_recv_mode(self.inner.method, *resp) is Ok,
            r matches Err(e) ==> spec_recv_mode(self.inner.method, *resp) matches Err(e2) && e
                == e2,
            r matches Ok(c) ==> ({
                &&& spec_recv_mode(self.inner.method, *resp) matches Ok(m) && c.inner.recv.mode
                    == m
                &&& recv_wf(c.inner.recv)
                &&& c.inner.recv.read == 0
                &&& c.inner.recv.done == (c.inner.recv.mode is Empty || c.inner.recv.mode
                    == RecvMode::Length(0))
                &&& c.inner.recv.dec == (DecState::Size { val: 0, any: false })
                &&& c.inner.method == self.inner.method
            }),
    {
        let head_like = match self.inner.method {
            Method::HEAD => true,
            _ => false,
        };
        let bodiless = head_like || (100 <= resp.status && resp.status < 200) || resp.status
            == 204 || resp.status == 304;
        let mode: RecvMode = if bodiless {
            RecvMode::Empty
        } else {
            let te_name = crate::header::transfer_encoding_bytes();
            let cl_name = crate::header::content_length_bytes();
            proof {
                assert(crate::ascii::lower_seq(crate::header::transfer_encoding_name())
                    =~= crate::header::transfer_encoding_name());
                assert(crate::ascii::lower_seq(crate::header::content_length_name())
                    =~= crate::header::content_length_name());
            }
            let te = crate::request::find_header(&resp.headers, te_name.as_slice());
            let te_chunked = match te {
                Option::Some(v) => {
                    let chunked = crate::header::chunked_bytes();
                    proof {
                        assert(crate::ascii::lower_seq(crate::header::chunked_value())
                            =~= crate::header::chunked_value());
                    }
                    crate::ascii::eq_ignore_case(v.as_slice(), chunked.as_slice())
                },
                Option::None => false,
            };
            if te_chunked {
                RecvMode::Chunked
            } else {
                match crate::request::find_header(&resp.headers, cl_name.as_slice()) {
                    Option::Some(v) => {
                        match crate::ascii::parse_dec(v.as_slice()) {
                            Option::Some(n) => RecvMode::Length(n),
                            Option::None => {
                                return Err(HootError::HeaderValue);
                            },
                        }
                    },
                    Option::None => RecvMode::CloseDelimited,
                }
            }
        };
        let done = match mode {
            RecvMode::Empty => true,
            RecvMode::Length(n) => n == 0,
            _ => false,
        };
        let recv = RecvState { mode, read: 0, done, dec: DecState::Size { val: 0, any: false } };
        Ok(Call { state: RecvBody(()), inner: CallState { recv, ..self.inner } })
    }
}

impl Call<RecvResponse> {
    /// The strict version check: a response must answer in the HTTP version
    /// the request declared. The default parse permits either version; a
    /// caller that wants strictness runs this on the parsed response.
    pub fn check_version(&self, resp: &Response) -> (r: Result<()>)
        ensures
            r is Ok <==> resp.version == self.inner.version,
            r matches Err(e) ==> e == HootError::HttpVersionMismatch,
    {
        let same = match (resp.version, self.inner.version) {
            (Version::Http10, Version::Http10) => true,
            (Version::Http11, Version::Http11) => true,
            _ => false,
        };
        if same {
            Ok(())
        } else {
            Err(HootError::HttpVersionMismatch)
        }
    }
}

/// One piece of a decoded response body: how much of the input was used,
/// the body bytes decoded from it, and whether the body is now complete.
#[derive(Debug)]
pub struct BodyPart {
    pub input_used: usize,
    pub data: Vec<u8>,
    pub finished: bool,
}

impl Call<RecvBody> {
    /// Decodes the next piece of the response body from `src`, handing out
    /// at most `cap` body bytes. Returns how much of `src` was used, the
    /// decoded bytes, and whether the body is complete.
    ///
    /// Under `Length` framing bytes pass through verbatim up to the declared
    /// length; in close-delimited mode they pass through until an empty
    /// `src` signals the end of the connection; under `Chunked` framing the
    /// input is fed to the decoder automaton [`spec_dec_step`], and a
    /// framing error is reported as `NewLine` with nothing consumed.
    pub fn read_body(&mut self, src: &Vec<u8>, cap: usize) -> (r: Result<BodyPart>)
        requires
            recv_wf(old(self).inner.recv),
        ensures
            recv_wf(final(self).inner.recv),
            final(self).inner.recv.mode == old(self).inner.recv.mode,
            final(self).inner == (CallState { recv: final(self).inner.recv, ..old(self).inner }),
            match r {
                Ok(part) => {
                    &&& part.input_used <= src@.len()
                    &&& part.data@.len() <= cap
                    &&& part.finished == final(self).inner.recv.done
                    &&& match old(self).inner.recv.mode {
                        RecvMode::Empty => part.input_used == 0 && part.data@
                            == Seq::<u8>::empty() && part.finished,
                        RecvMode::Length(n) => {
                            let k = vstd::math::min(
                                vstd::math::min(src@.len() as int, n - old(self).inner.recv.read),
                                cap as int,
                            );
                            &&& part.input_used as int == k
                            &&& part.data@ == src@.take(k)
                            &&& final(self).inner.recv.read == old(self).inner.recv.read + k
                        },
                        RecvMode::CloseDelimited => {
                            let k = vstd::math::min(src@.len() as int, cap as int);
                            &&& part.input_used as int == k
                            &&& part.data@ == src@.take(k)
                            &&& part.finished == (src@.len() == 0)
                        },
                        RecvMode::Chunked => ({
                            let run = spec_dec_run(
                                old(self).inner.recv.dec,
                                src@.take(part.input_used as int),
                            );
                            &&& run.ok
                            &&& part.data@ == run.out
                            &&& final(self).inner.recv.dec == run.state
                            &&& (part.input_used < src@.len() ==> (run.state is Done
                                || part.data@.len() == cap))
                        }),
                    }
                },
                Err(e) => {
                    &&& e == HootError::NewLine
                    &&& old(self).inner.recv.mode is Chunked
                    &&& !spec_dec_run(old(self).inner.recv.dec, src@).ok
                    &&& *final(self) == *old(self)
                },
            },
    {
        let mode = self.inner.recv.mode;
        match mode {
            RecvMode::Empty => {
                Ok(BodyPart { input_used: 0, data: Vec::new(), finished: true })
            },
            RecvMode::Length(n) => {
                let rem64: u64 = n - self.inner.recv.read;
                let k1: usize = if (src.len() as u64) <= rem64 {
                    src.len()
                } else {
                    rem64 as usize
                };
                let k: usize = if k1 <= cap {
                    k1
                } else {
                    cap
                };
                let data = copy_range(src.as_slice(), 0, k);
                self.inner.recv.read = self.inner.recv.read + k as u64;
                self.inner.recv.done = self.inner.recv.read == n;
                proof {
                    assert(data@ =~= src@.take(k as int));
                }
                Ok(BodyPart { input_used: k, data, finished: self.inner.recv.done })
            },
            RecvMode::CloseDelimited => {
                let k: usize = if src.len() <= cap {
                    src.len()
                } else {
                    cap
                };
                let data = copy_range(src.as_slice(), 0, k);
                let finished = src.len() == 0;
                self.inner.recv.done = finished;
                proof {
                    assert(data@ =~= src@.take(k as int));
                }
                Ok(BodyPart { input_used: k, data, finished })
            },
            RecvMode::Chunked => {
                let ghost dec0 = self.inner.recv.dec;
                let mut st = self.inner.recv.dec;
                let mut i: usize = 0;
                let mut out: Vec<u8> = Vec::new();
                loop
                    invariant
                        i <= src@.len(),
                        out@.len() <= cap,
                        dec_state_wf(st),
                        spec_dec_run(dec0, src@.take(i as int)) == (DecRun {
                            state: st,
                            out: out@,
                            ok: true,
                        }),
                        dec0 == old(self).inner.recv.dec,
                        *self == *old(self),
                        recv_wf(old(self).inner.recv),
                        old(self).inner.recv.mode is Chunked,
                    ensures
                        i <= src@.len(),
                        out@.len() <= cap,
                        dec_state_wf(st),
                        spec_dec_run(dec0, src@.take(i as int)) == (DecRun {
                            state: st,
                            out: out@,
                            ok: true,
                        }),
                        *self == *old(self),
                        i == src@.len() || st is Done || out@.len() == cap,
                    decreases src@.len() - i,
                {
                    if i >= src.len() {
                        break;
                    }
                    let done_now = match st {
                        DecState::Done => true,
                        _ => false,
                    };
                    if done_now {
                        break;
                    }
                    let full = match st {
                        DecState::Data { left } => out.len() >= cap,
                        _ => false,
                    };
                    if full {
                        break;
                    }
                    let b = src[i];
                    let ghost st_before = st;
                    let mut error = false;
                    let mut emit = false;
                    match st {
                        DecState::Size { val, any } => {
                            let hexv: u8 = if ('0' as u8) <= b && b <= ('9' as u8) {
                                b - ('0' as u8)
                            } else if ('a' as u8) <= b && b <= ('f' as u8) {
                                b - ('a' as u8) + 10
                            } else if ('A' as u8) <= b && b <= ('F' as u8) {
                                b - ('A' as u8) + 10
                            } else {
                                255
                            };
                            if hexv < 16 {
                                if val <= MAX_CHUNK_STEP {
                                    st = DecState::Size { val: val * 16 + hexv as u64, any: true };
                                } else {
                                    error = true;
                                }
                            } else if b == CR && any {
                                st = DecState::SizeLf { val };
                            } else {
                                error = true;
                            }
                        },
                        DecState::SizeLf { val } => {
                            if b == LF {
                                st = if val == 0 {
                                    DecState::LastCr
                                } else {
                                    DecState::Data { left: val }
                                };
                            } else {
                                error = true;
                            }
                        },
                        DecState::Data { left } => {
                            st = if left <= 1 {
                                DecState::DataCr
                            } else {
                                DecState::Data { left: left - 1 }
                            };
                            emit = true;
                        },
                        DecState::DataCr => {
                            if b == CR {
                                st = DecState::DataLf;
                            } else {
                                error = true;
                            }
                        },
                        DecState::DataLf => {
                            if b == LF {
                                st = DecState::Size { val: 0, any: false };
                            } else {
                                error = true;
                            }
                        },
                        DecState::LastCr => {
                            if b == CR {
                                st = DecState::LastLf;
                            } else {
                                error = true;
                            }
                        },
                        DecState::LastLf => {
                            if b == LF {
                                st = DecState::Done;
                            } else {
                                error = true;
                            }
                        },
                        DecState::Done => {
                            error = true;
                        },
                    }
                    proof {
                        assert(src@.take(i as int + 1) =~= src@.take(i as int) + seq![
                            src@[i as int],
                        ]);
                        lemma_dec_run_append(dec0, src@.take(i as int), seq![src@[i as int]]);
                    }
                    if error {
                        proof {
                            assert(spec_dec_step(st_before, b).error);
                            assert(!spec_dec_run(st_before, seq![src@[i as int]]).ok);
                            assert(!spec_dec_run(dec0, src@.take(i as int + 1)).ok);
                            lemma_dec_run_append(
                                dec0,
                                src@.take(i as int + 1),
                                src@.skip(i as int + 1),
                            );
                            assert(src@.take(i as int + 1) + src@.skip(i as int + 1) =~= src@);
                        }
                        return Err(HootError::NewLine);
                    }
                    if emit {
                        out.push(b);
                    }
                    proof {
                        let stp = spec_dec_step(st_before, b);
                        assert(!stp.error);
                        assert(stp.next == st);
                        assert(stp.emit == emit);
                        lemma_dec_step_wf(st_before, b);
                        let e = (if emit {
                            seq![b]
                        } else {
                            Seq::<u8>::empty()
                        });
                        assert(seq![src@[i as int]].skip(1) =~= Seq::<u8>::empty());
                        assert(spec_dec_run(st, Seq::<u8>::empty()) == (DecRun {
                            state: st,
                            out: Seq::<u8>::empty(),
                            ok: true,
                        }));
                        assert(spec_dec_run(st_before, seq![src@[i as int]]).out =~= e);
                        assert(spec_dec_run(st_before, seq![src@[i as int]]) == (DecRun {
                            state: st,
                            out: e,
                            ok: true,
                        }));
                        assert(spec_dec_run(dec0, src@.take(i as int + 1)).out =~= spec_dec_run(
                            dec0,
                            src@.take(i as int),
                        ).out + e);
                        if emit {
                            assert(out@ =~= spec_dec_run(dec0, src@.take(i as int)).out + e);
                        } else {
                            assert(out@ =~= spec_dec_run(dec0, src@.take(i as int)).out + e);
                        }
                    }
                    i += 1;
                }
                let finished = match st {
                    DecState::Done => true,
                    _ => false,
                };
                self.inner.recv.dec = st;
                self.inner.recv.done = finished;
                Ok(BodyPart { input_used: i, data: out, finished })
            },
        }
    }
}

/// A hex digit byte decodes back to the value it spells.
proof fn lemma_hex_digit_roundtrip(d: u8)
    requires
        d < 16,
    ensures
        is_hex_digit(crate::ascii::hex_digit(d)),
        hex_digit_val(crate::ascii::hex_digit(d)) == d,
{
}

/// One byte of input to the decoder, spelled out.
proof fn lemma_run_one(st: DecState, b: u8)
    ensures
        ({
            let stp = spec_dec_step(st, b);
            if stp.error {
                spec_dec_run(st, seq![b]) == (DecRun {
                    state: st,
                    out: Seq::<u8>::empty(),
                    ok: false,
                })
            } else {
                spec_dec_run(st, seq![b]) == (DecRun {
                    state: stp.next,
                    out: if stp.emit {
                        seq![b]
                    } else {
                        Seq::<u8>::empty()
                    },
                    ok: true,
                })
            }
        }),
{
    assert(seq![b].len() == 1);
    assert(seq![b][0] == b);
    assert(seq![b].skip(1) =~= Seq::<u8>::empty());
    let stp = spec_dec_step(st, b);
    if !stp.error {
        let rest = spec_dec_run(stp.next, seq![b].skip(1));
        assert(rest == (DecRun {
            state: stp.next,
            out: Seq::<u8>::empty(),
            ok: true,
        }));
        if stp.emit {
            assert(seq![b] + Seq::<u8>::empty() =~= seq![b]);
        } else {
            assert(Seq::<u8>::empty() + Seq::<u8>::empty() =~= Seq::<u8>::empty());
        }
    }
}

/// Reading the hex notation of `n` accumulates exactly `n`.
proof fn lemma_run_hex(n: u64)
    ensures
        spec_dec_run(DecState::Size { val: 0, any: false }, crate::ascii::hex_rep(n as nat))
            == (DecRun {
            state: DecState::Size { val: n, any: true },
            out: Seq::<u8>::empty(),
            ok: true,
        }),
    decreases n,
{
    let st0 = DecState::Size { val: 0, any: false };
    if n < 16 {
        lemma_hex_digit_roundtrip(n as u8);
        lemma_run_one(st0, crate::ascii::hex_digit(n as u8));
        assert(crate::ascii::hex_rep(n as nat) =~= seq![crate::ascii::hex_digit(n as u8)]);
    } else {
        lemma_run_hex(n / 16);
        let d = crate::ascii::hex_digit((n % 16) as u8);
        lemma_hex_digit_roundtrip((n % 16) as u8);
        lemma_dec_run_append(st0, crate::ascii::hex_rep((n / 16) as nat), seq![d]);
        assert(n / 16 <= MAX_CHUNK_STEP) by (nonlinear_arith)
            requires
                n <= u64::MAX,
        ;
        lemma_run_one(DecState::Size { val: n / 16, any: true }, d);
        assert((n / 16) * 16 + (n % 16) == n) by (nonlinear_arith);
        assert(Seq::<u8>::empty() + Seq::<u8>::empty() =~= Seq::<u8>::empty());
    }
}

/// Chunk data passes through the decoder unchanged.
proof fn lemma_run_data(data: Seq<u8>)
    requires
        1 <= data.len() <= u64::MAX,
    ensures
        spec_dec_run(DecState::Data { left: data.len() as u64 }, data) == (DecRun {
            state: DecState::DataCr,
            out: data,
            ok: true,
        }),
    decreases data.len(),
{
    let st = DecState::Data { left: data.len() as u64 };
    if data.len() == 1 {
        lemma_run_one(st, data[0]);
        assert(data =~= seq![data[0]]);
    } else {
        assert(data =~= seq![data[0]] + data.skip(1));
        lemma_run_one(st, data[0]);
        lemma_run_data(data.skip(1));
        lemma_dec_run_append(st, seq![data[0]], data.skip(1));
        assert(seq![data[0]] + data.skip(1) =~= data);
    }
}

/// One whole chunk frame brings the decoder back to its starting state and
/// hands out exactly the chunk's data.
proof fn lemma_run_frame(data: Seq<u8>)
    requires
        1 <= data.len() <= u64::MAX,
    ensures
        spec_dec_run(DecState::Size { val: 0, any: false }, crate::client::chunk_frame(data))
            == (DecRun {
            state: DecState::Size { val: 0, any: false },
            out: data,
            ok: true,
        }),
{
    let st0 = DecState::Size { val: 0, any: false };
    let n = data.len() as u64;
    let hex = crate::ascii::hex_rep(data.len());
    let a1 = hex + seq![CR];
    let a2 = a1 + seq![LF];
    let a3 = a2 + data;
    let a4 = a3 + seq![CR];
    let a5 = a4 + seq![LF];
    assert(crate::client::chunk_frame(data) =~= a5);
    lemma_run_hex(n);
    lemma_run_one(DecState::Size { val: n, any: true }, CR);
    lemma_dec_run_append(st0, hex, seq![CR]);
    assert(Seq::<u8>::empty() + Seq::<u8>::empty() =~= Seq::<u8>::empty());
    lemma_run_one(DecState::SizeLf { val: n }, LF);
    lemma_dec_run_append(st0, a1, seq![LF]);
    lemma_run_data(data);
    lemma_dec_run_append(st0, a2, data);
    assert(Seq::<u8>::empty() + data =~= data);
    lemma_run_one(DecState::DataCr, CR);
    lemma_dec_run_append(st0, a3, seq![CR]);
    assert(data + Seq::<u8>::empty() =~= data);
    lemma_run_one(DecState::DataLf, LF);
    lemma_dec_run_append(st0, a4, seq![LF]);
}

/// The terminator closes the body: the decoder reaches `Done` with nothing
/// more to hand out.
proof fn lemma_run_terminator()
    ensures
        spec_dec_run(DecState::Size { val: 0, any: false }, crate::client::chunk_terminator())
            == (DecRun { state: DecState::Done, out: Seq::<u8>::empty(), ok: true }),
{
    let st0 = DecState::Size { val: 0, any: false };
    let a1 = seq![('0' as u8)];
    let a2 = a1 + seq![CR];
    let a3 = a2 + seq![LF];
    let a4 = a3 + seq![CR];
    let a5 = a4 + seq![LF];
    assert(crate::client::chunk_terminator() =~= a5);
    lemma_run_one(st0, '0' as u8);
    lemma_run_one(DecState::Size { val: 0, any: true }, CR);
    lemma_dec_run_append(st0, a1, seq![CR]);
    assert(Seq::<u8>::empty() + Seq::<u8>::empty() =~= Seq::<u8>::empty());
    lemma_run_one(DecState::SizeLf { val: 0 }, LF);
    lemma_dec_run_append(st0, a2, seq![LF]);
    lemma_run_one(DecState::LastCr, CR);
    lemma_dec_run_append(st0, a3, seq![CR]);
    lemma_run_one(DecState::LastLf, LF);
    lemma_dec_run_append(st0, a4, seq![LF]);
}

/// Decoding a whole sequence of frames hands out the concatenated data and
/// returns the decoder to its starting state.
proof fn lemma_run_frames(chunks: Seq<Seq<u8>>)
    requires
        crate::client::all_chunks_nonempty(chunks),
    ensures
        spec_dec_run(DecState::Size { val: 0, any: false }, crate::client::frames(chunks))
            == (DecRun {
            state: DecState::Size { val: 0, any: false },
            out: crate::client::concat_chunks(chunks),
            ok: true,
        }),
    decreases chunks.len(),
{
    let st0 = DecState::Size { val: 0, any: false };
    if chunks.len() == 0 {
        assert(crate::client::frames(chunks) =~= Seq::<u8>::empty());
        assert(crate::client::concat_chunks(chunks) =~= Seq::<u8>::empty());
    } else {
        lemma_run_frame(chunks[0]);
        lemma_run_frames(chunks.skip(1));
        lemma_dec_run_append(
            st0,
            crate::client::chunk_frame(chunks[0]),
            crate::client::frames(chunks.skip(1)),
        );
        assert(crate::client::frames(chunks) == crate::client::chunk_frame(chunks[0])
            + crate::client::frames(chunks.skip(1)));
        assert(crate::client::concat_chunks(chunks) =~= chunks[0]
            + crate::client::concat_chunks(chunks.skip(1)));
    }
}

/// Round trip of the chunked framing: the byte stream the chunked encoder
/// emits for a body — its frames followed by the terminator — runs through
/// the decoder automaton without error, hands back exactly the original
/// body bytes, and ends in the `Done` state.
pub proof fn lemma_chunked_round_trip(chunks: Seq<Seq<u8>>)
    requires
        crate::client::all_chunks_nonempty(chunks),
    ensures
        spec_dec_run(
            DecState::Size { val: 0, any: false },
            crate::client::frames(chunks) + crate::client::chunk_terminator(),
        ) == (DecRun {
            state: DecState::Done,
            out: crate::client::concat_chunks(chunks),
            ok: true,
        }),
{
    let st0 = DecState::Size { val: 0, any: false };
    lemma_run_frames(chunks);
    lemma_run_terminator();
    lemma_dec_run_append(
        st0,
        crate::client::frames(chunks),
        crate::client::chunk_terminator(),
    );
    assert(crate::client::concat_chunks(chunks) + Seq::<u8>::empty()
        =~= crate::client::concat_chunks(chunks));
}

/// Transcript round trip for a finished chunked call: what stands on the
/// wire after the prologue — exactly the encoder's frames and terminator —
/// decodes through this module's own body decoder to precisely the body
/// bytes the call consumed.
pub proof fn lemma_transcript_decodes(cs: CallState)
    requires
        cs.wf(),
        cs.finished,
        cs.framing is Chunked,
    ensures
        cs.emitted@.skip(cs.prologue@.len() as int) == crate::client::frames(cs.chunks@)
            + crate::client::chunk_terminator(),
        spec_dec_run(
            DecState::Size { val: 0, any: false },
            cs.emitted@.skip(cs.prologue@.len() as int),
        ) == (DecRun { state: DecState::Done, out: cs.body_in@, ok: true }),
{
    crate::client::lemma_transcript_complete(cs);
    assert(cs.emitted@.skip(cs.prologue@.len() as int) =~= crate::client::frames(cs.chunks@)
        + crate::client::chunk_terminator());
    lemma_chunked_round_trip(cs.chunks@);
}

} // verus!
