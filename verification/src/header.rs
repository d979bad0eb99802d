//! Header composition and validation.
//!
//! Every header the codec emits is composed as `name ": " value CRLF` and
//! validated byte by byte: the name must be made of token bytes, the value of
//! value bytes. The composed line is also handed to an outside HTTP parser as
//! a cross-check, as a belt over the braces. `content-length` and
//! `transfer-encoding` must not be supplied as free headers, since the
//! framing constructors own them.

use vstd::prelude::*;

use crate::ascii::{
    crlf, eq_ignore_case, is_name_byte, is_value_byte, lower_seq, name_byte, valid_header_name,
    valid_header_value, value_byte, CR, LF,
};
use crate::error::{HootError, Result};

verus! {

/// The wire form of one header: `name ": " value CRLF`.
pub open spec fn header_line(name: Seq<u8>, value: Seq<u8>) -> Seq<u8> {
    name + seq![(':' as u8), (' ' as u8)] + value + crlf()
}

/// The lower-case header name `host`.
pub open spec fn host_name() -> Seq<u8> {
    seq![('h' as u8), ('o' as u8), ('s' as u8), ('t' as u8)]
}

/// The lower-case header name `content-length`.
pub open spec fn content_length_name() -> Seq<u8> {
    seq![
        ('c' as u8),
        ('o' as u8),
        ('n' as u8),
        ('t' as u8),
        ('e' as u8),
        ('n' as u8),
        ('t' as u8),
        ('-' as u8),
        ('l' as u8),
        ('e' as u8),
        ('n' as u8),
        ('g' as u8),
        ('t' as u8),
        ('h' as u8),
    ]
}

/// The lower-case header name `transfer-encoding`.
pub open spec fn transfer_encoding_name() -> Seq<u8> {
    seq![
        ('t' as u8),
        ('r' as u8),
        ('a' as u8),
        ('n' as u8),
        ('s' as u8),
        ('f' as u8),
        ('e' as u8),
        ('r' as u8),
        ('-' as u8),
        ('e' as u8),
        ('n' as u8),
        ('c' as u8),
        ('o' as u8),
        ('d' as u8),
        ('i' as u8),
        ('n' as u8),
        ('g' as u8),
    ]
}

/// The lower-case transfer coding `chunked`.
pub open spec fn chunked_value() -> Seq<u8> {
    seq![
        ('c' as u8),
        ('h' as u8),
        ('u' as u8),
        ('n' as u8),
        ('k' as u8),
        ('e' as u8),
        ('d' as u8),
    ]
}

/// The bytes of `host`.
pub fn host_bytes() -> (r: Vec<u8>)
    ensures
        r@ == host_name(),
{
    let mut v: Vec<u8> = Vec::new();
    v.push('h' as u8);
    v.push('o' as u8);
    v.push('s' as u8);
    v.push('t' as u8);
    proof {
        assert(v@ =~= host_name());
    }
    v
}

/// The bytes of `content-length`.
pub fn content_length_bytes() -> (r: Vec<u8>)
    ensures
        r@ == content_length_name(),
{
    let mut v: Vec<u8> = Vec::new();
    v.push('c' as u8);
    v.push('o' as u8);
    v.push('n' as u8);
    v.push('t' as u8);
    v.push('e' as u8);
    v.push('n' as u8);
    v.push('t' as u8);
    v.push('-' as u8);
    v.push('l' as u8);
    v.push('e' as u8);
    v.push('n' as u8);
    v.push('g' as u8);
    v.push('t' as u8);
    v.push('h' as u8);
    proof {
        assert(v@ =~= content_length_name());
    }
    v
}

/// The bytes of `transfer-encoding`.
pub fn transfer_encoding_bytes() -> (r: Vec<u8>)
    ensures
        r@ == transfer_encoding_name(),
{
    let mut v: Vec<u8> = Vec::new();
    v.push('t' as u8);
    v.push('r' as u8);
    v.push('a' as u8);
    v.push('n' as u8);
    v.push('s' as u8);
    v.push('f' as u8);
    v.push('e' as u8);
    v.push('r' as u8);
    v.push('-' as u8);
    v.push('e' as u8);
    v.push('n' as u8);
    v.push('c' as u8);
    v.push('o' as u8);
    v.push('d' as u8);
    v.push('i' as u8);
    v.push('n' as u8);
    v.push('g' as u8);
    proof {
        assert(v@ =~= transfer_encoding_name());
    }
    v
}

/// The bytes of `chunked`.
pub fn chunked_bytes() -> (r: Vec<u8>)
    ensures
        r@ == chunked_value(),
{
    let mut v: Vec<u8> = Vec::new();
    v.push('c' as u8);
    v.push('h' as u8);
    v.push('u' as u8);
    v.push('n' as u8);
    v.push('k' as u8);
    v.push('e' as u8);
    v.push('d' as u8);
    proof {
        assert(v@ =~= chunked_value());
    }
    v
}

/// Whether the name is one the caller must not set directly: the framing
/// constructors own `content-length` and `transfer-encoding`.
pub open spec fn is_forbidden_body_header(name: Seq<u8>) -> bool {
    lower_seq(name) == content_length_name() || lower_seq(name) == transfer_encoding_name()
}

/// Rejects the headers that are set as part of making a call:
/// `content-length` and `transfer-encoding`, compared without regard to
/// ASCII case, must come from the framing constructors instead.
pub fn check_forbidden_headers(name: &[u8]) -> (r: Result<()>)
    ensures
        r matches Err(e) <==> is_forbidden_body_header(name@),
        r matches Err(e) ==> e == HootError::ForbiddenBodyHeader,
{
    let cl = content_length_bytes();
    let te = transfer_encoding_bytes();
    proof {
        assert(lower_seq(content_length_name()) =~= content_length_name());
        assert(lower_seq(transfer_encoding_name()) =~= transfer_encoding_name());
    }
    if eq_ignore_case(name, cl.as_slice()) {
        return Err(HootError::ForbiddenBodyHeader);
    }
    if eq_ignore_case(name, te.as_slice()) {
        return Err(HootError::ForbiddenBodyHeader);
    }
    Ok(())
}

/// Validates one header, name before value. Returns `HeaderName` exactly
/// when the name is empty or holds a byte outside the token set, and
/// `HeaderValue` exactly when the name is fine but the value holds a CR, LF,
/// NUL or another control byte.
pub fn validate_header(name: &[u8], value: &[u8]) -> (r: Result<()>)
    ensures
        r is Ok <==> valid_header_name(name@) && valid_header_value(value@),
        r matches Err(e) ==> (e == HootError::HeaderName <==> !valid_header_name(name@)),
        r matches Err(e) ==> (e == HootError::HeaderValue <==> valid_header_name(name@)
            && !valid_header_value(value@)),
{
    if name.len() == 0 {
        return Err(HootError::HeaderName);
    }
    let mut i: usize = 0;
    while i < name.len()
        invariant
            0 <= i <= name@.len(),
            forall|j: int| 0 <= j < i ==> is_name_byte(#[trigger] name@[j]),
        decreases name@.len() - i,
    {
        if !name_byte(name[i]) {
            return Err(HootError::HeaderName);
        }
        i += 1;
    }
    let mut k: usize = 0;
    while k < value.len()
        invariant
            0 <= k <= value@.len(),
            valid_header_name(name@),
            forall|j: int| 0 <= j < k ==> is_value_byte(#[trigger] value@[j]),
        decreases value@.len() - k,
    {
        if !value_byte(value[k]) {
            return Err(HootError::HeaderValue);
        }
        k += 1;
    }
    Ok(())
}

/// Relies on `httparse::parse_headers`: a single composed header line whose
/// name is made of token bytes and whose value is made of value bytes parses
/// without an error (the parser reports it needs more input, which is not an
/// error), so the cross-check of a line this codec composed cannot fail.
#[verifier::external_body]
fn httparse_accepts(buf: &Vec<u8>) -> (r: bool)
    ensures
        forall|n: Seq<u8>, v: Seq<u8>|
            buf@ == header_line(n, v) && valid_header_name(n) && valid_header_value(v) ==> r,
{
    let mut headers = [httparse::EMPTY_HEADER; 4];
    !httparse::parse_headers(buf.as_slice(), &mut headers).is_err()
}

/// Appends all of `src` to `dst`.
pub fn push_all(dst: &mut Vec<u8>, src: &[u8])
    ensures
        final(dst)@ == old(dst)@ + src@,
{
    let mut i: usize = 0;
    while i < src.len()
        invariant
            0 <= i <= src@.len(),
            dst@ == old(dst)@ + src@.take(i as int),
        decreases src@.len() - i,
    {
        dst.push(src[i]);
        proof {
            assert(old(dst)@ + src@.take(i as int) + seq![src@[i as int]] =~= old(dst)@
                + src@.take(i as int + 1));
        }
        i += 1;
    }
    proof {
        assert(src@.take(src@.len() as int) =~= src@);
    }
}

/// Composes the wire form `name ": " value CRLF` of one header.
pub fn compose_header_line(name: &[u8], value: &[u8]) -> (r: Vec<u8>)
    ensures
        r@ == header_line(name@, value@),
{
    let mut line: Vec<u8> = Vec::new();
    push_all(&mut line, name);
    line.push(':' as u8);
    line.push(' ' as u8);
    push_all(&mut line, value);
    line.push(CR);
    line.push(LF);
    proof {
        assert(line@ =~= header_line(name@, value@));
    }
    line
}

/// Validates one header and cross-checks the composed line with the outside
/// parser, as the emission path does. Returns the composed line.
pub fn checked_header_line(name: &[u8], value: &[u8]) -> (r: Result<Vec<u8>>)
    ensures
        r matches Ok(line) <==> valid_header_name(name@) && valid_header_value(value@),
        r matches Ok(line) ==> line@ == header_line(name@, value@),
        r matches Err(e) ==> (e == HootError::HeaderName <==> !valid_header_name(name@)),
        r matches Err(e) ==> (e == HootError::HeaderValue <==> valid_header_name(name@)
            && !valid_header_value(value@)),
{
    match validate_header(name, value) {
        Ok(()) => (),
        Err(e) => {
            return Err(e);
        },
    }
    let line = compose_header_line(name, value);
    let ok = httparse_accepts(&line);
    if !ok {
        // The wrapper's contract rules this out for a validated line.
        return Err(HootError::HeaderName);
    }
    Ok(line)
}

} // verus!
