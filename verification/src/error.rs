//! The closed set of error kinds the codec reports.

use vstd::prelude::*;

use crate::request::Method;

verus! {

/// Everything that can go wrong while driving a call.
#[derive(Clone, Copy, PartialEq, Eq, Structural, Debug)]
pub enum HootError {
    /// The output buffer did not have enough space for the current emission
    /// step. Flush the produced bytes to the transport and call again with a
    /// fresh buffer; no data is lost.
    OutputOverflow,
    /// Invalid byte in a header name.
    HeaderName,
    /// Invalid byte in a header value.
    HeaderValue,
    /// Invalid response status line.
    Status,
    /// Invalid byte where a line break was expected.
    NewLine,
    /// The response carried more headers than the codec accepts.
    TooManyHeaders,
    /// There was not enough spare buffer space to parse headers.
    InsufficientSpaceToParseHeaders,
    /// `content-length` and `transfer-encoding` must not be set as free
    /// headers; framing is chosen by the constructors.
    ForbiddenBodyHeader,
    /// Header not allowed for this HTTP version.
    ForbiddenHttp11Header,
    /// The trailer name is not allowed.
    ForbiddenTrailer,
    /// The method of the request forbids a body, but the body-sending
    /// constructor was used.
    MethodForbidsBody(Method),
    /// The method of the request requires a body, but the body-less
    /// constructor was used.
    MethodRequiresBody(Method),
    /// A body write would exceed the declared `content-length`.
    BodyLargerThanContentLength,
    /// A body write arrived after the end of the body was signaled.
    BodyContentAfterFinish,
    /// More content was sent than the declared `content-length`.
    SentMoreThanContentLength,
    /// The call was asked to leave the body phase before the declared
    /// `content-length` was reached.
    SentLessThanContentLength,
    /// Failed to read bytes as UTF-8 text.
    ConvertBytesToStr,
    /// The response HTTP version does not match the request HTTP version.
    HttpVersionMismatch,
    /// The status line is not complete yet.
    StatusIsNotComplete,
}

pub type Result<T> = core::result::Result<T, HootError>;

} // verus!
