//! The request descriptor: method, version, target and ordered headers.
//!
//! A `Request` is the caller-facing description of one HTTP request. The
//! `host` part of the target is split from the path at construction, so the
//! state machine can synthesize the `host` header when the caller does not
//! supply one.

use vstd::prelude::*;

use vstd::string::StringSliceAdditionalSpecFns;

use crate::ascii::{eq_ignore_case, lower_seq};

verus! {

/// An HTTP method, as far as the codec distinguishes them.
///
/// The distinction that matters to the state machine is whether the method
/// carries a request body: GET, HEAD, DELETE, OPTIONS and TRACE forbid one,
/// POST, PUT and PATCH require one.
#[derive(Clone, Copy, PartialEq, Eq, Structural, Debug)]
pub enum Method {
    GET,
    HEAD,
    POST,
    PUT,
    PATCH,
    DELETE,
    OPTIONS,
    TRACE,
}

impl Method {
    /// Whether the method requires a request body.
    pub open spec fn spec_requires_body(self) -> bool {
        self is POST || self is PUT || self is PATCH
    }

    /// Whether the method forbids a request body.
    pub open spec fn spec_forbids_body(self) -> bool {
        !self.spec_requires_body()
    }

    /// The method name as it appears on the wire.
    pub open spec fn spec_name(self) -> Seq<u8> {
        match self {
            Method::GET => seq![('G' as u8), ('E' as u8), ('T' as u8)],
            Method::HEAD => seq![('H' as u8), ('E' as u8), ('A' as u8), ('D' as u8)],
            Method::POST => seq![('P' as u8), ('O' as u8), ('S' as u8), ('T' as u8)],
            Method::PUT => seq![('P' as u8), ('U' as u8), ('T' as u8)],
            Method::PATCH => seq![('P' as u8), ('A' as u8), ('T' as u8), ('C' as u8), ('H' as u8)],
            Method::DELETE => seq![('D' as u8), ('E' as u8), ('L' as u8), ('E' as u8), ('T' as u8), ('E' as u8)],
            Method::OPTIONS => seq![('O' as u8), ('P' as u8), ('T' as u8), ('I' as u8), ('O' as u8), ('N' as u8), ('S' as u8)],
            Method::TRACE => seq![('T' as u8), ('R' as u8), ('A' as u8), ('C' as u8), ('E' as u8)],
        }
    }

    /// Whether the method requires a request body.
    pub fn requires_body(self) -> (r: bool)
        ensures
            r == self.spec_requires_body(),
    {
        match self {
            Method::POST => true,
            Method::PUT => true,
            Method::PATCH => true,
            _ => false,
        }
    }

    /// Whether the method forbids a request body.
    pub fn forbids_body(self) -> (r: bool)
        ensures
            r == self.spec_forbids_body(),
    {
        !self.requires_body()
    }

    /// The method name on the wire, as bytes.
    pub fn name(self) -> (r: Vec<u8>)
        ensures
            r@ == self.spec_name(),
    {
        let mut v: Vec<u8> = Vec::new();
        match self {
            Method::GET => {
                v.push(('G' as u8));
                v.push(('E' as u8));
                v.push(('T' as u8));
            },
            Method::HEAD => {
                v.push(('H' as u8));
                v.push(('E' as u8));
                v.push(('A' as u8));
                v.push(('D' as u8));
            },
            Method::POST => {
                v.push(('P' as u8));
                v.push(('O' as u8));
                v.push(('S' as u8));
                v.push(('T' as u8));
            },
            Method::PUT => {
                v.push(('P' as u8));
                v.push(('U' as u8));
                v.push(('T' as u8));
            },
            Method::PATCH => {
                v.push(('P' as u8));
                v.push(('A' as u8));
                v.push(('T' as u8));
                v.push(('C' as u8));
                v.push(('H' as u8));
            },
            Method::DELETE => {
                v.push(('D' as u8));
                v.push(('E' as u8));
                v.push(('L' as u8));
                v.push(('E' as u8));
                v.push(('T' as u8));
                v.push(('E' as u8));
            },
            Method::OPTIONS => {
                v.push(('O' as u8));
                v.push(('P' as u8));
                v.push(('T' as u8));
                v.push(('I' as u8));
                v.push(('O' as u8));
                v.push(('N' as u8));
                v.push(('S' as u8));
            },
            Method::TRACE => {
                v.push(('T' as u8));
                v.push(('R' as u8));
                v.push(('A' as u8));
                v.push(('C' as u8));
                v.push(('E' as u8));
            },
        }
        proof {
            assert(v@ =~= self.spec_name());
        }
        v
    }
}


/// An HTTP version the codec can speak.
#[derive(Clone, Copy, PartialEq, Eq, Structural, Debug)]
pub enum Version {
    Http10,
    Http11,
}

impl Version {
    /// The version token as it appears on the wire.
    pub open spec fn spec_bytes(self) -> Seq<u8> {
        match self {
            Version::Http10 => seq![
                ('H' as u8),
                ('T' as u8),
                ('T' as u8),
                ('P' as u8),
                ('/' as u8),
                ('1' as u8),
                ('.' as u8),
                ('0' as u8),
            ],
            Version::Http11 => seq![
                ('H' as u8),
                ('T' as u8),
                ('T' as u8),
                ('P' as u8),
                ('/' as u8),
                ('1' as u8),
                ('.' as u8),
                ('1' as u8),
            ],
        }
    }

    /// The version token on the wire, as bytes.
    pub fn wire_bytes(self) -> (r: Vec<u8>)
        ensures
            r@ == self.spec_bytes(),
    {
        let mut v: Vec<u8> = Vec::new();
        v.push('H' as u8);
        v.push('T' as u8);
        v.push('T' as u8);
        v.push('P' as u8);
        v.push('/' as u8);
        v.push('1' as u8);
        v.push('.' as u8);
        match self {
            Version::Http10 => v.push('0' as u8),
            Version::Http11 => v.push('1' as u8),
        }
        proof {
            assert(v@ =~= self.spec_bytes());
        }
        v
    }
}

/// One header: a name and a value, both as raw bytes.
#[derive(Debug)]
pub struct Header {
    pub name: Vec<u8>,
    pub value: Vec<u8>,
}

/// The value of the first header with the given (already lower-cased) name at
/// or after position `i`, compared ASCII-case-insensitively.
pub open spec fn spec_find_header_from(hs: Seq<Header>, name: Seq<u8>, i: int) -> Option<Seq<u8>>
    decreases hs.len() - i,
{
    if i < 0 || i >= hs.len() {
        Option::None
    } else if lower_seq(hs[i].name@) == name {
        Option::Some(hs[i].value@)
    } else {
        spec_find_header_from(hs, name, i + 1)
    }
}

/// The value of the first header with the given (already lower-cased) name.
pub open spec fn spec_find_header(hs: Seq<Header>, name: Seq<u8>) -> Option<Seq<u8>> {
    spec_find_header_from(hs, name, 0)
}

/// Looks up the first header whose name equals `name` up to ASCII case.
/// `name` must be given in lower case.
pub fn find_header<'a>(hs: &'a Vec<Header>, name: &[u8]) -> (r: Option<&'a Vec<u8>>)
    requires
        lower_seq(name@) == name@,
    ensures
        match r {
            Option::Some(v) => spec_find_header(hs@, name@) == Option::Some(v@),
            Option::None => spec_find_header(hs@, name@) is None,
        },
{
    let mut i: usize = 0;
    while i < hs.len()
        invariant
            0 <= i <= hs@.len(),
            lower_seq(name@) == name@,
            spec_find_header(hs@, name@) == spec_find_header_from(hs@, name@, i as int),
        decreases hs@.len() - i,
    {
        if eq_ignore_case(hs[i].name.as_slice(), name) {
            return Option::Some(&hs[i].value);
        }
        i += 1;
    }
    Option::None
}

/// The scheme prefix `http://`.
pub open spec fn http_scheme() -> Seq<u8> {
    seq![
        ('h' as u8),
        ('t' as u8),
        ('t' as u8),
        ('p' as u8),
        (':' as u8),
        ('/' as u8),
        ('/' as u8),
    ]
}

/// The scheme prefix `https://`.
pub open spec fn https_scheme() -> Seq<u8> {
    seq![
        ('h' as u8),
        ('t' as u8),
        ('t' as u8),
        ('p' as u8),
        ('s' as u8),
        (':' as u8),
        ('/' as u8),
        ('/' as u8),
    ]
}

/// Whether the target is in absolute form, with a scheme and an authority.
pub open spec fn has_scheme(u: Seq<u8>) -> bool {
    (u.len() >= 7 && u.take(7) == http_scheme()) || (u.len() >= 8 && u.take(8) == https_scheme())
}

/// How many bytes the scheme prefix takes.
pub open spec fn scheme_len(u: Seq<u8>) -> int {
    if u.len() >= 7 && u.take(7) == http_scheme() {
        7
    } else {
        8
    }
}

/// The index of the first `/` at or after `i`, or the length if there is none.
pub open spec fn first_slash_from(u: Seq<u8>, i: int) -> int
    decreases u.len() - i,
{
    if i < 0 || i >= u.len() {
        u.len() as int
    } else if u[i] == ('/' as u8) {
        i
    } else {
        first_slash_from(u, i + 1)
    }
}

/// The authority of an absolute-form target, if the target has one.
pub open spec fn uri_host(u: Seq<u8>) -> Option<Seq<u8>> {
    if has_scheme(u) {
        Option::Some(u.subrange(scheme_len(u), first_slash_from(u, scheme_len(u))))
    } else {
        Option::None
    }
}

/// The request path: what follows the authority in absolute form (`/` when
/// nothing does), or the target itself in origin form (`/` when empty).
pub open spec fn uri_path(u: Seq<u8>) -> Seq<u8> {
    if has_scheme(u) {
        let s = first_slash_from(u, scheme_len(u));
        if s < u.len() {
            u.subrange(s, u.len() as int)
        } else {
            seq![('/' as u8)]
        }
    } else if u.len() > 0 {
        u
    } else {
        seq![('/' as u8)]
    }
}

/// Copies `src[from..to]` into a fresh vector.
pub fn copy_range(src: &[u8], from: usize, to: usize) -> (r: Vec<u8>)
    requires
        0 <= from <= to <= src@.len(),
    ensures
        r@ == src@.subrange(from as int, to as int),
{
    let mut v: Vec<u8> = Vec::new();
    let mut i: usize = from;
    while i < to
        invariant
            from <= i <= to <= src@.len(),
            v@ == src@.subrange(from as int, i as int),
        decreases to - i,
    {
        v.push(src[i]);
        proof {
            assert(v@ =~= src@.subrange(from as int, i as int + 1));
        }
        i += 1;
    }
    v
}

/// Splits a request target into its authority (if absolute form) and path.
pub fn split_uri(u: &[u8]) -> (r: (Option<Vec<u8>>, Vec<u8>))
    ensures
        match r.0 {
            Option::Some(h) => uri_host(u@) == Option::Some(h@),
            Option::None => uri_host(u@) is None,
        },
        r.1@ == uri_path(u@),
{
    let http = u.len() >= 7 && u[0] == ('h' as u8) && u[1] == ('t' as u8) && u[2] == ('t' as u8)
        && u[3] == ('p' as u8) && u[4] == (':' as u8) && u[5] == ('/' as u8) && u[6] == ('/' as u8);
    let https = u.len() >= 8 && u[0] == ('h' as u8) && u[1] == ('t' as u8) && u[2] == ('t' as u8)
        && u[3] == ('p' as u8) && u[4] == ('s' as u8) && u[5] == (':' as u8) && u[6] == ('/' as u8)
        && u[7] == ('/' as u8);
    proof {
        if u@.len() >= 7 {
            assert(http <==> u@.take(7) == http_scheme()) by {
                if http {
                    assert(u@.take(7) =~= http_scheme());
                }
                if u@.take(7) == http_scheme() {
                    assert(u@[0] == http_scheme()[0]);
                    assert(u@[1] == http_scheme()[1]);
                    assert(u@[2] == http_scheme()[2]);
                    assert(u@[3] == http_scheme()[3]);
                    assert(u@[4] == http_scheme()[4]);
                    assert(u@[5] == http_scheme()[5]);
                    assert(u@[6] == http_scheme()[6]);
                }
            }
        }
        if u@.len() >= 8 {
            assert(https <==> u@.take(8) == https_scheme()) by {
                if https {
                    assert(u@.take(8) =~= https_scheme());
                }
                if u@.take(8) == https_scheme() {
                    assert(u@[0] == https_scheme()[0]);
                    assert(u@[1] == https_scheme()[1]);
                    assert(u@[2] == https_scheme()[2]);
                    assert(u@[3] == https_scheme()[3]);
                    assert(u@[4] == https_scheme()[4]);
                    assert(u@[5] == https_scheme()[5]);
                    assert(u@[6] == https_scheme()[6]);
                    assert(u@[7] == https_scheme()[7]);
                }
            }
        }
    }
    if !(http || https) {
        let path = if u.len() > 0 {
            copy_range(u, 0, u.len())
        } else {
            let mut v: Vec<u8> = Vec::new();
            v.push('/' as u8);
            v
        };
        proof {
            if u@.len() > 0 {
                assert(u@.subrange(0, u@.len() as int) =~= u@);
            } else {
                assert(path@ =~= uri_path(u@));
            }
        }
        return (Option::None, path);
    }
    let start: usize = if http {
        7
    } else {
        8
    };
    let mut s: usize = start;
    while s < u.len() && u[s] != ('/' as u8)
        invariant
            start <= s <= u@.len(),
            first_slash_from(u@, start as int) == first_slash_from(u@, s as int),
        decreases u@.len() - s,
    {
        s += 1;
    }
    let host = copy_range(u, start, s);
    let path = if s < u.len() {
        copy_range(u, s, u.len())
    } else {
        let mut v: Vec<u8> = Vec::new();
        v.push('/' as u8);
        v
    };
    proof {
        assert(first_slash_from(u@, s as int) == s as int || first_slash_from(u@, s as int)
            == u@.len() as int);
        if uri_path(u@) != path@ {
            assert(path@ =~= uri_path(u@));
        }
    }
    (Option::Some(host), path)
}

/// The request descriptor handed to the call constructors: method, version,
/// split target, and the ordered caller headers.
pub struct Request {
    pub method: Method,
    pub version: Version,
    pub path: Vec<u8>,
    pub host: Option<Vec<u8>>,
    pub headers: Vec<Header>,
}

impl Request {
    /// Builds a descriptor for the given method and target, speaking
    /// HTTP/1.1, with no headers yet.
    pub fn new(method: Method, uri: &str) -> (r: Request)
        ensures
            r.method == method,
            r.version == Version::Http11,
            r.path@ == uri_path(uri.spec_bytes()),
            match r.host {
                Option::Some(h) => uri_host(uri.spec_bytes()) == Option::Some(h@),
                Option::None => uri_host(uri.spec_bytes()) is None,
            },
            r.headers@ =~= Seq::<Header>::empty(),
    {
        let bytes = uri.as_bytes();
        let (host, path) = split_uri(bytes);
        Request { method, version: Version::Http11, path, host, headers: Vec::new() }
    }

    /// A GET request for the target.
    pub fn get(uri: &str) -> (r: Request)
        ensures
            r.method == Method::GET,
            r.version == Version::Http11,
            r.path@ == uri_path(uri.spec_bytes()),
            match r.host {
                Option::Some(h) => uri_host(uri.spec_bytes()) == Option::Some(h@),
                Option::None => uri_host(uri.spec_bytes()) is None,
            },
            r.headers@ =~= Seq::<Header>::empty(),
    {
        Request::new(Method::GET, uri)
    }

    /// A HEAD request for the target.
    pub fn head(uri: &str) -> (r: Request)
        ensures
            r.method == Method::HEAD,
            r.version == Version::Http11,
            r.path@ == uri_path(uri.spec_bytes()),
            match r.host {
                Option::Some(h) => uri_host(uri.spec_bytes()) == Option::Some(h@),
                Option::None => uri_host(uri.spec_bytes()) is None,
            },
            r.headers@ =~= Seq::<Header>::empty(),
    {
        Request::new(Method::HEAD, uri)
    }

    /// A POST request for the target.
    pub fn post(uri: &str) -> (r: Request)
        ensures
            r.method == Method::POST,
            r.version == Version::Http11,
            r.path@ == uri_path(uri.spec_bytes()),
            match r.host {
                Option::Some(h) => uri_host(uri.spec_bytes()) == Option::Some(h@),
                Option::None => uri_host(uri.spec_bytes()) is None,
            },
            r.headers@ =~= Seq::<Header>::empty(),
    {
        Request::new(Method::POST, uri)
    }

    /// A PUT request for the target.
    pub fn put(uri: &str) -> (r: Request)
        ensures
            r.method == Method::PUT,
            r.version == Version::Http11,
            r.path@ == uri_path(uri.spec_bytes()),
            match r.host {
                Option::Some(h) => uri_host(uri.spec_bytes()) == Option::Some(h@),
                Option::None => uri_host(uri.spec_bytes()) is None,
            },
            r.headers@ =~= Seq::<Header>::empty(),
    {
        Request::new(Method::PUT, uri)
    }

    /// A DELETE request for the target.
    pub fn delete(uri: &str) -> (r: Request)
        ensures
            r.method == Method::DELETE,
            r.version == Version::Http11,
            r.path@ == uri_path(uri.spec_bytes()),
            match r.host {
                Option::Some(h) => uri_host(uri.spec_bytes()) == Option::Some(h@),
                Option::None => uri_host(uri.spec_bytes()) is None,
            },
            r.headers@ =~= Seq::<Header>::empty(),
    {
        Request::new(Method::DELETE, uri)
    }

    /// Changes the HTTP version of the request.
    pub fn version(self, version: Version) -> (r: Request)
        ensures
            r.method == self.method,
            r.version == version,
            r.path == self.path,
            r.host == self.host,
            r.headers == self.headers,
    {
        Request { version, ..self }
    }

    /// Appends a header to the request. The header is validated when the
    /// call is constructed, not here.
    pub fn header(self, name: &str, value: &str) -> (r: Request)
        ensures
            r.method == self.method,
            r.version == self.version,
            r.path == self.path,
            r.host == self.host,
            r.headers@.len() == self.headers@.len() + 1,
            r.headers@.take(self.headers@.len() as int) == self.headers@,
            r.headers@.last().name@ == name.spec_bytes(),
            r.headers@.last().value@ == value.spec_bytes(),
    {
        let mut headers = self.headers;
        let name_b = copy_range(name.as_bytes(), 0, name.as_bytes().len());
        let value_b = copy_range(value.as_bytes(), 0, value.as_bytes().len());
        proof {
            assert(name_b@ =~= name.spec_bytes());
            assert(value_b@ =~= value.spec_bytes());
        }
        headers.push(Header { name: name_b, value: value_b });
        let r = Request {
            method: self.method,
            version: self.version,
            path: self.path,
            host: self.host,
            headers,
        };
        proof {
            assert(r.headers@.take(r.headers@.len() - 1) =~= r.headers@.drop_last());
        }
        r
    }
}

} // verus!
