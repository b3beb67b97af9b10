//! An Aethon request: `version method path`, header lines, an empty line,
//! and a body.

use crate::aethon::error::{Error, Fault};
use crate::aethon::headers::{after_headers, header_text, parsed_headers, Headers};
use crate::aethon::method::Method;
use crate::text::{decimal_u8, lossy_text, parse_u8, past, text_of, until, Cursor};
use std::str::FromStr;
use vstd::prelude::*;
use vstd::std_specs::convert::TryFromSpecImpl;
use vstd::string::StringExecFns;
use vstd::utf8::{decode_utf8, valid_utf8};

verus! {

/// What a request holds.
pub struct RequestView {
    pub version: u8,
    pub method: Method,
    pub path: Seq<char>,
    pub headers: Map<Seq<char>, Seq<char>>,
    pub body: Seq<char>,
}

/// A request: what is asked of whom, with headers and a body.
#[derive(Debug, PartialEq)]
pub struct Request {
    version: u8,
    method: Method,
    path: String,
    headers: Headers,
    body: String,
}

impl View for Request {
    type V = RequestView;

    closed spec fn view(&self) -> RequestView {
        RequestView {
            version: self.version,
            method: self.method,
            path: self.path@,
            headers: self.headers@,
            body: self.body@,
        }
    }
}

/// The request that `s` writes, or what is wrong with `s`.
///
/// The version stands in front of the first space, the method in front of
/// the next one, the path in front of the first line feed after that. Then
/// come the headers, and behind the empty line that ends them the body.
pub open spec fn parsed_request(s: Seq<char>) -> Result<RequestView, Fault> {
    let after_version = past(s, ' ');
    let after_method = past(after_version, ' ');
    let after_path = past(after_method, '\n');
    match decimal_u8(until(s, ' ')) {
        None => Err(Fault::Parse("Version ins't an u8"@)),
        Some(version) => match Method::of_text(until(after_version, ' ')) {
            None => Err(Fault::Parse("Invalid method"@)),
            Some(method) => match parsed_headers(after_path) {
                Err(fault) => Err(fault),
                Ok(headers) => Ok(
                    RequestView {
                        version,
                        method,
                        path: until(after_method, '\n'),
                        headers,
                        body: after_headers(after_path),
                    },
                ),
            },
        },
    }
}

/// The character that writes a version: the digit for a version below ten,
/// and the character as far behind `'0'` as the version says for any other.
pub open spec fn version_char(version: u8) -> char
    recommends
        version <= 207,
{
    ((version + 48) as u8) as char
}

/// How the parts of a request are written out.
pub open spec fn request_text(
    version: u8,
    method: Method,
    path: Seq<char>,
    headers: Seq<(Seq<char>, Seq<char>)>,
    body: Seq<char>,
) -> Seq<char> {
    seq![version_char(version), ' '] + method.text() + seq![' '] + path + seq!['\n'] + header_text(
        headers,
    ) + seq!['\n'] + body
}

impl Request {
    /// A request of these parts.
    pub fn new(version: u8, method: Method, path: &str, headers: Headers, body: &str) -> (r: Self)
        ensures
            r@ == (RequestView {
                version,
                method,
                path: path@,
                headers: headers@,
                body: body@,
            }),
            r.header_listing() == headers.listing(),
    {
        Self { version, method, path: path.to_owned(), headers, body: body.to_owned() }
    }

    /// The headers in the order of their keys.
    pub closed spec fn header_listing(&self) -> Seq<(Seq<char>, Seq<char>)> {
        self.headers.listing()
    }

    /// The protocol version.
    pub fn version(&self) -> (v: u8)
        ensures
            v == self@.version,
    {
        self.version
    }

    /// The method.
    pub fn method(&self) -> (m: Method)
        ensures
            m == self@.method,
    {
        self.method
    }

    /// The path that the request is about.
    pub fn path(&self) -> (p: &str)
        ensures
            p@ == self@.path,
    {
        self.path.as_str()
    }

    /// The headers.
    pub fn headers(&self) -> (h: &Headers)
        ensures
            h@ == self@.headers,
            h.listing() == self.header_listing(),
    {
        &self.headers
    }

    /// The body.
    pub fn body(&self) -> (b: &str)
        ensures
            b@ == self@.body,
    {
        self.body.as_str()
    }

    /// Reads a request.
    pub fn parse(s: &str) -> (r: Result<Self, Error>)
        ensures
            match r {
                Ok(request) => parsed_request(s@) == Ok::<RequestView, Fault>(request@),
                Err(e) => parsed_request(s@) == Err::<RequestView, Fault>(e@),
            },
    {
        let mut buffer = Cursor::new(s);
        let version = match parse_u8(buffer.take_until(' ').as_str()) {
            Some(version) => version,
            None => {
                return Err(Error::ParseError("Version ins't an u8"));
            },
        };
        let method = match Method::from_str(buffer.take_until(' ').as_str()) {
            Ok(method) => method,
            Err(_) => {
                return Err(Error::ParseError("Invalid method"));
            },
        };
        let path = buffer.take_until('\n');
        let headers = match Headers::parser_headers(&mut buffer) {
            Ok(headers) => headers,
            Err(e) => {
                return Err(e);
            },
        };
        let body = buffer.rest();
        Ok(Request { version, method, path, headers, body })
    }

    /// Writes the request out: the start line, the headers in the order of
    /// their keys, an empty line, the body.
    pub fn to_string(&self) -> (s: String)
        requires
            self@.version <= 207,
        ensures
            s@ == request_text(
                self@.version,
                self@.method,
                self@.path,
                self.header_listing(),
                self@.body,
            ),
    {
        let mut out = String::new();
        out.push((self.version + 48) as char);
        out.push(' ');
        out.append(self.method.to_string().as_str());
        out.push(' ');
        out.append(self.path.as_str());
        out.push('\n');
        out.append(self.headers.to_string().as_str());
        out.push('\n');
        out.append(self.body.as_str());
        assert(out@ =~= request_text(
            self@.version,
            self@.method,
            self@.path,
            self.header_listing(),
            self@.body,
        ));
        out
    }
}

impl FromStr for Request {
    type Err = Error;

    /// The same as [`Request::parse`].
    fn from_str(s: &str) -> (r: Result<Self, Error>)
        ensures
            match r {
                Ok(request) => parsed_request(s@) == Ok::<RequestView, Fault>(request@),
                Err(e) => parsed_request(s@) == Err::<RequestView, Fault>(e@),
            },
    {
        Request::parse(s)
    }
}

impl TryFrom<&[u8]> for Request {
    type Error = Error;

    /// Reads a request from bytes; what is not UTF-8 in them is read as
    /// U+FFFD.
    fn try_from(value: &[u8]) -> (r: Result<Self, Error>)
        ensures
            match r {
                Ok(request) => parsed_request(lossy_text(value@)) == Ok::<RequestView, Fault>(
                    request@,
                ),
                Err(e) => parsed_request(lossy_text(value@)) == Err::<RequestView, Fault>(e@),
            },
            valid_utf8(value@) ==> lossy_text(value@) == decode_utf8(value@),
    {
        let text = text_of(value);
        Request::parse(text.as_str())
    }
}

/// A request holds strings, which no specification can build, so the
/// conversion is stated by the `ensures` of `try_from`, over the view.
impl TryFromSpecImpl<&[u8]> for Request {
    open spec fn obeys_try_from_spec() -> bool {
        false
    }

    open spec fn try_from_spec(value: &[u8]) -> Result<Self, Error> {
        arbitrary()
    }
}

} // verus!
