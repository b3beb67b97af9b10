//! An Aethon response: `version status`, header lines, an empty line, and a
//! body.

use crate::aethon::error::{Error, Fault};
use crate::aethon::headers::{after_headers, header_text, parsed_headers, Headers};
use crate::aethon::request::version_char;
use crate::aethon::status::Status;
use crate::text::{decimal_u8, lossy_text, parse_u8, past, text_of, until, Cursor};
use std::str::FromStr;
use vstd::prelude::*;
use vstd::std_specs::convert::TryFromSpecImpl;
use vstd::string::StringExecFns;
use vstd::utf8::{decode_utf8, valid_utf8};

verus! {

/// What a response holds.
pub struct ResponseView {
    pub version: u8,
    pub status: Status,
    pub headers: Map<Seq<char>, Seq<char>>,
    pub body: Seq<char>,
}

/// A response: a status, with headers and a body.
#[derive(Debug, PartialEq)]
pub struct Response {
    version: u8,
    status: Status,
    headers: Headers,
    body: String,
}

impl View for Response {
    type V = ResponseView;

    closed spec fn view(&self) -> ResponseView {
        ResponseView {
            version: self.version,
            status: self.status,
            headers: self.headers@,
            body: self.body@,
        }
    }
}

/// The response that `s` writes, or what is wrong with `s`.
///
/// The version stands in front of the first space, the status in front of
/// the first line feed after that. Then come the headers, and behind the
/// empty line that ends them the body.
pub open spec fn parsed_response(s: Seq<char>) -> Result<ResponseView, Fault> {
    let after_version = past(s, ' ');
    let after_status = past(after_version, '\n');
    match decimal_u8(until(s, ' ')) {
        None => Err(Fault::Parse("Version isn't an u8"@)),
        Some(version) => match Status::of_text(until(after_version, '\n')) {
            None => Err(Fault::Parse("Invalid status"@)),
            Some(status) => match parsed_headers(after_status) {
                Err(fault) => Err(fault),
                Ok(headers) => Ok(
                    ResponseView {
                        version,
                        status,
                        headers,
                        body: after_headers(after_status),
                    },
                ),
            },
        },
    }
}

/// How the parts of a response are written out.
pub open spec fn response_text(
    version: u8,
    status: Status,
    headers: Seq<(Seq<char>, Seq<char>)>,
    body: Seq<char>,
) -> Seq<char> {
    seq![version_char(version), ' '] + status.text() + seq!['\n'] + header_text(headers) + seq![
        '\n',
    ] + body
}

impl Response {
    /// A response of these parts.
    pub fn new(version: u8, status: Status, headers: Headers, body: &str) -> (r: Self)
        ensures
            r@ == (ResponseView { version, status, headers: headers@, body: body@ }),
            r.header_listing() == headers.listing(),
    {
        Self { version, status, headers, body: body.to_owned() }
    }

    /// The headers in the order of their keys.
    pub closed spec fn header_listing(&self) -> Seq<(Seq<char>, Seq<char>)> {
        self.headers.listing()
    }

    /// The protocol version.
    pub fn version(&self) -> (v: u8)
        ensures
            v == self@.version,
    {
        self.version
    }

    /// The status.
    pub fn status(&self) -> (s: Status)
        ensures
            s == self@.status,
    {
        self.status
    }

    /// The headers.
    pub fn headers(&self) -> (h: &Headers)
        ensures
            h@ == self@.headers,
            h.listing() == self.header_listing(),
    {
        &self.headers
    }

    /// The body.
    pub fn body(&self) -> (b: &str)
        ensures
            b@ == self@.body,
    {
        self.body.as_str()
    }

    /// Reads a response.
    pub fn parse(s: &str) -> (r: Result<Self, Error>)
        ensures
            match r {
                Ok(response) => parsed_response(s@) == Ok::<ResponseView, Fault>(response@),
                Err(e) => parsed_response(s@) == Err::<ResponseView, Fault>(e@),
            },
    {
        let mut buffer = Cursor::new(s);
        let version = match parse_u8(buffer.take_until(' ').as_str()) {
            Some(version) => version,
            None => {
                return Err(Error::ParseError("Version isn't an u8"));
            },
        };
        let status = match Status::from_str(buffer.take_until('\n').as_str()) {
            Ok(status) => status,
            Err(_) => {
                return Err(Error::ParseError("Invalid status"));
            },
        };
        let headers = match Headers::parser_headers(&mut buffer) {
            Ok(headers) => headers,
            Err(e) => {
                return Err(e);
            },
        };
        let body = buffer.rest();
        Ok(Response { version, status, headers, body })
    }

    /// Writes the response out: the start line, the headers in the order of
    /// their keys, an empty line, the body.
    pub fn to_string(&self) -> (s: String)
        requires
            self@.version <= 207,
        ensures
            s@ == response_text(
                self@.version,
                self@.status,
                self.header_listing(),
                self@.body,
            ),
    {
        let mut out = String::new();
        out.push((self.version + 48) as char);
        out.push(' ');
        out.append(self.status.to_string().as_str());
        out.push('\n');
        out.append(self.headers.to_string().as_str());
        out.push('\n');
        out.append(self.body.as_str());
        assert(out@ =~= response_text(
            self@.version,
            self@.status,
            self.header_listing(),
            self@.body,
        ));
        out
    }
}

impl FromStr for Response {
    type Err = Error;

    /// The same as [`Response::parse`].
    fn from_str(s: &str) -> (r: Result<Self, Error>)
        ensures
            match r {
                Ok(response) => parsed_response(s@) == Ok::<ResponseView, Fault>(response@),
                Err(e) => parsed_response(s@) == Err::<ResponseView, Fault>(e@),
            },
    {
        Response::parse(s)
    }
}

impl TryFrom<&[u8]> for Response {
    type Error = Error;

    /// Reads a response from bytes; what is not UTF-8 in them is read as
    /// U+FFFD.
    fn try_from(value: &[u8]) -> (r: Result<Self, Error>)
        ensures
            match r {
                Ok(response) => parsed_response(lossy_text(value@)) == Ok::<ResponseView, Fault>(
                    response@,
                ),
                Err(e) => parsed_response(lossy_text(value@)) == Err::<ResponseView, Fault>(e@),
            },
            valid_utf8(value@) ==> lossy_text(value@) == decode_utf8(value@),
    {
        let text = text_of(value);
        Response::parse(text.as_str())
    }
}

/// A response holds strings, which no specification can build, so the
/// conversion is stated by the `ensures` of `try_from`, over the view.
impl TryFromSpecImpl<&[u8]> for Response {
    open spec fn obeys_try_from_spec() -> bool {
        false
    }

    open spec fn try_from_spec(value: &[u8]) -> Result<Self, Error> {
        arbitrary()
    }
}

} // verus!
