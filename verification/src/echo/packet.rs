//! The wire format of the resolver: a three-byte header (version, method,
//! error) followed by a UTF-8 body that runs to the end of the datagram.
//!
//! | offset | size | field   | encoding                                        |
//! |--------|------|---------|-------------------------------------------------|
//! | 0      | 1    | version | raw byte                                        |
//! | 1      | 1    | method  | 0 query, 1 answer                               |
//! | 2      | 1    | error   | 0 none, 1 parse, 2 not found, 3 wrong version,  |
//! |        |      |         | 4 internal server                               |
//! | 3..    | any  | body    | UTF-8, to the end of the datagram               |

use vstd::prelude::*;
use vstd::slice::slice_to_vec;
use vstd::std_specs::convert::FromSpecImpl;
use vstd::std_specs::convert::TryFromSpecImpl;
use vstd::utf8::*;

verus! {

/// `std::string::FromUtf8Error`, the error of `String::from_utf8`.
#[verifier::external_type_specification]
#[verifier::external_body]
pub struct ExFromUtf8Error(std::string::FromUtf8Error);

/// `String::from_utf8` succeeds exactly on well-formed UTF-8 and then yields
/// the string that the bytes encode.
pub assume_specification[ String::from_utf8 ](vec: Vec<u8>) -> (r: Result<
    String,
    std::string::FromUtf8Error,
>)
    ensures
        r is Ok <==> valid_utf8(vec@),
        r matches Ok(s) ==> s@ == decode_utf8(vec@),
;

/// The number of bytes in front of the body.
pub const HEADER_LEN: usize = 3;

/// The role of a packet: a request or a response.
#[derive(Debug, PartialEq, Eq, Clone, Copy, Structural)]
pub enum Method {
    Query,
    Answer,
}

/// The outcome that a packet carries; `NoError` on every query.
#[derive(Debug, PartialEq, Eq, Clone, Copy, Structural)]
pub enum Error {
    NoError,
    Parse,
    NotFound,
    WrongVersion,
    InternalServer,
}

/// Why a datagram is not a packet.
#[derive(Debug, PartialEq, Eq, Clone, Copy, Structural)]
pub enum DecodeError {
    /// Fewer than three bytes.
    TooShort,
    /// The method byte names no method.
    InvalidMethod,
    /// The error byte names no error kind.
    InvalidErrorCode,
    /// The bytes after the header are not UTF-8.
    InvalidBodyEncoding,
}

impl Method {
    /// The byte that stands for this method on the wire.
    pub open spec fn code(self) -> u8 {
        match self {
            Method::Query => 0,
            Method::Answer => 1,
        }
    }

    /// The method that a wire byte stands for, if any.
    pub open spec fn of_code(value: u8) -> Option<Method> {
        if value == 0 {
            Some(Method::Query)
        } else if value == 1 {
            Some(Method::Answer)
        } else {
            None
        }
    }

    /// The wire byte of this method.
    pub fn to_byte(self) -> (b: u8)
        ensures
            b == self.code(),
    {
        match self {
            Method::Query => 0,
            Method::Answer => 1,
        }
    }
}

impl TryFrom<u8> for Method {
    type Error = DecodeError;

    fn try_from(value: u8) -> (r: Result<Self, DecodeError>) {
        match value {
            0 => Ok(Method::Query),
            1 => Ok(Method::Answer),
            _ => Err(DecodeError::InvalidMethod),
        }
    }
}

impl TryFromSpecImpl<u8> for Method {
    open spec fn obeys_try_from_spec() -> bool {
        true
    }

    open spec fn try_from_spec(value: u8) -> Result<Self, DecodeError> {
        match Method::of_code(value) {
            Some(m) => Ok(m),
            None => Err(DecodeError::InvalidMethod),
        }
    }
}

impl Error {
    /// The byte that stands for this error kind on the wire.
    pub open spec fn code(self) -> u8 {
        match self {
            Error::NoError => 0,
            Error::Parse => 1,
            Error::NotFound => 2,
            Error::WrongVersion => 3,
            Error::InternalServer => 4,
        }
    }

    /// The error kind that a wire byte stands for, if any.
    pub open spec fn of_code(value: u8) -> Option<Error> {
        if value == 0 {
            Some(Error::NoError)
        } else if value == 1 {
            Some(Error::Parse)
        } else if value == 2 {
            Some(Error::NotFound)
        } else if value == 3 {
            Some(Error::WrongVersion)
        } else if value == 4 {
            Some(Error::InternalServer)
        } else {
            None
        }
    }

    /// The wire byte of this error kind.
    pub fn to_byte(self) -> (b: u8)
        ensures
            b == self.code(),
    {
        match self {
            Error::NoError => 0,
            Error::Parse => 1,
            Error::NotFound => 2,
            Error::WrongVersion => 3,
            Error::InternalServer => 4,
        }
    }
}

impl TryFrom<u8> for Error {
    type Error = DecodeError;

    fn try_from(value: u8) -> (r: Result<Self, DecodeError>) {
        match value {
            0 => Ok(Error::NoError),
            1 => Ok(Error::Parse),
            2 => Ok(Error::NotFound),
            3 => Ok(Error::WrongVersion),
            4 => Ok(Error::InternalServer),
            _ => Err(DecodeError::InvalidErrorCode),
        }
    }
}

impl TryFromSpecImpl<u8> for Error {
    open spec fn obeys_try_from_spec() -> bool {
        true
    }

    open spec fn try_from_spec(value: u8) -> Result<Self, DecodeError> {
        match Error::of_code(value) {
            Some(e) => Ok(e),
            None => Err(DecodeError::InvalidErrorCode),
        }
    }
}

/// What a packet holds, with the body as a sequence of characters.
pub struct PacketView {
    pub version: u8,
    pub method: Method,
    pub error: Error,
    pub body: Seq<char>,
}

/// One query or answer. The body is the key of a query and the value (or
/// nothing) of an answer.
#[derive(Debug, PartialEq)]
pub struct Packet {
    version: u8,
    method: Method,
    error: Error,
    body: String,
}

impl View for Packet {
    type V = PacketView;

    closed spec fn view(&self) -> PacketView {
        PacketView {
            version: self.version,
            method: self.method,
            error: self.error,
            body: self.body@,
        }
    }
}

/// The datagram that carries `p`: the three header bytes, then the body in
/// UTF-8.
pub open spec fn wire(p: PacketView) -> Seq<u8> {
    seq![p.version, p.method.code(), p.error.code()] + encode_utf8(p.body)
}

/// The packet that a datagram carries, or the reason why it carries none.
///
/// The checks are made in this order: length, body encoding, method byte,
/// error byte. A datagram with several faults reports the first of them.
pub open spec fn parse(bytes: Seq<u8>) -> Result<PacketView, DecodeError> {
    if bytes.len() < 3 {
        Err(DecodeError::TooShort)
    } else if !valid_utf8(bytes.skip(3)) {
        Err(DecodeError::InvalidBodyEncoding)
    } else if Method::of_code(bytes[1]) is None {
        Err(DecodeError::InvalidMethod)
    } else if Error::of_code(bytes[2]) is None {
        Err(DecodeError::InvalidErrorCode)
    } else {
        Ok(
            PacketView {
                version: bytes[0],
                method: Method::of_code(bytes[1])->0,
                error: Error::of_code(bytes[2])->0,
                body: decode_utf8(bytes.skip(3)),
            },
        )
    }
}

/// Decoding undoes encoding: the datagram of any packet parses, and parses to
/// that packet, whatever its method, error kind and body.
pub proof fn lemma_parse_wire(p: PacketView)
    ensures
        parse(wire(p)) == Ok::<PacketView, DecodeError>(p),
{
    let bytes = wire(p);
    assert(bytes.skip(3) =~= encode_utf8(p.body));
    encode_utf8_valid_utf8(p.body);
    encode_utf8_decode_utf8(p.body);
}

/// Encoding undoes decoding: a datagram that parses is the datagram of the
/// packet it parses to, so no two datagrams carry the same packet.
pub proof fn lemma_wire_parse(bytes: Seq<u8>)
    requires
        parse(bytes) is Ok,
    ensures
        wire(parse(bytes)->Ok_0) == bytes,
{
    decode_utf8_encode_utf8(bytes.skip(3));
    assert(wire(parse(bytes)->Ok_0) =~= bytes);
}

/// Which datagrams fail, and how: one that is shorter than the header is too
/// short; of the others, one whose body is not UTF-8 has an invalid body
/// encoding; of the rest, one whose method byte is above 1 has an invalid
/// method; of what is left, one whose error byte is above 4 has an invalid
/// error code. Every other datagram is a packet.
pub proof fn lemma_parse_faults(bytes: Seq<u8>)
    ensures
        parse(bytes) == Err::<PacketView, DecodeError>(DecodeError::TooShort) <==> bytes.len() < 3,
        parse(bytes) == Err::<PacketView, DecodeError>(DecodeError::InvalidBodyEncoding) <==> (
        bytes.len() >= 3 && !valid_utf8(bytes.skip(3))),
        parse(bytes) == Err::<PacketView, DecodeError>(DecodeError::InvalidMethod) <==> (
        bytes.len() >= 3 && valid_utf8(bytes.skip(3)) && bytes[1] > 1),
        parse(bytes) == Err::<PacketView, DecodeError>(DecodeError::InvalidErrorCode) <==> (
        bytes.len() >= 3 && valid_utf8(bytes.skip(3)) && bytes[1] <= 1 && bytes[2] > 4),
        parse(bytes) is Ok <==> (bytes.len() >= 3 && valid_utf8(bytes.skip(3)) && bytes[1] <= 1
            && bytes[2] <= 4),
{
}

/// A datagram of exactly three bytes with a known method and error kind is a
/// packet with an empty body.
pub proof fn lemma_parse_header_only(bytes: Seq<u8>)
    requires
        bytes.len() == 3,
        bytes[1] <= 1,
        bytes[2] <= 4,
    ensures
        parse(bytes) is Ok,
        parse(bytes)->Ok_0.version == bytes[0],
        parse(bytes)->Ok_0.method.code() == bytes[1],
        parse(bytes)->Ok_0.error.code() == bytes[2],
        parse(bytes)->Ok_0.body == Seq::<char>::empty(),
{
    assert(bytes.skip(3) =~= Seq::<u8>::empty());
    assert(valid_utf8(bytes.skip(3)));
    assert(decode_utf8(bytes.skip(3)) =~= Seq::<char>::empty());
}

/// A datagram is exactly three bytes longer than the UTF-8 form of its body.
pub proof fn lemma_wire_len(p: PacketView)
    ensures
        wire(p).len() == 3 + encode_utf8(p.body).len(),
{
}

impl Packet {
    /// A packet of these parts.
    pub fn new(version: u8, method: Method, error: Error, body: String) -> (p: Self)
        ensures
            p@ == (PacketView { version, method, error, body: body@ }),
    {
        Self { version, method, error, body }
    }

    /// The protocol version.
    pub fn version(&self) -> (v: u8)
        ensures
            v == self@.version,
    {
        self.version
    }

    /// Whether this is a query or an answer.
    pub fn method(&self) -> (m: Method)
        ensures
            m == self@.method,
    {
        self.method
    }

    /// The outcome that the packet carries.
    pub fn error(&self) -> (e: Error)
        ensures
            e == self@.error,
    {
        self.error
    }

    /// The key of a query, the value of an answer.
    pub fn body(&self) -> (s: &str)
        ensures
            s@ == self@.body,
    {
        self.body.as_str()
    }

    /// Reads a packet from a datagram, strictly: nothing is trimmed or
    /// normalised, and every byte after the header belongs to the body.
    pub fn decode(buf: &[u8]) -> (r: Result<Packet, DecodeError>)
        ensures
            match r {
                Ok(p) => parse(buf@) == Ok::<PacketView, DecodeError>(p@),
                Err(e) => parse(buf@) == Err::<PacketView, DecodeError>(e),
            },
    {
        if buf.len() < HEADER_LEN {
            return Err(DecodeError::TooShort);
        }
        let version = buf[0];
        let method = buf[1];
        let error = buf[2];
        let rest = slice_to_vec(&buf[3..buf.len()]);
        assert(rest@ == buf@.skip(3));
        let body = match String::from_utf8(rest) {
            Ok(body) => body,
            Err(_) => {
                return Err(DecodeError::InvalidBodyEncoding);
            },
        };
        let method = match Method::try_from(method) {
            Ok(method) => method,
            Err(e) => {
                return Err(e);
            },
        };
        let error = match Error::try_from(error) {
            Ok(error) => error,
            Err(e) => {
                return Err(e);
            },
        };
        Ok(Packet { version, method, error, body })
    }

    /// Writes the packet as a datagram. This cannot fail.
    pub fn encode(&self) -> (buf: Vec<u8>)
        ensures
            buf@ == wire(self@),
            buf@.len() == 3 + encode_utf8(self@.body).len(),
    {
        let mut buf: Vec<u8> = Vec::new();
        buf.push(self.version);
        buf.push(self.method.to_byte());
        buf.push(self.error.to_byte());
        buf.extend_from_slice(self.body.as_str().as_bytes());
        assert(buf@ =~= wire(self@));
        buf
    }
}

impl TryFrom<&[u8]> for Packet {
    type Error = DecodeError;

    /// The same as [`Packet::decode`].
    fn try_from(buf: &[u8]) -> (r: Result<Self, DecodeError>)
        ensures
            match r {
                Ok(p) => parse(buf@) == Ok::<PacketView, DecodeError>(p@),
                Err(e) => parse(buf@) == Err::<PacketView, DecodeError>(e),
            },
    {
        Packet::decode(buf)
    }
}

/// A packet holds a `String`, which no specification can build, so the
/// conversion is stated by the `ensures` of `try_from`, over the view.
impl TryFromSpecImpl<&[u8]> for Packet {
    open spec fn obeys_try_from_spec() -> bool {
        false
    }

    open spec fn try_from_spec(buf: &[u8]) -> Result<Self, DecodeError> {
        arbitrary()
    }
}

impl From<Packet> for Vec<u8> {
    /// The same as [`Packet::encode`].
    fn from(val: Packet) -> (buf: Vec<u8>)
        ensures
            buf@ == wire(val@),
            buf@.len() == 3 + encode_utf8(val@.body).len(),
    {
        val.encode()
    }
}

/// No specification can build a `Vec`, so the conversion is stated by the
/// `ensures` of `from`, over the view.
impl FromSpecImpl<Packet> for Vec<u8> {
    open spec fn obeys_from_spec() -> bool {
        false
    }

    open spec fn from_spec(val: Packet) -> Vec<u8> {
        arbitrary()
    }
}

} // verus!
