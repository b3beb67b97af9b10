use pantheon::echo::packet::{DecodeError, Error, Method, Packet};

fn all_methods() -> Vec<Method> {
    vec![Method::Query, Method::Answer]
}

fn all_errors() -> Vec<Error> {
    vec![
        Error::NoError,
        Error::Parse,
        Error::NotFound,
        Error::WrongVersion,
        Error::InternalServer,
    ]
}

#[test]
fn test_packet_parser() {
    let buf = [1u8, 0, 0, 72, 105];
    let packet = Packet::try_from(&buf as &[u8]);
    let expected = Packet::new(1, Method::Query, Error::NoError, "Hi".to_string());

    assert!(packet.is_ok());
    assert_eq!(expected, packet.unwrap());
}

#[test]
fn test_struct_to_vec() {
    let packet = Packet::new(1, Method::Query, Error::NoError, "Hi".to_string());
    let expected = vec![1u8, 0, 0, 72, 105];
    let buf: Vec<u8> = packet.into();

    assert_eq!(expected, buf);
}

#[test]
fn round_trip_every_method_and_error() {
    let bodies = ["", "a", "héllo wörld", "日本語", "🦀 crab", "tab\tnew\nline"];
    for method in all_methods() {
        for error in all_errors() {
            for body in bodies {
                for version in [0u8, 1, 7, 255] {
                    let packet = Packet::new(version, method, error, body.to_string());
                    let bytes = packet.encode();
                    assert_eq!(bytes.len(), 3 + body.len());
                    let back = Packet::decode(&bytes).unwrap();
                    assert_eq!(back, Packet::new(version, method, error, body.to_string()));
                    assert_eq!(back.version(), version);
                    assert_eq!(back.method(), method);
                    assert_eq!(back.error(), error);
                    assert_eq!(back.body(), body);
                }
            }
        }
    }
}

#[test]
fn encode_then_decode_is_identity_on_datagrams() {
    let datagram = vec![9u8, 1, 3, 0xe2, 0x82, 0xac, b'!'];
    let packet = Packet::decode(&datagram).unwrap();
    assert_eq!(packet.body(), "€!");
    assert_eq!(packet.method(), Method::Answer);
    assert_eq!(packet.error(), Error::WrongVersion);
    assert_eq!(packet.encode(), datagram);
}

#[test]
fn three_bytes_decode_to_empty_body() {
    let packet = Packet::decode(&[1u8, 0, 0]).unwrap();
    assert_eq!(packet, Packet::new(1, Method::Query, Error::NoError, String::new()));
    assert_eq!(packet.body(), "");
}

#[test]
fn shorter_than_header_is_too_short() {
    assert_eq!(Packet::decode(&[]), Err(DecodeError::TooShort));
    assert_eq!(Packet::decode(&[1u8]), Err(DecodeError::TooShort));
    assert_eq!(Packet::decode(&[1u8, 0]), Err(DecodeError::TooShort));
    assert_eq!(Packet::try_from(&[1u8, 0] as &[u8]), Err(DecodeError::TooShort));
}

#[test]
fn method_byte_two_is_invalid() {
    assert_eq!(Packet::decode(&[1u8, 2, 0, 72, 105]), Err(DecodeError::InvalidMethod));
    assert_eq!(Packet::decode(&[1u8, 255, 0]), Err(DecodeError::InvalidMethod));
    assert_eq!(Method::try_from(2u8), Err(DecodeError::InvalidMethod));
}

#[test]
fn error_byte_five_is_invalid() {
    assert_eq!(Packet::decode(&[1u8, 0, 5, 72, 105]), Err(DecodeError::InvalidErrorCode));
    assert_eq!(Packet::decode(&[1u8, 1, 200]), Err(DecodeError::InvalidErrorCode));
    assert_eq!(Error::try_from(5u8), Err(DecodeError::InvalidErrorCode));
}

#[test]
fn body_that_is_not_utf8_is_invalid() {
    assert_eq!(Packet::decode(&[1u8, 0, 0, 0xff]), Err(DecodeError::InvalidBodyEncoding));
    assert_eq!(Packet::decode(&[1u8, 0, 0, 0xc3]), Err(DecodeError::InvalidBodyEncoding));
    assert_eq!(
        Packet::decode(&[1u8, 0, 0, 0xed, 0xa0, 0x80]),
        Err(DecodeError::InvalidBodyEncoding)
    );
    assert_eq!(Packet::decode(&[1u8, 0, 0, 0xc0, 0x80]), Err(DecodeError::InvalidBodyEncoding));
}

#[test]
fn first_fault_in_checking_order_is_reported() {
    // length, then body encoding, then method, then error
    assert_eq!(Packet::decode(&[1u8, 2, 5, 0xff]), Err(DecodeError::InvalidBodyEncoding));
    assert_eq!(Packet::decode(&[1u8, 2, 5, b'a']), Err(DecodeError::InvalidMethod));
    assert_eq!(Packet::decode(&[1u8, 2]), Err(DecodeError::TooShort));
}

#[test]
fn method_and_error_codes() {
    assert_eq!(Method::try_from(0u8), Ok(Method::Query));
    assert_eq!(Method::try_from(1u8), Ok(Method::Answer));
    assert_eq!(Method::Query.to_byte(), 0);
    assert_eq!(Method::Answer.to_byte(), 1);
    let codes = [0u8, 1, 2, 3, 4];
    for (error, code) in all_errors().into_iter().zip(codes) {
        assert_eq!(error.to_byte(), code);
        assert_eq!(Error::try_from(code), Ok(error));
    }
}

#[test]
fn version_is_not_validated_and_body_is_not_trimmed() {
    let packet = Packet::decode(&[77u8, 0, 0, b' ', b'k', b' ', b'\n']).unwrap();
    assert_eq!(packet.version(), 77);
    assert_eq!(packet.body(), " k \n");
}
