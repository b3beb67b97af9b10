use pantheon::aethon::error::Error;
use pantheon::aethon::headers::Headers;
use pantheon::aethon::method::Method;
use pantheon::aethon::request::Request;

#[test]
fn test_parser_request() {
    let s = "1 GET /\na: hello\nc: b\n\nHello World";
    let req: Request = s.parse().unwrap();

    let mut expected_headers: Headers = Headers::new();
    expected_headers.insert("a".into(), "hello".into());
    expected_headers.insert("c".into(), "b".into());

    let expected = Request::new(1, Method::GET, "/", expected_headers, "Hello World");

    assert_eq!(expected, req);
}

#[test]
fn test_fail_to_parse_wrong_invalid_headers() {
    let s = "1 GET /\na: hello\nc: \n\n";
    let req: Result<Request, Error> = s.parse();

    assert!(req.is_err());
}

#[test]
fn test_parse_packet_without_headers() {
    let s = "1 GET /\n\n\n";
    let req: Request = s.parse().unwrap();
    let expected = Request::new(1, Method::GET, "/", Headers::new(), "");

    assert_eq!(expected, req);
}

#[test]
fn test_to_string() {
    let mut headers = Headers::new();
    headers.insert("1", "Hello");
    headers.insert("2", "World");
    let req = Request::new(1, Method::GET, "/", headers, "");
    let s = req.to_string();
    let expected = "1 GET /\n1: Hello\n2: World\n\n";

    assert_eq!(expected, s);
}
