use pantheon::aethon::error::Error;
use pantheon::aethon::headers::Headers;
use pantheon::aethon::method::Method;
use pantheon::aethon::request::Request;
use pantheon::aethon::response::Response;
use pantheon::aethon::status::Status;
use pantheon::text::Cursor;
use std::str::FromStr;

fn headers_of(pairs: &[(&str, &str)]) -> Headers {
    let mut headers = Headers::default();
    for (key, value) in pairs {
        headers.insert(key, value);
    }
    headers
}

#[test]
fn test_str_to_method() {
    let s = ["GET", "POST", "DELETE", "aaaaAAkkfe"];
    let res: Vec<Result<Method, Error>> = s.iter().map(|x| x.parse()).collect();

    let expected = vec![
        Ok(Method::GET),
        Ok(Method::POST),
        Ok(Method::DELETE),
        Err(Error::WrongMethod),
    ];
    assert_eq!(expected, res);
}

#[test]
fn test_method_to_str() {
    let methods = [Method::GET, Method::POST, Method::DELETE];
    let res: Vec<String> = methods.iter().map(|x| x.to_string()).collect();
    let expected: Vec<String> = ["GET", "POST", "DELETE"]
        .iter()
        .map(|x| x.to_string())
        .collect();

    assert_eq!(res, expected)
}

#[test]
fn request_test_parser_request() {
    let s = "1 GET /\na: hello\nc: b\n\nHello World";
    let req: Request = s.parse().unwrap();

    let mut expected_headers: Headers = Headers::default();
    expected_headers.insert("a", "hello");
    expected_headers.insert("c", "b");

    let expected = Request::new(1, Method::GET, "/", expected_headers, "Hello World");

    assert_eq!(expected, req);
}

#[test]
fn request_test_fail_to_parse_wrong_invalid_headers() {
    let s = "1 GET /\na: hello\nc: \n\n";
    let req: Result<Request, Error> = s.parse();

    assert!(req.is_err());
    assert_eq!(req, Err(Error::ParseError("Headers value can't be empty")));
}

#[test]
fn request_test_parse_packet_without_headers() {
    let s = "1 GET /\n\n\n";
    let req: Request = s.parse().unwrap();
    let expected = Request::new(1, Method::GET, "/", Headers::default(), "");

    assert_eq!(expected, req);
}

#[test]
fn request_test_to_string() {
    let headers = headers_of(&[("1", "Hello"), ("2", "World")]);
    let req = Request::new(1, Method::GET, "/", headers, "");
    let s = req.to_string();
    let expected = "1 GET /\n1: Hello\n2: World\n\n";

    assert_eq!(expected, s);
}

#[test]
fn test_parse_tesponse() {
    let s: Result<Response, Error> = "1 200\nh: Hello\nw:World\n\nHello World".parse();
    let expected = Ok(Response::new(
        1,
        Status::OK,
        headers_of(&[("h", "Hello"), ("w", "World")]),
        "Hello World",
    ));

    assert_eq!(expected, s);
}

#[test]
fn test_parse_tesponse_u8_array() {
    let s: Result<Response, Error> =
        Response::try_from("1 200\nh: Hello\nw:World\n\nHello World".as_bytes());
    let expected = Ok(Response::new(
        1,
        Status::OK,
        headers_of(&[("h", "Hello"), ("w", "World")]),
        "Hello World",
    ));

    assert_eq!(expected, s);
}

#[test]
fn test_response_to_string() {
    let res = Response::new(
        1,
        Status::OK,
        headers_of(&[("h", "Hello"), ("w", "World")]),
        "Hello World",
    );
    let expected = "1 200\nh: Hello\nw: World\n\nHello World";

    assert_eq!(expected, res.to_string());
}

#[test]
fn test_parse_str() {
    let s: Result<Response, Error> = "1 200\nh: Hello\nw:World\n\nHello World".parse();
    let expected = Ok(Response::new(
        1,
        Status::OK,
        headers_of(&[("w", "World"), ("h", "Hello")]),
        "Hello World",
    ));

    assert_eq!(expected, s);
}

#[test]
fn test_valid_status_codes() {
    assert_eq!(Status::from_str("200"), Ok(Status::OK));
    assert_eq!(Status::from_str("201"), Ok(Status::Created));
    assert_eq!(Status::from_str("400"), Ok(Status::BadRequest));
    assert_eq!(Status::from_str("401"), Ok(Status::Unauthorized));
    assert_eq!(Status::from_str("404"), Ok(Status::NotFound));
    assert_eq!(Status::from_str("405"), Ok(Status::MethodNotAllowed));
    assert_eq!(Status::from_str("418"), Ok(Status::ImATeapot));
    assert_eq!(Status::from_str("500"), Ok(Status::InternalServerError));

    assert_eq!(Status::OK.to_string(), "200");
    assert_eq!(Status::Created.to_string(), "201");
    assert_eq!(Status::BadRequest.to_string(), "400");
    assert_eq!(Status::Unauthorized.to_string(), "401");
    assert_eq!(Status::NotFound.to_string(), "404");
    assert_eq!(Status::MethodNotAllowed.to_string(), "405");
    assert_eq!(Status::ImATeapot.to_string(), "418");
    assert_eq!(Status::InternalServerError.to_string(), "500");

    assert_eq!(Status::try_from(200), Ok(Status::OK));
    assert_eq!(Status::try_from(201), Ok(Status::Created));
    assert_eq!(Status::try_from(400), Ok(Status::BadRequest));
    assert_eq!(Status::try_from(401), Ok(Status::Unauthorized));
    assert_eq!(Status::try_from(404), Ok(Status::NotFound));
    assert_eq!(Status::try_from(405), Ok(Status::MethodNotAllowed));
    assert_eq!(Status::try_from(418), Ok(Status::ImATeapot));
    assert_eq!(Status::try_from(500), Ok(Status::InternalServerError));
}

#[test]
fn test_invalid_status_codes() {
    assert_eq!(Status::from_str("199"), Err(Error::WrongStatus));
    assert_eq!(Status::from_str("300"), Err(Error::WrongStatus));
    assert_eq!(Status::from_str("600"), Err(Error::WrongStatus));
    assert_eq!(Status::try_from(999), Err(Error::WrongStatus));
}

#[test]
fn test_whitespace_handling() {
    assert_eq!(Status::from_str(" 200 "), Ok(Status::OK));
    assert_eq!(Status::from_str("\t404\n"), Ok(Status::NotFound));
}

#[test]
fn test_empty_input() {
    assert_eq!(Status::from_str(""), Err(Error::WrongStatus));
}

#[test]
fn test_non_numeric_input() {
    assert_eq!(Status::from_str("OK"), Err(Error::WrongStatus));
    assert_eq!(Status::from_str("Not Found"), Err(Error::WrongStatus));
}

#[test]
fn request_faults() {
    let bad_version: Result<Request, Error> = "x GET /\n\n".parse();
    assert_eq!(bad_version, Err(Error::ParseError("Version ins't an u8")));
    let too_large: Result<Request, Error> = "256 GET /\n\n".parse();
    assert_eq!(too_large, Err(Error::ParseError("Version ins't an u8")));
    let empty: Result<Request, Error> = "".parse();
    assert_eq!(empty, Err(Error::ParseError("Version ins't an u8")));
    let bad_method: Result<Request, Error> = "1 get /\n\n".parse();
    assert_eq!(bad_method, Err(Error::ParseError("Invalid method")));
    let no_colon: Result<Request, Error> = "1 GET /\nabc\n\n".parse();
    assert_eq!(no_colon, Err(Error::ParseError("Invalid headers value")));
    let bad_status: Result<Response, Error> = "1 299\n\n".parse();
    assert_eq!(bad_status, Err(Error::ParseError("Invalid status")));
    let bad_version: Result<Response, Error> = "-1 200\n\n".parse();
    assert_eq!(bad_version, Err(Error::ParseError("Version isn't an u8")));
}

#[test]
fn version_is_a_decimal_number() {
    let plus: Request = "+7 POST /p\n\n".parse().unwrap();
    assert_eq!(plus.version(), 7);
    let zeros: Request = "0012 DELETE /p\n\n".parse().unwrap();
    assert_eq!(zeros.version(), 12);
    assert_eq!(zeros.method(), Method::DELETE);
    let top: Request = "255 GET /\n\n".parse().unwrap();
    assert_eq!(top.version(), 255);
}

#[test]
fn header_lines_are_read_as_written() {
    let req: Request = "1 GET /a b\n key : v w \nk:1\r\nk:2\n\nbody\n\nmore".parse().unwrap();
    assert_eq!(req.path(), "/a b");
    assert_eq!(req.headers().get(" key "), Some("v w"));
    assert_eq!(req.headers().get("k"), Some("2"));
    assert_eq!(req.headers().len(), 2);
    assert_eq!(req.body(), "body\n\nmore");
}

#[test]
fn blank_key_ends_the_headers() {
    let req: Request = "1 GET /\na: 1\n : x\nb: 2\n\nrest".parse().unwrap();
    assert_eq!(req.headers().len(), 1);
    assert_eq!(req.headers().get("a"), Some("1"));
    assert_eq!(req.body(), "rest");
}

#[test]
fn headers_without_an_end_take_everything() {
    let req: Request = "1 GET /\na: 1\nb: 2".parse().unwrap();
    assert_eq!(req.headers().len(), 2);
    assert_eq!(req.body(), "");
}

#[test]
fn parser_headers_leaves_the_body_in_the_buffer() {
    let mut buffer = Cursor::new("x: 1\ny: 2\n\nthe body");
    let headers = Headers::parser_headers(&mut buffer).unwrap();
    assert_eq!(headers, headers_of(&[("y", "2"), ("x", "1")]));
    assert_eq!(buffer.rest(), "the body");
    let mut block = Cursor::new("x: 1\n\ny");
    assert_eq!(Headers::consume_headers(&mut block), "x: 1\n");
    assert_eq!(block.peek(), Some('y'));
}

#[test]
fn headers_are_written_in_key_order() {
    let mut headers = Headers::new();
    assert_eq!(headers.insert("b", "2"), None);
    assert_eq!(headers.insert("a", "1"), None);
    assert_eq!(headers.insert("ab", "3"), None);
    assert_eq!(headers.insert("b", "4"), Some("2".into()));
    assert_eq!(headers.to_string(), "a: 1\nab: 3\nb: 4\n");
    assert_eq!(headers.clone(), headers);
}

#[test]
fn written_packets_are_read_back() {
    let req = Request::new(3, Method::POST, "/p", headers_of(&[("k", "v")]), "b\n\nc");
    let back: Request = req.to_string().parse().unwrap();
    assert_eq!(back, req);
    let res = Response::new(9, Status::ImATeapot, headers_of(&[("k", "v")]), "tea");
    assert_eq!(res.to_string(), "9 418\nk: v\n\ntea");
    assert_eq!(Response::from_str(&res.to_string()), Ok(res));
    let ten = Request::new(10, Method::GET, "/", Headers::new(), "");
    assert_eq!(ten.to_string(), ": GET /\n\n");
}

#[test]
fn bytes_that_are_not_utf8_are_replaced() {
    let res = Response::try_from(&b"1 200\n\n\nbo\xffdy"[..]).unwrap();
    assert_eq!(res.body(), "bo\u{fffd}dy");
    assert_eq!(res.status(), Status::OK);
}

#[test]
fn error_descriptions() {
    assert_eq!(Error::WrongMethod.to_string(), "The request METHOD is invalid");
    assert_eq!(Error::WrongStatus.to_string(), "The response STATUS is invalid");
    assert_eq!(
        Error::ParseError("x").to_string(),
        "Failed to parse the Aethon packet: x"
    );
}

#[test]
fn request_from_bytes() {
    let req = Request::try_from("2 POST /a\nk: v\n\nbody".as_bytes()).unwrap();
    assert_eq!(req, Request::new(2, Method::POST, "/a", headers_of(&[("k", "v")]), "body"));
    let lossy = Request::try_from(&b"1 GET /\xff\n\n\n"[..]).unwrap();
    assert_eq!(lossy.path(), "/\u{fffd}");
    assert_eq!(
        Request::try_from(&b"\xff GET /\n\n"[..]),
        Err(Error::ParseError("Version ins't an u8"))
    );
}
