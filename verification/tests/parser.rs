use http_request_parser::parser::{
    HttpRequestParser, Method, Parse, ParsingError, Request, RequestLine,
};

/// Drives a parse through every state and hands back the finished request.
fn parse_full(input: &[u8]) -> Result<Request<'_>, ParsingError> {
    let parser = HttpRequestParser::<RequestLine<Method>>::start(input);
    let parser = parser.parse()?;
    let parser = parser.parse()?;
    let parser = parser.parse()?;
    let parser = parser.parse()?;
    Ok(parser.parse())
}

#[test]
fn valid_methods_accepted() {
    let methods: [&str; 8] = [
        "OPTIONS", "GET", "HEAD", "POST", "PUT", "DELETE", "TRACE", "CONNECT",
    ];
    for m in methods {
        let input = format!("{} /index.html HTTP/1.1\r\n\r\n", m).into_bytes();
        let request = parse_full(&input).expect(m);
        assert_eq!(request.method(), m.as_bytes());
        assert_eq!(request.request_uri(), b"/index.html");
        assert_eq!(request.http_version(), b"HTTP/1.1");
    }
}

#[test]
fn invalid_method_rejected_with_token() {
    for bad in ["POS", "FETCH", "get", ""] {
        let input = format!("{} /a HTTP/1.1\r\n\r\n", bad).into_bytes();
        match parse_full(&input) {
            Err(ParsingError::InvalidMethod(token)) => assert_eq!(token, bad.as_bytes()),
            other => panic!("{:?} for method {:?}", other.map(|_| ()), bad),
        }
    }
}

#[test]
fn valid_versions_accepted() {
    for v in ["HTTP/1", "HTTP/1.0", "HTTP/1.1", "HTTP/2"] {
        let input = format!("GET /a {}\r\n\r\n", v).into_bytes();
        let request = parse_full(&input).expect(v);
        assert_eq!(request.http_version(), v.as_bytes());
    }
}

#[test]
fn invalid_version_rejected_with_token() {
    for bad in ["HTTP/0.9", "HTTP/1.2", "http/1.1", "SPDY/3"] {
        let input = format!("GET /a {}\r\n\r\n", bad).into_bytes();
        match parse_full(&input) {
            Err(ParsingError::InvalidVersion(token)) => assert_eq!(token, bad.as_bytes()),
            other => panic!("{:?} for version {:?}", other.map(|_| ()), bad),
        }
    }
}

#[test]
fn round_trip() {
    let input = b"GET /a HTTP/1.1\r\nHost: x\r\n\r\nbody";
    let request = parse_full(input).unwrap();
    assert_eq!(request.method(), b"GET");
    assert_eq!(request.request_uri(), b"/a");
    assert_eq!(request.http_version(), b"HTTP/1.1");
    assert_eq!(request.header_count(), 1);
    assert_eq!(request.header_value(b"Host"), Some(&b"x"[..]));
    assert_eq!(request.body(), b"body");
}

#[test]
fn spans_are_views_into_the_input() {
    let input = b"GET /a HTTP/1.1\r\nHost: x\r\n\r\nbody";
    let request = parse_full(input).unwrap();
    let range = input.as_ptr_range();
    for slice in [
        request.method(),
        request.request_uri(),
        request.http_version(),
        request.header_value(b"Host").unwrap(),
        request.body(),
    ] {
        assert!(range.start <= slice.as_ptr() && slice.as_ptr_range().end <= range.end);
    }
    assert_eq!(request.method(), &input[0..3]);
    assert_eq!(request.body(), &input[input.len() - 4..]);
}

#[test]
fn duplicate_header_last_write_wins() {
    let input = b"GET / HTTP/1.1\r\nX: 1\r\nX: 2\r\n\r\n";
    let request = parse_full(input).unwrap();
    assert_eq!(request.header_count(), 1);
    assert_eq!(request.header_value(b"X"), Some(&b"2"[..]));
}

#[test]
fn empty_body() {
    let input = b"GET / HTTP/1.1\r\nHost: x\r\n\r\n";
    let request = parse_full(input).unwrap();
    assert_eq!(request.body(), b"");
}

#[test]
fn no_headers_at_all() {
    let input = b"GET / HTTP/1.1\r\n\r\npayload";
    let request = parse_full(input).unwrap();
    assert_eq!(request.header_count(), 0);
    assert_eq!(request.header_value(b"Host"), None);
    assert_eq!(request.body(), b"payload");
}

#[test]
fn separator_tolerance() {
    for line in ["Key:Value", "Key: Value", "Key :  Value"] {
        let input = format!("GET / HTTP/1.1\r\n{}\r\n\r\n", line).into_bytes();
        let request = parse_full(&input).expect(line);
        assert_eq!(request.header_value(b"Key"), Some(&b"Value"[..]), "{}", line);
    }
}

#[test]
fn key_followed_by_whitespace_without_colon() {
    let input = b"GET / HTTP/1.1\r\nKey Value\r\n\r\n";
    let request = parse_full(input).unwrap();
    assert_eq!(request.header_value(b"Key"), Some(&b"Value"[..]));
}

#[test]
fn truncated_method_token() {
    for bad in ["GET", ""] {
        match parse_full(bad.as_bytes()) {
            Err(ParsingError::TruncatedInput) => {}
            other => panic!("{:?} for {:?}", other.map(|_| ()), bad),
        }
    }
}

#[test]
fn truncated_request_line_without_crlf() {
    match parse_full(b"GET /a HTTP/1.1") {
        Err(ParsingError::TruncatedInput) => {}
        other => panic!("{:?}", other.map(|_| ())),
    }
}

#[test]
fn truncated_header_value() {
    match parse_full(b"GET /a HTTP/1.1\r\nHost: x") {
        Err(ParsingError::TruncatedInput) => {}
        other => panic!("{:?}", other.map(|_| ())),
    }
}

#[test]
fn truncated_header_key() {
    match parse_full(b"GET /a HTTP/1.1\r\nHost") {
        Err(ParsingError::TruncatedInput) => {}
        other => panic!("{:?}", other.map(|_| ())),
    }
}

#[test]
fn extra_spaces_between_fields() {
    let input = b"GET   /a  HTTP/1.1\r\n\r\n";
    let request = parse_full(input).unwrap();
    assert_eq!(request.method(), b"GET");
    assert_eq!(request.request_uri(), b"/a");
    assert_eq!(request.http_version(), b"HTTP/1.1");
}

#[test]
fn body_kept_verbatim_with_line_breaks() {
    let input = b"GET / HTTP/1.1\r\n\r\nline1\r\nline2";
    let request = parse_full(input).unwrap();
    assert_eq!(request.body(), b"line1\r\nline2");
}

#[test]
fn lone_trailing_byte_becomes_body() {
    let input = b"GET / HTTP/1.1\r\nA: b\r\nX";
    let request = parse_full(input).unwrap();
    assert_eq!(request.header_value(b"A"), Some(&b"b"[..]));
    assert_eq!(request.body(), b"X");
}

#[test]
fn several_headers_all_found() {
    let input = b"POST /cgi HTTP/1.0\r\nHost: example\r\nAccept: text\r\nConnection: close\r\n\r\nx=1";
    let request = parse_full(input).unwrap();
    assert_eq!(request.header_count(), 3);
    assert_eq!(request.header_value(b"Host"), Some(&b"example"[..]));
    assert_eq!(request.header_value(b"Accept"), Some(&b"text"[..]));
    assert_eq!(request.header_value(b"Connection"), Some(&b"close"[..]));
    assert_eq!(request.header_value(b"Missing"), None);
    assert_eq!(request.body(), b"x=1");
}
