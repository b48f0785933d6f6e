use http_request_parser::bytes::{bytes_eq, is_crlf, is_valid_method, is_valid_version, is_whitespace};
use http_request_parser::parser::{HttpRequestParser, Method, RequestLine};

#[test]
fn method_token_set_is_exact() {
    for good in ["OPTIONS", "GET", "HEAD", "POST", "PUT", "DELETE", "TRACE", "CONNECT"] {
        assert!(is_valid_method(good.as_bytes()), "{}", good);
    }
    for bad in ["", "G", "GE", "POS", "GETS", "FETCH", "get", "OPTION", "CONNECTS"] {
        assert!(!is_valid_method(bad.as_bytes()), "{}", bad);
    }
}

#[test]
fn version_token_set_is_exact() {
    for good in ["HTTP/1", "HTTP/1.0", "HTTP/1.1", "HTTP/2"] {
        assert!(is_valid_version(good.as_bytes()), "{}", good);
    }
    for bad in ["", "HTTP/", "HTTP/0.9", "HTTP/1.2", "HTTP/2.0", "http/1.1", "HTTP/11"] {
        assert!(!is_valid_version(bad.as_bytes()), "{}", bad);
    }
}

#[test]
fn byte_classification() {
    assert!(is_whitespace(b' '));
    assert!(is_whitespace(b'\t'));
    assert!(is_whitespace(b'\r'));
    assert!(is_whitespace(b'\n'));
    assert!(!is_whitespace(b':'));
    assert!(!is_whitespace(b'a'));
    assert!(is_crlf(b'\r', b'\n'));
    assert!(!is_crlf(b'\n', b'\r'));
    assert!(!is_crlf(b'\r', b'\r'));
}

#[test]
fn byte_slice_equality() {
    assert!(bytes_eq(b"", b""));
    assert!(bytes_eq(b"abc", b"abc"));
    assert!(!bytes_eq(b"abc", b"abd"));
    assert!(!bytes_eq(b"abc", b"ab"));
}

#[test]
fn cursor_primitives_on_a_fresh_parser() {
    let input = b"   x:rest\r\ntail";
    let mut parser = HttpRequestParser::<RequestLine<Method>>::start(input);
    parser.skip_spaces();
    let span = parser.parse_until_char(b':');
    assert_eq!(&input[span.start..span.start + span.len], b"x");
    let mut parser = HttpRequestParser::<RequestLine<Method>>::start(b"\r\nabc");
    parser.skip_crlf();
    let span = parser.parse_until_char(b'!');
    assert_eq!(span.start, 2);
    assert_eq!(span.len, 3);
}
