use http_server::parser::{parse_request, parse_str_to_request, ParseError};

#[test]
fn parses_request_line_and_headers() {
    let text = "GET /index.html HTTP/1.1\r\nHost: localhost:4221\r\nUser-Agent: curl/7.64.1\r\n\r\n";
    let request = parse_str_to_request(text).unwrap();
    assert_eq!(request.request_line.method, "GET");
    assert_eq!(request.request_line.target, "/index.html");
    assert_eq!(request.request_line.version, "HTTP/1.1");
    assert_eq!(request.headers.len(), 2);
    assert_eq!(request.headers[0].key, "Host");
    assert_eq!(request.headers[0].value, "localhost:4221");
    assert_eq!(request.headers[1].key, "User-Agent");
    assert_eq!(request.headers[1].value, "curl/7.64.1");
    assert_eq!(request.body, "");
}

#[test]
fn parses_body_verbatim() {
    let text = "POST /files/a HTTP/1.1\r\nContent-Length: 99\r\n\r\nhello";
    let request = parse_str_to_request(text).unwrap();
    assert_eq!(request.request_line.method, "POST");
    assert_eq!(request.body, "hello");
}

#[test]
fn body_keeps_later_blank_lines() {
    let text = "POST /x HTTP/1.1\r\nA: b\r\n\r\nab\r\n\r\ncd";
    let request = parse_str_to_request(text).unwrap();
    assert_eq!(request.body, "ab\r\n\r\ncd");
}

#[test]
fn empty_header_block_gives_no_headers() {
    let request = parse_str_to_request("GET / HTTP/1.1\r\n\r\n\r\n").unwrap();
    assert!(request.headers.is_empty());
    assert_eq!(request.body, "");
}

#[test]
fn request_line_without_headers_lacks_delimiter() {
    let r = parse_str_to_request("GET / HTTP/1.1\r\n\r\n");
    assert_eq!(r.unwrap_err(), ParseError::MissingBodyDelimiter);
}

#[test]
fn no_line_break_is_malformed_request_line() {
    let r = parse_str_to_request("GET / HTTP/1.1");
    assert_eq!(r.unwrap_err(), ParseError::MalformedRequestLine);
}

#[test]
fn two_tokens_is_malformed_request_line() {
    let r = parse_str_to_request("GET /\r\nHost: a\r\n\r\n");
    assert_eq!(r.unwrap_err(), ParseError::MalformedRequestLine);
}

#[test]
fn extra_tokens_are_ignored() {
    let request = parse_str_to_request("GET / HTTP/1.1 extra\r\nHost: a\r\n\r\n").unwrap();
    assert_eq!(request.request_line.method, "GET");
    assert_eq!(request.request_line.target, "/");
    assert_eq!(request.request_line.version, "HTTP/1.1");
}

#[test]
fn header_without_separator_is_malformed() {
    let r = parse_str_to_request("GET / HTTP/1.1\r\nHost: a\r\nbroken\r\n\r\n");
    assert_eq!(r.unwrap_err(), ParseError::MalformedHeader);
}

#[test]
fn header_splits_at_first_separator() {
    let request = parse_str_to_request("GET / HTTP/1.1\r\nX: a: b\r\n\r\n").unwrap();
    assert_eq!(request.headers[0].key, "X");
    assert_eq!(request.headers[0].value, "a: b");
}

#[test]
fn repeated_headers_are_all_kept_in_order() {
    let request = parse_str_to_request("GET / HTTP/1.1\r\nA: 1\r\nA: 2\r\n\r\n").unwrap();
    assert_eq!(request.headers.len(), 2);
    assert_eq!(request.headers[0].value, "1");
    assert_eq!(request.headers[1].value, "2");
}

#[test]
fn invalid_utf8_is_encoding_error() {
    let raw: Vec<u8> = vec![0x47, 0x45, 0x54, 0xff, 0xfe, 0x0d, 0x0a];
    assert_eq!(parse_request(&raw).unwrap_err(), ParseError::EncodingError);
}

#[test]
fn bytes_with_multibyte_text_parse() {
    let raw = "POST /files/n HTTP/1.1\r\nUser-Agent: é\r\n\r\nñü".as_bytes();
    let request = parse_request(raw).unwrap();
    assert_eq!(request.headers[0].value, "é");
    assert_eq!(request.body, "ñü");
}

#[test]
fn bytes_keep_parse_errors() {
    let raw = "GET /\r\n\r\n".as_bytes();
    assert_eq!(parse_request(raw).unwrap_err(), ParseError::MalformedRequestLine);
}
