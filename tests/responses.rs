use http_server::response::{decimal_string, not_found, respond, respond_with_body};
use http_server::serializer::parse_response_to_str;
use http_server::parser::parse_str_to_request;
use http_server::wire::{Header, Response, StatusLine};

#[test]
fn respond_has_status_only() {
    let r = respond(201, "Created");
    assert_eq!(r.status_line.version, "HTTP/1.1");
    assert_eq!(r.status_line.status_code, 201);
    assert_eq!(r.status_line.status_text, "Created");
    assert!(r.headers.is_empty());
    assert_eq!(r.body, "");
}

#[test]
fn respond_with_body_sets_type_and_length() {
    let r = respond_with_body("text/plain", "abc".to_string());
    assert_eq!(r.status_line.status_code, 200);
    assert_eq!(r.status_line.status_text, "OK");
    assert_eq!(r.headers.len(), 2);
    assert_eq!(r.headers[0].key, "Content-Type");
    assert_eq!(r.headers[0].value, "text/plain");
    assert_eq!(r.headers[1].key, "Content-Length");
    assert_eq!(r.headers[1].value, "3");
    assert_eq!(r.body, "abc");
}

#[test]
fn content_length_counts_bytes() {
    let r = respond_with_body("text/plain", "é€".to_string());
    assert_eq!(r.headers[1].value, "5");
    let empty = respond_with_body("text/plain", String::new());
    assert_eq!(empty.headers[1].value, "0");
}

#[test]
fn not_found_is_bare_404() {
    let r = not_found();
    assert_eq!(r.status_line.status_code, 404);
    assert_eq!(r.status_line.status_text, "Not Found");
    assert!(r.headers.is_empty());
    assert_eq!(r.body, "");
}

#[test]
fn decimal_digits() {
    assert_eq!(decimal_string(0), "0");
    assert_eq!(decimal_string(7), "7");
    assert_eq!(decimal_string(1234), "1234");
    assert_eq!(decimal_string(usize::MAX), usize::MAX.to_string());
}

#[test]
fn serializes_bare_response() {
    assert_eq!(parse_response_to_str(respond(200, "OK")), "HTTP/1.1 200 OK\r\n\r\n\r\n");
    assert_eq!(parse_response_to_str(not_found()), "HTTP/1.1 404 Not Found\r\n\r\n\r\n");
}

#[test]
fn serializes_headers_and_body() {
    let text = parse_response_to_str(respond_with_body("text/plain", "abc".to_string()));
    assert_eq!(
        text,
        "HTTP/1.1 200 OK\r\nContent-Type: text/plain\r\nContent-Length: 3\r\n\r\nabc"
    );
}

#[test]
fn serializes_negative_status() {
    let r = Response {
        status_line: StatusLine {
            version: "HTTP/1.1".to_string(),
            status_code: -42,
            status_text: "Odd".to_string(),
        },
        headers: Vec::new(),
        body: String::new(),
    };
    assert_eq!(parse_response_to_str(r), "HTTP/1.1 -42 Odd\r\n\r\n\r\n");
}

#[test]
fn serialized_response_parses_back() {
    let original = Response {
        status_line: StatusLine {
            version: "HTTP/1.1".to_string(),
            status_code: 200,
            status_text: "OK".to_string(),
        },
        headers: vec![
            Header { key: "Content-Type".to_string(), value: "text/plain".to_string() },
            Header { key: "X-Empty".to_string(), value: String::new() },
            Header { key: "X-Note".to_string(), value: "a: b\nc".to_string() },
        ],
        body: "line one\r\n\r\nline two".to_string(),
    };
    let text = parse_response_to_str(original.clone());
    let parsed = parse_str_to_request(&text).unwrap();
    assert_eq!(parsed.headers, original.headers);
    assert_eq!(parsed.body, original.body);
}

#[test]
fn serialized_response_without_headers_parses_back() {
    let original = respond(201, "Created");
    let text = parse_response_to_str(original.clone());
    let parsed = parse_str_to_request(&text).unwrap();
    assert!(parsed.headers.is_empty());
    assert_eq!(parsed.body, "");
}
