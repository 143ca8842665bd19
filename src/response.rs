//! The responses that the endpoints give.
use vstd::prelude::*;
use vstd::utf8::encode_utf8;

use crate::conv::string_of;
use crate::wire::{Header, HeaderModel, Response, ResponseModel, StatusLine};

verus! {

/// The character of a decimal digit.
pub open spec fn digit(d: nat) -> char {
    if d == 0 {
        '0'
    } else if d == 1 {
        '1'
    } else if d == 2 {
        '2'
    } else if d == 3 {
        '3'
    } else if d == 4 {
        '4'
    } else if d == 5 {
        '5'
    } else if d == 6 {
        '6'
    } else if d == 7 {
        '7'
    } else if d == 8 {
        '8'
    } else {
        '9'
    }
}

/// The decimal digits of `n`, without leading zeros.
pub open spec fn decimal(n: nat) -> Seq<char>
    decreases n,
{
    if n < 10 {
        seq![digit(n)]
    } else {
        decimal(n / 10).push(digit(n % 10))
    }
}

/// `i` in decimal, with a leading `-` when it is negative.
pub open spec fn signed_decimal(i: int) -> Seq<char> {
    if i < 0 {
        seq!['-'] + decimal((-i) as nat)
    } else {
        decimal(i as nat)
    }
}

/// The number of bytes that a text takes in UTF-8.
pub open spec fn byte_len(s: Seq<char>) -> nat {
    encode_utf8(s).len()
}

/// A response with a status and nothing else.
pub open spec fn bare_response(status_code: int, status_text: Seq<char>) -> ResponseModel {
    ResponseModel {
        version: "HTTP/1.1"@,
        status_code,
        status_text,
        headers: seq![],
        body: seq![],
    }
}

/// A `200 OK` response that carries `contents`, with its type and length.
pub open spec fn body_response(content_type: Seq<char>, contents: Seq<char>) -> ResponseModel {
    ResponseModel {
        version: "HTTP/1.1"@,
        status_code: 200,
        status_text: "OK"@,
        headers: seq![
            ("Content-Type"@, content_type),
            ("Content-Length"@, decimal(byte_len(contents))),
        ],
        body: contents,
    }
}

/// The `404 Not Found` response.
pub open spec fn not_found_response() -> ResponseModel {
    bare_response(404, "Not Found"@)
}

fn digit_char(d: u64) -> (c: char)
    requires
        d < 10,
    ensures
        c == digit(d as nat),
{
    if d == 0 {
        '0'
    } else if d == 1 {
        '1'
    } else if d == 2 {
        '2'
    } else if d == 3 {
        '3'
    } else if d == 4 {
        '4'
    } else if d == 5 {
        '5'
    } else if d == 6 {
        '6'
    } else if d == 7 {
        '7'
    } else if d == 8 {
        '8'
    } else {
        '9'
    }
}

/// Appends the decimal digits of `n` to `out`.
pub fn push_decimal(out: &mut Vec<char>, n: u64)
    ensures
        final(out)@ == old(out)@ + decimal(n as nat),
    decreases n,
{
    if n >= 10 {
        push_decimal(out, n / 10);
    }
    out.push(digit_char(n % 10));
    assert(final(out)@ =~= old(out)@ + decimal(n as nat));
}

/// Appends `i` in decimal to `out`, with a leading `-` when it is negative.
pub fn push_signed_decimal(out: &mut Vec<char>, i: i32)
    ensures
        final(out)@ == old(out)@ + signed_decimal(i as int),
{
    if i < 0 {
        out.push('-');
        let magnitude: u64 = (-(i as i64)) as u64;
        push_decimal(out, magnitude);
        assert(final(out)@ =~= old(out)@ + signed_decimal(i as int));
    } else {
        push_decimal(out, i as u64);
    }
}

/// The decimal digits of `n`, as a string.
pub fn decimal_string(n: usize) -> (r: String)
    ensures
        r@ == decimal(n as nat),
{
    let mut out: Vec<char> = Vec::new();
    push_decimal(&mut out, n as u64);
    assert(out@ =~= decimal(n as nat));
    string_of(out.as_slice())
}

/// A response with the given status, no headers and an empty body.
pub fn respond(status_code: i32, status_text: &str) -> (r: Response)
    ensures
        r@ == bare_response(status_code as int, status_text@),
{
    let r = Response {
        status_line: StatusLine {
            version: "HTTP/1.1".to_owned(),
            status_code,
            status_text: status_text.to_owned(),
        },
        headers: Vec::new(),
        body: String::new(),
    };
    assert(r@.headers =~= seq![]);
    r
}

/// A `200 OK` response whose body is `contents`, with `Content-Type` and
/// `Content-Length` (the body's length in bytes) headers.
pub fn respond_with_body(content_type: &str, contents: String) -> (r: Response)
    ensures
        r@ == body_response(content_type@, contents@),
{
    let bytes = contents.as_str().as_bytes();
    let length = decimal_string(bytes.len());
    let mut headers: Vec<Header> = Vec::new();
    headers.push(Header { key: "Content-Type".to_owned(), value: content_type.to_owned() });
    headers.push(Header { key: "Content-Length".to_owned(), value: length });
    let r = Response {
        status_line: StatusLine {
            version: "HTTP/1.1".to_owned(),
            status_code: 200,
            status_text: "OK".to_owned(),
        },
        headers,
        body: contents,
    };
    let ghost expected: Seq<HeaderModel> = seq![
        ("Content-Type"@, content_type@),
        ("Content-Length"@, decimal(byte_len(contents@))),
    ];
    assert(r@.headers =~= expected);
    r
}

/// The `404 Not Found` response.
pub fn not_found() -> (r: Response)
    ensures
        r@ == not_found_response(),
{
    respond(404, "Not Found")
}

} // verus!
