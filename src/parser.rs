//! Turns the bytes of a request into a `Request`.
use vstd::prelude::*;
use vstd::utf8::{decode_utf8, valid_utf8};

use crate::conv::{chars_of, string_of, text_of};
use crate::text::{find, find_from, is_first_match, slice_of, split_all, split_all_exec, split_once, views};
use crate::wire::{headers_view, Header, HeaderModel, Request, RequestLine, RequestModel};

verus! {

/// Why a request could not be parsed.
#[derive(Debug, Clone, Copy, PartialEq, Eq, Structural)]
pub enum ParseError {
    /// The bytes are not valid UTF-8.
    EncodingError,
    /// No line break, or fewer than three words in the first line.
    MalformedRequestLine,
    /// No blank line after the headers.
    MissingBodyDelimiter,
    /// A header line without `": "`.
    MalformedHeader,
}

/// A line break.
pub open spec fn crlf() -> Seq<char> {
    seq!['\r', '\n']
}

/// The blank line that ends the headers.
pub open spec fn blank_line() -> Seq<char> {
    seq!['\r', '\n', '\r', '\n']
}

/// What stands between a header's key and its value.
pub open spec fn header_separator() -> Seq<char> {
    seq![':', ' ']
}

/// The words of a request line.
pub open spec fn request_tokens(line: Seq<char>) -> Seq<Seq<char>> {
    split_all(line, seq![' '])
}

/// The lines of a header block; an empty block has none.
pub open spec fn header_lines(block: Seq<char>) -> Seq<Seq<char>> {
    if block.len() == 0 {
        seq![]
    } else {
        split_all(block, crlf())
    }
}

/// A header line split at its first `": "`.
pub open spec fn header_of(line: Seq<char>) -> Option<HeaderModel> {
    split_once(line, header_separator())
}

/// The key and value of a well-formed header line.
pub open spec fn header_parts(line: Seq<char>) -> HeaderModel {
    match header_of(line) {
        Some(h) => h,
        None => (line, seq![]),
    }
}

/// The request that a text holds, or why it holds none.
pub open spec fn parse_text(t: Seq<char>) -> Result<RequestModel, ParseError> {
    match split_once(t, crlf()) {
        None => Err(ParseError::MalformedRequestLine),
        Some((line, rest)) => {
            let tokens = request_tokens(line);
            if tokens.len() < 3 {
                Err(ParseError::MalformedRequestLine)
            } else {
                match split_once(rest, blank_line()) {
                    None => Err(ParseError::MissingBodyDelimiter),
                    Some((block, body)) => {
                        let lines = header_lines(block);
                        if exists|k: int| 0 <= k < lines.len() && header_of(lines[k]) is None {
                            Err(ParseError::MalformedHeader)
                        } else {
                            Ok(
                                RequestModel {
                                    method: tokens[0],
                                    target: tokens[1],
                                    version: tokens[2],
                                    headers: lines.map_values(|l: Seq<char>| header_parts(l)),
                                    body,
                                },
                            )
                        }
                    },
                }
            }
        },
    }
}

/// The request that raw bytes hold, or why they hold none.
pub open spec fn parse_bytes(raw: Seq<u8>) -> Result<RequestModel, ParseError> {
    if valid_utf8(raw) {
        parse_text(decode_utf8(raw))
    } else {
        Err(ParseError::EncodingError)
    }
}

/// The model of a parse result.
pub open spec fn parsed_view(r: Result<Request, ParseError>) -> Result<RequestModel, ParseError> {
    match r {
        Ok(q) => Ok(q@),
        Err(e) => Err(e),
    }
}

fn crlf_exec() -> (r: Vec<char>)
    ensures
        r@ == crlf(),
{
    let mut r: Vec<char> = Vec::new();
    r.push('\r');
    r.push('\n');
    assert(r@ =~= crlf());
    r
}

fn blank_line_exec() -> (r: Vec<char>)
    ensures
        r@ == blank_line(),
{
    let mut r = crlf_exec();
    r.push('\r');
    r.push('\n');
    assert(r@ =~= blank_line());
    r
}

fn header_separator_exec() -> (r: Vec<char>)
    ensures
        r@ == header_separator(),
{
    let mut r: Vec<char> = Vec::new();
    r.push(':');
    r.push(' ');
    assert(r@ =~= header_separator());
    r
}

/// Splits `s` at the first occurrence of `p`.
fn split_once_exec(s: &[char], p: &[char]) -> (r: Option<(Vec<char>, Vec<char>)>)
    ensures
        match r {
            Some((a, b)) => split_once(s@, p@) == Some((a@, b@)),
            None => split_once(s@, p@) is None,
        },
{
    let n: usize = s.len();
    assert(s@.subrange(0, s@.len() as int) =~= s@);
    match find_from(s, p, 0) {
        Some(i) => {
            proof {
                let k = find(s@, p@)->0;
                assert(is_first_match(s@, p@, k));
            }
            let a = slice_of(s, 0, i);
            let b = slice_of(s, i + p.len(), n);
            Some((a, b))
        },
        None => None,
    }
}

/// Parses one header line.
fn parse_header(line: &[char], sep: &[char]) -> (r: Option<Header>)
    requires
        sep@ == header_separator(),
    ensures
        match r {
            Some(h) => header_of(line@) == Some(h@),
            None => header_of(line@) is None,
        },
{
    match split_once_exec(line, sep) {
        Some((k, v)) => Some(Header { key: string_of(k.as_slice()), value: string_of(v.as_slice()) }),
        None => None,
    }
}

/// Parses a request from its text: the first line gives the method, the
/// target and the version; the lines up to the first blank line are headers;
/// the rest is the body.
pub fn parse_str_to_request(request: &str) -> (r: Result<Request, ParseError>)
    ensures
        parsed_view(r) == parse_text(request@),
{
    let t = chars_of(request);
    let line_break = crlf_exec();
    let (line, rest) = match split_once_exec(t.as_slice(), line_break.as_slice()) {
        Some(parts) => parts,
        None => {
            return Err(ParseError::MalformedRequestLine);
        },
    };
    let mut space: Vec<char> = Vec::new();
    space.push(' ');
    assert(space@ =~= seq![' ']);
    let tokens = split_all_exec(line.as_slice(), space.as_slice());
    if tokens.len() < 3 {
        return Err(ParseError::MalformedRequestLine);
    }
    let blank = blank_line_exec();
    let (block, body) = match split_once_exec(rest.as_slice(), blank.as_slice()) {
        Some(parts) => parts,
        None => {
            return Err(ParseError::MissingBodyDelimiter);
        },
    };
    let lines: Vec<Vec<char>> = if block.len() == 0 {
        let empty: Vec<Vec<char>> = Vec::new();
        assert(views(empty@) =~= header_lines(block@));
        empty
    } else {
        split_all_exec(block.as_slice(), line_break.as_slice())
    };
    let ghost ls = views(lines@);
    let sep = header_separator_exec();
    let mut headers: Vec<Header> = Vec::new();
    let mut k: usize = 0;
    while k < lines.len()
        invariant
            k <= lines@.len(),
            ls == views(lines@),
            ls == header_lines(block@),
            sep@ == header_separator(),
            split_once(request@, crlf()) == Some((line@, rest@)),
            views(tokens@) == request_tokens(line@),
            tokens@.len() >= 3,
            split_once(rest@, blank_line()) == Some((block@, body@)),
            forall|m: int| 0 <= m < k ==> header_of(#[trigger] ls[m]) is Some,
            headers_view(headers@) == ls.subrange(0, k as int).map_values(
                |l: Seq<char>| header_parts(l),
            ),
        decreases lines@.len() - k,
    {
        assert(ls[k as int] == lines@[k as int]@);
        match parse_header(lines[k].as_slice(), sep.as_slice()) {
            Some(h) => {
                assert(header_parts(ls[k as int]) == h@);
                let ghost before = headers@;
                headers.push(h);
                assert(headers_view(headers@) =~= headers_view(before).push(h@));
            },
            None => {
                let ghost lines_model = header_lines(block@);
                assert(header_of(lines_model[k as int]) is None);
                assert(exists|m: int|
                    0 <= m < lines_model.len() && header_of(lines_model[m]) is None);
                return Err(ParseError::MalformedHeader);
            },
        }
        k = k + 1;
        assert(headers_view(headers@) =~= ls.subrange(0, k as int).map_values(
            |l: Seq<char>| header_parts(l),
        ));
    }
    assert(ls.subrange(0, k as int) =~= ls);
    let method = string_of(tokens[0].as_slice());
    let target = string_of(tokens[1].as_slice());
    let version = string_of(tokens[2].as_slice());
    let request_line = RequestLine { method, target, version };
    let r = Request { request_line, headers, body: string_of(body.as_slice()) };
    assert(r@.headers =~= ls.map_values(|l: Seq<char>| header_parts(l)));
    Ok(r)
}

/// Parses a request from the bytes read off a connection; bytes that are not
/// valid UTF-8 are an `EncodingError`.
pub fn parse_request(raw: &[u8]) -> (r: Result<Request, ParseError>)
    ensures
        parsed_view(r) == parse_bytes(raw@),
{
    match text_of(raw) {
        Some(t) => parse_str_to_request(t),
        None => Err(ParseError::EncodingError),
    }
}

} // verus!
