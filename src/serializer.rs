//! Writes a `Response` out as the text sent on the wire.
use vstd::prelude::*;

use crate::conv::{chars_of, string_of};
use crate::parser::{blank_line, crlf, header_separator};
use crate::response::{push_signed_decimal, signed_decimal};
use crate::wire::{HeaderModel, Response, ResponseModel};

verus! {

/// A header as a line: `key: value`.
pub open spec fn header_line(h: HeaderModel) -> Seq<char> {
    h.0 + header_separator() + h.1
}

/// The header lines, joined by line breaks.
pub open spec fn join_headers(hs: Seq<HeaderModel>) -> Seq<char>
    decreases hs.len(),
{
    if hs.len() == 0 {
        seq![]
    } else if hs.len() == 1 {
        header_line(hs[0])
    } else {
        header_line(hs[0]) + crlf() + join_headers(hs.drop_first())
    }
}

/// The status line of a response, without its line break.
pub open spec fn status_line_text(r: ResponseModel) -> Seq<char> {
    r.version + seq![' '] + signed_decimal(r.status_code) + seq![' '] + r.status_text
}

/// The text of a response: its status line, its headers, a blank line, and
/// its body.
pub open spec fn serialize(r: ResponseModel) -> Seq<char> {
    status_line_text(r) + crlf() + join_headers(r.headers) + blank_line() + r.body
}

/// Adding a header at the end adds a line break and its line.
pub proof fn lemma_join_push(hs: Seq<HeaderModel>, h: HeaderModel)
    requires
        hs.len() >= 1,
    ensures
        join_headers(hs.push(h)) == join_headers(hs) + crlf() + header_line(h),
    decreases hs.len(),
{
    if hs.len() == 1 {
        assert(hs.push(h).drop_first() =~= seq![h]);
        assert(join_headers(hs.push(h).drop_first()) == header_line(h));
        assert(join_headers(hs.push(h)) =~= join_headers(hs) + crlf() + header_line(h));
    } else {
        assert(hs.push(h).drop_first() =~= hs.drop_first().push(h));
        lemma_join_push(hs.drop_first(), h);
        assert(join_headers(hs.push(h)) =~= join_headers(hs) + crlf() + header_line(h));
    }
}

fn push_all(out: &mut Vec<char>, s: &[char])
    ensures
        final(out)@ == old(out)@ + s@,
{
    let mut i: usize = 0;
    while i < s.len()
        invariant
            i <= s@.len(),
            out@ == old(out)@ + s@.subrange(0, i as int),
        decreases s@.len() - i,
    {
        out.push(s[i]);
        i = i + 1;
        assert(out@ =~= old(out)@ + s@.subrange(0, i as int));
    }
    assert(s@.subrange(0, i as int) =~= s@);
}

fn push_str(out: &mut Vec<char>, s: &str)
    ensures
        final(out)@ == old(out)@ + s@,
{
    let cs = chars_of(s);
    push_all(out, cs.as_slice());
}

/// The text of a response, as it is written to the connection.
pub fn parse_response_to_str(response: Response) -> (r: String)
    ensures
        r@ == serialize(response@),
{
    let ghost m = response@;
    let mut out: Vec<char> = Vec::new();
    push_str(&mut out, response.status_line.version.as_str());
    out.push(' ');
    push_signed_decimal(&mut out, response.status_line.status_code);
    out.push(' ');
    push_str(&mut out, response.status_line.status_text.as_str());
    assert(out@ =~= status_line_text(m));
    out.push('\r');
    out.push('\n');
    assert(out@ =~= status_line_text(m) + crlf());
    let ghost head = out@;
    let mut i: usize = 0;
    while i < response.headers.len()
        invariant
            i <= m.headers.len(),
            m == response@,
            out@ == head + join_headers(m.headers.subrange(0, i as int)),
        decreases m.headers.len() - i,
    {
        let h = &response.headers[i];
        assert(m.headers[i as int] == h@);
        let ghost before = out@;
        if i > 0 {
            out.push('\r');
            out.push('\n');
        }
        push_str(&mut out, h.key.as_str());
        out.push(':');
        out.push(' ');
        push_str(&mut out, h.value.as_str());
        proof {
            let prefix = m.headers.subrange(0, i as int);
            assert(m.headers.subrange(0, i + 1) =~= prefix.push(h@));
            if i > 0 {
                lemma_join_push(prefix, h@);
                assert(out@ =~= before + crlf() + header_line(h@));
            } else {
                assert(prefix.push(h@) =~= seq![h@]);
                assert(out@ =~= before + header_line(h@));
            }
        }
        i = i + 1;
    }
    assert(m.headers.subrange(0, i as int) =~= m.headers);
    out.push('\r');
    out.push('\n');
    out.push('\r');
    out.push('\n');
    push_str(&mut out, response.body.as_str());
    assert(out@ =~= serialize(m));
    string_of(out.as_slice())
}

} // verus!
