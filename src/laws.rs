//! What holds of serving requests, over all inputs.
use vstd::prelude::*;

use crate::handler::{
    file_path, header_value, read_outcome, serve_spec, written_outcome, ActionModel,
};
use crate::parser::{
    blank_line, crlf, header_lines, header_of, header_parts, header_separator, parse_text,
    request_tokens, ParseError,
};
use crate::response::{
    bare_response, body_response, byte_len, decimal, digit, not_found_response, signed_decimal,
};
use crate::router::{route, segments, EndpointModel};
use crate::serializer::{header_line, join_headers, serialize, status_line_text};
use crate::text::{
    lemma_find_first, lemma_no_match, lemma_split_after, lemma_split_all_nonempty, lemma_split_at,
    lemma_split_count, lemma_split_none, is_first_match, matches_at, split_all, split_once,
};
use crate::wire::{HeaderModel, RequestModel, ResponseModel};

verus! {

/// A text without the character `c`.
pub open spec fn lacks(s: Seq<char>, c: char) -> bool {
    forall|k: int| 0 <= k < s.len() ==> s[k] != c
}

/// `"/" + name` has an empty segment and then `name`.
proof fn lemma_segments_one(name: Seq<char>)
    requires
        lacks(name, '/'),
    ensures
        segments(seq!['/'] + name) == seq![seq![], name],
{
    let empty = Seq::<char>::empty();
    assert(seq!['/'] + name =~= empty + seq!['/'] + name);
    lemma_split_after(empty, seq!['/'], name);
    lemma_no_match(name, seq!['/']);
    lemma_split_none(name, seq!['/']);
    assert(seq![empty] + seq![name] =~= seq![seq![], name]);
}

/// `"/" + name + "/" + rest` has an empty segment, `name`, and then the
/// segments of `rest`.
proof fn lemma_segments_two(name: Seq<char>, rest: Seq<char>)
    requires
        lacks(name, '/'),
    ensures
        segments(seq!['/'] + name + seq!['/'] + rest) == seq![seq![], name] + segments(rest),
{
    let empty = Seq::<char>::empty();
    let tail = name + seq!['/'] + rest;
    assert(seq!['/'] + name + seq!['/'] + rest =~= empty + seq!['/'] + tail);
    lemma_split_after(empty, seq!['/'], tail);
    lemma_split_after(name, seq!['/'], rest);
    assert(seq![empty] + (seq![name] + segments(rest)) =~= seq![seq![], name] + segments(rest));
}

/// The route of `/name/segment`, where neither part holds a slash.
proof fn lemma_segments_named(name: Seq<char>, segment: Seq<char>)
    requires
        lacks(name, '/'),
        lacks(segment, '/'),
    ensures
        segments(seq!['/'] + name + seq!['/'] + segment) == seq![seq![], name, segment],
{
    lemma_segments_two(name, segment);
    lemma_no_match(segment, seq!['/']);
    lemma_split_none(segment, seq!['/']);
    assert(seq![seq![], name] + seq![segment] =~= seq![seq![], name, segment]);
}

/// A request for `/` is answered `200 OK` with no headers and an empty body.
pub proof fn law_index(request: RequestModel, directory: Seq<char>)
    requires
        request.target == "/"@,
    ensures
        serve_spec(request, directory) == ActionModel::Reply(bare_response(200, "OK"@)),
        bare_response(200, "OK"@).status_code == 200,
        bare_response(200, "OK"@).headers.len() == 0,
        bare_response(200, "OK"@).body.len() == 0,
{
    reveal_strlit("/");
    assert(request.target =~= seq!['/'] + Seq::<char>::empty());
    lemma_segments_one(Seq::<char>::empty());
}

/// A request for `/echo/<s>`, where `s` holds no slash, is answered `200 OK`
/// with `s` as a plain-text body and its length in bytes.
pub proof fn law_echo(request: RequestModel, directory: Seq<char>, s: Seq<char>)
    requires
        request.target == "/echo/"@ + s,
        lacks(s, '/'),
    ensures
        serve_spec(request, directory) == ActionModel::Reply(body_response("text/plain"@, s)),
        body_response("text/plain"@, s).status_code == 200,
        body_response("text/plain"@, s).headers == seq![
            ("Content-Type"@, "text/plain"@),
            ("Content-Length"@, decimal(byte_len(s))),
        ],
        body_response("text/plain"@, s).body == s,
{
    reveal_strlit("/echo/");
    reveal_strlit("echo");
    let name = "echo"@;
    assert(request.target =~= seq!['/'] + name + seq!['/'] + s);
    lemma_segments_named(name, s);
}

/// `/user-agent` is routed to its endpoint.
proof fn lemma_route_user_agent(target: Seq<char>)
    requires
        target == "/user-agent"@,
    ensures
        route(target) == EndpointModel::UserAgent,
{
    reveal_strlit("/user-agent");
    reveal_strlit("user-agent");
    reveal_strlit("echo");
    let name = "user-agent"@;
    assert(target =~= seq!['/'] + name);
    lemma_segments_one(name);
    assert(name[0] != "echo"@[0]);
}

/// The value of the first header with a key is the one found.
proof fn lemma_header_value_first(headers: Seq<HeaderModel>, key: Seq<char>, i: int)
    requires
        0 <= i < headers.len(),
        headers[i].0 == key,
        forall|j: int| 0 <= j < i ==> headers[j].0 != key,
    ensures
        header_value(headers, key) == headers[i].1,
    decreases i,
{
    if i > 0 {
        lemma_header_value_first(headers.drop_first(), key, i - 1);
    }
}

/// Without a header of that key, the value found is empty.
proof fn lemma_header_value_absent(headers: Seq<HeaderModel>, key: Seq<char>)
    requires
        forall|j: int| 0 <= j < headers.len() ==> headers[j].0 != key,
    ensures
        header_value(headers, key).len() == 0,
    decreases headers.len(),
{
    if headers.len() > 0 {
        lemma_header_value_absent(headers.drop_first(), key);
    }
}

/// A request for `/user-agent` is answered `200 OK` with the value of its
/// first `User-Agent` header as the body.
pub proof fn law_user_agent(request: RequestModel, directory: Seq<char>, i: int)
    requires
        request.target == "/user-agent"@,
        0 <= i < request.headers.len(),
        request.headers[i].0 == "User-Agent"@,
        forall|j: int| 0 <= j < i ==> request.headers[j].0 != "User-Agent"@,
    ensures
        serve_spec(request, directory) == ActionModel::Reply(
            body_response("text/plain"@, request.headers[i].1),
        ),
        body_response("text/plain"@, request.headers[i].1).status_code == 200,
        body_response("text/plain"@, request.headers[i].1).body == request.headers[i].1,
{
    lemma_route_user_agent(request.target);
    lemma_header_value_first(request.headers, "User-Agent"@, i);
}

/// A request for `/user-agent` without a `User-Agent` header is answered
/// `200 OK` with an empty body.
pub proof fn law_user_agent_absent(request: RequestModel, directory: Seq<char>)
    requires
        request.target == "/user-agent"@,
        forall|j: int|
            0 <= j < request.headers.len() ==> request.headers[j].0 != "User-Agent"@,
    ensures
        serve_spec(request, directory) == ActionModel::Reply(
            body_response("text/plain"@, seq![]),
        ),
{
    lemma_route_user_agent(request.target);
    lemma_header_value_absent(request.headers, "User-Agent"@);
    assert(header_value(request.headers, "User-Agent"@) =~= seq![]);
}

/// `/files/<name>` is routed to the file `name`.
proof fn lemma_route_file(target: Seq<char>, name: Seq<char>)
    requires
        target == "/files/"@ + name,
        lacks(name, '/'),
    ensures
        route(target) == EndpointModel::File(name),
{
    reveal_strlit("/files/");
    reveal_strlit("files");
    reveal_strlit("echo");
    reveal_strlit("user-agent");
    let route_name = "files"@;
    assert(target =~= seq!['/'] + route_name + seq!['/'] + name);
    lemma_segments_named(route_name, name);
    assert(route_name[0] != "echo"@[0]);
    assert(route_name[0] != "user-agent"@[0]);
}

/// A file posted to `/files/<name>` is written, with the request's body, to
/// the path that a later `GET /files/<name>` reads; once read, those contents
/// come back as the body of a `200 OK`. Posting is answered `201 Created`.
pub proof fn law_file_round_trip(
    post: RequestModel,
    get: RequestModel,
    directory: Seq<char>,
    name: Seq<char>,
)
    requires
        post.method == "POST"@,
        get.method == "GET"@,
        post.target == "/files/"@ + name,
        get.target == "/files/"@ + name,
        lacks(name, '/'),
    ensures
        serve_spec(post, directory) == ActionModel::WriteFile(
            file_path(directory, name),
            post.body,
        ),
        serve_spec(get, directory) == ActionModel::ReadFile(file_path(directory, name)),
        written_outcome().status_code == 201,
        read_outcome(Some(post.body)).status_code == 200,
        read_outcome(Some(post.body)).body == post.body,
{
    reveal_strlit("GET");
    reveal_strlit("POST");
    lemma_route_file(post.target, name);
    lemma_route_file(get.target, name);
    assert(post.method[0] != "GET"@[0]);
}

/// A `GET /files/<name>` whose file cannot be read is answered `404 Not
/// Found` with no headers and an empty body.
pub proof fn law_missing_file(get: RequestModel, directory: Seq<char>, name: Seq<char>)
    requires
        get.method == "GET"@,
        get.target == "/files/"@ + name,
        lacks(name, '/'),
    ensures
        serve_spec(get, directory) == ActionModel::ReadFile(file_path(directory, name)),
        read_outcome(None) == not_found_response(),
        read_outcome(None).status_code == 404,
        read_outcome(None).headers.len() == 0,
        read_outcome(None).body.len() == 0,
{
    lemma_route_file(get.target, name);
}

/// A request whose first line has fewer than three words does not parse.
pub proof fn law_short_request_line(t: Seq<char>)
    requires
        split_once(t, crlf()) matches Some((line, _)) && request_tokens(line).len() < 3,
    ensures
        parse_text(t) == Err::<RequestModel, ParseError>(ParseError::MalformedRequestLine),
{
}

/// A target that does not start with `/` names no endpoint, so it is
/// answered `404 Not Found`.
pub proof fn law_target_without_slash(request: RequestModel, directory: Seq<char>)
    requires
        request.target.len() == 0 || request.target[0] != '/',
    ensures
        route(request.target) == EndpointModel::NotFound,
        serve_spec(request, directory) == ActionModel::Reply(not_found_response()),
{
    let t = request.target;
    let p = seq!['/'];
    if exists|i: int| is_first_match(t, p, i) {
        let i = choose|i: int| is_first_match(t, p, i);
        lemma_split_at(t, p, i);
        if i == 0 {
            assert(t.subrange(0, 1)[0] == t[0]);
        }
        assert(t.subrange(0, i).len() > 0);
    } else {
        assert(segments(t) == seq![t]);
    }
}

/// A header that reads back as it was written: no line break in it, and no
/// colon in its key.
pub open spec fn header_fits(h: HeaderModel) -> bool {
    lacks(h.0, '\r') && lacks(h.0, ':') && lacks(h.1, '\r')
}

/// A response whose text reads back as a request: its status line and its
/// headers hold no line break, and no header key holds a colon.
pub open spec fn reparses(r: ResponseModel) -> bool {
    lacks(r.version, '\r') && lacks(r.status_text, '\r') && forall|k: int|
        0 <= k < r.headers.len() ==> header_fits(#[trigger] r.headers[k])
}

/// Joining two texts without `c` gives a text without `c`.
proof fn lemma_lacks_concat(a: Seq<char>, b: Seq<char>, c: char)
    requires
        lacks(a, c),
        lacks(b, c),
    ensures
        lacks(a + b, c),
{
    assert forall|k: int| 0 <= k < (a + b).len() implies (a + b)[k] != c by {
        if k >= a.len() {
            assert((a + b)[k] == b[k - a.len()]);
        }
    }
}

/// Decimal digits hold no carriage return.
proof fn lemma_decimal_digits(n: nat)
    ensures
        lacks(decimal(n), '\r'),
    decreases n,
{
    if n >= 10 {
        lemma_decimal_digits(n / 10);
        lemma_lacks_concat(decimal(n / 10), seq![digit(n % 10)], '\r');
        assert(decimal(n / 10).push(digit(n % 10)) =~= decimal(n / 10) + seq![digit(n % 10)]);
    }
}

/// A status line that reads back holds no carriage return and at least
/// three words.
proof fn lemma_status_line(r: ResponseModel)
    requires
        reparses(r),
    ensures
        lacks(status_line_text(r), '\r'),
        request_tokens(status_line_text(r)).len() >= 3,
{
    let d = signed_decimal(r.status_code);
    if r.status_code < 0 {
        lemma_decimal_digits((-r.status_code) as nat);
        lemma_lacks_concat(seq!['-'], decimal((-r.status_code) as nat), '\r');
    } else {
        lemma_decimal_digits(r.status_code as nat);
    }
    let sp = seq![' '];
    lemma_lacks_concat(r.version, sp, '\r');
    lemma_lacks_concat(r.version + sp, d, '\r');
    lemma_lacks_concat(r.version + sp + d, sp, '\r');
    lemma_lacks_concat(r.version + sp + d + sp, r.status_text, '\r');
    let tail = d + sp + r.status_text;
    assert(status_line_text(r) =~= r.version + sp + tail);
    lemma_split_count(r.version, ' ', tail);
    lemma_split_count(d, ' ', r.status_text);
    lemma_split_all_nonempty(r.status_text, sp);
}

/// A header line that reads back splits into its key and value.
proof fn lemma_header_line(h: HeaderModel)
    requires
        header_fits(h),
    ensures
        lacks(header_line(h), '\r'),
        header_line(h).len() >= 2,
        header_line(h)[0] != '\r',
        header_of(header_line(h)) == Some(h),
{
    lemma_lacks_concat(h.0, header_separator(), '\r');
    lemma_lacks_concat(h.0 + header_separator(), h.1, '\r');
    lemma_split_after(h.0, header_separator(), h.1);
}

/// A match after a prefix is a match in what follows it.
proof fn lemma_match_shift(a: Seq<char>, b: Seq<char>, p: Seq<char>, j: int)
    requires
        j >= a.len(),
    ensures
        matches_at(a + b, p, j) == matches_at(b, p, j - a.len()),
{
    if matches_at(a + b, p, j) {
        assert((a + b).subrange(j, j + p.len()) =~= b.subrange(j - a.len(), j - a.len() + p.len()));
    }
    if matches_at(b, p, j - a.len()) {
        assert((a + b).subrange(j, j + p.len()) =~= b.subrange(j - a.len(), j - a.len() + p.len()));
    }
}

/// No blank line starts inside a line without a carriage return.
proof fn lemma_no_blank_in_line(line: Seq<char>, x: Seq<char>)
    requires
        lacks(line, '\r'),
    ensures
        forall|j: int| 0 <= j < line.len() ==> !matches_at(line + x, blank_line(), j),
{
    assert forall|j: int| 0 <= j < line.len() implies !matches_at(line + x, blank_line(), j) by {
        if matches_at(line + x, blank_line(), j) {
            assert((line + x).subrange(j, j + 4)[0] == (line + x)[j]);
        }
    }
}

/// No blank line starts in `line + "\r\n" + rest` before `rest`'s first `m`
/// characters end, where `rest` does not start with a carriage return and
/// none starts in those characters.
proof fn lemma_no_blank_across(line: Seq<char>, rest: Seq<char>, m: int)
    requires
        lacks(line, '\r'),
        0 < m <= rest.len(),
        rest[0] != '\r',
        forall|j: int| 0 <= j < m ==> !matches_at(rest, blank_line(), j),
    ensures
        forall|j: int|
            0 <= j < line.len() + 2 + m ==> !matches_at(line + crlf() + rest, blank_line(), j),
{
    let head = line + crlf();
    let s = head + rest;
    lemma_no_blank_in_line(line, crlf() + rest);
    assert(line + (crlf() + rest) =~= s);
    assert forall|j: int| 0 <= j < line.len() + 2 + m implies !matches_at(s, blank_line(), j) by {
        if j >= head.len() {
            lemma_match_shift(head, rest, blank_line(), j);
        } else if j >= line.len() && matches_at(s, blank_line(), j) {
            let w = s.subrange(j, j + 4);
            assert(w[0] == s[j]);
            assert(w[2] == s[j + 2]);
            if j == line.len() {
                assert(s[j + 2] == rest[0]);
            }
        }
    }
}

/// The joined lines of at least one header start with the first one's key.
proof fn lemma_join_start(hs: Seq<HeaderModel>)
    requires
        hs.len() > 0,
        header_fits(hs[0]),
    ensures
        join_headers(hs).len() >= 2,
        join_headers(hs)[0] != '\r',
        hs.len() == 1 ==> join_headers(hs) == header_line(hs[0]),
        hs.len() > 1 ==> join_headers(hs) == header_line(hs[0]) + crlf() + join_headers(
            hs.drop_first(),
        ),
{
    lemma_header_line(hs[0]);
    if hs.len() > 1 {
        let first = header_line(hs[0]);
        assert((first + crlf() + join_headers(hs.drop_first()))[0] == first[0]);
    }
}

/// The headers after the first still read back.
proof fn lemma_tail_fits(hs: Seq<HeaderModel>)
    requires
        hs.len() > 0,
        forall|k: int| 0 <= k < hs.len() ==> header_fits(#[trigger] hs[k]),
    ensures
        forall|k: int| 0 <= k < hs.drop_first().len() ==> header_fits(#[trigger] hs.drop_first()[k]),
{
    assert forall|k: int| 0 <= k < hs.drop_first().len() implies header_fits(
        #[trigger] hs.drop_first()[k],
    ) by {
        assert(hs.drop_first()[k] == hs[k + 1]);
    }
}

/// In the joined header lines, and whatever follows them, no blank line
/// starts before their end.
proof fn lemma_join_no_blank(hs: Seq<HeaderModel>, x: Seq<char>)
    requires
        forall|k: int| 0 <= k < hs.len() ==> header_fits(#[trigger] hs[k]),
    ensures
        forall|j: int|
            0 <= j < join_headers(hs).len() ==> !matches_at(join_headers(hs) + x, blank_line(), j),
    decreases hs.len(),
{
    if hs.len() > 0 {
        assert(header_fits(hs[0]));
        lemma_join_start(hs);
        lemma_header_line(hs[0]);
        let first = header_line(hs[0]);
        if hs.len() == 1 {
            lemma_no_blank_in_line(first, x);
        } else {
            let tail = hs.drop_first();
            let rest = join_headers(tail);
            lemma_tail_fits(hs);
            assert(header_fits(tail[0]));
            lemma_join_start(tail);
            lemma_join_no_blank(tail, x);
            assert((rest + x)[0] == rest[0]);
            lemma_no_blank_across(first, rest + x, rest.len() as int);
            assert(join_headers(hs) + x =~= first + crlf() + (rest + x));
        }
    }
}

/// The lines of headers.
pub open spec fn lines_of(hs: Seq<HeaderModel>) -> Seq<Seq<char>> {
    hs.map_values(|h: HeaderModel| header_line(h))
}

/// The lines of headers start with the first header's line.
proof fn lemma_lines_of_cons(hs: Seq<HeaderModel>)
    requires
        hs.len() > 0,
    ensures
        lines_of(hs) == seq![header_line(hs[0])] + lines_of(hs.drop_first()),
{
    assert(lines_of(hs) =~= seq![header_line(hs[0])] + lines_of(hs.drop_first()));
}

/// The joined header lines split back into the lines.
proof fn lemma_join_lines(hs: Seq<HeaderModel>)
    requires
        hs.len() > 0,
        forall|k: int| 0 <= k < hs.len() ==> header_fits(#[trigger] hs[k]),
    ensures
        split_all(join_headers(hs), crlf()) == lines_of(hs),
    decreases hs.len(),
{
    assert(header_fits(hs[0]));
    lemma_join_start(hs);
    lemma_header_line(hs[0]);
    let first = header_line(hs[0]);
    lemma_lines_of_cons(hs);
    assert(crlf()[0] == '\r');
    if hs.len() == 1 {
        lemma_no_match(first, crlf());
        lemma_split_none(first, crlf());
        assert(lines_of(hs.drop_first()) =~= seq![]);
        assert(seq![first] + Seq::<Seq<char>>::empty() =~= seq![first]);
    } else {
        let tail = hs.drop_first();
        lemma_tail_fits(hs);
        lemma_join_lines(tail);
        lemma_split_after(first, crlf(), join_headers(tail));
    }
}

/// The blank line after the joined headers is the first one.
proof fn lemma_block_split(hs: Seq<HeaderModel>, body: Seq<char>)
    requires
        forall|k: int| 0 <= k < hs.len() ==> header_fits(#[trigger] hs[k]),
    ensures
        split_once(join_headers(hs) + blank_line() + body, blank_line()) == Some(
            (join_headers(hs), body),
        ),
{
    let joined = join_headers(hs);
    let rest = joined + blank_line() + body;
    lemma_join_no_blank(hs, blank_line() + body);
    assert(rest =~= joined + (blank_line() + body));
    assert(rest.subrange(joined.len() as int, joined.len() + 4int) =~= blank_line());
    assert(is_first_match(rest, blank_line(), joined.len() as int));
    lemma_find_first(rest, blank_line(), joined.len() as int);
    assert(rest.subrange(0, joined.len() as int) =~= joined);
    assert(rest.subrange(joined.len() + 4int, rest.len() as int) =~= body);
}

/// The joined headers parse back into the headers.
proof fn lemma_headers_parse(hs: Seq<HeaderModel>)
    requires
        forall|k: int| 0 <= k < hs.len() ==> header_fits(#[trigger] hs[k]),
    ensures
        forall|k: int|
            0 <= k < header_lines(join_headers(hs)).len() ==> header_of(
                #[trigger] header_lines(join_headers(hs))[k],
            ) is Some,
        header_lines(join_headers(hs)).map_values(|l: Seq<char>| header_parts(l)) == hs,
{
    let lines = header_lines(join_headers(hs));
    if hs.len() == 0 {
        assert(lines =~= seq![]);
    } else {
        lemma_join_lines(hs);
        lemma_join_start(hs);
        assert(lines == lines_of(hs));
    }
    assert(lines.len() == hs.len());
    assert forall|k: int| 0 <= k < lines.len() implies header_of(#[trigger] lines[k]) == Some(
        hs[k],
    ) by {
        assert(header_fits(hs[k]));
        lemma_header_line(hs[k]);
    }
    assert(lines.map_values(|l: Seq<char>| header_parts(l)) =~= hs);
}

/// The text of a response whose status line and headers hold no line break,
/// and whose header keys hold no colon, parses back with the same headers and
/// the same body.
pub proof fn law_serialize_round_trip(r: ResponseModel)
    requires
        reparses(r),
    ensures
        parse_text(serialize(r)) matches Ok(q) && q.headers == r.headers && q.body == r.body,
{
    let line = status_line_text(r);
    let joined = join_headers(r.headers);
    let rest = joined + blank_line() + r.body;
    lemma_status_line(r);
    assert(serialize(r) =~= line + crlf() + rest);
    lemma_split_after(line, crlf(), rest);
    lemma_block_split(r.headers, r.body);
    lemma_headers_parse(r.headers);
}

} // verus!
