//! What each endpoint does with a request.
use vstd::prelude::*;

use crate::conv::{chars_of, string_of};
use crate::parser::{parse_bytes, parse_request, ParseError};
use crate::response::{
    bare_response, body_response, not_found, not_found_response, respond, respond_with_body,
};
use crate::router::{parse_target, route, Endpoint, EndpointModel};
use crate::text::same_chars;
use crate::wire::{HeaderModel, Request, RequestModel, Response, ResponseModel};

verus! {

/// What serving a request takes: a response to send at once, or a file to
/// read or write first.
#[derive(Debug, Clone, PartialEq, Eq)]
pub enum Action {
    /// Send this response.
    Reply(Response),
    /// Read the file at this path; `file_read_response` gives the response.
    ReadFile(String),
    /// Write these contents to the file at this path; `file_written_response`
    /// gives the response.
    WriteFile(String, String),
}

/// What an action says, as text.
pub enum ActionModel {
    Reply(ResponseModel),
    ReadFile(Seq<char>),
    WriteFile(Seq<char>, Seq<char>),
}

impl View for Action {
    type V = ActionModel;

    open spec fn view(&self) -> ActionModel {
        match self {
            Action::Reply(r) => ActionModel::Reply(r@),
            Action::ReadFile(p) => ActionModel::ReadFile(p@),
            Action::WriteFile(p, c) => ActionModel::WriteFile(p@, c@),
        }
    }
}

/// The value of the first header with exactly this key, or empty text when
/// there is none.
pub open spec fn header_value(headers: Seq<HeaderModel>, key: Seq<char>) -> Seq<char>
    decreases headers.len(),
{
    if headers.len() == 0 {
        seq![]
    } else if headers[0].0 == key {
        headers[0].1
    } else {
        header_value(headers.drop_first(), key)
    }
}

/// The path of a requested file: the directory followed by its name.
pub open spec fn file_path(directory: Seq<char>, name: Seq<char>) -> Seq<char> {
    directory + name
}

/// What an endpoint does with a request.
pub open spec fn handle_spec(
    endpoint: EndpointModel,
    request: RequestModel,
    directory: Seq<char>,
) -> ActionModel {
    match endpoint {
        EndpointModel::Index => ActionModel::Reply(bare_response(200, "OK"@)),
        EndpointModel::Echo(s) => ActionModel::Reply(body_response("text/plain"@, s)),
        EndpointModel::UserAgent => ActionModel::Reply(
            body_response("text/plain"@, header_value(request.headers, "User-Agent"@)),
        ),
        EndpointModel::File(name) => if request.method == "GET"@ {
            ActionModel::ReadFile(file_path(directory, name))
        } else if request.method == "POST"@ {
            ActionModel::WriteFile(file_path(directory, name), request.body)
        } else {
            ActionModel::Reply(not_found_response())
        },
        EndpointModel::NotFound => ActionModel::Reply(not_found_response()),
    }
}

/// What serving a request takes: its target picks the endpoint, which then
/// handles it.
pub open spec fn serve_spec(request: RequestModel, directory: Seq<char>) -> ActionModel {
    handle_spec(route(request.target), request, directory)
}

/// The response once a requested file was read, or could not be.
pub open spec fn read_outcome(contents: Option<Seq<char>>) -> ResponseModel {
    match contents {
        Some(c) => body_response("application/octet-stream"@, c),
        None => not_found_response(),
    }
}

/// The response once a posted file was written.
pub open spec fn written_outcome() -> ResponseModel {
    bare_response(201, "Created"@)
}

/// The value of the first `User-Agent` header, or an empty string.
pub fn user_agent(request: &Request) -> (r: String)
    ensures
        r@ == header_value(request@.headers, "User-Agent"@),
{
    let key = chars_of("User-Agent");
    let ghost hs = request@.headers;
    let mut i: usize = 0;
    assert(hs.subrange(0, hs.len() as int) =~= hs);
    while i < request.headers.len()
        invariant
            i <= hs.len(),
            hs == request@.headers,
            key@ == "User-Agent"@,
            header_value(hs, key@) == header_value(hs.subrange(i as int, hs.len() as int), key@),
        decreases hs.len() - i,
    {
        let h = &request.headers[i];
        assert(hs[i as int] == h@);
        let ghost rest = hs.subrange(i as int, hs.len() as int);
        assert(rest[0] == h@);
        assert(rest.drop_first() =~= hs.subrange(i + 1, hs.len() as int));
        let k = chars_of(h.key.as_str());
        if same_chars(k.as_slice(), key.as_slice()) {
            return h.value.clone();
        }
        i = i + 1;
    }
    assert(hs.subrange(i as int, hs.len() as int).len() == 0);
    String::new()
}

/// What an endpoint does with a request. Files are looked up under
/// `directory`.
pub fn handle(endpoint: Endpoint, request: &Request, directory: &str) -> (r: Action)
    ensures
        r@ == handle_spec(endpoint@, request@, directory@),
{
    match endpoint {
        Endpoint::Index => Action::Reply(respond(200, "OK")),
        Endpoint::Echo(body) => Action::Reply(respond_with_body("text/plain", body)),
        Endpoint::UserAgent => Action::Reply(respond_with_body("text/plain", user_agent(request))),
        Endpoint::File(name) => {
            let mut path = chars_of(directory);
            let n = chars_of(name.as_str());
            let mut i: usize = 0;
            while i < n.len()
                invariant
                    i <= n@.len(),
                    path@ == directory@ + n@.subrange(0, i as int),
                decreases n@.len() - i,
            {
                path.push(n[i]);
                i = i + 1;
                assert(path@ =~= directory@ + n@.subrange(0, i as int));
            }
            assert(n@.subrange(0, i as int) =~= name@);
            let path = string_of(path.as_slice());
            let method = chars_of(request.request_line.method.as_str());
            if same_chars(method.as_slice(), chars_of("GET").as_slice()) {
                Action::ReadFile(path)
            } else if same_chars(method.as_slice(), chars_of("POST").as_slice()) {
                Action::WriteFile(path, request.body.clone())
            } else {
                Action::Reply(not_found())
            }
        },
        Endpoint::NotFound => Action::Reply(not_found()),
    }
}

/// What serving a request takes: the endpoint that its target names handles
/// it.
pub fn serve(request: &Request, directory: &str) -> (r: Action)
    ensures
        r@ == serve_spec(request@, directory@),
{
    let endpoint = parse_target(request.request_line.target.clone());
    handle(endpoint, request, directory)
}

/// The response once a requested file was read (`Some` with its contents), or
/// could not be read (`None`).
pub fn file_read_response(contents: Option<String>) -> (r: Response)
    ensures
        r@ == read_outcome(
            match contents {
                Some(c) => Some(c@),
                None => None,
            },
        ),
{
    match contents {
        Some(c) => respond_with_body("application/octet-stream", c),
        None => not_found(),
    }
}

/// The response once a posted file was written.
pub fn file_written_response() -> (r: Response)
    ensures
        r@ == written_outcome(),
{
    respond(201, "Created")
}

/// What serving the bytes read off a connection takes: `Err` when they hold no
/// request, and then nothing is to be written back.
pub fn plan_request(raw: &[u8], directory: &str) -> (r: Result<Action, ParseError>)
    ensures
        match parse_bytes(raw@) {
            Ok(q) => r matches Ok(a) && a@ == serve_spec(q, directory@),
            Err(e) => r == Err::<Action, ParseError>(e),
        },
{
    match parse_request(raw) {
        Ok(request) => Ok(serve(&request, directory)),
        Err(e) => Err(e),
    }
}

} // verus!
