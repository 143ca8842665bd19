use http_server::handler::{
    file_read_response, file_written_response, handle, plan_request, serve, user_agent, Action,
};
use http_server::parser::{parse_str_to_request, ParseError};
use http_server::response::{not_found, respond, respond_with_body};
use http_server::router::Endpoint;
use std::collections::HashMap;

fn serve_text(text: &str, directory: &str) -> Action {
    serve(&parse_str_to_request(text).unwrap(), directory)
}

#[test]
fn index_is_ok_and_empty() {
    let action = serve_text("GET / HTTP/1.1\r\nHost: x\r\n\r\n", "/");
    assert_eq!(action, Action::Reply(respond(200, "OK")));
    match action {
        Action::Reply(r) => {
            assert_eq!(r.status_line.status_code, 200);
            assert!(r.headers.is_empty());
            assert_eq!(r.body, "");
        }
        _ => panic!("expected a reply"),
    }
}

#[test]
fn echo_returns_segment() {
    let action = serve_text("GET /echo/banana HTTP/1.1\r\nHost: x\r\n\r\n", "/");
    match action {
        Action::Reply(r) => {
            assert_eq!(r.status_line.status_code, 200);
            assert_eq!(r.headers[0].key, "Content-Type");
            assert_eq!(r.headers[0].value, "text/plain");
            assert_eq!(r.headers[1].key, "Content-Length");
            assert_eq!(r.headers[1].value, "6");
            assert_eq!(r.body, "banana");
        }
        _ => panic!("expected a reply"),
    }
}

#[test]
fn user_agent_returns_first_header_value() {
    let text = "GET /user-agent HTTP/1.1\r\nHost: x\r\nUser-Agent: first/1\r\nUser-Agent: second/2\r\n\r\n";
    let request = parse_str_to_request(text).unwrap();
    assert_eq!(user_agent(&request), "first/1");
    assert_eq!(
        serve(&request, "/"),
        Action::Reply(respond_with_body("text/plain", "first/1".to_string()))
    );
}

#[test]
fn user_agent_key_is_matched_exactly() {
    let text = "GET /user-agent HTTP/1.1\r\nuser-agent: lower\r\n\r\n";
    let request = parse_str_to_request(text).unwrap();
    assert_eq!(user_agent(&request), "");
}

#[test]
fn user_agent_absent_gives_empty_body() {
    let action = serve_text("GET /user-agent HTTP/1.1\r\nHost: x\r\n\r\n", "/");
    assert_eq!(action, Action::Reply(respond_with_body("text/plain", String::new())));
}

#[test]
fn get_file_reads_under_directory() {
    let action = serve_text("GET /files/notes.txt HTTP/1.1\r\nHost: x\r\n\r\n", "/tmp/data/");
    assert_eq!(action, Action::ReadFile("/tmp/data/notes.txt".to_string()));
}

#[test]
fn post_file_writes_body() {
    let action = serve_text("POST /files/new.txt HTTP/1.1\r\nHost: x\r\n\r\ncontents", "/srv/");
    assert_eq!(action, Action::WriteFile("/srv/new.txt".to_string(), "contents".to_string()));
}

#[test]
fn other_method_on_file_is_not_found() {
    let action = serve_text("PUT /files/new.txt HTTP/1.1\r\nHost: x\r\n\r\n", "/srv/");
    assert_eq!(action, Action::Reply(not_found()));
}

#[test]
fn unknown_route_is_404() {
    let action = serve_text("GET /nowhere HTTP/1.1\r\nHost: x\r\n\r\n", "/");
    assert_eq!(action, Action::Reply(not_found()));
    let action = serve_text("GET nowhere HTTP/1.1\r\nHost: x\r\n\r\n", "/");
    assert_eq!(action, Action::Reply(not_found()));
}

#[test]
fn read_file_outcomes() {
    let found = file_read_response(Some("abc".to_string()));
    assert_eq!(found.status_line.status_code, 200);
    assert_eq!(found.headers[0].value, "application/octet-stream");
    assert_eq!(found.headers[1].value, "3");
    assert_eq!(found.body, "abc");
    let missing = file_read_response(None);
    assert_eq!(missing.status_line.status_code, 404);
    assert!(missing.headers.is_empty());
    assert_eq!(missing.body, "");
}

#[test]
fn written_file_is_created() {
    let r = file_written_response();
    assert_eq!(r.status_line.status_code, 201);
    assert_eq!(r.status_line.status_text, "Created");
    assert!(r.headers.is_empty());
}

#[test]
fn handle_index_directly() {
    let request = parse_str_to_request("GET / HTTP/1.1\r\nHost: x\r\n\r\n").unwrap();
    assert_eq!(handle(Endpoint::Index, &request, "/"), Action::Reply(respond(200, "OK")));
    assert_eq!(handle(Endpoint::NotFound, &request, "/"), Action::Reply(not_found()));
}

fn run_with_files(files: &mut HashMap<String, String>, text: &str) -> http_server::wire::Response {
    match serve_text(text, "/data/") {
        Action::Reply(r) => r,
        Action::ReadFile(path) => file_read_response(files.get(&path).cloned()),
        Action::WriteFile(path, contents) => {
            files.insert(path, contents);
            file_written_response()
        }
    }
}

#[test]
fn posted_file_reads_back() {
    let mut files: HashMap<String, String> = HashMap::new();
    let written = run_with_files(&mut files, "POST /files/a.txt HTTP/1.1\r\nHost: x\r\n\r\nhello world");
    assert_eq!(written.status_line.status_code, 201);
    let read = run_with_files(&mut files, "GET /files/a.txt HTTP/1.1\r\nHost: x\r\n\r\n");
    assert_eq!(read.status_line.status_code, 200);
    assert_eq!(read.body, "hello world");
}

#[test]
fn missing_file_is_404() {
    let mut files: HashMap<String, String> = HashMap::new();
    let read = run_with_files(&mut files, "GET /files/none.txt HTTP/1.1\r\nHost: x\r\n\r\n");
    assert_eq!(read.status_line.status_code, 404);
    assert!(read.headers.is_empty());
    assert_eq!(read.body, "");
}

#[test]
fn plan_request_rejects_short_request_line() {
    let r = plan_request("GET\r\nHost: x\r\n\r\n".as_bytes(), "/");
    assert_eq!(r.unwrap_err(), ParseError::MalformedRequestLine);
}

#[test]
fn plan_request_serves_parsed_request() {
    let r = plan_request("GET /echo/hi HTTP/1.1\r\nHost: x\r\n\r\n".as_bytes(), "/");
    assert_eq!(r.unwrap(), Action::Reply(respond_with_body("text/plain", "hi".to_string())));
}
