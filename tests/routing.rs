use http_server::router::{parse_target, Endpoint};

fn route(t: &str) -> Endpoint {
    parse_target(t.to_string())
}

#[test]
fn root_is_index() {
    assert_eq!(route("/"), Endpoint::Index);
}

#[test]
fn echo_takes_next_segment() {
    assert_eq!(route("/echo/abc"), Endpoint::Echo("abc".to_string()));
    assert_eq!(route("/echo/a/b"), Endpoint::Echo("a".to_string()));
    assert_eq!(route("/echo/"), Endpoint::Echo(String::new()));
}

#[test]
fn echo_without_segment_is_not_found() {
    assert_eq!(route("/echo"), Endpoint::NotFound);
}

#[test]
fn user_agent_ignores_further_segments() {
    assert_eq!(route("/user-agent"), Endpoint::UserAgent);
    assert_eq!(route("/user-agent/x"), Endpoint::UserAgent);
}

#[test]
fn files_takes_next_segment() {
    assert_eq!(route("/files/foo.txt"), Endpoint::File("foo.txt".to_string()));
    assert_eq!(route("/files"), Endpoint::NotFound);
}

#[test]
fn unknown_route_is_not_found() {
    assert_eq!(route("/other"), Endpoint::NotFound);
    assert_eq!(route("/Echo/x"), Endpoint::NotFound);
}

#[test]
fn target_without_leading_slash_is_not_found() {
    assert_eq!(route("index.html"), Endpoint::NotFound);
    assert_eq!(route("echo/abc"), Endpoint::NotFound);
    assert_eq!(route(""), Endpoint::NotFound);
}
