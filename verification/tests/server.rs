//! End-to-end tests of the request/response pipeline, with the file
//! store simulated by an in-memory list of (name, content) pairs.

use http_server::handler::{
    dir_exists, file_exists, file_read_response, file_write_response, handle_bytes, plan_request,
    safe_name, HandleStep, Plan,
};
use http_server::request::{parse_http_request, HTTPMethod, ParseResult};
use http_server::router::{route, RouteMatch};
use http_server::response::{response_bad_request, response_ok_no_body};

/// Runs one handler step and expects an immediate response.
fn respond(input: &[u8], has_directory: bool) -> Vec<u8> {
    match handle_bytes(input, has_directory) {
        HandleStep::Respond(bytes) => bytes,
        _ => panic!("expected an immediate response"),
    }
}

#[test]
fn parse_get_root() {
    let input = b"GET / HTTP/1.1\r\nHost: localhost:4221\r\n\r\n";
    match parse_http_request(input) {
        ParseResult::Complete(req) => {
            assert_eq!(req.method, HTTPMethod::GET);
            assert_eq!(req.path, b"/".to_vec());
            assert_eq!(req.http_version, b"HTTP/1.1".to_vec());
            assert!(req.body.is_empty());
            assert_eq!(req.headers.len(), 1);
            assert_eq!(req.headers[0].name, b"Host".to_vec());
            assert_eq!(req.headers[0].value, b"localhost:4221".to_vec());
        }
        _ => panic!("expected a complete request"),
    }
}

#[test]
fn parse_incomplete_without_empty_line() {
    let input = b"GET / HTTP/1.1\r\nHost: x\r\n";
    assert!(matches!(parse_http_request(input), ParseResult::Incomplete));
}

#[test]
fn parse_malformed_request_line() {
    let input = b"GET /\r\n\r\n";
    assert!(matches!(parse_http_request(input), ParseResult::Malformed));
}

#[test]
fn parse_unknown_method_is_malformed() {
    let input = b"BREW / HTTP/1.1\r\n\r\n";
    assert!(matches!(parse_http_request(input), ParseResult::Malformed));
}

#[test]
fn parse_path_without_slash_is_malformed() {
    let input = b"GET nope HTTP/1.1\r\n\r\n";
    assert!(matches!(parse_http_request(input), ParseResult::Malformed));
}

#[test]
fn parse_post_body_by_content_length() {
    let input = b"POST /files/a.txt HTTP/1.1\r\nContent-Length: 5\r\n\r\nhello";
    match parse_http_request(input) {
        ParseResult::Complete(req) => {
            assert_eq!(req.method, HTTPMethod::POST);
            assert_eq!(req.body, b"hello".to_vec());
        }
        _ => panic!("expected a complete request"),
    }
}

#[test]
fn parse_post_short_body_is_incomplete() {
    let input = b"POST /files/a.txt HTTP/1.1\r\nContent-Length: 5\r\n\r\nhel";
    assert!(matches!(parse_http_request(input), ParseResult::Incomplete));
}

#[test]
fn parse_get_ignores_content_length() {
    let input = b"GET /echo/x HTTP/1.1\r\nContent-Length: 5\r\n\r\nhello";
    match parse_http_request(input) {
        ParseResult::Complete(req) => assert!(req.body.is_empty()),
        _ => panic!("expected a complete request"),
    }
}

#[test]
fn parse_put_body_by_content_length() {
    let input = b"PUT /files/a HTTP/1.1\r\nContent-Length: 2\r\n\r\nhi";
    match parse_http_request(input) {
        ParseResult::Complete(req) => {
            assert_eq!(req.method, HTTPMethod::PUT);
            assert_eq!(req.body, b"hi".to_vec());
        }
        _ => panic!("expected a complete request"),
    }
}

#[test]
fn parse_content_length_that_is_no_numeral_means_empty_body() {
    let input = b"POST /files/a HTTP/1.1\r\nContent-Length: abc\r\n\r\n";
    match parse_http_request(input) {
        ParseResult::Complete(req) => assert!(req.body.is_empty()),
        _ => panic!("expected a complete request"),
    }
}

#[test]
fn parse_header_without_colon_space_is_skipped() {
    let input = b"GET /user-agent HTTP/1.1\r\njunk-line\r\nUser-Agent: probe/2\r\n\r\n";
    let out = respond(input, false);
    let expected: &[u8] = b"HTTP/1.1 200 OK\r\nContent-Type: text/plain\r\nContent-Length: 7\r\n\r\nprobe/2";
    assert_eq!(out, expected.to_vec());
}

#[test]
fn method_new_reads_the_four_methods() {
    assert_eq!(HTTPMethod::new("GET"), Some(HTTPMethod::GET));
    assert_eq!(HTTPMethod::new("POST"), Some(HTTPMethod::POST));
    assert_eq!(HTTPMethod::new("PUT"), Some(HTTPMethod::PUT));
    assert_eq!(HTTPMethod::new("DELETE"), Some(HTTPMethod::DELETE));
    assert_eq!(HTTPMethod::new("get"), None);
    assert_eq!(HTTPMethod::new("HEAD"), None);
    assert_eq!(HTTPMethod::new(""), None);
}

#[test]
fn route_extracts_parameters() {
    assert!(matches!(route(HTTPMethod::GET, b"/"), RouteMatch::Root));
    match route(HTTPMethod::GET, b"/echo/xyz") {
        RouteMatch::Echo(text) => assert_eq!(text, b"xyz".to_vec()),
        _ => panic!("expected the echo route"),
    }
    assert!(matches!(route(HTTPMethod::GET, b"/user-agent"), RouteMatch::UserAgent));
    match route(HTTPMethod::GET, b"/files/report.txt") {
        RouteMatch::FileRead(name) => assert_eq!(name, b"report.txt".to_vec()),
        _ => panic!("expected the file-read route"),
    }
    match route(HTTPMethod::POST, b"/files/report.txt") {
        RouteMatch::FileWrite(name) => assert_eq!(name, b"report.txt".to_vec()),
        _ => panic!("expected the file-write route"),
    }
    assert!(matches!(route(HTTPMethod::GET, b"/nope"), RouteMatch::NoMatch));
    assert!(matches!(route(HTTPMethod::DELETE, b"/echo/x"), RouteMatch::NoMatch));
}

#[test]
fn echo_returns_the_text_with_its_byte_length() {
    let out = respond(b"GET /echo/abc HTTP/1.1\r\nHost: x\r\n\r\n", false);
    let expected: &[u8] = b"HTTP/1.1 200 OK\r\nContent-Type: text/plain\r\nContent-Length: 3\r\n\r\nabc";
    assert_eq!(out, expected.to_vec());
}

#[test]
fn echo_of_nothing_has_content_length_zero() {
    let out = respond(b"GET /echo/ HTTP/1.1\r\n\r\n", false);
    let expected: &[u8] = b"HTTP/1.1 200 OK\r\nContent-Type: text/plain\r\nContent-Length: 0\r\n\r\n";
    assert_eq!(out, expected.to_vec());
}

#[test]
fn echo_keeps_embedded_slashes_and_percents() {
    let out = respond(b"GET /echo/a/b%20c HTTP/1.1\r\n\r\n", false);
    let expected: &[u8] = b"HTTP/1.1 200 OK\r\nContent-Type: text/plain\r\nContent-Length: 7\r\n\r\na/b%20c";
    assert_eq!(out, expected.to_vec());
}

#[test]
fn echo_measures_multibyte_text_in_bytes() {
    let out = respond(b"GET /echo/h\xc3\xa9 HTTP/1.1\r\n\r\n", false);
    let expected: &[u8] = b"HTTP/1.1 200 OK\r\nContent-Type: text/plain\r\nContent-Length: 3\r\n\r\nh\xc3\xa9";
    assert_eq!(out, expected.to_vec());
}

#[test]
fn root_answers_ok_with_no_headers_and_no_body() {
    let out = respond(b"GET / HTTP/1.1\r\nHost: x\r\n\r\n", true);
    let expected: &[u8] = b"HTTP/1.1 200 OK\r\n\r\n";
    assert_eq!(out, expected.to_vec());
    assert!(!String::from_utf8_lossy(&out).contains("Content-Length"));
}

#[test]
fn user_agent_echoes_the_header_value() {
    let out = respond(b"GET /user-agent HTTP/1.1\r\nHost: x\r\nUser-Agent: foo/1.0\r\n\r\n", false);
    let expected: &[u8] = b"HTTP/1.1 200 OK\r\nContent-Type: text/plain\r\nContent-Length: 7\r\n\r\nfoo/1.0";
    assert_eq!(out, expected.to_vec());
}

#[test]
fn user_agent_absent_means_empty_body() {
    let out = respond(b"GET /user-agent HTTP/1.1\r\nHost: x\r\n\r\n", false);
    let expected: &[u8] = b"HTTP/1.1 200 OK\r\nContent-Type: text/plain\r\nContent-Length: 0\r\n\r\n";
    assert_eq!(out, expected.to_vec());
}

#[test]
fn user_agent_duplicate_keeps_the_last() {
    let out = respond(
        b"GET /user-agent HTTP/1.1\r\nUser-Agent: first\r\nUser-Agent: second\r\n\r\n",
        false,
    );
    let expected: &[u8] = b"HTTP/1.1 200 OK\r\nContent-Type: text/plain\r\nContent-Length: 6\r\n\r\nsecond";
    assert_eq!(out, expected.to_vec());
}

/// An in-memory stand-in for the file store: last write wins.
struct Store {
    files: Vec<(Vec<u8>, Vec<u8>)>,
}

impl Store {
    fn new() -> Store {
        Store { files: Vec::new() }
    }

    fn write(&mut self, name: Vec<u8>, content: Vec<u8>) {
        self.files.retain(|(n, _)| *n != name);
        self.files.push((name, content));
    }

    fn read(&self, name: &[u8]) -> Option<Vec<u8>> {
        self.files.iter().find(|(n, _)| n == name).map(|(_, c)| c.clone())
    }
}

/// Runs one request against a simulated store, as the connection
/// handler would.
fn serve(store: &mut Store, input: &[u8], has_directory: bool) -> Vec<u8> {
    match handle_bytes(input, has_directory) {
        HandleStep::NeedMore => panic!("request was complete"),
        HandleStep::Respond(bytes) => bytes,
        HandleStep::ReadFile(name) => file_read_response(store.read(&name)).to_bytes(),
        HandleStep::WriteFile(name, content) => {
            store.write(name, content);
            file_write_response(true).to_bytes()
        }
    }
}

#[test]
fn files_round_trip_returns_the_posted_bytes() {
    let mut store = Store::new();
    let posted = serve(
        &mut store,
        b"POST /files/report.txt HTTP/1.1\r\nContent-Length: 9\r\n\r\nnight: ok",
        true,
    );
    assert_eq!(posted, b"HTTP/1.1 201 Created\r\n\r\n".to_vec());
    let got = serve(&mut store, b"GET /files/report.txt HTTP/1.1\r\n\r\n", true);
    let expected: &[u8] = b"HTTP/1.1 200 OK\r\nContent-Type: application/octet-stream\r\nContent-Length: 9\r\n\r\nnight: ok";
    assert_eq!(got, expected.to_vec());
}

#[test]
fn files_repeat_post_overwrites_and_still_creates() {
    let mut store = Store::new();
    serve(&mut store, b"POST /files/r HTTP/1.1\r\nContent-Length: 3\r\n\r\nold", true);
    let second = serve(&mut store, b"POST /files/r HTTP/1.1\r\nContent-Length: 3\r\n\r\nnew", true);
    assert_eq!(second, b"HTTP/1.1 201 Created\r\n\r\n".to_vec());
    let got = serve(&mut store, b"GET /files/r HTTP/1.1\r\n\r\n", true);
    let expected: &[u8] = b"HTTP/1.1 200 OK\r\nContent-Type: application/octet-stream\r\nContent-Length: 3\r\n\r\nnew";
    assert_eq!(got, expected.to_vec());
}

#[test]
fn files_missing_in_configured_directory_is_not_found() {
    let mut store = Store::new();
    let got = serve(&mut store, b"GET /files/missing.txt HTTP/1.1\r\n\r\n", true);
    assert_eq!(got, b"HTTP/1.1 404 Not Found\r\n\r\n".to_vec());
}

#[test]
fn files_without_directory_is_not_found() {
    let got = respond(b"GET /files/anything HTTP/1.1\r\n\r\n", false);
    assert_eq!(got, b"HTTP/1.1 404 Not Found\r\n\r\n".to_vec());
}

#[test]
fn files_post_without_directory_is_not_found() {
    let got = respond(b"POST /files/a HTTP/1.1\r\nContent-Length: 2\r\n\r\nhi", false);
    assert_eq!(got, b"HTTP/1.1 404 Not Found\r\n\r\n".to_vec());
}

#[test]
fn unknown_path_is_not_found() {
    let got = respond(b"GET /nope HTTP/1.1\r\nHost: x\r\n\r\n", true);
    assert_eq!(got, b"HTTP/1.1 404 Not Found\r\n\r\n".to_vec());
}

#[test]
fn unknown_method_on_known_path_is_not_found() {
    let got = respond(b"DELETE /echo/x HTTP/1.1\r\n\r\n", true);
    assert_eq!(got, b"HTTP/1.1 404 Not Found\r\n\r\n".to_vec());
}

#[test]
fn put_on_files_is_not_found() {
    let got = respond(b"PUT /files/a HTTP/1.1\r\nContent-Length: 2\r\n\r\nhi", true);
    assert_eq!(got, b"HTTP/1.1 404 Not Found\r\n\r\n".to_vec());
}

#[test]
fn traversal_names_are_rejected() {
    let got = respond(b"GET /files/../secret HTTP/1.1\r\n\r\n", true);
    assert_eq!(got, b"HTTP/1.1 404 Not Found\r\n\r\n".to_vec());
    let posted = respond(b"POST /files/a/../../b HTTP/1.1\r\nContent-Length: 2\r\n\r\nhi", true);
    assert_eq!(posted, b"HTTP/1.1 404 Not Found\r\n\r\n".to_vec());
    let absolute = respond(b"GET /files//etc/hosts HTTP/1.1\r\n\r\n", true);
    assert_eq!(absolute, b"HTTP/1.1 404 Not Found\r\n\r\n".to_vec());
}

#[test]
fn safe_name_policy() {
    assert!(safe_name(b"report.txt"));
    assert!(safe_name(b"a/b/c"));
    assert!(safe_name(b"..a/b.."));
    assert!(!safe_name(b""));
    assert!(!safe_name(b"/etc/hosts"));
    assert!(!safe_name(b"../x"));
    assert!(!safe_name(b"a/../x"));
    assert!(!safe_name(b"a/.."));
}

#[test]
fn malformed_bytes_answer_bad_request() {
    let got = respond(b"nonsense\r\n\r\n", true);
    assert_eq!(got, b"HTTP/1.1 400 Bad Request\r\n\r\n".to_vec());
    assert_eq!(response_bad_request().to_bytes(), b"HTTP/1.1 400 Bad Request\r\n\r\n".to_vec());
}

#[test]
fn write_failure_answers_server_error() {
    let bytes = file_write_response(false).to_bytes();
    assert_eq!(bytes, b"HTTP/1.1 500 Internal Server Error\r\n\r\n".to_vec());
}

#[test]
fn plan_decides_without_touching_any_store() {
    let input = b"GET /files/report.txt HTTP/1.1\r\n\r\n";
    match parse_http_request(input) {
        ParseResult::Complete(req) => {
            match plan_request(&req, true) {
                Plan::ReadFile(name) => assert_eq!(name, b"report.txt".to_vec()),
                _ => panic!("expected a file read"),
            }
            match plan_request(&req, false) {
                Plan::Respond(resp) => assert_eq!(resp.status, 404),
                _ => panic!("expected an immediate response"),
            }
        }
        _ => panic!("expected a complete request"),
    }
}

#[test]
fn response_ok_no_body_serializes_exactly() {
    assert_eq!(response_ok_no_body().to_bytes(), b"HTTP/1.1 200 OK\r\n\r\n".to_vec());
}

#[test]
fn many_echoes_each_get_their_own_body() {
    let texts = ["alpha", "beta", "gamma", "delta-0123456789", "", "x/y"];
    let mut outputs = Vec::new();
    for t in texts.iter() {
        let input = format!("GET /echo/{} HTTP/1.1\r\nHost: x\r\n\r\n", t);
        outputs.push(respond(input.as_bytes(), false));
    }
    for (t, out) in texts.iter().zip(outputs.iter()) {
        let expected = format!(
            "HTTP/1.1 200 OK\r\nContent-Type: text/plain\r\nContent-Length: {}\r\n\r\n{}",
            t.len(),
            t
        );
        assert_eq!(out, &expected.into_bytes());
    }
}

#[test]
fn existence_probes_see_the_filesystem() {
    assert!(dir_exists("/"));
    assert!(!file_exists("/"));
    assert!(!dir_exists("/no-such-directory-for-these-tests"));
    assert!(!file_exists("/no-such-file-for-these-tests"));
}
