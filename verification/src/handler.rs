//! The connection handler's decisions.
//!
//! For one parsed request, [`plan_request`] decides what happens next:
//! an immediate response, or a file read or write under the configured
//! directory.  The surrounding process carries the file action out and
//! hands its outcome to [`file_read_response`] or
//! [`file_write_response`] for the final response.  File names are
//! admitted only when they cannot escape the configured directory: no
//! leading `/`, no `..` segment.

use vstd::prelude::*;

use crate::request::{
    crlf, head_end_mark, parse_http_request, space, spec_body_len, spec_header_lookup,
    spec_headers_of, spec_method_of_bytes, spec_parse, HTTPMethod, HTTPRequest, ParseModel,
    ParseResult, ReqModel,
};
use crate::response::{
    bad_request_model, content_length_key, content_type_key, created_model, not_found_model,
    octet_model, ok_no_body_model, reason_ok, resp_wf, server_error_model, spec_response_bytes,
    status_line_start, text_model, text_plain, HTTPResponse, RespModel,
};
use crate::router::{echo_prefix, files_prefix, root_path, user_agent_path};
use crate::scan::{
    first_match_from, lemma_first_match_found, lemma_first_match_from, lemma_match_at_iff,
    match_at, numeral_of, spec_has_prefix,
};
use crate::response::{
    response_bad_request, response_created, response_not_found, response_octet,
    response_ok_no_body, response_server_error, response_text,
};
use crate::router::{route, spec_route, RouteMatch, RouteModel};
use crate::scan::{bytes_eq, copy_bytes, spec_split, split};

verus! {

/// A single `/`, separating the segments of a file name.
pub open spec fn slash() -> Seq<u8> {
    seq![47u8]
}

/// The bytes of `..`: the parent-directory segment.
pub open spec fn dotdot() -> Seq<u8> {
    seq![46u8, 46u8]
}

/// The bytes of the header name `User-Agent`.
pub open spec fn user_agent_name() -> Seq<u8> {
    seq![85u8, 115u8, 101u8, 114u8, 45u8, 65u8, 103u8, 101u8, 110u8, 116u8]
}

/// A file name that stays under the configured directory: nonempty,
/// not absolute, and without a `..` segment.
pub open spec fn spec_safe_name(name: Seq<u8>) -> bool {
    &&& name.len() > 0
    &&& name[0] != 47
    &&& forall|i: int|
        0 <= i < spec_split(name, slash()).len() ==> spec_split(name, slash())[i] != dotdot()
}

/// Whether a file name stays under the configured directory.
pub fn safe_name(name: &[u8]) -> (r: bool)
    ensures
        r == spec_safe_name(name@),
{
    if name.len() == 0 {
        return false;
    }
    if name[0] == 47 {
        return false;
    }
    let slash_v = vec![47u8];
    let dd = vec![46u8, 46u8];
    proof {
        assert(slash_v@ =~= slash());
        assert(dd@ =~= dotdot());
    }
    let segs = split(name, slash_v.as_slice());
    let ghost deep = segs.deep_view();
    let n = segs.len();
    proof {
        assert(deep.len() == segs@.len());
    }
    let mut i: usize = 0;
    while i < n
        invariant
            n == segs@.len(),
            i <= n,
            dd@ == dotdot(),
            deep == segs.deep_view(),
            deep == spec_split(name@, slash()),
            forall|j: int| 0 <= j < i ==> deep[j] != dotdot(),
        decreases n - i,
    {
        proof {
            assert(deep[i as int] == segs@[i as int].deep_view());
            assert(segs@[i as int].deep_view() =~= segs@[i as int]@);
        }
        if bytes_eq(segs[i].as_slice(), dd.as_slice()) {
            assert(deep[i as int] == dotdot());
            return false;
        }
        i += 1;
    }
    true
}

/// The `User-Agent` value a request reports: the header's value, or
/// empty when the header is absent.
pub open spec fn spec_user_agent_value(headers: Seq<(Seq<u8>, Seq<u8>)>) -> Seq<u8> {
    match spec_header_lookup(headers, user_agent_name()) {
        Some(v) => v,
        None => Seq::empty(),
    }
}

/// What the connection handler must do next for one request.
pub ghost enum PlanModel {
    /// Write this response back; nothing else is needed.
    Respond(RespModel),
    /// Read the named file under the configured directory, then build
    /// the response from the outcome.
    ReadFile(Seq<u8>),
    /// Write the request body to the named file under the configured
    /// directory, then build the response from the outcome.
    WriteFile(Seq<u8>, Seq<u8>),
}

/// What the connection handler must do next for one request.
pub enum Plan {
    /// Write this response back; nothing else is needed.
    Respond(HTTPResponse),
    /// Read the named file, then build the response from the outcome.
    ReadFile(Vec<u8>),
    /// Write the given bytes to the named file, then build the
    /// response from the outcome.
    WriteFile(Vec<u8>, Vec<u8>),
}

impl View for Plan {
    type V = PlanModel;

    open spec fn view(&self) -> PlanModel {
        match self {
            Plan::Respond(resp) => PlanModel::Respond(resp@),
            Plan::ReadFile(name) => PlanModel::ReadFile(name@),
            Plan::WriteFile(name, content) => PlanModel::WriteFile(name@, content@),
        }
    }
}

/// The handler's decision for a request, given whether a directory is
/// configured.  Routes answer as the route table says; a `/files/*`
/// request proceeds to the file store only when a directory is
/// configured and the name is safe, and is otherwise `404 Not Found`.
pub open spec fn spec_plan(req: ReqModel, has_directory: bool) -> PlanModel {
    match spec_route(req.method, req.path) {
        RouteModel::Root => PlanModel::Respond(ok_no_body_model()),
        RouteModel::Echo(text) => PlanModel::Respond(text_model(text)),
        RouteModel::UserAgent => PlanModel::Respond(text_model(spec_user_agent_value(req.headers))),
        RouteModel::FileRead(name) => if has_directory && spec_safe_name(name) {
            PlanModel::ReadFile(name)
        } else {
            PlanModel::Respond(not_found_model())
        },
        RouteModel::FileWrite(name) => if has_directory && spec_safe_name(name) {
            PlanModel::WriteFile(name, req.body)
        } else {
            PlanModel::Respond(not_found_model())
        },
        RouteModel::NoMatch => PlanModel::Respond(not_found_model()),
    }
}

/// Decides what the connection handler must do for `req`.
pub fn plan_request(req: &HTTPRequest, has_directory: bool) -> (p: Plan)
    ensures
        p@ == spec_plan(req@, has_directory),
        p@ matches PlanModel::Respond(resp) ==> resp_wf(resp),
{
    match route(req.method, req.path.as_slice()) {
        RouteMatch::Root => Plan::Respond(response_ok_no_body()),
        RouteMatch::Echo(text) => Plan::Respond(response_text(text)),
        RouteMatch::UserAgent => {
            let ua = vec![85u8, 115u8, 101u8, 114u8, 45u8, 65u8, 103u8, 101u8, 110u8, 116u8];
            proof {
                assert(ua@ =~= user_agent_name());
            }
            let value = match crate::request::header_lookup(&req.headers, ua.as_slice()) {
                Some(v) => v,
                None => Vec::new(),
            };
            Plan::Respond(response_text(value))
        },
        RouteMatch::FileRead(name) => {
            if has_directory && safe_name(name.as_slice()) {
                Plan::ReadFile(name)
            } else {
                Plan::Respond(response_not_found())
            }
        },
        RouteMatch::FileWrite(name) => {
            if has_directory && safe_name(name.as_slice()) {
                Plan::WriteFile(name, copy_bytes(req.body.as_slice()))
            } else {
                Plan::Respond(response_not_found())
            }
        },
        RouteMatch::NoMatch => Plan::Respond(response_not_found()),
    }
}

/// The response to a file read: the bytes as an
/// `application/octet-stream` body, or `404 Not Found` when the store
/// had no readable file of that name.
pub fn file_read_response(found: Option<Vec<u8>>) -> (r: HTTPResponse)
    ensures
        found matches Some(content) ==> r@ == octet_model(content@),
        found is None ==> r@ == not_found_model(),
{
    match found {
        Some(content) => response_octet(content),
        None => response_not_found(),
    }
}

/// The response to a file write: `201 Created` when the store wrote
/// the bytes, `500 Internal Server Error` when it failed.
pub fn file_write_response(wrote: bool) -> (r: HTTPResponse)
    ensures
        wrote ==> r@ == created_model(),
        !wrote ==> r@ == server_error_model(),
{
    if wrote {
        response_created()
    } else {
        response_server_error()
    }
}

/// For every text, `GET /echo/<text>` is answered at once with
/// `200 OK`, `text/plain`, body exactly the text, and a
/// `Content-Length` numeral that is exactly the text's byte length:
/// the whole wire response is pinned.
pub proof fn lemma_echo_reflects_text(req: ReqModel, has_directory: bool, text: Seq<u8>)
    requires
        req.method == HTTPMethod::GET,
        req.path == echo_prefix() + text,
    ensures
        spec_plan(req, has_directory) == PlanModel::Respond(text_model(text)),
        text_model(text).status == 200,
        text_model(text).body == text,
        spec_response_bytes(text_model(text)) == status_line_start() + seq![50u8, 48u8, 48u8]
            + seq![32u8] + reason_ok() + crlf() + content_type_key() + text_plain() + crlf()
            + content_length_key() + numeral_of(text.len()) + crlf() + crlf() + text,
{
    let path = req.path;
    assert(path.len() == 6 + text.len());
    assert(spec_has_prefix(path, echo_prefix())) by {
        assert(path.subrange(0, 6) =~= echo_prefix());
    }
    assert(path != root_path());
    assert(path.skip(6) =~= text);
    assert(numeral_of(2) =~= seq![50u8]);
    assert(numeral_of(20) =~= seq![50u8, 48u8]);
    assert(numeral_of(200) =~= seq![50u8, 48u8, 48u8]);
    assert(spec_response_bytes(text_model(text)) =~= status_line_start() + seq![50u8, 48u8, 48u8]
        + seq![32u8] + reason_ok() + crlf() + content_type_key() + text_plain() + crlf()
        + content_length_key() + numeral_of(text.len()) + crlf() + crlf() + text);
}

/// `GET /user-agent` is answered at once with `200 OK`, `text/plain`,
/// and as body the value of the `User-Agent` header — the last
/// occurrence when the header repeats, and the empty body, not an
/// error, when it is absent.
pub proof fn lemma_user_agent_reply(req: ReqModel, has_directory: bool)
    requires
        req.method == HTTPMethod::GET,
        req.path == user_agent_path(),
    ensures
        spec_plan(req, has_directory) == PlanModel::Respond(
            text_model(spec_user_agent_value(req.headers)),
        ),
        spec_header_lookup(req.headers, user_agent_name()) is None ==> spec_user_agent_value(
            req.headers,
        ) == Seq::<u8>::empty(),
        spec_header_lookup(req.headers, user_agent_name()) matches Some(v)
            ==> spec_user_agent_value(req.headers) == v,
{
    let path = req.path;
    assert(path.len() == 11);
    assert(path != root_path());
    assert(!spec_has_prefix(path, echo_prefix())) by {
        assert(path[1] == 117);
        if spec_has_prefix(path, echo_prefix()) {
            assert(path.subrange(0, 6)[1] == path[1]);
        }
    }
}

/// `GET /` is answered at once with `200 OK` and nothing else: the
/// wire response is exactly `HTTP/1.1 200 OK\r\n\r\n` — no
/// `Content-Length` header and no body.
pub proof fn lemma_root_exact(req: ReqModel, has_directory: bool)
    requires
        req.method == HTTPMethod::GET,
        req.path == root_path(),
    ensures
        spec_plan(req, has_directory) == PlanModel::Respond(ok_no_body_model()),
        spec_response_bytes(ok_no_body_model()) == seq![
            72u8, 84u8, 84u8, 80u8, 47u8, 49u8, 46u8, 49u8, 32u8, 50u8, 48u8, 48u8, 32u8, 79u8,
            75u8, 13u8, 10u8, 13u8, 10u8,
        ],
{
    crate::response::lemma_ok_no_body_wire();
}

/// Round trip through the file store: `POST /files/<name>` with a safe
/// name hands the store exactly the request body to write, and a
/// successful write answers `201 Created`; `GET /files/<name>` asks
/// the store for the same name, and the stored bytes come back as the
/// response body, byte for byte, with `200 OK`.
pub proof fn lemma_files_round_trip(post: ReqModel, get: ReqModel, name: Seq<u8>, content: Seq<u8>)
    requires
        spec_safe_name(name),
        post.method == HTTPMethod::POST,
        post.path == files_prefix() + name,
        post.body == content,
        get.method == HTTPMethod::GET,
        get.path == files_prefix() + name,
    ensures
        spec_plan(post, true) == PlanModel::WriteFile(name, content),
        created_model().status == 201,
        spec_plan(get, true) == PlanModel::ReadFile(name),
        octet_model(content).status == 200,
        octet_model(content).body == content,
{
    lemma_files_path_routes(files_prefix() + name, name);
}

/// A `/files/<name>` path routes to the file handlers: the shape
/// facts shared by the lemmas about `/files/*`.
proof fn lemma_files_path_routes(path: Seq<u8>, name: Seq<u8>)
    requires
        path == files_prefix() + name,
    ensures
        spec_has_prefix(path, files_prefix()),
        path.skip(7) == name,
        path != root_path(),
        path != user_agent_path(),
        !spec_has_prefix(path, echo_prefix()),
{
    assert(path.len() == 7 + name.len());
    assert(spec_has_prefix(path, files_prefix())) by {
        assert(path.subrange(0, 7) =~= files_prefix());
    }
    assert(path.skip(7) =~= name);
    assert(path[1] == 102);
    assert(path != user_agent_path()) by {
        assert(user_agent_path()[1] == 117);
    }
    assert(!spec_has_prefix(path, echo_prefix())) by {
        if spec_has_prefix(path, echo_prefix()) {
            assert(path.subrange(0, 6)[1] == path[1]);
        }
    }
}

/// With no directory configured, every `/files/*` request — read or
/// write — is answered `404 Not Found` and the store is never asked.
pub proof fn lemma_files_without_directory(req: ReqModel, name: Seq<u8>)
    requires
        req.method == HTTPMethod::GET || req.method == HTTPMethod::POST,
        req.path == files_prefix() + name,
    ensures
        spec_plan(req, false) == PlanModel::Respond(not_found_model()),
{
    lemma_files_path_routes(files_prefix() + name, name);
}

/// A file name that could escape the configured directory — absolute,
/// empty, or with a `..` segment — is answered `404 Not Found` and the
/// store is never asked, for reads and writes alike.
pub proof fn lemma_unsafe_name_not_found(req: ReqModel, name: Seq<u8>, has_directory: bool)
    requires
        req.method == HTTPMethod::GET || req.method == HTTPMethod::POST,
        req.path == files_prefix() + name,
        !spec_safe_name(name),
    ensures
        spec_plan(req, has_directory) == PlanModel::Respond(not_found_model()),
{
    lemma_files_path_routes(files_prefix() + name, name);
}

/// A request matching no route is answered `404 Not Found`.
pub proof fn lemma_unrouted_not_found(req: ReqModel, has_directory: bool)
    requires
        spec_route(req.method, req.path) == RouteModel::NoMatch,
    ensures
        spec_plan(req, has_directory) == PlanModel::Respond(not_found_model()),
{
}

/// A method the route table never names — `DELETE` or `PUT` — is
/// answered `404 Not Found` whatever the path, known path families
/// included.
pub proof fn lemma_other_method_not_found(req: ReqModel, has_directory: bool)
    requires
        req.method == HTTPMethod::DELETE || req.method == HTTPMethod::PUT,
    ensures
        spec_plan(req, has_directory) == PlanModel::Respond(not_found_model()),
{
}

/// What one step of the connection handler yields for the bytes read
/// so far.
pub ghost enum HandleModel {
    /// No complete request yet: more bytes may still arrive.
    NeedMore,
    /// The wire bytes of the response; write them back and close.
    Respond(Seq<u8>),
    /// Read this file under the configured directory, then finish with
    /// the read's outcome.
    ReadFile(Seq<u8>),
    /// Write these bytes to this file under the configured directory,
    /// then finish with the write's outcome.
    WriteFile(Seq<u8>, Seq<u8>),
}

/// What one step of the connection handler yields for the bytes read
/// so far.
pub enum HandleStep {
    /// No complete request yet: read more bytes and try again.
    NeedMore,
    /// The wire bytes of the response; write them back and close.
    Respond(Vec<u8>),
    /// Read this file under the configured directory, then finish with
    /// the read's outcome.
    ReadFile(Vec<u8>),
    /// Write these bytes to this file under the configured directory,
    /// then finish with the write's outcome.
    WriteFile(Vec<u8>, Vec<u8>),
}

impl View for HandleStep {
    type V = HandleModel;

    open spec fn view(&self) -> HandleModel {
        match self {
            HandleStep::NeedMore => HandleModel::NeedMore,
            HandleStep::Respond(bytes) => HandleModel::Respond(bytes@),
            HandleStep::ReadFile(name) => HandleModel::ReadFile(name@),
            HandleStep::WriteFile(name, content) => HandleModel::WriteFile(name@, content@),
        }
    }
}

/// One step of the connection handler: parse the bytes read so far,
/// plan the request, and serialize an immediate answer.  Bytes that
/// can never become a request are answered `400 Bad Request`.
pub open spec fn spec_handle(input: Seq<u8>, has_directory: bool) -> HandleModel {
    match spec_parse(input) {
        ParseModel::Incomplete => HandleModel::NeedMore,
        ParseModel::Malformed => HandleModel::Respond(spec_response_bytes(bad_request_model())),
        ParseModel::Complete(req) => match spec_plan(req, has_directory) {
            PlanModel::Respond(resp) => HandleModel::Respond(spec_response_bytes(resp)),
            PlanModel::ReadFile(name) => HandleModel::ReadFile(name),
            PlanModel::WriteFile(name, content) => HandleModel::WriteFile(name, content),
        },
    }
}

/// Runs one step of the connection handler on the bytes read so far.
pub fn handle_bytes(input: &[u8], has_directory: bool) -> (step: HandleStep)
    ensures
        step@ == spec_handle(input@, has_directory),
{
    match parse_http_request(input) {
        ParseResult::Incomplete => HandleStep::NeedMore,
        ParseResult::Malformed => HandleStep::Respond(response_bad_request().to_bytes()),
        ParseResult::Complete(req) => match plan_request(&req, has_directory) {
            Plan::Respond(resp) => HandleStep::Respond(resp.to_bytes()),
            Plan::ReadFile(name) => HandleStep::ReadFile(name),
            Plan::WriteFile(name, content) => HandleStep::WriteFile(name, content),
        },
    }
}

/// The wire bytes of a plain echo request with no headers:
/// `GET /echo/` + text + ` HTTP/1.1\r\n\r\n`.
pub open spec fn echo_request_wire(text: Seq<u8>) -> Seq<u8> {
    seq![71u8, 69u8, 84u8, 32u8, 47u8, 101u8, 99u8, 104u8, 111u8, 47u8] + text + seq![
        32u8, 72u8, 84u8, 84u8, 80u8, 47u8, 49u8, 46u8, 49u8, 13u8, 10u8, 13u8, 10u8,
    ]
}

/// The wire bytes of an echo request parse into exactly the expected
/// request, for every text free of CRLF pairs and spaces.
proof fn lemma_echo_wire_parses(text: Seq<u8>)
    requires
        forall|i: int| #![trigger text[i]] 0 <= i && i + 1 < text.len() ==> !(text[i] == 13
            && text[i + 1] == 10),
        forall|i: int| 0 <= i < text.len() ==> text[i] != 32,
    ensures
        spec_parse(echo_request_wire(text)) == ParseModel::Complete(
            ReqModel {
                method: HTTPMethod::GET,
                path: echo_prefix() + text,
                version: seq![72u8, 84u8, 84u8, 80u8, 47u8, 49u8, 46u8, 49u8],
                headers: Seq::empty(),
                body: Seq::empty(),
            },
        ),
{
    let s = echo_request_wire(text);
    let n = text.len() as int;
    let a = seq![71u8, 69u8, 84u8, 32u8, 47u8, 101u8, 99u8, 104u8, 111u8, 47u8];
    let b = seq![32u8, 72u8, 84u8, 84u8, 80u8, 47u8, 49u8, 46u8, 49u8, 13u8, 10u8, 13u8, 10u8];
    let ver = seq![72u8, 84u8, 84u8, 80u8, 47u8, 49u8, 46u8, 49u8];
    assert(s == a + text + b);
    assert(s.len() == 23 + n);
    // No CRLF pair lies before the head-end mark.
    assert forall|j: int| #![trigger s[j]] 0 <= j && j + 1 < 19 + n implies !(s[j] == 13 && s[j
        + 1] == 10) by {
        if j < 10 {
            assert(s[j] == a[j]);
        } else if j < 10 + n {
            assert(s[j] == text[j - 10]);
            if j + 1 < 10 + n {
                assert(s[j + 1] == text[j - 9]);
            } else {
                assert(s[j + 1] == b[0]);
            }
        } else {
            assert(s[j] == b[j - 10 - n]);
        }
    }
    // The first `\r\n\r\n` stands at 19 + n.
    assert(match_at(s, head_end_mark(), 19 + n)) by {
        lemma_match_at_iff(s, head_end_mark(), 19 + n);
        assert(s[19 + n] == b[9]);
        assert(s[20 + n] == b[10]);
        assert(s[21 + n] == b[11]);
        assert(s[22 + n] == b[12]);
    }
    assert forall|j: int| 0 <= j < 19 + n implies !match_at(s, head_end_mark(), j) by {
        lemma_match_at_iff(s, head_end_mark(), j);
        if match_at(s, head_end_mark(), j) {
            assert(s[j] == 13 && s[j + 1] == 10);
            if j == 18 + n {
                assert(s[j] == b[8]);
            }
        }
    }
    lemma_first_match_found(s, head_end_mark(), 0, 19 + n);
    let head = s.subrange(0, 19 + n);
    let m9 = seq![32u8, 72u8, 84u8, 84u8, 80u8, 47u8, 49u8, 46u8, 49u8];
    assert(head =~= a + text + m9);
    // No `\r\n` inside the head: the head is a single line.
    assert forall|j: int| 0 <= j implies !match_at(head, crlf(), j) by {
        lemma_match_at_iff(head, crlf(), j);
        if match_at(head, crlf(), j) {
            assert(head[j] == s[j] && head[j + 1] == s[j + 1]);
            assert(s[j] == 13 && s[j + 1] == 10);
        }
    }
    lemma_first_match_from(head, crlf(), 0);
    match first_match_from(head, crlf(), 0) {
        Some(k) => {
            assert(match_at(head, crlf(), k));
        },
        None => {},
    }
    assert(spec_split(head, crlf()) == seq![head]);
    // The spaces of the head stand exactly at 3 and 10 + n.
    assert(head[3] == a[3] && a[3] == 32);
    assert(head[10 + n] == m9[0] && m9[0] == 32);
    assert forall|j: int| 0 <= j < 19 + n && j != 3 && j != 10 + n implies head[j] != 32 by {
        if j < 10 {
            assert(head[j] == a[j]);
        } else if j < 10 + n {
            assert(head[j] == text[j - 10]);
        } else {
            assert(head[j] == m9[j - 10 - n]);
        }
    }
    // First token: `GET`.
    assert(match_at(head, space(), 3)) by {
        lemma_match_at_iff(head, space(), 3);
    }
    assert forall|j: int| 0 <= j < 3 implies !match_at(head, space(), j) by {
        lemma_match_at_iff(head, space(), j);
        if match_at(head, space(), j) {
            assert(head[j + 0] == space()[0]);
            assert(head[j] == 32);
        }
    }
    lemma_first_match_found(head, space(), 0, 3);
    let rest1 = head.subrange(4, 19 + n);
    assert(spec_split(head, space()) == seq![head.subrange(0, 3)] + spec_split(rest1, space()));
    assert(head.subrange(0, 3) =~= seq![71u8, 69u8, 84u8]);
    // Second token: `/echo/` + text.
    assert(rest1.len() == 15 + n);
    assert(match_at(rest1, space(), 6 + n)) by {
        lemma_match_at_iff(rest1, space(), 6 + n);
        assert(rest1[6 + n] == head[10 + n]);
    }
    assert forall|j: int| 0 <= j < 6 + n implies !match_at(rest1, space(), j) by {
        lemma_match_at_iff(rest1, space(), j);
        if match_at(rest1, space(), j) {
            assert(rest1[j + 0] == space()[0]);
            assert(rest1[j] == head[4 + j]);
            assert(head[4 + j] == 32);
        }
    }
    lemma_first_match_found(rest1, space(), 0, 6 + n);
    let rest2 = rest1.subrange(7 + n, 15 + n);
    assert(spec_split(rest1, space()) == seq![rest1.subrange(0, 6 + n)] + spec_split(
        rest2,
        space(),
    ));
    assert(rest1.subrange(0, 6 + n) =~= echo_prefix() + text);
    // Third token: the version, with no further space.
    assert(rest2 =~= ver);
    assert forall|j: int| 0 <= j implies !match_at(rest2, space(), j) by {
        lemma_match_at_iff(rest2, space(), j);
        if match_at(rest2, space(), j) {
            assert(rest2[j + 0] == space()[0]);
            assert(rest2[j] == head[11 + n + j]);
            assert(head[11 + n + j] == 32);
        }
    }
    lemma_first_match_from(rest2, space(), 0);
    match first_match_from(rest2, space(), 0) {
        Some(k) => {
            assert(match_at(rest2, space(), k));
        },
        None => {},
    }
    assert(spec_split(rest2, space()) == seq![rest2]);
    let toks = spec_split(head, space());
    assert(toks =~= seq![seq![71u8, 69u8, 84u8], echo_prefix() + text, ver]);
    // The request line carries method `GET`, the echo path, the version.
    assert(spec_method_of_bytes(toks[0]) == Some(HTTPMethod::GET)) by {
        assert(toks[0] =~= seq![71u8, 69u8, 84u8]);
    }
    assert(toks[1] == echo_prefix() + text);
    assert(toks[1][0] == 47) by {
        assert((echo_prefix() + text)[0] == echo_prefix()[0]);
    }
    // No header lines, no announced body.
    let lines = spec_split(head, crlf());
    assert(lines.drop_first() =~= Seq::<Seq<u8>>::empty());
    assert(spec_headers_of(lines.drop_first()) == Seq::<(Seq<u8>, Seq<u8>)>::empty());
    assert(spec_body_len(HTTPMethod::GET, Seq::empty()) == 0);
    let tail = s.subrange(23 + n, 23 + n);
    assert(tail =~= Seq::<u8>::empty());
    assert(tail.subrange(0, 0) =~= Seq::<u8>::empty());
    assert(spec_parse(s) == ParseModel::Complete(
        ReqModel {
            method: HTTPMethod::GET,
            path: echo_prefix() + text,
            version: ver,
            headers: Seq::empty(),
            body: Seq::empty(),
        },
    ));
}

/// End to end for the echo route: for every text free of CRLF pairs
/// and spaces, the wire bytes `GET /echo/<text> HTTP/1.1` are parsed,
/// routed and answered in one step, and the whole response — status
/// `200 OK`, `text/plain`, `Content-Length` the text's byte length,
/// body exactly the text — is pinned byte for byte.
pub proof fn lemma_echo_wire_pipeline(text: Seq<u8>, has_directory: bool)
    requires
        forall|i: int| #![trigger text[i]] 0 <= i && i + 1 < text.len() ==> !(text[i] == 13
            && text[i + 1] == 10),
        forall|i: int| 0 <= i < text.len() ==> text[i] != 32,
    ensures
        spec_handle(echo_request_wire(text), has_directory) == HandleModel::Respond(
            spec_response_bytes(text_model(text)),
        ),
        text_model(text).status == 200,
        text_model(text).body == text,
{
    lemma_echo_wire_parses(text);
    let req = ReqModel {
        method: HTTPMethod::GET,
        path: echo_prefix() + text,
        version: seq![72u8, 84u8, 84u8, 80u8, 47u8, 49u8, 46u8, 49u8],
        headers: Seq::empty(),
        body: Seq::empty(),
    };
    lemma_echo_reflects_text(req, has_directory, text);
}

/// Relies on `std::path::Path::is_dir`: true when the path names an
/// existing directory.  The result depends on the state of the
/// filesystem, so nothing is promised of it.
#[verifier::external_body]
fn path_is_dir(path: &str) -> bool {
    std::path::Path::new(path).is_dir()
}

/// Relies on `std::path::Path::is_file`: true when the path names an
/// existing regular file.  The result depends on the state of the
/// filesystem, so nothing is promised of it.
#[verifier::external_body]
fn path_is_file(path: &str) -> bool {
    std::path::Path::new(path).is_file()
}

/// Whether the path names an existing directory.  The answer comes
/// from the filesystem, so no more can be stated of it.
pub fn dir_exists(path: &str) -> bool {
    path_is_dir(path)
}

/// Whether the path names an existing regular file.  The answer comes
/// from the filesystem, so no more can be stated of it.
pub fn file_exists(path: &str) -> bool {
    path_is_file(path)
}

} // verus!
