//! The response and its serialization into wire bytes.
//!
//! A response is a status code, a reason phrase, an optional content
//! type, and a body.  On the wire it becomes the status line, then —
//! only when a content type is set — a `Content-Type` and a
//! `Content-Length` header, then an empty line and the body.  A
//! response without a content type carries no headers and no body.

use vstd::prelude::*;

use crate::request::crlf;
use crate::scan::{append_bytes, numeral_bytes, numeral_of};

verus! {

/// The bytes of `"HTTP/1.1 "`, beginning every status line.
pub open spec fn status_line_start() -> Seq<u8> {
    seq![72u8, 84u8, 84u8, 80u8, 47u8, 49u8, 46u8, 49u8, 32u8]
}

/// The bytes of `"Content-Type: "`.
pub open spec fn content_type_key() -> Seq<u8> {
    seq![67u8, 111u8, 110u8, 116u8, 101u8, 110u8, 116u8, 45u8, 84u8, 121u8, 112u8, 101u8, 58u8, 32u8]
}

/// The bytes of `"Content-Length: "`.
pub open spec fn content_length_key() -> Seq<u8> {
    seq![
        67u8, 111u8, 110u8, 116u8, 101u8, 110u8, 116u8, 45u8, 76u8, 101u8, 110u8, 103u8, 116u8,
        104u8, 58u8, 32u8,
    ]
}

/// The bytes of the content type `text/plain`.
pub open spec fn text_plain() -> Seq<u8> {
    seq![116u8, 101u8, 120u8, 116u8, 47u8, 112u8, 108u8, 97u8, 105u8, 110u8]
}

/// The bytes of the content type `application/octet-stream`.
pub open spec fn octet_stream() -> Seq<u8> {
    seq![
        97u8, 112u8, 112u8, 108u8, 105u8, 99u8, 97u8, 116u8, 105u8, 111u8, 110u8, 47u8, 111u8,
        99u8, 116u8, 101u8, 116u8, 45u8, 115u8, 116u8, 114u8, 101u8, 97u8, 109u8,
    ]
}

/// The bytes of the reason phrase `OK`.
pub open spec fn reason_ok() -> Seq<u8> {
    seq![79u8, 75u8]
}

/// The bytes of the reason phrase `Not Found`.
pub open spec fn reason_not_found() -> Seq<u8> {
    seq![78u8, 111u8, 116u8, 32u8, 70u8, 111u8, 117u8, 110u8, 100u8]
}

/// The bytes of the reason phrase `Created`.
pub open spec fn reason_created() -> Seq<u8> {
    seq![67u8, 114u8, 101u8, 97u8, 116u8, 101u8, 100u8]
}

/// The bytes of the reason phrase `Bad Request`.
pub open spec fn reason_bad_request() -> Seq<u8> {
    seq![66u8, 97u8, 100u8, 32u8, 82u8, 101u8, 113u8, 117u8, 101u8, 115u8, 116u8]
}

/// The bytes of the reason phrase `Internal Server Error`.
pub open spec fn reason_server_error() -> Seq<u8> {
    seq![
        73u8, 110u8, 116u8, 101u8, 114u8, 110u8, 97u8, 108u8, 32u8, 83u8, 101u8, 114u8, 118u8,
        101u8, 114u8, 32u8, 69u8, 114u8, 114u8, 111u8, 114u8,
    ]
}

/// A response as its data: status, reason, optional content type, body.
pub ghost struct RespModel {
    pub status: u16,
    pub reason: Seq<u8>,
    pub content_type: Option<Seq<u8>>,
    pub body: Seq<u8>,
}

/// A well-formed response carries a body only together with a content
/// type.
pub open spec fn resp_wf(r: RespModel) -> bool {
    r.content_type is None ==> r.body.len() == 0
}

/// The wire bytes of a response: the status line; when a content type
/// is set, a `Content-Type` header and a `Content-Length` header whose
/// numeral is the exact byte length of the body; an empty line; the
/// body.
pub open spec fn spec_response_bytes(r: RespModel) -> Seq<u8> {
    status_line_start() + numeral_of(r.status as nat) + seq![32u8] + r.reason + crlf() + (match r
        .content_type {
        Some(ct) => content_type_key() + ct + crlf() + content_length_key() + numeral_of(
            r.body.len(),
        ) + crlf(),
        None => Seq::empty(),
    }) + crlf() + r.body
}

/// A response, built fresh for one request.
#[derive(Debug)]
pub struct HTTPResponse {
    pub status: u16,
    pub reason: Vec<u8>,
    pub content_type: Option<Vec<u8>>,
    pub body: Vec<u8>,
}

impl View for HTTPResponse {
    type V = RespModel;

    open spec fn view(&self) -> RespModel {
        RespModel {
            status: self.status,
            reason: self.reason@,
            content_type: match self.content_type {
                Some(ct) => Some(ct@),
                None => None,
            },
            body: self.body@,
        }
    }
}

/// `200 OK` with no headers and no body.
pub open spec fn ok_no_body_model() -> RespModel {
    RespModel { status: 200, reason: reason_ok(), content_type: None, body: Seq::empty() }
}

/// `404 Not Found` with no headers and no body.
pub open spec fn not_found_model() -> RespModel {
    RespModel { status: 404, reason: reason_not_found(), content_type: None, body: Seq::empty() }
}

/// `201 Created` with no headers and no body.
pub open spec fn created_model() -> RespModel {
    RespModel { status: 201, reason: reason_created(), content_type: None, body: Seq::empty() }
}

/// `400 Bad Request` with no headers and no body.
pub open spec fn bad_request_model() -> RespModel {
    RespModel { status: 400, reason: reason_bad_request(), content_type: None, body: Seq::empty() }
}

/// `500 Internal Server Error` with no headers and no body.
pub open spec fn server_error_model() -> RespModel {
    RespModel {
        status: 500,
        reason: reason_server_error(),
        content_type: None,
        body: Seq::empty(),
    }
}

/// `200 OK` with a `text/plain` body.
pub open spec fn text_model(body: Seq<u8>) -> RespModel {
    RespModel { status: 200, reason: reason_ok(), content_type: Some(text_plain()), body }
}

/// `200 OK` with an `application/octet-stream` body.
pub open spec fn octet_model(body: Seq<u8>) -> RespModel {
    RespModel { status: 200, reason: reason_ok(), content_type: Some(octet_stream()), body }
}

/// Builds `200 OK` with no body.
pub fn response_ok_no_body() -> (r: HTTPResponse)
    ensures
        r@ == ok_no_body_model(),
{
    let reason = vec![79u8, 75u8];
    proof {
        assert(reason@ =~= reason_ok());
    }
    HTTPResponse { status: 200, reason, content_type: None, body: Vec::new() }
}

/// Builds `404 Not Found`.
pub fn response_not_found() -> (r: HTTPResponse)
    ensures
        r@ == not_found_model(),
{
    let reason = vec![78u8, 111u8, 116u8, 32u8, 70u8, 111u8, 117u8, 110u8, 100u8];
    proof {
        assert(reason@ =~= reason_not_found());
    }
    HTTPResponse { status: 404, reason, content_type: None, body: Vec::new() }
}

/// Builds `201 Created`.
pub fn response_created() -> (r: HTTPResponse)
    ensures
        r@ == created_model(),
{
    let reason = vec![67u8, 114u8, 101u8, 97u8, 116u8, 101u8, 100u8];
    proof {
        assert(reason@ =~= reason_created());
    }
    HTTPResponse { status: 201, reason, content_type: None, body: Vec::new() }
}

/// Builds `400 Bad Request`.
pub fn response_bad_request() -> (r: HTTPResponse)
    ensures
        r@ == bad_request_model(),
{
    let reason = vec![66u8, 97u8, 100u8, 32u8, 82u8, 101u8, 113u8, 117u8, 101u8, 115u8, 116u8];
    proof {
        assert(reason@ =~= reason_bad_request());
    }
    HTTPResponse { status: 400, reason, content_type: None, body: Vec::new() }
}

/// Builds `500 Internal Server Error`.
pub fn response_server_error() -> (r: HTTPResponse)
    ensures
        r@ == server_error_model(),
{
    let reason = vec![
        73u8, 110u8, 116u8, 101u8, 114u8, 110u8, 97u8, 108u8, 32u8, 83u8, 101u8, 114u8, 118u8,
        101u8, 114u8, 32u8, 69u8, 114u8, 114u8, 111u8, 114u8,
    ];
    proof {
        assert(reason@ =~= reason_server_error());
    }
    HTTPResponse { status: 500, reason, content_type: None, body: Vec::new() }
}

/// Builds `200 OK` with a `text/plain` body.
pub fn response_text(body: Vec<u8>) -> (r: HTTPResponse)
    ensures
        r@ == text_model(body@),
{
    let reason = vec![79u8, 75u8];
    let ct = vec![116u8, 101u8, 120u8, 116u8, 47u8, 112u8, 108u8, 97u8, 105u8, 110u8];
    proof {
        assert(reason@ =~= reason_ok());
        assert(ct@ =~= text_plain());
    }
    HTTPResponse { status: 200, reason, content_type: Some(ct), body }
}

/// Builds `200 OK` with an `application/octet-stream` body.
pub fn response_octet(body: Vec<u8>) -> (r: HTTPResponse)
    ensures
        r@ == octet_model(body@),
{
    let reason = vec![79u8, 75u8];
    let ct = vec![
        97u8, 112u8, 112u8, 108u8, 105u8, 99u8, 97u8, 116u8, 105u8, 111u8, 110u8, 47u8, 111u8,
        99u8, 116u8, 101u8, 116u8, 45u8, 115u8, 116u8, 114u8, 101u8, 97u8, 109u8,
    ];
    proof {
        assert(reason@ =~= reason_ok());
        assert(ct@ =~= octet_stream());
    }
    HTTPResponse { status: 200, reason, content_type: Some(ct), body }
}

impl HTTPResponse {
    /// Serializes the response into its wire bytes.
    pub fn to_bytes(&self) -> (out: Vec<u8>)
        ensures
            out@ == spec_response_bytes(self@),
    {
        let mut out: Vec<u8> = vec![72u8, 84u8, 84u8, 80u8, 47u8, 49u8, 46u8, 49u8, 32u8];
        proof {
            assert(out@ =~= status_line_start());
        }
        let status_num = numeral_bytes(self.status as u64);
        append_bytes(&mut out, status_num.as_slice());
        out.push(32u8);
        append_bytes(&mut out, self.reason.as_slice());
        let crlf_v = crlf_vec();
        append_bytes(&mut out, crlf_v.as_slice());
        match &self.content_type {
            Some(ct) => {
                let ct_key = vec![
                    67u8, 111u8, 110u8, 116u8, 101u8, 110u8, 116u8, 45u8, 84u8, 121u8, 112u8,
                    101u8, 58u8, 32u8,
                ];
                proof {
                    assert(ct_key@ =~= content_type_key());
                }
                append_bytes(&mut out, ct_key.as_slice());
                append_bytes(&mut out, ct.as_slice());
                append_bytes(&mut out, crlf_v.as_slice());
                let cl_key = vec![
                    67u8, 111u8, 110u8, 116u8, 101u8, 110u8, 116u8, 45u8, 76u8, 101u8, 110u8,
                    103u8, 116u8, 104u8, 58u8, 32u8,
                ];
                proof {
                    assert(cl_key@ =~= content_length_key());
                }
                append_bytes(&mut out, cl_key.as_slice());
                let body_num = numeral_bytes(self.body.len() as u64);
                append_bytes(&mut out, body_num.as_slice());
                append_bytes(&mut out, crlf_v.as_slice());
            },
            None => {},
        }
        append_bytes(&mut out, crlf_v.as_slice());
        append_bytes(&mut out, self.body.as_slice());
        proof {
            assert(out@ =~= spec_response_bytes(self@));
        }
        out
    }
}

/// The wire bytes of `200 OK` with no body are exactly
/// `HTTP/1.1 200 OK\r\n\r\n`: no `Content-Length`, no `Content-Type`,
/// no body section.
pub proof fn lemma_ok_no_body_wire()
    ensures
        spec_response_bytes(ok_no_body_model()) == seq![
            72u8, 84u8, 84u8, 80u8, 47u8, 49u8, 46u8, 49u8, 32u8, 50u8, 48u8, 48u8, 32u8, 79u8,
            75u8, 13u8, 10u8, 13u8, 10u8,
        ],
{
    assert(numeral_of(2) =~= seq![50u8]);
    assert(numeral_of(20) =~= seq![50u8, 48u8]);
    assert(numeral_of(200) =~= seq![50u8, 48u8, 48u8]);
    assert(spec_response_bytes(ok_no_body_model()) =~= seq![
        72u8, 84u8, 84u8, 80u8, 47u8, 49u8, 46u8, 49u8, 32u8, 50u8, 48u8, 48u8, 32u8, 79u8, 75u8,
        13u8, 10u8, 13u8, 10u8,
    ]);
}

/// The wire bytes of `404 Not Found` are exactly
/// `HTTP/1.1 404 Not Found\r\n\r\n`.
pub proof fn lemma_not_found_wire()
    ensures
        spec_response_bytes(not_found_model()) == seq![
            72u8, 84u8, 84u8, 80u8, 47u8, 49u8, 46u8, 49u8, 32u8, 52u8, 48u8, 52u8, 32u8, 78u8,
            111u8, 116u8, 32u8, 70u8, 111u8, 117u8, 110u8, 100u8, 13u8, 10u8, 13u8, 10u8,
        ],
{
    assert(numeral_of(4) =~= seq![52u8]);
    assert(numeral_of(40) =~= seq![52u8, 48u8]);
    assert(numeral_of(404) =~= seq![52u8, 48u8, 52u8]);
    assert(spec_response_bytes(not_found_model()) =~= seq![
        72u8, 84u8, 84u8, 80u8, 47u8, 49u8, 46u8, 49u8, 32u8, 52u8, 48u8, 52u8, 32u8, 78u8, 111u8,
        116u8, 32u8, 70u8, 111u8, 117u8, 110u8, 100u8, 13u8, 10u8, 13u8, 10u8,
    ]);
}

/// The wire bytes of `201 Created` are exactly
/// `HTTP/1.1 201 Created\r\n\r\n`.
pub proof fn lemma_created_wire()
    ensures
        spec_response_bytes(created_model()) == seq![
            72u8, 84u8, 84u8, 80u8, 47u8, 49u8, 46u8, 49u8, 32u8, 50u8, 48u8, 49u8, 32u8, 67u8,
            114u8, 101u8, 97u8, 116u8, 101u8, 100u8, 13u8, 10u8, 13u8, 10u8,
        ],
{
    assert(numeral_of(2) =~= seq![50u8]);
    assert(numeral_of(20) =~= seq![50u8, 48u8]);
    assert(numeral_of(201) =~= seq![50u8, 48u8, 49u8]);
    assert(spec_response_bytes(created_model()) =~= seq![
        72u8, 84u8, 84u8, 80u8, 47u8, 49u8, 46u8, 49u8, 32u8, 50u8, 48u8, 49u8, 32u8, 67u8, 114u8,
        101u8, 97u8, 116u8, 101u8, 100u8, 13u8, 10u8, 13u8, 10u8,
    ]);
}

/// The bytes of `"\r\n"`, as a vector.
fn crlf_vec() -> (v: Vec<u8>)
    ensures
        v@ == crlf(),
{
    let v = vec![13u8, 10u8];
    proof {
        assert(v@ =~= crlf());
    }
    v
}

} // verus!
