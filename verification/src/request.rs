//! The structured request and its parser.
//!
//! A request arrives as raw bytes: a request line, header lines, an
//! empty line, then an optional body.  [`parse_http_request`] reads
//! those bytes into an [`HTTPRequest`] and is proved to agree with the
//! specification-level parser [`spec_parse`] on every input.

use vstd::prelude::*;

use crate::scan::{
    bytes_eq, copy_bytes, find, first_match_from, is_numeral, lemma_first_match_bounds,
    numeral_val, read_numeral, spec_split, split, subvec, NumeralRead,
};
use vstd::string::StrSliceExecFns;

verus! {

/// The bytes `"\r\n"`, ending every line of the head section.
pub open spec fn crlf() -> Seq<u8> {
    seq![13u8, 10u8]
}

/// The bytes `"\r\n\r\n"`: the empty line that ends the head section.
pub open spec fn head_end_mark() -> Seq<u8> {
    seq![13u8, 10u8, 13u8, 10u8]
}

/// A single space, separating the request-line tokens.
pub open spec fn space() -> Seq<u8> {
    seq![32u8]
}

/// The bytes `": "`, separating a header name from its value.
pub open spec fn colon_space() -> Seq<u8> {
    seq![58u8, 32u8]
}

/// The bytes of the header name `Content-Length`.
pub open spec fn content_length_name() -> Seq<u8> {
    seq![67u8, 111u8, 110u8, 116u8, 101u8, 110u8, 116u8, 45u8, 76u8, 101u8, 110u8, 103u8, 116u8, 104u8]
}

/// The bytes `"\r\n"`.
pub fn crlf_bytes() -> (v: Vec<u8>)
    ensures
        v@ == crlf(),
{
    let v = vec![13u8, 10u8];
    proof {
        assert(v@ =~= crlf());
    }
    v
}

/// The bytes `"\r\n\r\n"`.
pub fn head_end_mark_bytes() -> (v: Vec<u8>)
    ensures
        v@ == head_end_mark(),
{
    let v = vec![13u8, 10u8, 13u8, 10u8];
    proof {
        assert(v@ =~= head_end_mark());
    }
    v
}

/// A single space.
pub fn space_bytes() -> (v: Vec<u8>)
    ensures
        v@ == space(),
{
    let v = vec![32u8];
    proof {
        assert(v@ =~= space());
    }
    v
}

/// The bytes `": "`.
pub fn colon_space_bytes() -> (v: Vec<u8>)
    ensures
        v@ == colon_space(),
{
    let v = vec![58u8, 32u8];
    proof {
        assert(v@ =~= colon_space());
    }
    v
}

/// The bytes of `Content-Length`.
pub fn content_length_name_bytes() -> (v: Vec<u8>)
    ensures
        v@ == content_length_name(),
{
    let v = vec![
        67u8, 111u8, 110u8, 116u8, 101u8, 110u8, 116u8, 45u8, 76u8, 101u8, 110u8, 103u8, 116u8,
        104u8,
    ];
    proof {
        assert(v@ =~= content_length_name());
    }
    v
}

/// A request method.  Any other token in the request line is a parse
/// error.
#[derive(Clone, Copy, PartialEq, Eq, Structural, Debug)]
pub enum HTTPMethod {
    GET,
    POST,
    PUT,
    DELETE,
}

/// The method named by a token of characters, if any.
pub open spec fn spec_method_of(s: Seq<char>) -> Option<HTTPMethod> {
    if s == "GET"@ {
        Some(HTTPMethod::GET)
    } else if s == "POST"@ {
        Some(HTTPMethod::POST)
    } else if s == "PUT"@ {
        Some(HTTPMethod::PUT)
    } else if s == "DELETE"@ {
        Some(HTTPMethod::DELETE)
    } else {
        None
    }
}

/// The method named by a token of bytes, if any (`GET`, `POST`, `PUT`,
/// `DELETE` in ASCII).
pub open spec fn spec_method_of_bytes(s: Seq<u8>) -> Option<HTTPMethod> {
    if s == seq![71u8, 69u8, 84u8] {
        Some(HTTPMethod::GET)
    } else if s == seq![80u8, 79u8, 83u8, 84u8] {
        Some(HTTPMethod::POST)
    } else if s == seq![80u8, 85u8, 84u8] {
        Some(HTTPMethod::PUT)
    } else if s == seq![68u8, 69u8, 76u8, 69u8, 84u8, 69u8] {
        Some(HTTPMethod::DELETE)
    } else {
        None
    }
}

impl HTTPMethod {
    /// Reads a method token; any other token is no method.
    pub fn new(content: &str) -> (r: Option<HTTPMethod>)
        ensures
            r == spec_method_of(content@),
    {
        proof {
            reveal_strlit("GET");
            reveal_strlit("POST");
            reveal_strlit("PUT");
            reveal_strlit("DELETE");
        }
        let n = content.unicode_len();
        if n == 3 {
            let c0 = content.get_char(0);
            let c1 = content.get_char(1);
            let c2 = content.get_char(2);
            if c0 == 'G' && c1 == 'E' && c2 == 'T' {
                proof {
                    assert(content@ =~= "GET"@);
                }
                Some(HTTPMethod::GET)
            } else if c0 == 'P' && c1 == 'U' && c2 == 'T' {
                proof {
                    assert(content@ =~= "PUT"@);
                }
                Some(HTTPMethod::PUT)
            } else {
                None
            }
        } else if n == 4 {
            let c0 = content.get_char(0);
            let c1 = content.get_char(1);
            let c2 = content.get_char(2);
            let c3 = content.get_char(3);
            if c0 == 'P' && c1 == 'O' && c2 == 'S' && c3 == 'T' {
                proof {
                    assert(content@ =~= "POST"@);
                }
                Some(HTTPMethod::POST)
            } else {
                None
            }
        } else if n == 6 {
            let c0 = content.get_char(0);
            let c1 = content.get_char(1);
            let c2 = content.get_char(2);
            let c3 = content.get_char(3);
            let c4 = content.get_char(4);
            let c5 = content.get_char(5);
            if c0 == 'D' && c1 == 'E' && c2 == 'L' && c3 == 'E' && c4 == 'T' && c5 == 'E' {
                proof {
                    assert(content@ =~= "DELETE"@);
                }
                Some(HTTPMethod::DELETE)
            } else {
                None
            }
        } else {
            None
        }
    }
}

/// The method named by a token of bytes.
pub fn method_of_token(tok: &[u8]) -> (r: Option<HTTPMethod>)
    ensures
        r == spec_method_of_bytes(tok@),
{
    let get = vec![71u8, 69u8, 84u8];
    let post = vec![80u8, 79u8, 83u8, 84u8];
    let put = vec![80u8, 85u8, 84u8];
    let delete = vec![68u8, 69u8, 76u8, 69u8, 84u8, 69u8];
    if bytes_eq(tok, get.as_slice()) {
        Some(HTTPMethod::GET)
    } else if bytes_eq(tok, post.as_slice()) {
        Some(HTTPMethod::POST)
    } else if bytes_eq(tok, put.as_slice()) {
        Some(HTTPMethod::PUT)
    } else if bytes_eq(tok, delete.as_slice()) {
        Some(HTTPMethod::DELETE)
    } else {
        None
    }
}

/// One parsed header line: a name and a value.
#[derive(Debug)]
pub struct HeaderField {
    pub name: Vec<u8>,
    pub value: Vec<u8>,
}

/// The header fields as pairs of byte sequences.
pub open spec fn hfields_view(hs: Seq<HeaderField>) -> Seq<(Seq<u8>, Seq<u8>)> {
    hs.map_values(|h: HeaderField| (h.name@, h.value@))
}

/// The value of the last header with the given name, if any: a later
/// occurrence of a duplicate name wins.
pub open spec fn spec_header_lookup(
    headers: Seq<(Seq<u8>, Seq<u8>)>,
    name: Seq<u8>,
) -> Option<Seq<u8>>
    decreases headers.len(),
{
    if headers.len() == 0 {
        None
    } else if headers.last().0 == name {
        Some(headers.last().1)
    } else {
        spec_header_lookup(headers.drop_last(), name)
    }
}

/// Finds the value of the last header with the given name.
pub fn header_lookup(headers: &Vec<HeaderField>, name: &[u8]) -> (r: Option<Vec<u8>>)
    ensures
        match r {
            Some(v) => spec_header_lookup(hfields_view(headers@), name@) == Some(v@),
            None => spec_header_lookup(hfields_view(headers@), name@) is None,
        },
{
    let ghost all = hfields_view(headers@);
    let mut i: usize = headers.len();
    proof {
        assert(all.subrange(0, all.len() as int) =~= all);
    }
    while i > 0
        invariant
            i <= headers@.len(),
            all == hfields_view(headers@),
            spec_header_lookup(all, name@) == spec_header_lookup(
                all.subrange(0, i as int),
                name@,
            ),
        decreases i,
    {
        i -= 1;
        proof {
            assert(all.subrange(0, i + 1).last() == all[i as int]);
            assert(all.subrange(0, i + 1).drop_last() =~= all.subrange(0, i as int));
        }
        if bytes_eq(headers[i].name.as_slice(), name) {
            return Some(copy_bytes(headers[i].value.as_slice()));
        }
    }
    proof {
        assert(all.subrange(0, 0) =~= Seq::<(Seq<u8>, Seq<u8>)>::empty());
    }
    None
}

/// A parsed request: the data model of one HTTP request.
pub ghost struct ReqModel {
    pub method: HTTPMethod,
    pub path: Seq<u8>,
    pub version: Seq<u8>,
    pub headers: Seq<(Seq<u8>, Seq<u8>)>,
    pub body: Seq<u8>,
}

/// What the parser says of a byte sequence.
pub ghost enum ParseModel {
    /// No complete request yet: more bytes may still arrive.
    Incomplete,
    /// The bytes can never grow into a well-formed request.
    Malformed,
    /// A complete request.
    Complete(ReqModel),
}

/// The headers parsed from the lines after the request line: each line
/// is split at its first `": "`; a line without one is skipped.
pub open spec fn spec_headers_of(lines: Seq<Seq<u8>>) -> Seq<(Seq<u8>, Seq<u8>)>
    decreases lines.len(),
{
    if lines.len() == 0 {
        Seq::empty()
    } else {
        let rest = spec_headers_of(lines.drop_first());
        match first_match_from(lines.first(), colon_space(), 0) {
            Some(j) => seq![
                (
                    lines.first().subrange(0, j),
                    lines.first().subrange(j + 2, lines.first().len() as int),
                ),
            ] + rest,
            None => rest,
        }
    }
}

/// How many body bytes the request announces: the `Content-Length`
/// value for a `POST` or `PUT` with a numeral there, and zero
/// otherwise.
pub open spec fn spec_body_len(method: HTTPMethod, headers: Seq<(Seq<u8>, Seq<u8>)>) -> nat {
    if method == HTTPMethod::POST || method == HTTPMethod::PUT {
        match spec_header_lookup(headers, content_length_name()) {
            Some(v) => if is_numeral(v) {
                numeral_val(v)
            } else {
                0
            },
            None => 0,
        }
    } else {
        0
    }
}

/// The specification-level parser.
///
/// The head section runs to the first empty line.  Its first line must
/// split on single spaces into exactly a method, a path beginning with
/// `/`, and a version; anything else is malformed.  The later lines
/// become headers.  A `POST` or `PUT` with a `Content-Length` numeral
/// `n` has the `n` bytes after the empty line as its body, and is
/// incomplete until they have arrived; every other request has an
/// empty body.
pub open spec fn spec_parse(input: Seq<u8>) -> ParseModel {
    match first_match_from(input, head_end_mark(), 0) {
        None => ParseModel::Incomplete,
        Some(h) => {
            let head = input.subrange(0, h);
            let tail = input.subrange(h + 4, input.len() as int);
            let lines = spec_split(head, crlf());
            let toks = spec_split(lines[0], space());
            if toks.len() != 3 {
                ParseModel::Malformed
            } else {
                match spec_method_of_bytes(toks[0]) {
                    None => ParseModel::Malformed,
                    Some(m) => if toks[1].len() == 0 || toks[1][0] != 47 {
                        ParseModel::Malformed
                    } else {
                        let headers = spec_headers_of(lines.drop_first());
                        let blen = spec_body_len(m, headers);
                        if tail.len() < blen {
                            ParseModel::Incomplete
                        } else {
                            ParseModel::Complete(
                                ReqModel {
                                    method: m,
                                    path: toks[1],
                                    version: toks[2],
                                    headers,
                                    body: tail.subrange(0, blen as int),
                                },
                            )
                        }
                    },
                }
            }
        },
    }
}

/// A request, immutable once parsed.
#[derive(Debug)]
pub struct HTTPRequest {
    pub method: HTTPMethod,
    pub path: Vec<u8>,
    pub http_version: Vec<u8>,
    pub headers: Vec<HeaderField>,
    pub body: Vec<u8>,
}

impl View for HTTPRequest {
    type V = ReqModel;

    open spec fn view(&self) -> ReqModel {
        ReqModel {
            method: self.method,
            path: self.path@,
            version: self.http_version@,
            headers: hfields_view(self.headers@),
            body: self.body@,
        }
    }
}

/// What the parser returned for the bytes seen so far.
pub enum ParseResult {
    /// No complete request yet: read more bytes and try again.
    Incomplete,
    /// The bytes can never grow into a well-formed request.
    Malformed,
    /// A complete request.
    Complete(HTTPRequest),
}

/// Parses the header lines (everything after the first line of the
/// head section) into header fields.
fn parse_header_lines(lines: &Vec<Vec<u8>>) -> (r: Vec<HeaderField>)
    requires
        1 <= lines@.len(),
    ensures
        hfields_view(r@) == spec_headers_of(lines.deep_view().drop_first()),
{
    let ghost deep = lines.deep_view();
    let sep = colon_space_bytes();
    let mut r: Vec<HeaderField> = Vec::new();
    let mut i: usize = 1;
    proof {
        assert(deep.drop_first() =~= deep.subrange(1, deep.len() as int));
        assert(hfields_view(r@) =~= Seq::<(Seq<u8>, Seq<u8>)>::empty());
    }
    while i < lines.len()
        invariant
            1 <= i <= lines@.len(),
            deep == lines.deep_view(),
            sep@ == colon_space(),
            spec_headers_of(deep.drop_first()) == hfields_view(r@) + spec_headers_of(
                deep.subrange(i as int, deep.len() as int),
            ),
        decreases lines@.len() - i,
    {
        let ghost rem = deep.subrange(i as int, deep.len() as int);
        proof {
            assert(rem.first() == deep[i as int]);
            assert(rem.drop_first() =~= deep.subrange(i + 1, deep.len() as int));
            assert(lines@[i as int].deep_view() =~= lines@[i as int]@);
        }
        let line = &lines[i];
        let ghost old_view = hfields_view(r@);
        match find(line.as_slice(), sep.as_slice(), 0) {
            Some(j) => {
                proof {
                    lemma_first_match_bounds(line@, colon_space(), j as int);
                }
                let llen = line.len();
                let field = HeaderField {
                    name: subvec(line.as_slice(), 0, j),
                    value: subvec(line.as_slice(), j + 2, llen),
                };
                r.push(field);
                proof {
                    assert(hfields_view(r@) =~= old_view + seq![
                        (deep[i as int].subrange(0, j as int), deep[i as int].subrange(
                            j + 2,
                            deep[i as int].len() as int,
                        )),
                    ]);
                    assert(spec_headers_of(rem) == seq![
                        (deep[i as int].subrange(0, j as int), deep[i as int].subrange(
                            j + 2,
                            deep[i as int].len() as int,
                        )),
                    ] + spec_headers_of(rem.drop_first()));
                    assert(hfields_view(r@) + spec_headers_of(rem.drop_first()) =~= old_view
                        + spec_headers_of(rem));
                }
            },
            None => {
                proof {
                    assert(spec_headers_of(rem) == spec_headers_of(rem.drop_first()));
                }
            },
        }
        i += 1;
    }
    proof {
        assert(deep.subrange(i as int, deep.len() as int) =~= Seq::<Seq<u8>>::empty());
        assert(spec_headers_of(Seq::<Seq<u8>>::empty()) =~= Seq::<(Seq<u8>, Seq<u8>)>::empty());
        assert(hfields_view(r@) + Seq::<(Seq<u8>, Seq<u8>)>::empty() =~= hfields_view(r@));
    }
    r
}

/// Parses the bytes read so far from one connection.
///
/// The result agrees with [`spec_parse`]: incomplete when more bytes
/// may still complete the request, malformed when they never can, and
/// otherwise the parsed request.
pub fn parse_http_request(input: &[u8]) -> (r: ParseResult)
    ensures
        (r is Incomplete) <==> (spec_parse(input@) is Incomplete),
        (r is Malformed) <==> (spec_parse(input@) is Malformed),
        r matches ParseResult::Complete(req) ==> spec_parse(input@) == ParseModel::Complete(req@),
{
    let mark = head_end_mark_bytes();
    let ilen = input.len();
    match find(input, mark.as_slice(), 0) {
        None => ParseResult::Incomplete,
        Some(h) => {
            proof {
                lemma_first_match_bounds(input@, head_end_mark(), h as int);
            }
            let head = subvec(input, 0, h);
            let tail = subvec(input, h + 4, ilen);
            let crlf_v = crlf_bytes();
            let lines = split(head.as_slice(), crlf_v.as_slice());
            proof {
                assert(lines.deep_view().len() == lines@.len());
                assert(spec_split(head@, crlf()).len() >= 1);
                assert(lines@[0].deep_view() =~= lines@[0]@);
            }
            let sp = space_bytes();
            let toks = split(lines[0].as_slice(), sp.as_slice());
            proof {
                assert(toks.deep_view().len() == toks@.len());
            }
            if toks.len() != 3 {
                return ParseResult::Malformed;
            }
            proof {
                assert(toks@[0].deep_view() =~= toks@[0]@);
                assert(toks@[1].deep_view() =~= toks@[1]@);
                assert(toks@[2].deep_view() =~= toks@[2]@);
            }
            let method = match method_of_token(toks[0].as_slice()) {
                None => { return ParseResult::Malformed; },
                Some(m) => m,
            };
            if toks[1].len() == 0 {
                return ParseResult::Malformed;
            }
            if toks[1][0] != 47 {
                return ParseResult::Malformed;
            }
            let headers = parse_header_lines(&lines);
            let cl_name = content_length_name_bytes();
            let tlen = tail.len();
            let ghost blen = spec_body_len(method, hfields_view(headers@));
            let body_needed: usize = if method == HTTPMethod::POST || method == HTTPMethod::PUT {
                match header_lookup(&headers, cl_name.as_slice()) {
                    Some(v) => match read_numeral(v.as_slice()) {
                        NumeralRead::Value(n) => n,
                        NumeralRead::NotNumeral => 0,
                        NumeralRead::Overflow => {
                            assert(blen > tail@.len());
                            return ParseResult::Incomplete;
                        },
                    },
                    None => 0,
                }
            } else {
                0
            };
            assert(blen == body_needed as nat);
            if tlen < body_needed {
                return ParseResult::Incomplete;
            }
            let body = subvec(tail.as_slice(), 0, body_needed);
            let req = HTTPRequest {
                method,
                path: copy_bytes(toks[1].as_slice()),
                http_version: copy_bytes(toks[2].as_slice()),
                headers,
                body,
            };
            ParseResult::Complete(req)
        },
    }
}

} // verus!
