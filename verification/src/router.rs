//! Route matching: which handler serves a request, and what the path
//! contributes to it.
//!
//! The route table, in priority order: `GET /`, `GET /echo/<text>`,
//! `GET /user-agent`, `GET /files/<name>`, `POST /files/<name>`, and
//! otherwise no match.  A prefix route captures the whole remainder of
//! the path, embedded slashes included, with no percent-decoding.

use vstd::prelude::*;

use crate::request::HTTPMethod;
use crate::scan::{bytes_eq, has_prefix, spec_has_prefix, subvec};

verus! {

/// The bytes of the path `/`.
pub open spec fn root_path() -> Seq<u8> {
    seq![47u8]
}

/// The bytes of the prefix `/echo/`.
pub open spec fn echo_prefix() -> Seq<u8> {
    seq![47u8, 101u8, 99u8, 104u8, 111u8, 47u8]
}

/// The bytes of the path `/user-agent`.
pub open spec fn user_agent_path() -> Seq<u8> {
    seq![47u8, 117u8, 115u8, 101u8, 114u8, 45u8, 97u8, 103u8, 101u8, 110u8, 116u8]
}

/// The bytes of the prefix `/files/`.
pub open spec fn files_prefix() -> Seq<u8> {
    seq![47u8, 102u8, 105u8, 108u8, 101u8, 115u8, 47u8]
}

/// The bytes of `/`.
pub fn root_path_bytes() -> (v: Vec<u8>)
    ensures
        v@ == root_path(),
{
    let v = vec![47u8];
    proof {
        assert(v@ =~= root_path());
    }
    v
}

/// The bytes of `/echo/`.
pub fn echo_prefix_bytes() -> (v: Vec<u8>)
    ensures
        v@ == echo_prefix(),
{
    let v = vec![47u8, 101u8, 99u8, 104u8, 111u8, 47u8];
    proof {
        assert(v@ =~= echo_prefix());
    }
    v
}

/// The bytes of `/user-agent`.
pub fn user_agent_path_bytes() -> (v: Vec<u8>)
    ensures
        v@ == user_agent_path(),
{
    let v = vec![47u8, 117u8, 115u8, 101u8, 114u8, 45u8, 97u8, 103u8, 101u8, 110u8, 116u8];
    proof {
        assert(v@ =~= user_agent_path());
    }
    v
}

/// The bytes of `/files/`.
pub fn files_prefix_bytes() -> (v: Vec<u8>)
    ensures
        v@ == files_prefix(),
{
    let v = vec![47u8, 102u8, 105u8, 108u8, 101u8, 115u8, 47u8];
    proof {
        assert(v@ =~= files_prefix());
    }
    v
}

/// The route a request matches, with its extracted path parameter.
pub ghost enum RouteModel {
    /// `GET /`.
    Root,
    /// `GET /echo/<text>`: the captured text.
    Echo(Seq<u8>),
    /// `GET /user-agent`.
    UserAgent,
    /// `GET /files/<name>`: the captured file name.
    FileRead(Seq<u8>),
    /// `POST /files/<name>`: the captured file name.
    FileWrite(Seq<u8>),
    /// No route matches: the response is `404 Not Found`.
    NoMatch,
}

/// The route matched by a method and a path, first match of the
/// ordered table winning.
pub open spec fn spec_route(method: HTTPMethod, path: Seq<u8>) -> RouteModel {
    if method == HTTPMethod::GET && path == root_path() {
        RouteModel::Root
    } else if method == HTTPMethod::GET && spec_has_prefix(path, echo_prefix()) {
        RouteModel::Echo(path.skip(6))
    } else if method == HTTPMethod::GET && path == user_agent_path() {
        RouteModel::UserAgent
    } else if method == HTTPMethod::GET && spec_has_prefix(path, files_prefix()) {
        RouteModel::FileRead(path.skip(7))
    } else if method == HTTPMethod::POST && spec_has_prefix(path, files_prefix()) {
        RouteModel::FileWrite(path.skip(7))
    } else {
        RouteModel::NoMatch
    }
}

/// The route a request matches, with its extracted path parameter.
pub enum RouteMatch {
    /// `GET /`.
    Root,
    /// `GET /echo/<text>`: the captured text.
    Echo(Vec<u8>),
    /// `GET /user-agent`.
    UserAgent,
    /// `GET /files/<name>`: the captured file name.
    FileRead(Vec<u8>),
    /// `POST /files/<name>`: the captured file name.
    FileWrite(Vec<u8>),
    /// No route matches: the response is `404 Not Found`.
    NoMatch,
}

impl View for RouteMatch {
    type V = RouteModel;

    open spec fn view(&self) -> RouteModel {
        match self {
            RouteMatch::Root => RouteModel::Root,
            RouteMatch::Echo(t) => RouteModel::Echo(t@),
            RouteMatch::UserAgent => RouteModel::UserAgent,
            RouteMatch::FileRead(n) => RouteModel::FileRead(n@),
            RouteMatch::FileWrite(n) => RouteModel::FileWrite(n@),
            RouteMatch::NoMatch => RouteModel::NoMatch,
        }
    }
}

/// Matches a method and a path against the route table.
pub fn route(method: HTTPMethod, path: &[u8]) -> (r: RouteMatch)
    ensures
        r@ == spec_route(method, path@),
{
    let plen = path.len();
    let root = root_path_bytes();
    let echo = echo_prefix_bytes();
    let ua = user_agent_path_bytes();
    let files = files_prefix_bytes();
    if method == HTTPMethod::GET && bytes_eq(path, root.as_slice()) {
        RouteMatch::Root
    } else if method == HTTPMethod::GET && has_prefix(path, echo.as_slice()) {
        proof {
            assert(path@.subrange(6, plen as int) =~= path@.skip(6));
        }
        RouteMatch::Echo(subvec(path, 6, plen))
    } else if method == HTTPMethod::GET && bytes_eq(path, ua.as_slice()) {
        RouteMatch::UserAgent
    } else if method == HTTPMethod::GET && has_prefix(path, files.as_slice()) {
        proof {
            assert(path@.subrange(7, plen as int) =~= path@.skip(7));
        }
        RouteMatch::FileRead(subvec(path, 7, plen))
    } else if method == HTTPMethod::POST && has_prefix(path, files.as_slice()) {
        proof {
            assert(path@.subrange(7, plen as int) =~= path@.skip(7));
        }
        RouteMatch::FileWrite(subvec(path, 7, plen))
    } else {
        RouteMatch::NoMatch
    }
}

} // verus!
