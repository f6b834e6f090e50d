//! Verified core of a minimal HTTP/1.1 server.
//!
//! The crate parses the raw bytes of one request into a structured
//! [`request::HTTPRequest`], matches it against the fixed route table,
//! plans what the connection handler must do, and serializes the
//! resulting response into wire bytes.  Every step carries an exact
//! specification.  The surrounding process (sockets, files, threads)
//! feeds bytes in and carries the planned actions out.

pub mod handler;
pub mod request;
pub mod response;
pub mod router;
pub mod scan;
