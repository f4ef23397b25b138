//! The core of a minimal HTTP/1.1 server, verified with Verus.
//!
//! One request per connection is parsed out of a byte buffer
//! ([`http_request`]), dispatched by method and path to a fixed set of
//! routes ([`router`]), and answered with a response whose framing — status
//! line, header lines in a fixed order, blank line, body with a matching
//! `Content-Length` — is proved correct ([`http_response`]).
//!
//! The library never touches a socket or the filesystem. A caller reads the
//! request bytes, performs the one file operation [`router::file_action_of`]
//! asks for, and hands the outcome to [`router::dispatch`]; gzip compression
//! for the echo route runs inside the library through flate2, behind a
//! narrow trusted boundary.
pub mod bytes;
pub mod headers;
pub mod http_request;
pub mod http_response;
pub mod router;
