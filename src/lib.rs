//! A small HTTP/1.1 server's protocol engine: it parses one request, picks
//! the endpoint that its target names, decides the response (or the file to
//! read or write first), and writes the response out as text. Reading and
//! writing sockets and files is left to the caller.
//!
//! - `text`: searching and splitting text
//! - `wire`: requests, responses and headers
//! - `parser`: bytes to a request
//! - `router`: a target to an endpoint
//! - `response`: the responses that endpoints give
//! - `handler`: what each endpoint does
//! - `serializer`: a response to text
//! - `laws`: what holds of serving requests over all inputs

mod conv;
pub mod handler;
pub mod laws;
pub mod parser;
pub mod response;
pub mod router;
pub mod serializer;
pub mod text;
pub mod wire;
