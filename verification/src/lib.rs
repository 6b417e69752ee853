//! A minimal HTTP/1.1 static-content server library.
//!
//! The library carries the request/response pipeline of a small web server:
//! parsing a raw request buffer, checking the method against the allow-list,
//! resolving the requested path in an in-memory resource map, and rendering
//! the response text.  Every function is specified and verified; the few
//! places that need the outside world (the current date, a random worker
//! index, UTF-8 decoding) stand behind small trusted wrappers.

pub mod dispatch;
pub mod http;
pub mod laws;
pub mod request;
pub mod resources;
pub mod response;
pub mod string_map;
pub mod text;
pub mod worker;
