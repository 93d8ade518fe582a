//! A verified core for a small file-store daemon that speaks a request-line
//! subset of HTTP/1.1: request routing, query parsing, audio duration
//! inspection, listing and response construction.  Transport and filesystem
//! plumbing live outside the library and hand plain values in.
pub mod bytes;
pub mod route;
pub mod json;
pub mod duration;
pub mod query;
pub mod ceiling;
pub mod text;
pub mod response;
pub mod listing;
pub mod upload;
