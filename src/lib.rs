//! A small HTTP/1.1 client: requests and responses as text, the header and
//! path grammars, and the decisions of a call that may follow redirects.

pub mod client;
pub mod grammar;
pub mod headers;
pub mod http;
pub mod resource;
pub mod round_trip;
pub mod text;
