//! A minimal HTTP/1.1 request and response pipeline: parsing of requests from
//! raw bytes, routing to a small set of built-in routes, negotiation of a
//! compressed body, and serialisation of the response to its wire form.

pub mod content_type;
pub mod decimal;
pub mod encoding;
pub mod framing;
pub mod headers;
pub mod laws;
pub mod method;
pub mod request;
pub mod response;
pub mod router;
pub mod text;
