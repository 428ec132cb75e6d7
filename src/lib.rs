//! A minimal HTTP/1.1 request handler over raw bytes: request parsing,
//! routing, content-encoding negotiation and response framing.

pub mod bytes;
pub mod request;
pub mod encoding;
pub mod response;
pub mod router;
pub mod laws;
