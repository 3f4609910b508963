//! The proxy's header rules and response decisions.

pub mod body_buffer;
pub mod cache;
pub mod cert;
pub mod csp;
pub mod etag;
pub mod headers;
pub mod pipeline;
pub mod request;
pub mod response;
