//! A small file-browsing HTTP server core: request decoding, listing and
//! detail rendering, and response framing, all as verified functions on
//! plain values.
pub mod percent;
pub mod digits;
pub mod request;
pub mod time;
pub mod entry;
pub mod page;
pub mod response;
