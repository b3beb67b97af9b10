//! Aethon: a line-oriented request/response packet format. A packet is a
//! start line, header lines, an empty line, and a body.

pub mod error;
pub mod headers;
pub mod method;
pub mod request;
pub mod response;
pub mod status;
