//! Small network tools: a UDP key resolver, a line-oriented request/response
//! packet format, and the front end of a markup parser.

pub mod dict;
pub mod text;
pub mod aethon;
pub mod echo;
pub mod hermes;
