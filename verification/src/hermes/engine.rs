//! Tokenizing and parsing of markup, and the document tree.

pub mod dom;
pub mod html;
