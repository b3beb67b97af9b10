//! Hermes: the front end of a markup reader, from characters to tokens to
//! a tree of nodes.

pub mod engine;
