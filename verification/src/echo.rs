//! A UDP resolver: it answers single-key lookups against a key/value table
//! over a fixed binary wire format.

pub mod args;
pub mod kv;
pub mod packet;
pub mod server;
