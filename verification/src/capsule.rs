//! The application handlers: each consumes a parsed request plus its
//! configuration slice and produces a response, or passes.

pub mod cgi;
pub mod file;
