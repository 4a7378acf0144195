//! A multi-tenant Gemini protocol server library.
//!
//! The crate holds the value types and the decision logic of the server:
//! the request parser, the response framing, the glob matcher, the path
//! utilities, the TTL response cache, the application dispatcher, and the
//! static-file and CGI decision rules. All network, file and subprocess
//! work is left to the embedding program, which hands plain values in and
//! out of these functions.

pub mod error;
pub mod strutil;
pub mod glob;
pub mod pathutil;
pub mod gemini;
pub mod cache;
pub mod config;
pub mod dispatch;
pub mod capsule;
pub mod log;
pub mod tls;
