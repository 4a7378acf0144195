//! What the TLS plumbing keeps on this side of the host program: the
//! buffer that accumulates ClientHello bytes while they are also fed to
//! the TLS state machine.

pub mod buffer;
