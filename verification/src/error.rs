use vstd::prelude::*;

verus! {

/// The library's error value: a human readable message.
///
/// Failures coming from the host environment (sockets, files, TLS,
/// subprocesses) are reported to the library as plain messages, so one
/// variant carries everything.
#[derive(Debug, Clone)]
pub enum GemcapsError {
    Message(String),
}

impl View for GemcapsError {
    type V = Seq<char>;

    open spec fn view(&self) -> Seq<char> {
        match self {
            GemcapsError::Message(m) => m@,
        }
    }
}

impl GemcapsError {
    /// Wrap a message into an error value.
    pub fn new(message: &str) -> (r: GemcapsError)
        ensures
            r@ == message@,
    {
        GemcapsError::Message(message.to_owned())
    }

    /// The message carried by the error.
    pub fn message(&self) -> (r: &String)
        ensures
            r@ == self@,
    {
        match self {
            GemcapsError::Message(m) => m,
        }
    }
}

} // verus!
