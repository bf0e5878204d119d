//! The error taxonomy the library reports.

use vstd::prelude::*;

verus! {

/// The library's error taxonomy. Callers decide how to react; the library
/// only classifies.
#[derive(Debug, Clone, Copy, PartialEq, Eq, Structural)]
pub enum Error {
    /// Malformed relay URL, unknown scheme, or missing cipher key.
    Config,
    /// DNS failure, handshake failure, socket write error, or stream closed.
    Connection,
    /// Malformed CBOR, unknown envelope type, or missing required field.
    Decode,
    /// Authenticated-encryption failure or invalid nonce length.
    Cipher,
    /// A request or wait ran out of time; carries the budget in seconds.
    Timeout(u64),
    /// I/O failure while renaming or creating a cached file.
    Resource,
    /// A response inconsistent with its request, or a control packet where
    /// an encrypted one was needed.
    Protocol,
}

impl Error {
    /// A short stable name for the error class, for logs kept by callers.
    pub fn name(&self) -> (r: &'static str)
        ensures
            (*self is Config) ==> r@ == "config"@,
            (*self is Cipher) ==> r@ == "cipher"@,
            (*self is Decode) ==> r@ == "decode"@,
    {
        match self {
            Error::Config => "config",
            Error::Connection => "connection",
            Error::Decode => "decode",
            Error::Cipher => "cipher",
            Error::Timeout(_) => "timeout",
            Error::Resource => "resource",
            Error::Protocol => "protocol",
        }
    }
}

} // verus!
