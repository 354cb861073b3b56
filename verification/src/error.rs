use vstd::prelude::*;

verus! {

/// The error kinds that the library's operations surface.
///
/// `RemoteRejected` carries the HTTP status that the remote peer answered
/// with; every other kind is a plain classification of what went wrong.
#[derive(Clone, Copy, Debug, PartialEq, Eq, Structural)]
pub enum Error {
    /// The proxy or the network failed before the peer answered.
    Transport,
    /// The remote peer answered with a non-success status.
    RemoteRejected { status: u16 },
    /// A base32, UTF-8 or length check failed.
    BadEncoding,
    /// The envelope's version byte is not the supported one.
    UnsupportedVersion,
    /// A public key failed validation.
    BadKey,
    /// An envelope's signature did not verify.
    BadSignature,
    /// The envelope is shorter than its fixed-size prefix.
    TruncatedFrame,
    /// The persistent store failed.
    Storage,
    /// The configuration could not be loaded or was invalid.
    Config,
    /// The request failed authentication.
    Auth,
}

impl Error {
    /// The HTTP status an error kind answers with: parse and encoding
    /// failures are the client's fault, a failed authentication is
    /// unauthorized, everything else is a server-side failure.
    pub fn http_status(&self) -> (r: u16)
        ensures
            r == match self {
                Error::BadEncoding | Error::UnsupportedVersion | Error::TruncatedFrame => 400u16,
                Error::Auth => 401u16,
                _ => 500u16,
            },
    {
        match self {
            Error::BadEncoding | Error::UnsupportedVersion | Error::TruncatedFrame => 400,
            Error::Auth => 401,
            _ => 500,
        }
    }
}

} // verus!
