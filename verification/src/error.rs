use vstd::prelude::*;

verus! {

/// Every way a request, or a step on the way to it, can fail.
#[derive(Debug, Clone, Copy, PartialEq, Eq, Structural)]
pub enum GeminiError {
    /// The input is no resource identifier this client can ask for.
    UrlError,
    /// The network connection could not be opened.
    ConnectionError,
    /// The encrypted session could not be negotiated.
    HandshakeError,
    /// The handshake went through, but the server showed no certificate.
    CertificateMissingError,
    /// Certificate text could not be read as a certificate.
    CertificateInvalidError,
    /// The request could not be written.
    StreamWriteError,
    /// The response could not be read to its end.
    StreamReadError,
    /// A trust record could not be written to durable storage.
    IoError,
    /// No trust record exists for the host.
    NotFound,
}

} // verus!
