//! A Gemini client core built around trust on first use.
//!
//! The crate holds the decisions of a Gemini request: how a certificate is
//! fingerprinted, when a host's certificate is trusted, what is written to the
//! server and what is handed back. Sockets, files and the TLS handshake stay
//! with the caller, who reports what happened as events and carries out the
//! actions it is given in return.

pub mod error;
pub mod certificate;
pub mod fingerprint;
pub mod session;
pub mod store;
pub mod target;
pub mod tofu;
