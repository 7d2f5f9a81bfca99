//! Certificates as this client sees them: the text a server's certificate is
//! stored as, and the digest it is recognised by.

use crate::error::GeminiError;
use crate::fingerprint::{colon_hex, fingerprint_text};
use openssl::error::ErrorStack;
use openssl::hash::MessageDigest;
use openssl::x509::X509;
use vstd::prelude::*;

verus! {

/// OpenSSL's error report. Nothing is read from it here.
#[verifier::external_type_specification]
#[verifier::external_body]
pub struct ExErrorStack(ErrorStack);

/// The MD5 digest that OpenSSL computes of the certificate that it reads from
/// the PEM text `encoded`, wherever it reads one and can digest it.
pub uninterp spec fn x509_md5(encoded: Seq<u8>) -> Seq<u8>;

/// Number of octets in an MD5 digest.
pub const DIGEST_LEN: usize = 16;

/// Longest text that OpenSSL accepts for reading.
pub const MAX_ENCODED_LEN: usize = 0x7fff_ffff;

/// Reads a certificate with `openssl::x509::X509::from_pem` and takes its
/// MD5 digest with `X509::digest`.
///
/// Trusted: whenever both calls succeed the digest is the one that
/// [`x509_md5`] names for this text. Nothing is claimed about when they
/// succeed: the text may hold no certificate, and an OpenSSL may be set up
/// without MD5. Longer texts than [`MAX_ENCODED_LEN`] are kept out because
/// the `openssl` crate's reader panics on them.
#[verifier::external_body]
fn x509_digest(encoded: &[u8]) -> (digest: Result<Vec<u8>, ErrorStack>)
    requires
        encoded@.len() <= MAX_ENCODED_LEN,
    ensures
        digest matches Ok(d) ==> d@ == x509_md5(encoded@),
{
    let certificate = X509::from_pem(encoded)?;
    let digest = certificate.digest(MessageDigest::md5())?;
    Ok(digest.to_vec())
}

/// A certificate observed in a handshake or read back from a trust record.
///
/// It keeps the PEM text it was read from, which is what a trust record
/// persists, and the digest of the certificate, which is what two
/// certificates are compared by.
#[derive(Debug)]
pub struct Certificate {
    encoded: Vec<u8>,
    digest: Vec<u8>,
}

impl View for Certificate {
    type V = Seq<u8>;

    /// The PEM text of the certificate.
    closed spec fn view(&self) -> Seq<u8> {
        self.encoded@
    }
}

impl Certificate {
    /// The digest kept with the certificate.
    pub closed spec fn digest(&self) -> Seq<u8> {
        self.digest@
    }

    /// The digest is the one of the text, and has the length of an MD5 digest.
    pub open spec fn wf(&self) -> bool {
        &&& self.digest() == x509_md5(self@)
        &&& self.digest().len() == DIGEST_LEN
    }

    /// The fingerprint: the digest as colon-separated upper-case hexadecimal.
    pub open spec fn fingerprint(&self) -> Seq<char> {
        fingerprint_text(self.digest())
    }

    /// Makes a certificate of its text and of what came of digesting it.
    ///
    /// A digest that could not be computed, or that has not the length of an
    /// MD5 digest, makes the text invalid. Any other digest is kept with the
    /// text as it is.
    pub fn from_digest(encoded: Vec<u8>, digest: Result<Vec<u8>, ErrorStack>) -> (r: Result<
        Certificate,
        GeminiError,
    >)
        ensures
            match digest {
                Ok(d) if d@.len() == DIGEST_LEN => r matches Ok(c) && c@ == encoded@ && c.digest()
                    == d@,
                _ => r == Err::<Certificate, GeminiError>(GeminiError::CertificateInvalidError),
            },
    {
        match digest {
            Ok(d) => {
                if d.len() == DIGEST_LEN {
                    Ok(Certificate { encoded, digest: d })
                } else {
                    Err(GeminiError::CertificateInvalidError)
                }
            },
            Err(_) => Err(GeminiError::CertificateInvalidError),
        }
    }

    /// Reads a certificate from PEM text.
    ///
    /// Whether the text holds a certificate is OpenSSL's to say. Text too long
    /// for it to read is invalid; any certificate that comes back keeps the
    /// text as it was given and is well formed.
    pub fn from_pem(encoded: Vec<u8>) -> (r: Result<Certificate, GeminiError>)
        ensures
            match r {
                Ok(c) => c@ == encoded@ && c.wf() && encoded@.len() <= MAX_ENCODED_LEN,
                Err(e) => e == GeminiError::CertificateInvalidError,
            },
            encoded@.len() > MAX_ENCODED_LEN ==> r is Err,
    {
        if encoded.len() > MAX_ENCODED_LEN {
            return Err(GeminiError::CertificateInvalidError);
        }
        let digest = x509_digest(encoded.as_slice());
        Certificate::from_digest(encoded, digest)
    }

    /// The PEM text, as a trust record persists it.
    pub fn to_pem(&self) -> (encoded: Vec<u8>)
        ensures
            encoded@ == self@,
    {
        vstd::slice::slice_to_vec(self.encoded.as_slice())
    }
}

/// The fingerprint of a certificate: its digest as colon-separated upper-case
/// hexadecimal octets.
pub fn hex_fingerprint(cert: &Certificate) -> (text: String)
    ensures
        text@ == cert.fingerprint(),
{
    colon_hex(cert.digest.as_slice())
}

/// Certificates with the same text have the same fingerprint.
pub proof fn lemma_fingerprint_deterministic(a: Certificate, b: Certificate)
    requires
        a.wf(),
        b.wf(),
        a@ == b@,
    ensures
        a.fingerprint() == b.fingerprint(),
{
}

/// Fingerprints are equal exactly when the digests are, and none is empty.
pub proof fn lemma_fingerprint_tells_digest(a: Certificate, b: Certificate)
    requires
        a.wf(),
        b.wf(),
    ensures
        a.fingerprint() == b.fingerprint() <==> a.digest() == b.digest(),
        a.fingerprint().len() == 47,
{
    if a.fingerprint() == b.fingerprint() {
        crate::fingerprint::lemma_fingerprint_injective(a.digest(), b.digest());
    }
}

} // verus!
