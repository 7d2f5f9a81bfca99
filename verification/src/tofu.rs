//! Trust on first use: the first certificate a host shows is recorded and
//! trusted; later ones are held against the record.

use crate::certificate::{hex_fingerprint, x509_md5, Certificate};
use crate::fingerprint::{fingerprint_text, lemma_fingerprint_injective};
use crate::store::TrustStore;
use vstd::prelude::*;

verus! {

/// What the verifier says of a certificate.
#[derive(Debug, Clone, Copy, PartialEq, Eq, Structural)]
pub enum TrustOutcome {
    /// First contact, or the fingerprint on record.
    Trusted,
    /// The host has a record with another fingerprint.
    Mismatched,
}

/// The fingerprint of the certificate with the PEM text `encoded`.
pub open spec fn fingerprint_of(encoded: Seq<u8>) -> Seq<char> {
    fingerprint_text(x509_md5(encoded))
}

/// The verdict on a certificate with text `encoded` shown by `hostname`, given
/// the records in `store`.
pub open spec fn outcome_of(
    store: Map<Seq<char>, Seq<u8>>,
    hostname: Seq<char>,
    encoded: Seq<u8>,
) -> TrustOutcome {
    if !store.contains_key(hostname) {
        TrustOutcome::Trusted
    } else if fingerprint_of(store[hostname]) == fingerprint_of(encoded) {
        TrustOutcome::Trusted
    } else {
        TrustOutcome::Mismatched
    }
}

/// The records once `hostname` has shown the certificate: a host without a
/// record gets one, and nothing else changes.
pub open spec fn store_after(
    store: Map<Seq<char>, Seq<u8>>,
    hostname: Seq<char>,
    encoded: Seq<u8>,
) -> Map<Seq<char>, Seq<u8>> {
    if store.contains_key(hostname) {
        store
    } else {
        store.insert(hostname, encoded)
    }
}

/// Decides whether `cert`, shown by `hostname`, is trusted.
///
/// A host without a record has the certificate recorded and is trusted. A host
/// with a record is trusted when the fingerprint of the recorded certificate
/// equals that of `cert`, and mismatched otherwise; its record stays as it is
/// either way. A mismatch is an outcome, not a failure.
pub fn verify_cert(store: &mut TrustStore, hostname: &str, cert: Certificate) -> (outcome:
    TrustOutcome)
    requires
        old(store).wf(),
        cert.wf(),
    ensures
        final(store).wf(),
        outcome == outcome_of(old(store)@, hostname@, cert@),
        final(store)@ == store_after(old(store)@, hostname@, cert@),
{
    match store.load(hostname) {
        Ok(existing) => {
            let existing_fingerprint = hex_fingerprint(existing);
            let current_fingerprint = hex_fingerprint(&cert);
            if existing_fingerprint == current_fingerprint {
                TrustOutcome::Trusted
            } else {
                TrustOutcome::Mismatched
            }
        },
        Err(_) => {
            store.save(hostname, cert);
            TrustOutcome::Trusted
        },
    }
}

/// First contact is always accepted: a host without a record is trusted, and
/// afterwards the store holds exactly one record more, for that host, with
/// the text of the certificate it showed.
pub proof fn lemma_first_contact(
    store: Map<Seq<char>, Seq<u8>>,
    hostname: Seq<char>,
    encoded: Seq<u8>,
)
    requires
        !store.contains_key(hostname),
    ensures
        outcome_of(store, hostname, encoded) == TrustOutcome::Trusted,
        store_after(store, hostname, encoded).dom() == store.dom().insert(hostname),
        store_after(store, hostname, encoded)[hostname] == encoded,
        forall|other: Seq<char>|
            store.contains_key(other) ==> store_after(store, hostname, encoded)[other]
                == store[other],
        store.dom().finite() ==> store_after(store, hostname, encoded).dom().len()
            == store.dom().len() + 1,
{
    assert(store_after(store, hostname, encoded).dom() =~= store.dom().insert(hostname));
}

/// A host that shows the certificate on record again is trusted, and its
/// record stays as it is.
pub proof fn lemma_stability(store: Map<Seq<char>, Seq<u8>>, hostname: Seq<char>, encoded: Seq<u8>)
    requires
        store.contains_key(hostname),
        store[hostname] == encoded,
    ensures
        outcome_of(store, hostname, encoded) == TrustOutcome::Trusted,
        store_after(store, hostname, encoded) == store,
{
}

/// A host that shows a certificate with another digest than the one on record
/// is mismatched, and its record stays as it is.
pub proof fn lemma_divergence(store: Map<Seq<char>, Seq<u8>>, hostname: Seq<char>, encoded: Seq<u8>)
    requires
        store.contains_key(hostname),
        x509_md5(store[hostname]) != x509_md5(encoded),
    ensures
        outcome_of(store, hostname, encoded) == TrustOutcome::Mismatched,
        store_after(store, hostname, encoded) == store,
{
    if fingerprint_of(store[hostname]) == fingerprint_of(encoded) {
        lemma_fingerprint_injective(x509_md5(store[hostname]), x509_md5(encoded));
    }
}

/// No verdict ever changes or removes a record that exists. Asking again about
/// the same certificate gives the same verdict and changes nothing more: what
/// was trusted stays trusted, what was mismatched stays mismatched.
pub proof fn lemma_records_are_kept(
    store: Map<Seq<char>, Seq<u8>>,
    hostname: Seq<char>,
    encoded: Seq<u8>,
)
    ensures
        forall|other: Seq<char>|
            store.contains_key(other) ==> store_after(store, hostname, encoded).contains_key(other)
                && store_after(store, hostname, encoded)[other] == store[other],
        outcome_of(store_after(store, hostname, encoded), hostname, encoded) == outcome_of(
            store,
            hostname,
            encoded,
        ),
        store_after(store_after(store, hostname, encoded), hostname, encoded) == store_after(
            store,
            hostname,
            encoded,
        ),
{
}

} // verus!
