//! The trust store: one certificate for each host that was ever accepted.

use crate::certificate::Certificate;
use crate::error::GeminiError;
use vstd::prelude::*;

verus! {

/// Directory under which trust records are kept when no other is configured.
pub fn get_cert_dir_path() -> (dir: String)
    ensures
        dir@ == "certs"@,
{
    "certs".to_owned()
}

/// The certificate accepted for one host.
#[derive(Debug)]
struct TrustRecord {
    hostname: String,
    certificate: Certificate,
}

/// Whether some record of `records` is kept for `hostname`.
spec fn holds(records: Seq<TrustRecord>, hostname: Seq<char>) -> bool {
    exists|i: int| 0 <= i < records.len() && records[i].hostname@ == hostname
}

/// Where in `records` the record of `hostname` is kept.
spec fn place(records: Seq<TrustRecord>, hostname: Seq<char>) -> int {
    choose|i: int| 0 <= i < records.len() && records[i].hostname@ == hostname
}

/// The map from each recorded hostname to the text of its certificate.
spec fn records_view(records: Seq<TrustRecord>) -> Map<Seq<char>, Seq<u8>> {
    Map::new(
        |hostname: Seq<char>| holds(records, hostname),
        |hostname: Seq<char>| records[place(records, hostname)].certificate@,
    )
}

/// No hostname has two records, and every recorded certificate is well formed.
spec fn records_wf(records: Seq<TrustRecord>) -> bool {
    &&& forall|i: int, j: int|
        0 <= i < j < records.len() ==> records[i].hostname@ != records[j].hostname@
    &&& forall|i: int| 0 <= i < records.len() ==> (#[trigger] records[i]).certificate.wf()
}

/// The record at `i` is the one the view shows for its hostname.
proof fn lemma_record_viewed(records: Seq<TrustRecord>, i: int)
    requires
        records_wf(records),
        0 <= i < records.len(),
    ensures
        holds(records, records[i].hostname@),
        place(records, records[i].hostname@) == i,
        records_view(records).contains_key(records[i].hostname@),
        records_view(records)[records[i].hostname@] == records[i].certificate@,
{
    let hostname = records[i].hostname@;
    assert(holds(records, hostname));
    let j = place(records, hostname);
    assert(0 <= j < records.len() && records[j].hostname@ == hostname);
}

/// A record for a hostname that has none adds that hostname to the view.
proof fn lemma_view_push(records: Seq<TrustRecord>, record: TrustRecord)
    requires
        records_wf(records),
        record.certificate.wf(),
        !holds(records, record.hostname@),
    ensures
        records_wf(records.push(record)),
        records_view(records.push(record)) == records_view(records).insert(
            record.hostname@,
            record.certificate@,
        ),
{
    let longer = records.push(record);
    assert forall|i: int, j: int| 0 <= i < j < longer.len() implies longer[i].hostname@
        != longer[j].hostname@ by {
        if j == records.len() {
            assert(records[i].hostname@ != record.hostname@);
        }
    }
    assert(records_wf(longer));
    let expected = records_view(records).insert(record.hostname@, record.certificate@);
    assert forall|h: Seq<char>| records_view(longer).contains_key(h) <==> expected.contains_key(
        h,
    ) by {
        if holds(longer, h) {
            let i = place(longer, h);
            if i < records.len() {
                assert(records[i].hostname@ == h);
            }
        }
        if holds(records, h) {
            let i = place(records, h);
            assert(longer[i].hostname@ == h);
        }
        if h == record.hostname@ {
            assert(longer[records.len() as int].hostname@ == h);
        }
    }
    assert forall|h: Seq<char>| records_view(longer).contains_key(h) implies records_view(
        longer,
    )[h] == expected[h] by {
        let i = place(longer, h);
        lemma_record_viewed(longer, i);
        if i < records.len() {
            lemma_record_viewed(records, i);
        }
    }
    assert(records_view(longer) =~= expected);
}

/// Another certificate in the record at `i` changes the view at its hostname.
proof fn lemma_view_update(records: Seq<TrustRecord>, i: int, record: TrustRecord)
    requires
        records_wf(records),
        0 <= i < records.len(),
        record.certificate.wf(),
        record.hostname@ == records[i].hostname@,
    ensures
        records_wf(records.update(i, record)),
        records_view(records.update(i, record)) == records_view(records).insert(
            record.hostname@,
            record.certificate@,
        ),
{
    let changed = records.update(i, record);
    assert forall|a: int, b: int| 0 <= a < b < changed.len() implies changed[a].hostname@
        != changed[b].hostname@ by {
        assert(changed[a].hostname@ == records[a].hostname@);
        assert(changed[b].hostname@ == records[b].hostname@);
    }
    assert(records_wf(changed));
    let expected = records_view(records).insert(record.hostname@, record.certificate@);
    assert forall|h: Seq<char>| records_view(changed).contains_key(h) <==> expected.contains_key(
        h,
    ) by {
        if holds(changed, h) {
            let k = place(changed, h);
            assert(records[k].hostname@ == h);
        }
        if holds(records, h) {
            let k = place(records, h);
            assert(changed[k].hostname@ == h);
        }
        if h == record.hostname@ {
            assert(changed[i].hostname@ == h);
        }
    }
    assert forall|h: Seq<char>| records_view(changed).contains_key(h) implies records_view(
        changed,
    )[h] == expected[h] by {
        let k = place(changed, h);
        lemma_record_viewed(changed, k);
        lemma_record_viewed(records, k);
    }
    assert(records_view(changed) =~= expected);
}

/// As many hostnames are recorded as there are records.
proof fn lemma_view_len(records: Seq<TrustRecord>)
    requires
        records_wf(records),
    ensures
        records_view(records).dom().finite(),
        records_view(records).dom().len() == records.len(),
    decreases records.len(),
{
    if records.len() == 0 {
        assert(records_view(records).dom() =~= Set::<Seq<char>>::empty());
    } else {
        let rest = records.drop_last();
        let last = records.last();
        assert(records_wf(rest));
        lemma_view_len(rest);
        assert(!holds(rest, last.hostname@)) by {
            if holds(rest, last.hostname@) {
                let i = place(rest, last.hostname@);
                assert(records[i].hostname@ == last.hostname@);
            }
        }
        assert(rest.push(last) =~= records);
        lemma_view_push(rest, last);
    }
}

/// A key-value store from hostnames to certificates, held in memory.
///
/// Its view is the map from each trusted hostname to the PEM text of the
/// certificate recorded for it, which is what a durable backing keeps under
/// the hostname's key.
#[derive(Debug)]
pub struct TrustStore {
    records: Vec<TrustRecord>,
}

impl View for TrustStore {
    type V = Map<Seq<char>, Seq<u8>>;

    closed spec fn view(&self) -> Map<Seq<char>, Seq<u8>> {
        records_view(self.records@)
    }
}

impl TrustStore {
    /// No hostname has two records, and every recorded certificate is well
    /// formed.
    pub closed spec fn wf(&self) -> bool {
        records_wf(self.records@)
    }

    /// A store without any record.
    pub fn new() -> (store: TrustStore)
        ensures
            store.wf(),
            store@ == Map::<Seq<char>, Seq<u8>>::empty(),
    {
        let store = TrustStore { records: Vec::new() };
        assert(store@ =~= Map::<Seq<char>, Seq<u8>>::empty());
        store
    }

    /// Number of hosts that have a record.
    pub fn len(&self) -> (n: usize)
        requires
            self.wf(),
        ensures
            self@.dom().finite(),
            n == self@.dom().len(),
    {
        proof {
            lemma_view_len(self.records@);
        }
        self.records.len()
    }

    /// Position of the record of `hostname`, if it has one.
    fn position(&self, hostname: &String) -> (at: Option<usize>)
        requires
            self.wf(),
        ensures
            match at {
                Some(i) => i < self.records@.len() && self.records@[i as int].hostname@
                    == hostname@,
                None => !holds(self.records@, hostname@),
            },
    {
        let n = self.records.len();
        let mut i: usize = 0;
        while i < n
            invariant
                n == self.records@.len(),
                i <= n,
                forall|k: int| 0 <= k < i ==> self.records@[k].hostname@ != hostname@,
            decreases n - i,
        {
            if self.records[i].hostname == *hostname {
                return Some(i);
            }
            i = i + 1;
        }
        None
    }

    /// Whether `hostname` has a record.
    pub fn contains(&self, hostname: &str) -> (found: bool)
        requires
            self.wf(),
        ensures
            found == self@.contains_key(hostname@),
    {
        let key = hostname.to_owned();
        match self.position(&key) {
            Some(i) => {
                proof {
                    lemma_record_viewed(self.records@, i as int);
                }
                true
            },
            None => false,
        }
    }

    /// The certificate recorded for `hostname`.
    ///
    /// Fails with `NotFound` exactly when the host has no record. Every
    /// certificate in the store was read and digested when it came in, so what
    /// is handed out is always a whole, well-formed certificate.
    pub fn load(&self, hostname: &str) -> (r: Result<&Certificate, GeminiError>)
        requires
            self.wf(),
        ensures
            match r {
                Ok(c) => self@.contains_key(hostname@) && c@ == self@[hostname@] && c.wf(),
                Err(e) => !self@.contains_key(hostname@) && e == GeminiError::NotFound,
            },
    {
        let key = hostname.to_owned();
        match self.position(&key) {
            Some(i) => {
                proof {
                    lemma_record_viewed(self.records@, i as int);
                }
                Ok(&self.records[i].certificate)
            },
            None => Err(GeminiError::NotFound),
        }
    }

    /// Records `certificate` for `hostname`, in place of any record the host
    /// had. No other host's record changes.
    pub fn save(&mut self, hostname: &str, certificate: Certificate)
        requires
            old(self).wf(),
            certificate.wf(),
        ensures
            final(self).wf(),
            final(self)@ == old(self)@.insert(hostname@, certificate@),
    {
        let key = hostname.to_owned();
        let at = self.position(&key);
        let record = TrustRecord { hostname: key, certificate };
        match at {
            Some(i) => {
                proof {
                    lemma_view_update(self.records@, i as int, record);
                }
                self.records.set(i, record);
            },
            None => {
                proof {
                    lemma_view_push(self.records@, record);
                }
                self.records.push(record);
            },
        }
    }

    /// Takes in the record of `hostname` as a durable backing holds it: the
    /// PEM text of the certificate.
    ///
    /// Text that is no certificate is a `CertificateInvalidError` and leaves
    /// the store as it was; OpenSSL says which text is one.
    pub fn restore(&mut self, hostname: &str, encoded: Vec<u8>) -> (r: Result<(), GeminiError>)
        requires
            old(self).wf(),
        ensures
            final(self).wf(),
            match r {
                Ok(_) => final(self)@ == old(self)@.insert(hostname@, encoded@),
                Err(e) => final(self)@ == old(self)@ && e == GeminiError::CertificateInvalidError,
            },
    {
        match Certificate::from_pem(encoded) {
            Ok(certificate) => {
                self.save(hostname, certificate);
                Ok(())
            },
            Err(e) => Err(e),
        }
    }
}

/// A certificate that is saved and loaded again comes back with the text, and
/// so with the fingerprint, it was saved with, whatever else the store holds.
pub proof fn lemma_save_then_load(
    records: Map<Seq<char>, Seq<u8>>,
    hostname: Seq<char>,
    saved: Certificate,
    loaded: Certificate,
)
    requires
        saved.wf(),
        loaded.wf(),
        loaded@ == records.insert(hostname, saved@)[hostname],
    ensures
        records.insert(hostname, saved@).contains_key(hostname),
        loaded@ == saved@,
        loaded.fingerprint() == saved.fingerprint(),
{
}

} // verus!
