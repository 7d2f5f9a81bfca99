use gemini::certificate::Certificate;
use gemini::error::GeminiError;
use gemini::session::{gemini_request, Action, Event, Phase, Request};
use gemini::store::TrustStore;
use gemini::target::Target;

const C1_PEM: &str = "-----BEGIN CERTIFICATE-----
MIIBgjCCASegAwIBAgIUERvMGR0yL7MEWQKDux2Yhs87vCIwCgYIKoZIzj0EAwIw
FTETMBEGA1UEAwwKYzEuZXhhbXBsZTAgFw0yNjEwMjgyMjU3NThaGA8yMTI2MTAw
NDIyNTc1OFowFTETMBEGA1UEAwwKYzEuZXhhbXBsZTBZMBMGByqGSM49AgEGCCqG
SM49AwEHA0IABGJZX22s7m3NBlR/f8oVVIJQfEwNf3GvC6N+qcd0qYF7MLdWSwgP
K80mlpNHYUXINO5PJHW/1yH8IhgMIJDccP2jUzBRMB0GA1UdDgQWBBQxVCt33ENd
n7c94qC0u5NwxdbtYjAfBgNVHSMEGDAWgBQxVCt33ENdn7c94qC0u5NwxdbtYjAP
BgNVHRMBAf8EBTADAQH/MAoGCCqGSM49BAMCA0kAMEYCIQDyW8KefZ7AK3m3Swi3
iFvcmisww4BJXvtFsuwxf7WLlwIhAJO9ht3yVD+0hE3k+jnWKQu644wR6fQO0HH/
8gwmbuM0
-----END CERTIFICATE-----
";

const C2_PEM: &str = "-----BEGIN CERTIFICATE-----
MIIBgDCCASegAwIBAgIUSy2mQjebmZBHRr0SKrgUdwFw+7kwCgYIKoZIzj0EAwIw
FTETMBEGA1UEAwwKYzIuZXhhbXBsZTAgFw0yNjEwMjgyMjU3NThaGA8yMTI2MTAw
NDIyNTc1OFowFTETMBEGA1UEAwwKYzIuZXhhbXBsZTBZMBMGByqGSM49AgEGCCqG
SM49AwEHA0IABKcrM9DbK7vrNp2rxrJ3yfvwksQ6tHXYeXhEptcqQqNqmOigHNvu
xBmPEYDZTUHQPN0C9Ch5S+VWa85sMGGTsfGjUzBRMB0GA1UdDgQWBBQ2SCcqcbo3
rIUN4qsVB3PhyRXeGTAfBgNVHSMEGDAWgBQ2SCcqcbo3rIUN4qsVB3PhyRXeGTAP
BgNVHRMBAf8EBTADAQH/MAoGCCqGSM49BAMCA0cAMEQCIF3SSDyv/ZEF7EYAvoqt
UCcgJvYYKcl7GEUzLhqdipmGAiBVw5Nq/iv3wAxWFU6cGq24vmQFJdVX5IcrZbzM
0YN67g==
-----END CERTIFICATE-----
";

fn c1() -> Certificate {
    Certificate::from_pem(C1_PEM.as_bytes().to_vec()).unwrap()
}

fn c2() -> Certificate {
    Certificate::from_pem(C2_PEM.as_bytes().to_vec()).unwrap()
}

fn begin(input: &str) -> Request {
    gemini_request(input).unwrap().0
}

fn send(warning: bool) -> Action {
    Action::Send { bytes: b"gemini://new.example/page\r\n".to_vec(), warning }
}

/// Takes a request for `gemini://new.example/page` up to the reading of the
/// response, and says whether a warning was due.
fn up_to_reading(store: &mut TrustStore, certificate: Certificate) -> (Request, bool) {
    let mut request = begin("gemini://new.example/page");
    let mut action = request.step(store, Event::CertificatePresented(certificate));
    if let Action::Persist { .. } = action {
        action = request.step(store, Event::Persisted);
    }
    let warning = match action {
        Action::Send { warning, .. } => warning,
        other => panic!("no send: {:?}", other),
    };
    assert_eq!(request.step(store, Event::Written), Action::Receive);
    (request, warning)
}

#[test]
fn request_begins_by_connecting() {
    let (request, action) = gemini_request("gemini://new.example/page").unwrap();
    assert_eq!(request.phase(), Phase::Connecting);
    assert_eq!(request.target().host(), "new.example");
    assert_eq!(action, Action::Connect { host: "new.example".to_string(), port: 1965 });
}

#[test]
fn request_connects_to_the_port_named() {
    let (_, action) = gemini_request("gemini://new.example:1966/").unwrap();
    assert_eq!(action, Action::Connect { host: "new.example".to_string(), port: 1966 });
}

#[test]
fn start_asks_to_connect() {
    let target = Target::parse("gemini://example.test:300/x").unwrap();
    let (request, action) = Request::start(target);
    assert_eq!(request.phase(), Phase::Connecting);
    assert_eq!(action, Action::Connect { host: "example.test".to_string(), port: 300 });
}

#[test]
fn malformed_input_begins_nothing() {
    assert_eq!(gemini_request("").err(), Some(GeminiError::UrlError));
    assert_eq!(gemini_request("gemini:/no-host").err(), Some(GeminiError::UrlError));
    assert_eq!(gemini_request("new.example/page").err(), Some(GeminiError::UrlError));
}

#[test]
fn first_contact_persists_then_sends() {
    let mut store = TrustStore::new();
    let mut request = begin("gemini://new.example/page");
    let action = request.step(&mut store, Event::CertificatePresented(c1()));
    assert_eq!(
        action,
        Action::Persist { hostname: "new.example".to_string(), encoded: C1_PEM.as_bytes().to_vec() }
    );
    assert_eq!(request.phase(), Phase::Persisting);
    assert_eq!(store.load("new.example").unwrap().to_pem(), C1_PEM.as_bytes());
    assert_eq!(request.step(&mut store, Event::Persisted), send(false));
    assert_eq!(request.phase(), Phase::Sending);
}

#[test]
fn known_certificate_sends_without_warning() {
    let mut store = TrustStore::new();
    store.save("new.example", c1());
    let mut request = begin("gemini://new.example/page");
    assert_eq!(request.step(&mut store, Event::CertificatePresented(c1())), send(false));
    assert_eq!(request.phase(), Phase::Sending);
    assert_eq!(store.len(), 1);
}

#[test]
fn other_certificate_sends_with_warning() {
    let mut store = TrustStore::new();
    store.save("new.example", c1());
    let mut request = begin("gemini://new.example/page");
    assert_eq!(request.step(&mut store, Event::CertificatePresented(c2())), send(true));
    assert_eq!(request.phase(), Phase::Sending);
    assert_eq!(store.load("new.example").unwrap().to_pem(), C1_PEM.as_bytes());
}

#[test]
fn response_is_all_that_was_read() {
    let mut store = TrustStore::new();
    let (mut request, _) = up_to_reading(&mut store, c1());
    assert_eq!(request.phase(), Phase::Receiving);
    assert_eq!(request.step(&mut store, Event::Received(b"20 text/gemini\r\n".to_vec())), Action::Receive);
    assert_eq!(request.step(&mut store, Event::Received(Vec::new())), Action::Receive);
    assert_eq!(request.step(&mut store, Event::Received(b"# Hello\n".to_vec())), Action::Receive);
    assert_eq!(
        request.step(&mut store, Event::Closed),
        Action::Deliver(b"20 text/gemini\r\n# Hello\n".to_vec())
    );
    assert_eq!(request.phase(), Phase::Done);
}

#[test]
fn empty_response_is_delivered() {
    let mut store = TrustStore::new();
    let (mut request, _) = up_to_reading(&mut store, c1());
    assert_eq!(request.step(&mut store, Event::Closed), Action::Deliver(Vec::new()));
}

#[test]
fn finished_request_repeats_its_response() {
    let mut store = TrustStore::new();
    let (mut request, _) = up_to_reading(&mut store, c1());
    request.step(&mut store, Event::Received(b"abc".to_vec()));
    assert_eq!(request.step(&mut store, Event::Closed), Action::Deliver(b"abc".to_vec()));
    assert_eq!(request.step(&mut store, Event::Written), Action::Deliver(b"abc".to_vec()));
    assert_eq!(
        request.step(&mut store, Event::Received(b"more".to_vec())),
        Action::Deliver(b"abc".to_vec())
    );
    assert_eq!(request.phase(), Phase::Done);
}

#[test]
fn connect_failure_is_a_connection_error() {
    let mut store = TrustStore::new();
    let mut request = begin("gemini://new.example/page");
    assert_eq!(
        request.step(&mut store, Event::ConnectFailed),
        Action::Fail(GeminiError::ConnectionError)
    );
    assert_eq!(request.phase(), Phase::Failed(GeminiError::ConnectionError));
}

#[test]
fn handshake_failure_is_a_handshake_error() {
    let mut store = TrustStore::new();
    let mut request = begin("gemini://new.example/page");
    assert_eq!(
        request.step(&mut store, Event::HandshakeFailed),
        Action::Fail(GeminiError::HandshakeError)
    );
}

#[test]
fn missing_certificate_is_an_error() {
    let mut store = TrustStore::new();
    let mut request = begin("gemini://new.example/page");
    assert_eq!(
        request.step(&mut store, Event::handshake(None)),
        Action::Fail(GeminiError::CertificateMissingError)
    );
    assert_eq!(store.len(), 0);
}

#[test]
fn unreadable_certificate_is_an_error() {
    let mut store = TrustStore::new();
    let mut request = begin("gemini://new.example/page");
    assert_eq!(
        request.step(&mut store, Event::handshake(Some(b"garbage".to_vec()))),
        Action::Fail(GeminiError::CertificateInvalidError)
    );
    assert_eq!(store.len(), 0);
}

#[test]
fn handshake_event_carries_the_certificate() {
    let mut store = TrustStore::new();
    let mut request = begin("gemini://new.example/page");
    let event = Event::handshake(Some(C1_PEM.as_bytes().to_vec()));
    assert!(matches!(event, Event::CertificatePresented(_)));
    assert_eq!(
        request.step(&mut store, event),
        Action::Persist { hostname: "new.example".to_string(), encoded: C1_PEM.as_bytes().to_vec() }
    );
}

#[test]
fn presented_maps_a_failed_read_to_invalid() {
    assert!(matches!(
        Event::presented(Err(GeminiError::CertificateInvalidError)),
        Event::CertificateInvalid
    ));
    assert!(matches!(Event::presented(Ok(c1())), Event::CertificatePresented(_)));
}

#[test]
fn persist_failure_is_an_io_error() {
    let mut store = TrustStore::new();
    let mut request = begin("gemini://new.example/page");
    request.step(&mut store, Event::CertificatePresented(c1()));
    assert_eq!(
        request.step(&mut store, Event::PersistFailed),
        Action::Fail(GeminiError::IoError)
    );
}

#[test]
fn write_failure_is_a_stream_write_error() {
    let mut store = TrustStore::new();
    store.save("new.example", c1());
    let mut request = begin("gemini://new.example/page");
    request.step(&mut store, Event::CertificatePresented(c1()));
    assert_eq!(
        request.step(&mut store, Event::WriteFailed),
        Action::Fail(GeminiError::StreamWriteError)
    );
}

#[test]
fn read_failure_is_a_stream_read_error() {
    let mut store = TrustStore::new();
    let (mut request, _) = up_to_reading(&mut store, c1());
    request.step(&mut store, Event::Received(b"partial".to_vec()));
    assert_eq!(
        request.step(&mut store, Event::ReadFailed),
        Action::Fail(GeminiError::StreamReadError)
    );
}

#[test]
fn failed_request_repeats_its_error() {
    let mut store = TrustStore::new();
    let mut request = begin("gemini://new.example/page");
    request.step(&mut store, Event::HandshakeFailed);
    assert_eq!(
        request.step(&mut store, Event::CertificatePresented(c1())),
        Action::Fail(GeminiError::HandshakeError)
    );
    assert_eq!(request.step(&mut store, Event::Closed), Action::Fail(GeminiError::HandshakeError));
    assert_eq!(store.len(), 0);
}

#[test]
fn event_out_of_turn_fails_the_phase() {
    let mut store = TrustStore::new();
    let mut request = begin("gemini://new.example/page");
    assert_eq!(
        request.step(&mut store, Event::Written),
        Action::Fail(GeminiError::ConnectionError)
    );

    let mut request = begin("gemini://new.example/page");
    request.step(&mut store, Event::CertificatePresented(c1()));
    assert_eq!(request.step(&mut store, Event::Closed), Action::Fail(GeminiError::IoError));

    let mut request = begin("gemini://new.example/page");
    request.step(&mut store, Event::CertificatePresented(c1()));
    assert_eq!(
        request.step(&mut store, Event::Received(b"x".to_vec())),
        Action::Fail(GeminiError::StreamWriteError)
    );

    let (mut request, _) = up_to_reading(&mut store, c1());
    assert_eq!(
        request.step(&mut store, Event::Persisted),
        Action::Fail(GeminiError::StreamReadError)
    );
}

#[test]
fn request_is_written_once() {
    let mut store = TrustStore::new();
    let mut request = begin("gemini://new.example/page");
    let events = vec![
        Event::CertificatePresented(c1()),
        Event::Persisted,
        Event::Written,
        Event::Received(b"20 x\r\n".to_vec()),
        Event::Written,
        Event::Persisted,
        Event::Closed,
    ];
    let mut sends = 0;
    for event in events {
        if let Action::Send { bytes, .. } = request.step(&mut store, event) {
            assert_eq!(bytes, b"gemini://new.example/page\r\n");
            sends += 1;
        }
    }
    assert_eq!(sends, 1);
}

#[test]
fn three_visits_to_a_new_host() {
    let mut store = TrustStore::new();
    assert!(!store.contains("new.example"));

    let (mut first, warned) = up_to_reading(&mut store, c1());
    assert!(!warned);
    assert_eq!(store.load("new.example").unwrap().to_pem(), C1_PEM.as_bytes());
    assert_eq!(first.step(&mut store, Event::Closed), Action::Deliver(Vec::new()));

    let (mut second, warned) = up_to_reading(&mut store, c1());
    assert!(!warned);
    assert_eq!(store.load("new.example").unwrap().to_pem(), C1_PEM.as_bytes());
    assert_eq!(second.step(&mut store, Event::Closed), Action::Deliver(Vec::new()));

    let (mut third, warned) = up_to_reading(&mut store, c2());
    assert!(warned);
    assert_eq!(store.load("new.example").unwrap().to_pem(), C1_PEM.as_bytes());
    third.step(&mut store, Event::Received(b"20 text/gemini\r\nbody".to_vec()));
    assert_eq!(
        third.step(&mut store, Event::Closed),
        Action::Deliver(b"20 text/gemini\r\nbody".to_vec())
    );
    assert_eq!(store.len(), 1);
}
