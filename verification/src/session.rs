//! One request, step by step.
//!
//! The caller owns the socket, the TLS session and the files. It tells the
//! request what happened as an [`Event`], and the request answers with the
//! [`Action`] to carry out next. Every decision of a request is taken here.

use crate::certificate::Certificate;
use crate::error::GeminiError;
use crate::store::TrustStore;
use crate::target::{request_bytes, target_of, url_parts, Target, TargetView};
use crate::tofu::{outcome_of, store_after, verify_cert, TrustOutcome};
use vstd::prelude::*;

verus! {

/// How far a request has come.
#[derive(Debug, Clone, Copy, PartialEq, Eq, Structural)]
pub enum Phase {
    /// Waiting for the connection and the handshake.
    Connecting,
    /// Waiting for a new trust record to reach durable storage. The record
    /// is in the trust store already.
    Persisting,
    /// Waiting for the request to be written.
    Sending,
    /// Reading the response.
    Receiving,
    /// The response was handed over.
    Done,
    /// The request failed, with this error.
    Failed(GeminiError),
}

/// What the caller reports.
#[derive(Debug)]
pub enum Event {
    /// The network connection could not be opened.
    ConnectFailed,
    /// The connection stands, but the handshake failed.
    HandshakeFailed,
    /// The handshake went through and the server showed no certificate.
    CertificateMissing,
    /// The handshake went through, but the certificate the server showed, or
    /// the one on record for it, could not be read as a certificate.
    CertificateInvalid,
    /// The handshake went through and the server showed this certificate.
    CertificatePresented(Certificate),
    /// The trust record was written.
    Persisted,
    /// The trust record could not be written.
    PersistFailed,
    /// The request was written.
    Written,
    /// The request could not be written.
    WriteFailed,
    /// These bytes of the response were read.
    Received(Vec<u8>),
    /// The server closed the stream.
    Closed,
    /// Reading failed before the server closed the stream.
    ReadFailed,
}

/// An [`Event`] as mathematical values; a certificate stands as its text.
pub enum EventView {
    ConnectFailed,
    HandshakeFailed,
    CertificateMissing,
    CertificateInvalid,
    CertificatePresented(Seq<u8>),
    Persisted,
    PersistFailed,
    Written,
    WriteFailed,
    Received(Seq<u8>),
    Closed,
    ReadFailed,
}

impl View for Event {
    type V = EventView;

    open spec fn view(&self) -> EventView {
        match self {
            Event::ConnectFailed => EventView::ConnectFailed,
            Event::HandshakeFailed => EventView::HandshakeFailed,
            Event::CertificateMissing => EventView::CertificateMissing,
            Event::CertificateInvalid => EventView::CertificateInvalid,
            Event::CertificatePresented(certificate) => EventView::CertificatePresented(
                certificate@,
            ),
            Event::Persisted => EventView::Persisted,
            Event::PersistFailed => EventView::PersistFailed,
            Event::Written => EventView::Written,
            Event::WriteFailed => EventView::WriteFailed,
            Event::Received(bytes) => EventView::Received(bytes@),
            Event::Closed => EventView::Closed,
            Event::ReadFailed => EventView::ReadFailed,
        }
    }
}

impl Event {
    /// A certificate in an event is well formed.
    pub open spec fn wf(&self) -> bool {
        match self {
            Event::CertificatePresented(certificate) => certificate.wf(),
            _ => true,
        }
    }

    /// The event for a handshake that went through, given the PEM text of the
    /// certificate the server showed, if it showed one.
    ///
    /// No certificate is `CertificateMissing`. Text that OpenSSL reads as a
    /// certificate is `CertificatePresented` with that text; any other text is
    /// `CertificateInvalid`.
    pub fn handshake(peer: Option<Vec<u8>>) -> (event: Event)
        ensures
            event.wf(),
            match peer {
                None => event@ == EventView::CertificateMissing,
                Some(encoded) => event@ == EventView::CertificatePresented(encoded@) || event@
                    == EventView::CertificateInvalid,
            },
    {
        match peer {
            None => Event::CertificateMissing,
            Some(encoded) => Event::presented(Certificate::from_pem(encoded)),
        }
    }

    /// The event for what came of reading the server's certificate.
    pub fn presented(read: Result<Certificate, GeminiError>) -> (event: Event)
        requires
            read matches Ok(certificate) ==> certificate.wf(),
        ensures
            event.wf(),
            match read {
                Ok(certificate) => event@ == EventView::CertificatePresented(certificate@),
                Err(_) => event@ == EventView::CertificateInvalid,
            },
    {
        match read {
            Ok(certificate) => Event::CertificatePresented(certificate),
            Err(_) => Event::CertificateInvalid,
        }
    }
}

/// What the caller is to do next.
#[derive(Debug, PartialEq, Eq)]
pub enum Action {
    /// Open a connection to this host and port, and shake hands without
    /// validating the certificate chain.
    Connect { host: String, port: u16 },
    /// Write this PEM text to durable storage under the hostname's key.
    Persist { hostname: String, encoded: Vec<u8> },
    /// Write these bytes to the stream in one write. With `warning`, tell the
    /// user first that the certificate is not the one on record.
    Send { bytes: Vec<u8>, warning: bool },
    /// Read more of the response.
    Receive,
    /// Hand this response to the user. The request is over.
    Deliver(Vec<u8>),
    /// Report this error to the user. The request is over.
    Fail(GeminiError),
}

/// An [`Action`] as mathematical values.
pub enum ActionView {
    Connect { host: Seq<char>, port: u16 },
    Persist { hostname: Seq<char>, encoded: Seq<u8> },
    Send { bytes: Seq<u8>, warning: bool },
    Receive,
    Deliver(Seq<u8>),
    Fail(GeminiError),
}

impl View for Action {
    type V = ActionView;

    open spec fn view(&self) -> ActionView {
        match self {
            Action::Connect { host, port } => ActionView::Connect { host: host@, port: *port },
            Action::Persist { hostname, encoded } => ActionView::Persist {
                hostname: hostname@,
                encoded: encoded@,
            },
            Action::Send { bytes, warning } => ActionView::Send {
                bytes: bytes@,
                warning: *warning,
            },
            Action::Receive => ActionView::Receive,
            Action::Deliver(bytes) => ActionView::Deliver(bytes@),
            Action::Fail(error) => ActionView::Fail(*error),
        }
    }
}

/// A request under way.
#[derive(Debug)]
pub struct Request {
    target: Target,
    phase: Phase,
    response: Vec<u8>,
}

/// A [`Request`] as mathematical values.
pub struct RequestView {
    /// What is asked for.
    pub target: TargetView,
    /// How far the request has come.
    pub phase: Phase,
    /// The bytes of the response read so far.
    pub response: Seq<u8>,
}

impl View for Request {
    type V = RequestView;

    closed spec fn view(&self) -> RequestView {
        RequestView { target: self.target@, phase: self.phase, response: self.response@ }
    }
}

/// The state and action of a request that fails with `error`.
pub open spec fn failed(
    state: RequestView,
    store: Map<Seq<char>, Seq<u8>>,
    error: GeminiError,
) -> (RequestView, Map<Seq<char>, Seq<u8>>, ActionView) {
    (RequestView { phase: Phase::Failed(error), ..state }, store, ActionView::Fail(error))
}

/// The action that sends the request of `state`.
pub open spec fn send_of(state: RequestView, warning: bool) -> ActionView {
    ActionView::Send { bytes: request_bytes(state.target.text), warning }
}

/// One step of a request: the state, the trust records and the action that
/// follow from `event` in `state` with the records `store`.
///
/// An event that does not belong to the phase counts as the failure of what
/// the phase waits for. A request that is over answers every event with its
/// outcome again.
pub open spec fn next(state: RequestView, store: Map<Seq<char>, Seq<u8>>, event: EventView) -> (
    RequestView,
    Map<Seq<char>, Seq<u8>>,
    ActionView,
) {
    match state.phase {
        Phase::Connecting => match event {
            EventView::CertificatePresented(encoded) => {
                let hostname = state.target.host;
                if store.contains_key(hostname) {
                    (
                        RequestView { phase: Phase::Sending, ..state },
                        store,
                        send_of(
                            state,
                            outcome_of(store, hostname, encoded) == TrustOutcome::Mismatched,
                        ),
                    )
                } else {
                    (
                        RequestView { phase: Phase::Persisting, ..state },
                        store_after(store, hostname, encoded),
                        ActionView::Persist { hostname, encoded },
                    )
                }
            },
            EventView::HandshakeFailed => failed(state, store, GeminiError::HandshakeError),
            EventView::CertificateMissing => failed(
                state,
                store,
                GeminiError::CertificateMissingError,
            ),
            EventView::CertificateInvalid => failed(
                state,
                store,
                GeminiError::CertificateInvalidError,
            ),
            _ => failed(state, store, GeminiError::ConnectionError),
        },
        Phase::Persisting => match event {
            EventView::Persisted => (
                RequestView { phase: Phase::Sending, ..state },
                store,
                send_of(state, false),
            ),
            _ => failed(state, store, GeminiError::IoError),
        },
        Phase::Sending => match event {
            EventView::Written => (
                RequestView { phase: Phase::Receiving, ..state },
                store,
                ActionView::Receive,
            ),
            _ => failed(state, store, GeminiError::StreamWriteError),
        },
        Phase::Receiving => match event {
            EventView::Received(bytes) => (
                RequestView { response: state.response + bytes, ..state },
                store,
                ActionView::Receive,
            ),
            EventView::Closed => (
                RequestView { phase: Phase::Done, ..state },
                store,
                ActionView::Deliver(state.response),
            ),
            _ => failed(state, store, GeminiError::StreamReadError),
        },
        Phase::Done => (state, store, ActionView::Deliver(state.response)),
        Phase::Failed(error) => (state, store, ActionView::Fail(error)),
    }
}

impl Request {
    /// Begins a request for `target`: nothing is read yet, and the first thing
    /// to do is to connect to the target's host and port.
    pub fn start(target: Target) -> (begun: (Request, Action))
        ensures
            begun.0@ == (RequestView {
                target: target@,
                phase: Phase::Connecting,
                response: Seq::<u8>::empty(),
            }),
            begun.1@ == (ActionView::Connect { host: target@.host, port: target@.port }),
    {
        let host = target.host().to_owned();
        let port = target.port();
        (
            Request { target, phase: Phase::Connecting, response: Vec::new() },
            Action::Connect { host, port },
        )
    }

    /// How far the request has come.
    pub fn phase(&self) -> (phase: Phase)
        ensures
            phase == self@.phase,
    {
        self.phase
    }

    /// What is asked for.
    pub fn target(&self) -> (target: &Target)
        ensures
            target@ == self@.target,
    {
        &self.target
    }

    /// Fails the request with `error`.
    fn fail(&mut self, error: GeminiError) -> (action: Action)
        ensures
            final(self)@ == (RequestView { phase: Phase::Failed(error), ..old(self)@ }),
            action@ == ActionView::Fail(error),
    {
        self.phase = Phase::Failed(error);
        Action::Fail(error)
    }

    /// Moves on to sending the request.
    fn send(&mut self, warning: bool) -> (action: Action)
        ensures
            final(self)@ == (RequestView { phase: Phase::Sending, ..old(self)@ }),
            action@ == send_of(old(self)@, warning),
    {
        self.phase = Phase::Sending;
        Action::Send { bytes: self.target.request(), warning }
    }

    /// Holds the certificate the server showed against the trust records.
    fn check(&mut self, store: &mut TrustStore, certificate: Certificate) -> (action: Action)
        requires
            old(self)@.phase == Phase::Connecting,
            old(store).wf(),
            certificate.wf(),
        ensures
            final(store).wf(),
            (final(self)@, final(store)@, action@) == next(
                old(self)@,
                old(store)@,
                EventView::CertificatePresented(certificate@),
            ),
    {
        let known = store.contains(self.target.host());
        if known {
            let outcome = verify_cert(store, self.target.host(), certificate);
            self.send(outcome == TrustOutcome::Mismatched)
        } else {
            let hostname = self.target.host().to_owned();
            let encoded = certificate.to_pem();
            let _ = verify_cert(store, self.target.host(), certificate);
            self.phase = Phase::Persisting;
            Action::Persist { hostname, encoded }
        }
    }

    /// Takes one step: tells the request that `event` happened and gets the
    /// action to carry out next.
    ///
    /// Only the certificate a server shows touches `store`: a host without a
    /// record gets one, and no record is ever changed.
    pub fn step(&mut self, store: &mut TrustStore, event: Event) -> (action: Action)
        requires
            old(store).wf(),
            event.wf(),
        ensures
            final(store).wf(),
            (final(self)@, final(store)@, action@) == next(old(self)@, old(store)@, event@),
    {
        match self.phase {
            Phase::Connecting => match event {
                Event::CertificatePresented(certificate) => self.check(store, certificate),
                Event::HandshakeFailed => self.fail(GeminiError::HandshakeError),
                Event::CertificateMissing => self.fail(GeminiError::CertificateMissingError),
                Event::CertificateInvalid => self.fail(GeminiError::CertificateInvalidError),
                _ => self.fail(GeminiError::ConnectionError),
            },
            Phase::Persisting => match event {
                Event::Persisted => self.send(false),
                _ => self.fail(GeminiError::IoError),
            },
            Phase::Sending => match event {
                Event::Written => {
                    self.phase = Phase::Receiving;
                    Action::Receive
                },
                _ => self.fail(GeminiError::StreamWriteError),
            },
            Phase::Receiving => match event {
                Event::Received(bytes) => {
                    let mut bytes = bytes;
                    self.response.append(&mut bytes);
                    Action::Receive
                },
                Event::Closed => {
                    self.phase = Phase::Done;
                    Action::Deliver(vstd::slice::slice_to_vec(self.response.as_slice()))
                },
                _ => self.fail(GeminiError::StreamReadError),
            },
            Phase::Done => Action::Deliver(vstd::slice::slice_to_vec(self.response.as_slice())),
            Phase::Failed(error) => Action::Fail(error),
        }
    }
}

/// The actions that a request in `state` answers to `events` with, one for
/// each event, in order.
pub open spec fn run(
    state: RequestView,
    store: Map<Seq<char>, Seq<u8>>,
    events: Seq<EventView>,
) -> Seq<ActionView>
    decreases events.len(),
{
    if events.len() == 0 {
        Seq::empty()
    } else {
        let (then, kept, action) = next(state, store, events[0]);
        seq![action] + run(then, kept, events.drop_first())
    }
}

/// How many of `actions` send something.
pub open spec fn sends(actions: Seq<ActionView>) -> nat
    decreases actions.len(),
{
    if actions.len() == 0 {
        0
    } else if actions[0] is Send {
        1 + sends(actions.drop_first())
    } else {
        sends(actions.drop_first())
    }
}

/// Whether `action`, if it sends anything, sends `line`.
pub open spec fn sends_only(action: ActionView, line: Seq<u8>) -> bool {
    match action {
        ActionView::Send { bytes, .. } => bytes == line,
        _ => true,
    }
}

/// How many sends a request in `phase` has before it.
pub open spec fn sends_ahead(phase: Phase) -> nat {
    match phase {
        Phase::Connecting | Phase::Persisting => 1,
        _ => 0,
    }
}

/// All the response bytes that `events` report, in the order they were read.
pub open spec fn received(events: Seq<EventView>) -> Seq<u8>
    decreases events.len(),
{
    if events.len() == 0 {
        Seq::empty()
    } else {
        match events[0] {
            EventView::Received(bytes) => bytes + received(events.drop_first()),
            _ => received(events.drop_first()),
        }
    }
}

/// The run of a first event and more events is the first action and then the
/// run of the rest.
proof fn lemma_run_unfolds(
    state: RequestView,
    store: Map<Seq<char>, Seq<u8>>,
    events: Seq<EventView>,
)
    requires
        events.len() > 0,
    ensures
        run(state, store, events).len() == events.len(),
        run(state, store, events)[0] == next(state, store, events[0]).2,
        run(state, store, events).drop_first() == run(
            next(state, store, events[0]).0,
            next(state, store, events[0]).1,
            events.drop_first(),
        ),
    decreases events.len(),
{
    let (then, kept, action) = next(state, store, events[0]);
    let rest = run(then, kept, events.drop_first());
    if events.len() > 1 {
        lemma_run_unfolds(then, kept, events.drop_first());
    }
    assert((seq![action] + rest).drop_first() =~= rest);
}

/// A request that failed answers every event with its error.
proof fn lemma_failed_stays_failed(
    state: RequestView,
    store: Map<Seq<char>, Seq<u8>>,
    events: Seq<EventView>,
    i: int,
)
    requires
        state.phase is Failed,
        0 <= i < events.len(),
    ensures
        run(state, store, events)[i] is Fail,
    decreases events.len(),
{
    lemma_run_unfolds(state, store, events);
    if i > 0 {
        lemma_failed_stays_failed(state, store, events.drop_first(), i - 1);
        assert(run(state, store, events)[i] == run(state, store, events).drop_first()[i - 1]);
    }
}

/// The request is written at most once: whatever happens, a request that has
/// not sent yet sends at most one time, and one that has sent never sends
/// again. What it sends is always the request line of its target.
pub proof fn lemma_sends_at_most_once(
    state: RequestView,
    store: Map<Seq<char>, Seq<u8>>,
    events: Seq<EventView>,
)
    ensures
        sends(run(state, store, events)) <= sends_ahead(state.phase),
        forall|i: int|
            0 <= i < events.len() ==> sends_only(
                #[trigger] run(state, store, events)[i],
                request_bytes(state.target.text),
            ),
    decreases events.len(),
{
    if events.len() > 0 {
        lemma_run_unfolds(state, store, events);
        let (then, kept, action) = next(state, store, events[0]);
        let actions = run(state, store, events);
        lemma_sends_at_most_once(then, kept, events.drop_first());
        assert(then.target == state.target);
        assert forall|i: int| 0 <= i < events.len() implies sends_only(
            #[trigger] actions[i],
            request_bytes(state.target.text),
        ) by {
            if i > 0 {
                assert(actions[i] == actions.drop_first()[i - 1]);
            }
        }
    }
}

/// A response is delivered only after the request was written, exactly once:
/// a run from the start that delivers a response holds exactly one send.
pub proof fn lemma_delivery_follows_one_send(
    state: RequestView,
    store: Map<Seq<char>, Seq<u8>>,
    events: Seq<EventView>,
    i: int,
)
    requires
        0 <= i < events.len(),
        run(state, store, events)[i] is Deliver,
    ensures
        sends(run(state, store, events)) == sends_ahead(state.phase),
    decreases events.len(),
{
    lemma_run_unfolds(state, store, events);
    lemma_sends_at_most_once(state, store, events);
    let (then, kept, action) = next(state, store, events[0]);
    let actions = run(state, store, events);
    if sends_ahead(state.phase) == 1 {
        assert(!(action is Deliver));
        assert(i > 0);
        assert(actions[i] == actions.drop_first()[i - 1]);
        if then.phase is Failed {
            lemma_failed_stays_failed(then, kept, events.drop_first(), i - 1);
        } else {
            lemma_delivery_follows_one_send(then, kept, events.drop_first(), i - 1);
        }
    }
}

/// The response is everything that was read, in order: a request that is
/// reading, told of any number of reads and then of the close, delivers what
/// it had and all that those reads brought.
pub proof fn lemma_response_is_all_that_was_read(
    state: RequestView,
    store: Map<Seq<char>, Seq<u8>>,
    reads: Seq<EventView>,
)
    requires
        state.phase == Phase::Receiving,
        forall|i: int| 0 <= i < reads.len() ==> (#[trigger] reads[i]) is Received,
    ensures
        run(state, store, reads.push(EventView::Closed)).last() == ActionView::Deliver(
            state.response + received(reads),
        ),
    decreases reads.len(),
{
    let events = reads.push(EventView::Closed);
    lemma_run_unfolds(state, store, events);
    let actions = run(state, store, events);
    if reads.len() == 0 {
        assert(state.response + received(reads) =~= state.response);
    } else {
        let (then, kept, action) = next(state, store, events[0]);
        assert(events[0] == reads[0]);
        assert(events.drop_first() =~= reads.drop_first().push(EventView::Closed));
        lemma_response_is_all_that_was_read(then, kept, reads.drop_first());
        assert(actions.last() == actions.drop_first().last());
        assert(then.response + received(reads.drop_first()) =~= state.response + received(
            reads,
        ));
    }
}

/// Begins a request for the resource that `input` names.
///
/// A string that is no target is a `UrlError`, and then there is no request
/// and no action: nothing is connected to. Any other string gives a request
/// that waits for the connection, and the action to connect.
pub fn gemini_request(input: &str) -> (r: Result<(Request, Action), GeminiError>)
    ensures
        match target_of(url_parts(input@)) {
            Some(target) => r matches Ok(begun) && begun.0@ == (RequestView {
                target,
                phase: Phase::Connecting,
                response: Seq::<u8>::empty(),
            }) && begun.1@ == (ActionView::Connect { host: target.host, port: target.port }),
            None => r matches Err(e) && e == GeminiError::UrlError,
        },
{
    match Target::parse(input) {
        Ok(target) => Ok(Request::start(target)),
        Err(e) => Err(e),
    }
}

} // verus!
